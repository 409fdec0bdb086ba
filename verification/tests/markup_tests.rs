use limusic::scrape::{
    genius_lyrics, genius_page_lyrics, megalobiz_lyric_href, megalobiz_lyrics, megalobiz_page_lyrics,
};
use limusic::markup::{html_unescape, parse_xml_attr, strip_html_tags, strip_xml_tags};

#[test]
fn strips_genius_markup() {
    let html = "Line one<br>Line <a href=\"/x\">two</a> &amp; more";
    let out = html_unescape(&strip_html_tags(&html.replace("<br>", "\n")));
    assert!(out.contains("Line one"));
    assert!(out.contains("Line two & more"));
    assert!(!out.contains('<'));
}

#[test]
fn entities_decode_one_after_the_other() {
    assert_eq!(html_unescape("a &amp; b &quot;c&quot; &#39;d&apos; &lt;e&gt;&nbsp;f"), "a & b \"c\" 'd' <e> f");
    // `&amp;` goes first, so a double-escaped entity ends fully decoded.
    assert_eq!(html_unescape("&amp;lt;"), "<");
    assert_eq!(html_unescape("no entities"), "no entities");
}

#[test]
fn html_tags_go_but_a_lone_angle_bracket_stays() {
    assert_eq!(strip_html_tags("<p>hi</p> there"), "hi there");
    assert_eq!(strip_html_tags("a < b"), "a < b");
    assert_eq!(strip_html_tags("a<b<c>d"), "ad");
}

#[test]
fn xml_tags_go_with_their_contents_kept() {
    assert_eq!(strip_xml_tags("<span begin=\"1\">Hello </span>world"), "Hello world");
    assert_eq!(strip_xml_tags("a > b"), "a  b");
    assert_eq!(strip_xml_tags("x <unclosed"), "x ");
}

#[test]
fn attributes_read_in_either_quote_style() {
    let tag = "<p begin=\"00:01.00\" end='00:04.00'>";
    assert_eq!(parse_xml_attr(tag, "begin"), Some("00:01.00".to_string()));
    assert_eq!(parse_xml_attr(tag, "end"), Some("00:04.00".to_string()));
    assert_eq!(parse_xml_attr(tag, "dur"), None);
    assert_eq!(parse_xml_attr("<p begin=\"open>", "begin"), None);
}

#[test]
fn genius_blocks_become_plain_lyrics() {
    let html = r#"<div data-lyrics-container="true" class="x">Line one<br>Line <i>two</i></div><p>ad</p><div data-lyrics-container="true">Caf&amp;eacute; &amp; more</div>"#;
    let l = genius_page_lyrics(html).expect("two blocks");
    assert_eq!(l.source, "Genius");
    assert!(!l.synced);
    let texts: Vec<&str> = l.lines.iter().map(|x| x.text.as_str()).collect();
    assert_eq!(texts, vec!["Line one", "Line two", "", "Caf&eacute; & more"]);
    assert!(genius_lyrics(&vec![Some("  <br> ".to_string()), None]).is_none());
    assert!(genius_page_lyrics("<html>no lyrics here</html>").is_none());
}

#[test]
fn megalobiz_paragraphs_become_synced_lines() {
    let page = r#"<p id="lrc_1" class="lb-offset">[00:01.50] <b>Hello</b></p><p id="lrc_2" class="lb-offset x">[00:03.00] world &amp; co</p>"#;
    let l = megalobiz_page_lyrics(page).expect("lines");
    assert_eq!(l.source, "Megalobiz");
    assert!(l.synced);
    assert_eq!(l.lines.len(), 2);
    assert_eq!(l.lines[0].time_ms, Some(1_500));
    assert_eq!(l.lines[1].text, "world & co");
    let plain = megalobiz_lyrics(&vec![Some("just words".to_string())]).expect("plain");
    assert!(!plain.synced);
    assert!(megalobiz_lyrics(&vec![Some("   ".to_string())]).is_none());
    assert_eq!(
        megalobiz_lyric_href(r#"<a href="/lyrics/song_123.html">x</a><a href="/lyrics/other.html">"#).as_deref(),
        Some("/lyrics/song_123.html")
    );
    assert_eq!(megalobiz_lyric_href("<a href=\"/about\">"), None);
}
