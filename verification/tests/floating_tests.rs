use limusic::floating::{
    bottom_right, contains, format_pos, on_a_display, parse_pos, placement, Monitor,
};

fn mon(x: i32, y: i32, w: u32, h: u32) -> Monitor {
    Monitor { x, y, width: w, height: h }
}

#[test]
fn a_stored_position_reads_back() {
    for (x, y) in [(0, 0), (1200, -40), (-1920, 300), (i32::MIN, i32::MAX)] {
        assert_eq!(parse_pos(&format_pos(x, y)), Some((x, y)));
    }
    assert_eq!(format_pos(-5, 17), "-5,17");
}

#[test]
fn positions_parse_with_spaces_and_fail_on_garbage() {
    assert_eq!(parse_pos(" 10 , 20 "), Some((10, 20)));
    assert_eq!(parse_pos("+3,-4"), Some((3, -4)));
    assert_eq!(parse_pos("10"), None);
    assert_eq!(parse_pos("a,b"), None);
    assert_eq!(parse_pos("1,2,3"), None);
    assert_eq!(parse_pos("99999999999,1"), None);
}

#[test]
fn displays_contain_their_top_left_but_not_their_far_edges() {
    let m = mon(0, 0, 1920, 1080);
    assert!(contains(m, 0, 0));
    assert!(contains(m, 1919, 1079));
    assert!(!contains(m, 1920, 10));
    assert!(!contains(m, -1, 10));
    assert!(on_a_display(&vec![mon(-1920, 0, 1920, 1080), m], -100, 5));
    assert!(!on_a_display(&vec![m], 5000, 5));
}

#[test]
fn the_default_spot_is_bottom_right_inset() {
    assert_eq!(bottom_right(mon(0, 0, 1920, 1080)), (1920 - 360 - 24, 1080 - 560 - 24));
    assert_eq!(bottom_right(mon(1920, 0, 1280, 1024)), (1920 + 1280 - 384, 1024 - 584));
}

#[test]
fn placement_falls_back_when_the_stored_spot_is_gone() {
    let ms = vec![mon(0, 0, 1920, 1080)];
    assert_eq!(placement(Some("100,200"), &ms, Some(ms[0])), Some((100, 200)));
    assert_eq!(placement(Some("3000,200"), &ms, Some(ms[0])), Some((1536, 496)));
    assert_eq!(placement(Some("junk"), &ms, Some(ms[0])), Some((1536, 496)));
    assert_eq!(placement(None, &ms, None), None);
}
