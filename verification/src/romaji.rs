//! Romanization for karaoke display: a kana-to-romaji table (Hepburn-ish, longest match first),
//! applied to lines and words.
use vstd::prelude::*;

use crate::lyrics::{LineV, LyricLine, LyricWord, WordV, lines_view, words_view};
use crate::text::{chars_eq, chars_of, string_of};

verus! {

/// Romaji of a two-kana digraph, as (length, up to three letters).
pub open spec fn kana2_spec(a: char, b: char) -> Option<(u8, char, char, char)> {
    match (a, b) {
        ('き', 'ゃ') => Some((3u8, 'k', 'y', 'a')),
        ('き', 'ゅ') => Some((3u8, 'k', 'y', 'u')),
        ('き', 'ょ') => Some((3u8, 'k', 'y', 'o')),
        ('し', 'ゃ') => Some((3u8, 's', 'h', 'a')),
        ('し', 'ゅ') => Some((3u8, 's', 'h', 'u')),
        ('し', 'ょ') => Some((3u8, 's', 'h', 'o')),
        ('ち', 'ゃ') => Some((3u8, 'c', 'h', 'a')),
        ('ち', 'ゅ') => Some((3u8, 'c', 'h', 'u')),
        ('ち', 'ょ') => Some((3u8, 'c', 'h', 'o')),
        ('に', 'ゃ') => Some((3u8, 'n', 'y', 'a')),
        ('に', 'ゅ') => Some((3u8, 'n', 'y', 'u')),
        ('に', 'ょ') => Some((3u8, 'n', 'y', 'o')),
        ('ひ', 'ゃ') => Some((3u8, 'h', 'y', 'a')),
        ('ひ', 'ゅ') => Some((3u8, 'h', 'y', 'u')),
        ('ひ', 'ょ') => Some((3u8, 'h', 'y', 'o')),
        ('み', 'ゃ') => Some((3u8, 'm', 'y', 'a')),
        ('み', 'ゅ') => Some((3u8, 'm', 'y', 'u')),
        ('み', 'ょ') => Some((3u8, 'm', 'y', 'o')),
        ('り', 'ゃ') => Some((3u8, 'r', 'y', 'a')),
        ('り', 'ゅ') => Some((3u8, 'r', 'y', 'u')),
        ('り', 'ょ') => Some((3u8, 'r', 'y', 'o')),
        ('ぎ', 'ゃ') => Some((3u8, 'g', 'y', 'a')),
        ('じ', 'ゃ') => Some((2u8, 'j', 'a', ' ')),
        ('じ', 'ゅ') => Some((2u8, 'j', 'u', ' ')),
        ('じ', 'ょ') => Some((2u8, 'j', 'o', ' ')),
        ('び', 'ゃ') => Some((3u8, 'b', 'y', 'a')),
        ('ぴ', 'ゃ') => Some((3u8, 'p', 'y', 'a')),
        ('キ', 'ャ') => Some((3u8, 'k', 'y', 'a')),
        ('キ', 'ュ') => Some((3u8, 'k', 'y', 'u')),
        ('キ', 'ョ') => Some((3u8, 'k', 'y', 'o')),
        ('シ', 'ャ') => Some((3u8, 's', 'h', 'a')),
        ('シ', 'ュ') => Some((3u8, 's', 'h', 'u')),
        ('シ', 'ョ') => Some((3u8, 's', 'h', 'o')),
        ('チ', 'ャ') => Some((3u8, 'c', 'h', 'a')),
        ('チ', 'ュ') => Some((3u8, 'c', 'h', 'u')),
        ('チ', 'ョ') => Some((3u8, 'c', 'h', 'o')),
        _ => None,
    }
}

/// Romaji of one kana (small tsu maps to nothing), as (length, up to three letters).
pub open spec fn kana1_spec(c: char) -> Option<(u8, char, char, char)> {
    match c {
        'あ' => Some((1u8, 'a', ' ', ' ')),
        'い' => Some((1u8, 'i', ' ', ' ')),
        'う' => Some((1u8, 'u', ' ', ' ')),
        'え' => Some((1u8, 'e', ' ', ' ')),
        'お' => Some((1u8, 'o', ' ', ' ')),
        'か' => Some((2u8, 'k', 'a', ' ')),
        'き' => Some((2u8, 'k', 'i', ' ')),
        'く' => Some((2u8, 'k', 'u', ' ')),
        'け' => Some((2u8, 'k', 'e', ' ')),
        'こ' => Some((2u8, 'k', 'o', ' ')),
        'さ' => Some((2u8, 's', 'a', ' ')),
        'し' => Some((3u8, 's', 'h', 'i')),
        'す' => Some((2u8, 's', 'u', ' ')),
        'せ' => Some((2u8, 's', 'e', ' ')),
        'そ' => Some((2u8, 's', 'o', ' ')),
        'た' => Some((2u8, 't', 'a', ' ')),
        'ち' => Some((3u8, 'c', 'h', 'i')),
        'つ' => Some((3u8, 't', 's', 'u')),
        'て' => Some((2u8, 't', 'e', ' ')),
        'と' => Some((2u8, 't', 'o', ' ')),
        'な' => Some((2u8, 'n', 'a', ' ')),
        'に' => Some((2u8, 'n', 'i', ' ')),
        'ぬ' => Some((2u8, 'n', 'u', ' ')),
        'ね' => Some((2u8, 'n', 'e', ' ')),
        'の' => Some((2u8, 'n', 'o', ' ')),
        'は' => Some((2u8, 'h', 'a', ' ')),
        'ひ' => Some((2u8, 'h', 'i', ' ')),
        'ふ' => Some((2u8, 'f', 'u', ' ')),
        'へ' => Some((2u8, 'h', 'e', ' ')),
        'ほ' => Some((2u8, 'h', 'o', ' ')),
        'ま' => Some((2u8, 'm', 'a', ' ')),
        'み' => Some((2u8, 'm', 'i', ' ')),
        'む' => Some((2u8, 'm', 'u', ' ')),
        'め' => Some((2u8, 'm', 'e', ' ')),
        'も' => Some((2u8, 'm', 'o', ' ')),
        'や' => Some((2u8, 'y', 'a', ' ')),
        'ゆ' => Some((2u8, 'y', 'u', ' ')),
        'よ' => Some((2u8, 'y', 'o', ' ')),
        'ら' => Some((2u8, 'r', 'a', ' ')),
        'り' => Some((2u8, 'r', 'i', ' ')),
        'る' => Some((2u8, 'r', 'u', ' ')),
        'れ' => Some((2u8, 'r', 'e', ' ')),
        'ろ' => Some((2u8, 'r', 'o', ' ')),
        'わ' => Some((2u8, 'w', 'a', ' ')),
        'を' => Some((2u8, 'w', 'o', ' ')),
        'ん' => Some((1u8, 'n', ' ', ' ')),
        'が' => Some((2u8, 'g', 'a', ' ')),
        'ぎ' => Some((2u8, 'g', 'i', ' ')),
        'ぐ' => Some((2u8, 'g', 'u', ' ')),
        'げ' => Some((2u8, 'g', 'e', ' ')),
        'ご' => Some((2u8, 'g', 'o', ' ')),
        'ざ' => Some((2u8, 'z', 'a', ' ')),
        'じ' => Some((2u8, 'j', 'i', ' ')),
        'ず' => Some((2u8, 'z', 'u', ' ')),
        'ぜ' => Some((2u8, 'z', 'e', ' ')),
        'ぞ' => Some((2u8, 'z', 'o', ' ')),
        'だ' => Some((2u8, 'd', 'a', ' ')),
        'ぢ' => Some((2u8, 'j', 'i', ' ')),
        'づ' => Some((2u8, 'z', 'u', ' ')),
        'で' => Some((2u8, 'd', 'e', ' ')),
        'ど' => Some((2u8, 'd', 'o', ' ')),
        'ば' => Some((2u8, 'b', 'a', ' ')),
        'び' => Some((2u8, 'b', 'i', ' ')),
        'ぶ' => Some((2u8, 'b', 'u', ' ')),
        'べ' => Some((2u8, 'b', 'e', ' ')),
        'ぼ' => Some((2u8, 'b', 'o', ' ')),
        'ぱ' => Some((2u8, 'p', 'a', ' ')),
        'ぴ' => Some((2u8, 'p', 'i', ' ')),
        'ぷ' => Some((2u8, 'p', 'u', ' ')),
        'ぺ' => Some((2u8, 'p', 'e', ' ')),
        'ぽ' => Some((2u8, 'p', 'o', ' ')),
        'ア' => Some((1u8, 'a', ' ', ' ')),
        'イ' => Some((1u8, 'i', ' ', ' ')),
        'ウ' => Some((1u8, 'u', ' ', ' ')),
        'エ' => Some((1u8, 'e', ' ', ' ')),
        'オ' => Some((1u8, 'o', ' ', ' ')),
        'カ' => Some((2u8, 'k', 'a', ' ')),
        'キ' => Some((2u8, 'k', 'i', ' ')),
        'ク' => Some((2u8, 'k', 'u', ' ')),
        'ケ' => Some((2u8, 'k', 'e', ' ')),
        'コ' => Some((2u8, 'k', 'o', ' ')),
        'サ' => Some((2u8, 's', 'a', ' ')),
        'シ' => Some((3u8, 's', 'h', 'i')),
        'ス' => Some((2u8, 's', 'u', ' ')),
        'セ' => Some((2u8, 's', 'e', ' ')),
        'ソ' => Some((2u8, 's', 'o', ' ')),
        'タ' => Some((2u8, 't', 'a', ' ')),
        'チ' => Some((3u8, 'c', 'h', 'i')),
        'ツ' => Some((3u8, 't', 's', 'u')),
        'テ' => Some((2u8, 't', 'e', ' ')),
        'ト' => Some((2u8, 't', 'o', ' ')),
        'ナ' => Some((2u8, 'n', 'a', ' ')),
        'ニ' => Some((2u8, 'n', 'i', ' ')),
        'ヌ' => Some((2u8, 'n', 'u', ' ')),
        'ネ' => Some((2u8, 'n', 'e', ' ')),
        'ノ' => Some((2u8, 'n', 'o', ' ')),
        'ハ' => Some((2u8, 'h', 'a', ' ')),
        'ヒ' => Some((2u8, 'h', 'i', ' ')),
        'フ' => Some((2u8, 'f', 'u', ' ')),
        'ヘ' => Some((2u8, 'h', 'e', ' ')),
        'ホ' => Some((2u8, 'h', 'o', ' ')),
        'マ' => Some((2u8, 'm', 'a', ' ')),
        'ミ' => Some((2u8, 'm', 'i', ' ')),
        'ム' => Some((2u8, 'm', 'u', ' ')),
        'メ' => Some((2u8, 'm', 'e', ' ')),
        'モ' => Some((2u8, 'm', 'o', ' ')),
        'ヤ' => Some((2u8, 'y', 'a', ' ')),
        'ユ' => Some((2u8, 'y', 'u', ' ')),
        'ヨ' => Some((2u8, 'y', 'o', ' ')),
        'ラ' => Some((2u8, 'r', 'a', ' ')),
        'リ' => Some((2u8, 'r', 'i', ' ')),
        'ル' => Some((2u8, 'r', 'u', ' ')),
        'レ' => Some((2u8, 'r', 'e', ' ')),
        'ロ' => Some((2u8, 'r', 'o', ' ')),
        'ワ' => Some((2u8, 'w', 'a', ' ')),
        'ヲ' => Some((2u8, 'w', 'o', ' ')),
        'ン' => Some((1u8, 'n', ' ', ' ')),
        'ー' => Some((1u8, '-', ' ', ' ')),
        'っ' => Some((0u8, ' ', ' ', ' ')),
        'ッ' => Some((0u8, ' ', ' ', ' ')),
        'ゃ' => Some((2u8, 'y', 'a', ' ')),
        'ゅ' => Some((2u8, 'y', 'u', ' ')),
        'ょ' => Some((2u8, 'y', 'o', ' ')),
        'ぁ' => Some((1u8, 'a', ' ', ' ')),
        'ぃ' => Some((1u8, 'i', ' ', ' ')),
        'ぅ' => Some((1u8, 'u', ' ', ' ')),
        'ぇ' => Some((1u8, 'e', ' ', ' ')),
        'ぉ' => Some((1u8, 'o', ' ', ' ')),
        'ァ' => Some((1u8, 'a', ' ', ' ')),
        'ィ' => Some((1u8, 'i', ' ', ' ')),
        'ゥ' => Some((1u8, 'u', ' ', ' ')),
        'ェ' => Some((1u8, 'e', ' ', ' ')),
        'ォ' => Some((1u8, 'o', ' ', ' ')),
        _ => None,
    }
}

/// Looks up a digraph.
pub fn kana2(a: char, b: char) -> (r: Option<(u8, char, char, char)>)
    ensures
        r == kana2_spec(a, b),
{
    match (a, b) {
        ('き', 'ゃ') => Some((3u8, 'k', 'y', 'a')),
        ('き', 'ゅ') => Some((3u8, 'k', 'y', 'u')),
        ('き', 'ょ') => Some((3u8, 'k', 'y', 'o')),
        ('し', 'ゃ') => Some((3u8, 's', 'h', 'a')),
        ('し', 'ゅ') => Some((3u8, 's', 'h', 'u')),
        ('し', 'ょ') => Some((3u8, 's', 'h', 'o')),
        ('ち', 'ゃ') => Some((3u8, 'c', 'h', 'a')),
        ('ち', 'ゅ') => Some((3u8, 'c', 'h', 'u')),
        ('ち', 'ょ') => Some((3u8, 'c', 'h', 'o')),
        ('に', 'ゃ') => Some((3u8, 'n', 'y', 'a')),
        ('に', 'ゅ') => Some((3u8, 'n', 'y', 'u')),
        ('に', 'ょ') => Some((3u8, 'n', 'y', 'o')),
        ('ひ', 'ゃ') => Some((3u8, 'h', 'y', 'a')),
        ('ひ', 'ゅ') => Some((3u8, 'h', 'y', 'u')),
        ('ひ', 'ょ') => Some((3u8, 'h', 'y', 'o')),
        ('み', 'ゃ') => Some((3u8, 'm', 'y', 'a')),
        ('み', 'ゅ') => Some((3u8, 'm', 'y', 'u')),
        ('み', 'ょ') => Some((3u8, 'm', 'y', 'o')),
        ('り', 'ゃ') => Some((3u8, 'r', 'y', 'a')),
        ('り', 'ゅ') => Some((3u8, 'r', 'y', 'u')),
        ('り', 'ょ') => Some((3u8, 'r', 'y', 'o')),
        ('ぎ', 'ゃ') => Some((3u8, 'g', 'y', 'a')),
        ('じ', 'ゃ') => Some((2u8, 'j', 'a', ' ')),
        ('じ', 'ゅ') => Some((2u8, 'j', 'u', ' ')),
        ('じ', 'ょ') => Some((2u8, 'j', 'o', ' ')),
        ('び', 'ゃ') => Some((3u8, 'b', 'y', 'a')),
        ('ぴ', 'ゃ') => Some((3u8, 'p', 'y', 'a')),
        ('キ', 'ャ') => Some((3u8, 'k', 'y', 'a')),
        ('キ', 'ュ') => Some((3u8, 'k', 'y', 'u')),
        ('キ', 'ョ') => Some((3u8, 'k', 'y', 'o')),
        ('シ', 'ャ') => Some((3u8, 's', 'h', 'a')),
        ('シ', 'ュ') => Some((3u8, 's', 'h', 'u')),
        ('シ', 'ョ') => Some((3u8, 's', 'h', 'o')),
        ('チ', 'ャ') => Some((3u8, 'c', 'h', 'a')),
        ('チ', 'ュ') => Some((3u8, 'c', 'h', 'u')),
        ('チ', 'ョ') => Some((3u8, 'c', 'h', 'o')),
        _ => None,
    }
}

/// Looks up one kana.
pub fn kana1(c: char) -> (r: Option<(u8, char, char, char)>)
    ensures
        r == kana1_spec(c),
{
    match c {
        'あ' => Some((1u8, 'a', ' ', ' ')),
        'い' => Some((1u8, 'i', ' ', ' ')),
        'う' => Some((1u8, 'u', ' ', ' ')),
        'え' => Some((1u8, 'e', ' ', ' ')),
        'お' => Some((1u8, 'o', ' ', ' ')),
        'か' => Some((2u8, 'k', 'a', ' ')),
        'き' => Some((2u8, 'k', 'i', ' ')),
        'く' => Some((2u8, 'k', 'u', ' ')),
        'け' => Some((2u8, 'k', 'e', ' ')),
        'こ' => Some((2u8, 'k', 'o', ' ')),
        'さ' => Some((2u8, 's', 'a', ' ')),
        'し' => Some((3u8, 's', 'h', 'i')),
        'す' => Some((2u8, 's', 'u', ' ')),
        'せ' => Some((2u8, 's', 'e', ' ')),
        'そ' => Some((2u8, 's', 'o', ' ')),
        'た' => Some((2u8, 't', 'a', ' ')),
        'ち' => Some((3u8, 'c', 'h', 'i')),
        'つ' => Some((3u8, 't', 's', 'u')),
        'て' => Some((2u8, 't', 'e', ' ')),
        'と' => Some((2u8, 't', 'o', ' ')),
        'な' => Some((2u8, 'n', 'a', ' ')),
        'に' => Some((2u8, 'n', 'i', ' ')),
        'ぬ' => Some((2u8, 'n', 'u', ' ')),
        'ね' => Some((2u8, 'n', 'e', ' ')),
        'の' => Some((2u8, 'n', 'o', ' ')),
        'は' => Some((2u8, 'h', 'a', ' ')),
        'ひ' => Some((2u8, 'h', 'i', ' ')),
        'ふ' => Some((2u8, 'f', 'u', ' ')),
        'へ' => Some((2u8, 'h', 'e', ' ')),
        'ほ' => Some((2u8, 'h', 'o', ' ')),
        'ま' => Some((2u8, 'm', 'a', ' ')),
        'み' => Some((2u8, 'm', 'i', ' ')),
        'む' => Some((2u8, 'm', 'u', ' ')),
        'め' => Some((2u8, 'm', 'e', ' ')),
        'も' => Some((2u8, 'm', 'o', ' ')),
        'や' => Some((2u8, 'y', 'a', ' ')),
        'ゆ' => Some((2u8, 'y', 'u', ' ')),
        'よ' => Some((2u8, 'y', 'o', ' ')),
        'ら' => Some((2u8, 'r', 'a', ' ')),
        'り' => Some((2u8, 'r', 'i', ' ')),
        'る' => Some((2u8, 'r', 'u', ' ')),
        'れ' => Some((2u8, 'r', 'e', ' ')),
        'ろ' => Some((2u8, 'r', 'o', ' ')),
        'わ' => Some((2u8, 'w', 'a', ' ')),
        'を' => Some((2u8, 'w', 'o', ' ')),
        'ん' => Some((1u8, 'n', ' ', ' ')),
        'が' => Some((2u8, 'g', 'a', ' ')),
        'ぎ' => Some((2u8, 'g', 'i', ' ')),
        'ぐ' => Some((2u8, 'g', 'u', ' ')),
        'げ' => Some((2u8, 'g', 'e', ' ')),
        'ご' => Some((2u8, 'g', 'o', ' ')),
        'ざ' => Some((2u8, 'z', 'a', ' ')),
        'じ' => Some((2u8, 'j', 'i', ' ')),
        'ず' => Some((2u8, 'z', 'u', ' ')),
        'ぜ' => Some((2u8, 'z', 'e', ' ')),
        'ぞ' => Some((2u8, 'z', 'o', ' ')),
        'だ' => Some((2u8, 'd', 'a', ' ')),
        'ぢ' => Some((2u8, 'j', 'i', ' ')),
        'づ' => Some((2u8, 'z', 'u', ' ')),
        'で' => Some((2u8, 'd', 'e', ' ')),
        'ど' => Some((2u8, 'd', 'o', ' ')),
        'ば' => Some((2u8, 'b', 'a', ' ')),
        'び' => Some((2u8, 'b', 'i', ' ')),
        'ぶ' => Some((2u8, 'b', 'u', ' ')),
        'べ' => Some((2u8, 'b', 'e', ' ')),
        'ぼ' => Some((2u8, 'b', 'o', ' ')),
        'ぱ' => Some((2u8, 'p', 'a', ' ')),
        'ぴ' => Some((2u8, 'p', 'i', ' ')),
        'ぷ' => Some((2u8, 'p', 'u', ' ')),
        'ぺ' => Some((2u8, 'p', 'e', ' ')),
        'ぽ' => Some((2u8, 'p', 'o', ' ')),
        'ア' => Some((1u8, 'a', ' ', ' ')),
        'イ' => Some((1u8, 'i', ' ', ' ')),
        'ウ' => Some((1u8, 'u', ' ', ' ')),
        'エ' => Some((1u8, 'e', ' ', ' ')),
        'オ' => Some((1u8, 'o', ' ', ' ')),
        'カ' => Some((2u8, 'k', 'a', ' ')),
        'キ' => Some((2u8, 'k', 'i', ' ')),
        'ク' => Some((2u8, 'k', 'u', ' ')),
        'ケ' => Some((2u8, 'k', 'e', ' ')),
        'コ' => Some((2u8, 'k', 'o', ' ')),
        'サ' => Some((2u8, 's', 'a', ' ')),
        'シ' => Some((3u8, 's', 'h', 'i')),
        'ス' => Some((2u8, 's', 'u', ' ')),
        'セ' => Some((2u8, 's', 'e', ' ')),
        'ソ' => Some((2u8, 's', 'o', ' ')),
        'タ' => Some((2u8, 't', 'a', ' ')),
        'チ' => Some((3u8, 'c', 'h', 'i')),
        'ツ' => Some((3u8, 't', 's', 'u')),
        'テ' => Some((2u8, 't', 'e', ' ')),
        'ト' => Some((2u8, 't', 'o', ' ')),
        'ナ' => Some((2u8, 'n', 'a', ' ')),
        'ニ' => Some((2u8, 'n', 'i', ' ')),
        'ヌ' => Some((2u8, 'n', 'u', ' ')),
        'ネ' => Some((2u8, 'n', 'e', ' ')),
        'ノ' => Some((2u8, 'n', 'o', ' ')),
        'ハ' => Some((2u8, 'h', 'a', ' ')),
        'ヒ' => Some((2u8, 'h', 'i', ' ')),
        'フ' => Some((2u8, 'f', 'u', ' ')),
        'ヘ' => Some((2u8, 'h', 'e', ' ')),
        'ホ' => Some((2u8, 'h', 'o', ' ')),
        'マ' => Some((2u8, 'm', 'a', ' ')),
        'ミ' => Some((2u8, 'm', 'i', ' ')),
        'ム' => Some((2u8, 'm', 'u', ' ')),
        'メ' => Some((2u8, 'm', 'e', ' ')),
        'モ' => Some((2u8, 'm', 'o', ' ')),
        'ヤ' => Some((2u8, 'y', 'a', ' ')),
        'ユ' => Some((2u8, 'y', 'u', ' ')),
        'ヨ' => Some((2u8, 'y', 'o', ' ')),
        'ラ' => Some((2u8, 'r', 'a', ' ')),
        'リ' => Some((2u8, 'r', 'i', ' ')),
        'ル' => Some((2u8, 'r', 'u', ' ')),
        'レ' => Some((2u8, 'r', 'e', ' ')),
        'ロ' => Some((2u8, 'r', 'o', ' ')),
        'ワ' => Some((2u8, 'w', 'a', ' ')),
        'ヲ' => Some((2u8, 'w', 'o', ' ')),
        'ン' => Some((1u8, 'n', ' ', ' ')),
        'ー' => Some((1u8, '-', ' ', ' ')),
        'っ' => Some((0u8, ' ', ' ', ' ')),
        'ッ' => Some((0u8, ' ', ' ', ' ')),
        'ゃ' => Some((2u8, 'y', 'a', ' ')),
        'ゅ' => Some((2u8, 'y', 'u', ' ')),
        'ょ' => Some((2u8, 'y', 'o', ' ')),
        'ぁ' => Some((1u8, 'a', ' ', ' ')),
        'ぃ' => Some((1u8, 'i', ' ', ' ')),
        'ぅ' => Some((1u8, 'u', ' ', ' ')),
        'ぇ' => Some((1u8, 'e', ' ', ' ')),
        'ぉ' => Some((1u8, 'o', ' ', ' ')),
        'ァ' => Some((1u8, 'a', ' ', ' ')),
        'ィ' => Some((1u8, 'i', ' ', ' ')),
        'ゥ' => Some((1u8, 'u', ' ', ' ')),
        'ェ' => Some((1u8, 'e', ' ', ' ')),
        'ォ' => Some((1u8, 'o', ' ', ' ')),
        _ => None,
    }
}

/// The letters of a table entry.
pub open spec fn code_seq(t: (u8, char, char, char)) -> Seq<char> {
    seq![t.1, t.2, t.3].take(t.0 as int)
}

/// A small tsu (`っ` or `ッ`).
pub open spec fn is_small_tsu(c: char) -> bool {
    c == 'っ' || c == 'ッ'
}

/// The letter a small tsu writes before the character `c` that follows it: the first letter of
/// `c`'s own romaji (so the next consonant is doubled), nothing when that romaji is empty.
pub open spec fn doubled_letter(c: char) -> Seq<char> {
    match kana1_spec(c) {
        Some(t) => if t.0 >= 1 {
            seq![t.1]
        } else {
            seq![]
        },
        None => seq![c],
    }
}

/// Kana to romaji, left to right: a known digraph first; a small tsu doubles the first letter of
/// what follows it (かった is `katta`); then a known single kana; and any other character passes
/// through unchanged.
pub open spec fn romaji(s: Seq<char>) -> Seq<char>
    decreases s.len(),
{
    if s.len() == 0 {
        seq![]
    } else if s.len() >= 2 && kana2_spec(s[0], s[1]) is Some {
        code_seq(kana2_spec(s[0], s[1])->0) + romaji(s.skip(2))
    } else if is_small_tsu(s[0]) {
        (if s.len() >= 2 {
            doubled_letter(s[1])
        } else {
            seq![]
        }) + romaji(s.skip(1))
    } else {
        match kana1_spec(s[0]) {
            Some(t) => code_seq(t) + romaji(s.skip(1)),
            None => seq![s[0]] + romaji(s.skip(1)),
        }
    }
}

fn push_code(out: &mut Vec<char>, t: (u8, char, char, char))
    requires
        t.0 <= 3,
    ensures
        final(out)@ == old(out)@ + code_seq(t),
{
    if t.0 >= 1 {
        out.push(t.1);
    }
    if t.0 >= 2 {
        out.push(t.2);
    }
    if t.0 >= 3 {
        out.push(t.3);
    }
    assert(final(out)@ =~= old(out)@ + code_seq(t));
}

proof fn lemma_codes_short(a: char, b: char)
    ensures
        kana2_spec(a, b) matches Some(t) ==> t.0 <= 3,
        kana1_spec(a) matches Some(t) ==> t.0 <= 3,
{
}

/// Kana to romaji (see `romaji`).
pub fn kana_to_romaji(s: &str) -> (r: String)
    ensures
        r@ == romaji(s@),
{
    let v = chars_of(s);
    let mut out: Vec<char> = Vec::new();
    let mut i: usize = 0;
    assert(v@.skip(0) =~= v@);
    while i < v.len()
        invariant
            i <= v.len(),
            romaji(v@) == out@ + romaji(v@.skip(i as int)),
        decreases v.len() - i,
    {
        let ghost rest = v@.skip(i as int);
        let ghost before = out@;
        proof {
            lemma_codes_short(v@[i as int], if i + 1 < v.len() { v@[i + 1] } else { ' ' });
        }
        if i + 1 < v.len() {
            match kana2(v[i], v[i + 1]) {
                Some(t) => {
                    push_code(&mut out, t);
                    assert(rest.skip(2) =~= v@.skip(i + 2));
                    assert(out@ + romaji(v@.skip(i + 2)) =~= before + (code_seq(t) + romaji(rest.skip(2))));
                    i += 2;
                    continue;
                },
                None => {},
            }
        }
        assert(rest.skip(1) =~= v@.skip(i + 1));
        if v[i] == 'っ' || v[i] == 'ッ' {
            if i + 1 < v.len() {
                let nx = v[i + 1];
                match kana1(nx) {
                    Some(t) => {
                        if t.0 >= 1 {
                            out.push(t.1);
                        }
                    },
                    None => {
                        out.push(nx);
                    },
                }
                assert(out@ =~= before + doubled_letter(v@[i + 1]));
            } else {
                assert(out@ =~= before + Seq::<char>::empty());
            }
            i += 1;
            continue;
        }
        match kana1(v[i]) {
            Some(t) => {
                push_code(&mut out, t);
                assert(out@ + romaji(v@.skip(i + 1)) =~= before + (code_seq(t) + romaji(rest.skip(1))));
            },
            None => {
                out.push(v[i]);
                assert(out@ + romaji(v@.skip(i + 1)) =~= before + (seq![v@[i as int]] + romaji(rest.skip(1))));
            },
        }
        i += 1;
    }
    assert(romaji(v@.skip(i as int)) =~= Seq::<char>::empty());
    assert(out@ =~= out@ + Seq::<char>::empty());
    string_of(&out)
}

/// One character romanized (see `romaji`).
pub fn kana_to_romaji_char(c: char) -> (r: String)
    ensures
        r@ == romaji(seq![c]),
{
    let v = vec![c];
    assert(v@ =~= seq![c]);
    kana_to_romaji(string_of(&v).as_str())
}

/// Whether a character is in the kana blocks (hiragana and katakana, U+3040 to U+30FF).
pub open spec fn is_kana_block(c: char) -> bool {
    0x3040 <= (c as u32) <= 0x30ff
}

/// Romanize a string: text with any kana goes through the table; anything else (kanji-only
/// lines included) comes back as it was.
pub open spec fn romanize_spec(s: Seq<char>) -> Seq<char> {
    if exists|i: int| 0 <= i < s.len() && is_kana_block(#[trigger] s[i]) {
        romaji(s)
    } else {
        s
    }
}

/// Romanize a string (kana to romaji); non-kana passes through. See `romanize_spec`.
pub fn romanize_text(text: &str) -> (r: String)
    ensures
        r@ == romanize_spec(text@),
{
    let v = chars_of(text);
    let mut i: usize = 0;
    while i < v.len()
        invariant
            i <= v.len(),
            v@ == text@,
            forall|k: int| 0 <= k < i ==> !is_kana_block(#[trigger] v@[k]),
        decreases v.len() - i,
    {
        let u = v[i] as u32;
        if 0x3040 <= u && u <= 0x30FF {
            assert(is_kana_block(v@[i as int]));
            return kana_to_romaji(text);
        }
        i += 1;
    }
    string_of(&v)
}

/// A line's romanization: the romanized text goes to `translation` when it differs from the text
/// (otherwise `translation` is left alone), and every word's text is romanized in place.
pub open spec fn romanize_line(l: LineV) -> LineV {
    let r = romanize_spec(l.text);
    LineV {
        time_ms: l.time_ms,
        end_time_ms: l.end_time_ms,
        text: l.text,
        words: match l.words {
            Some(ws) => Some(ws.map_values(|w: WordV| WordV { text: romanize_spec(w.text), ..w })),
            None => None,
        },
        translation: if r != l.text {
            Some(r)
        } else {
            l.translation
        },
    }
}

/// Romanizing leaves the timing alone: every line keeps its cue, its end and its text, and
/// keeps as many words as it had, each with its own start and end.
pub proof fn lemma_romanize_keeps_timing(l: LineV)
    ensures
        romanize_line(l).time_ms == l.time_ms,
        romanize_line(l).end_time_ms == l.end_time_ms,
        romanize_line(l).text == l.text,
        romanize_line(l).words is Some == l.words is Some,
        l.words matches Some(ws) ==> {
            let rs = romanize_line(l).words->0;
            &&& rs.len() == ws.len()
            &&& forall|i: int| 0 <= i < ws.len() ==> (#[trigger] rs[i]).start_ms == ws[i].start_ms
                && rs[i].end_ms == ws[i].end_ms
        },
{
}

fn romanize_words(ws: &mut Vec<LyricWord>)
    ensures
        words_view(final(ws)@) == words_view(old(ws)@).map_values(
            |w: WordV| WordV { text: romanize_spec(w.text), ..w },
        ),
{
    let ghost orig = words_view(ws@);
    let mut i: usize = 0;
    while i < ws.len()
        invariant
            i <= ws.len(),
            ws@.len() == orig.len(),
            forall|k: int| 0 <= k < i ==> #[trigger] ws@[k]@ == (WordV { text: romanize_spec(orig[k].text), ..orig[k] }),
            forall|k: int| i <= k < ws@.len() ==> #[trigger] ws@[k]@ == orig[k],
        decreases ws.len() - i,
    {
        assert(ws@[i as int]@ == orig[i as int]);
        let rw = romanize_text(ws[i].text.as_str());
        let nw = LyricWord { text: rw, start_ms: ws[i].start_ms, end_ms: ws[i].end_ms };
        ws.set(i, nw);
        i += 1;
    }
    assert(words_view(ws@) =~= orig.map_values(|w: WordV| WordV { text: romanize_spec(w.text), ..w }));
}

/// Romanize every line (see `romanize_line`).
pub fn romanize_lyrics(lines: &mut Vec<LyricLine>)
    ensures
        lines_view(final(lines)@) == lines_view(old(lines)@).map_values(|l: LineV| romanize_line(l)),
{
    let ghost orig = lines_view(lines@);
    let mut i: usize = 0;
    while i < lines.len()
        invariant
            i <= lines.len(),
            lines@.len() == orig.len(),
            forall|k: int| 0 <= k < i ==> #[trigger] lines@[k]@ == romanize_line(orig[k]),
            forall|k: int| i <= k < lines@.len() ==> #[trigger] lines@[k]@ == orig[k],
        decreases lines.len() - i,
    {
        assert(lines@[i as int]@ == orig[i as int]);
        let mut line = lines.remove(i);
        let r = romanize_text(line.text.as_str());
        if !chars_eq(&chars_of(r.as_str()), &chars_of(line.text.as_str())) {
            line.translation = Some(r);
        }
        let words = match line.words {
            Some(mut ws) => {
                romanize_words(&mut ws);
                Some(ws)
            },
            None => None,
        };
        line.words = words;
        lines.insert(i, line);
        i += 1;
    }
    assert(lines_view(lines@) =~= orig.map_values(|l: LineV| romanize_line(l)));
}


// ---------------------------------------------------------------------------------------------
// The readings of the kana
// ---------------------------------------------------------------------------------------------

/// The hiragana syllabary by row (vowels, k, s, t, n, h, m, r, then the voiced g, z, d, b and
/// the half-voiced p) and column (a, i, u, e, o).
pub open spec fn hiragana_grid() -> Seq<Seq<char>> {
    seq![
        seq!['あ', 'い', 'う', 'え', 'お'],
        seq!['か', 'き', 'く', 'け', 'こ'],
        seq!['さ', 'し', 'す', 'せ', 'そ'],
        seq!['た', 'ち', 'つ', 'て', 'と'],
        seq!['な', 'に', 'ぬ', 'ね', 'の'],
        seq!['は', 'ひ', 'ふ', 'へ', 'ほ'],
        seq!['ま', 'み', 'む', 'め', 'も'],
        seq!['ら', 'り', 'る', 'れ', 'ろ'],
        seq!['が', 'ぎ', 'ぐ', 'げ', 'ご'],
        seq!['ざ', 'じ', 'ず', 'ぜ', 'ぞ'],
        seq!['だ', 'ぢ', 'づ', 'で', 'ど'],
        seq!['ば', 'び', 'ぶ', 'べ', 'ぼ'],
        seq!['ぱ', 'ぴ', 'ぷ', 'ぺ', 'ぽ'],
    ]
}

/// The katakana of the first eight rows of `hiragana_grid`, in the same places.
pub open spec fn katakana_grid() -> Seq<Seq<char>> {
    seq![
        seq!['ア', 'イ', 'ウ', 'エ', 'オ'],
        seq!['カ', 'キ', 'ク', 'ケ', 'コ'],
        seq!['サ', 'シ', 'ス', 'セ', 'ソ'],
        seq!['タ', 'チ', 'ツ', 'テ', 'ト'],
        seq!['ナ', 'ニ', 'ヌ', 'ネ', 'ノ'],
        seq!['ハ', 'ヒ', 'フ', 'ヘ', 'ホ'],
        seq!['マ', 'ミ', 'ム', 'メ', 'モ'],
        seq!['ラ', 'リ', 'ル', 'レ', 'ロ'],
    ]
}

/// Each row's consonant.
pub open spec fn row_consonant() -> Seq<Seq<char>> {
    seq![seq![], seq!['k'], seq!['s'], seq!['t'], seq!['n'], seq!['h'], seq!['m'], seq!['r'], seq!['g'], seq!['z'], seq!['d'], seq!['b'], seq!['p']]
}

pub open spec fn vowels() -> Seq<char> {
    seq!['a', 'i', 'u', 'e', 'o']
}

/// The Hepburn reading of row `r`, column `v`: the row's consonant and the column's vowel, except
/// shi, chi, tsu, fu, ji (for both じ and ぢ) and zu (for づ).
pub open spec fn hepburn(r: int, v: int) -> Seq<char> {
    if r == 2 && v == 1 {
        seq!['s', 'h', 'i']
    } else if r == 3 && v == 1 {
        seq!['c', 'h', 'i']
    } else if r == 3 && v == 2 {
        seq!['t', 's', 'u']
    } else if r == 5 && v == 2 {
        seq!['f', 'u']
    } else if (r == 9 || r == 10) && v == 1 {
        seq!['j', 'i']
    } else if r == 10 && v == 2 {
        seq!['z', 'u']
    } else {
        row_consonant()[r].push(vowels()[v])
    }
}

/// The kana outside the grid: the y row, wa, wo and n, as (hiragana, katakana, reading).
pub open spec fn other_kana() -> Seq<(char, char, Seq<char>)> {
    seq![
        ('や', 'ヤ', seq!['y', 'a']),
        ('ゆ', 'ユ', seq!['y', 'u']),
        ('よ', 'ヨ', seq!['y', 'o']),
        ('わ', 'ワ', seq!['w', 'a']),
        ('を', 'ヲ', seq!['w', 'o']),
        ('ん', 'ン', seq!['n']),
    ]
}

proof fn lemma_romaji_single(c: char)
    requires
        !is_small_tsu(c),
    ensures
        romaji(seq![c]) == (match kana1_spec(c) {
            Some(t) => code_seq(t),
            None => seq![c],
        }),
{
    let s = seq![c];
    assert(s.skip(1) =~= Seq::<char>::empty());
    assert(romaji(s.skip(1)) == Seq::<char>::empty());
    match kana1_spec(c) {
        Some(t) => assert(code_seq(t) + Seq::<char>::empty() =~= code_seq(t)),
        None => assert(seq![c] + Seq::<char>::empty() =~= seq![c]),
    }
}

proof fn lemma_hiragana_cell(r: int, v: int)
    requires
        0 <= r < 13,
        0 <= v < 5,
    ensures
        romaji(seq![hiragana_grid()[r][v]]) == hepburn(r, v),
{
    if r == 0 {
        if v == 0 {
            assert(hiragana_grid()[0][0] == 'あ');
            lemma_romaji_single('あ');
        } else if v == 1 {
            assert(hiragana_grid()[0][1] == 'い');
            lemma_romaji_single('い');
        } else if v == 2 {
            assert(hiragana_grid()[0][2] == 'う');
            lemma_romaji_single('う');
        } else if v == 3 {
            assert(hiragana_grid()[0][3] == 'え');
            lemma_romaji_single('え');
        } else if v == 4 {
            assert(hiragana_grid()[0][4] == 'お');
            lemma_romaji_single('お');
        }
    } else if r == 1 {
        if v == 0 {
            assert(hiragana_grid()[1][0] == 'か');
            lemma_romaji_single('か');
        } else if v == 1 {
            assert(hiragana_grid()[1][1] == 'き');
            lemma_romaji_single('き');
        } else if v == 2 {
            assert(hiragana_grid()[1][2] == 'く');
            lemma_romaji_single('く');
        } else if v == 3 {
            assert(hiragana_grid()[1][3] == 'け');
            lemma_romaji_single('け');
        } else if v == 4 {
            assert(hiragana_grid()[1][4] == 'こ');
            lemma_romaji_single('こ');
        }
    } else if r == 2 {
        if v == 0 {
            assert(hiragana_grid()[2][0] == 'さ');
            lemma_romaji_single('さ');
        } else if v == 1 {
            assert(hiragana_grid()[2][1] == 'し');
            lemma_romaji_single('し');
        } else if v == 2 {
            assert(hiragana_grid()[2][2] == 'す');
            lemma_romaji_single('す');
        } else if v == 3 {
            assert(hiragana_grid()[2][3] == 'せ');
            lemma_romaji_single('せ');
        } else if v == 4 {
            assert(hiragana_grid()[2][4] == 'そ');
            lemma_romaji_single('そ');
        }
    } else if r == 3 {
        if v == 0 {
            assert(hiragana_grid()[3][0] == 'た');
            lemma_romaji_single('た');
        } else if v == 1 {
            assert(hiragana_grid()[3][1] == 'ち');
            lemma_romaji_single('ち');
        } else if v == 2 {
            assert(hiragana_grid()[3][2] == 'つ');
            lemma_romaji_single('つ');
        } else if v == 3 {
            assert(hiragana_grid()[3][3] == 'て');
            lemma_romaji_single('て');
        } else if v == 4 {
            assert(hiragana_grid()[3][4] == 'と');
            lemma_romaji_single('と');
        }
    } else if r == 4 {
        if v == 0 {
            assert(hiragana_grid()[4][0] == 'な');
            lemma_romaji_single('な');
        } else if v == 1 {
            assert(hiragana_grid()[4][1] == 'に');
            lemma_romaji_single('に');
        } else if v == 2 {
            assert(hiragana_grid()[4][2] == 'ぬ');
            lemma_romaji_single('ぬ');
        } else if v == 3 {
            assert(hiragana_grid()[4][3] == 'ね');
            lemma_romaji_single('ね');
        } else if v == 4 {
            assert(hiragana_grid()[4][4] == 'の');
            lemma_romaji_single('の');
        }
    } else if r == 5 {
        if v == 0 {
            assert(hiragana_grid()[5][0] == 'は');
            lemma_romaji_single('は');
        } else if v == 1 {
            assert(hiragana_grid()[5][1] == 'ひ');
            lemma_romaji_single('ひ');
        } else if v == 2 {
            assert(hiragana_grid()[5][2] == 'ふ');
            lemma_romaji_single('ふ');
        } else if v == 3 {
            assert(hiragana_grid()[5][3] == 'へ');
            lemma_romaji_single('へ');
        } else if v == 4 {
            assert(hiragana_grid()[5][4] == 'ほ');
            lemma_romaji_single('ほ');
        }
    } else if r == 6 {
        if v == 0 {
            assert(hiragana_grid()[6][0] == 'ま');
            lemma_romaji_single('ま');
        } else if v == 1 {
            assert(hiragana_grid()[6][1] == 'み');
            lemma_romaji_single('み');
        } else if v == 2 {
            assert(hiragana_grid()[6][2] == 'む');
            lemma_romaji_single('む');
        } else if v == 3 {
            assert(hiragana_grid()[6][3] == 'め');
            lemma_romaji_single('め');
        } else if v == 4 {
            assert(hiragana_grid()[6][4] == 'も');
            lemma_romaji_single('も');
        }
    } else if r == 7 {
        if v == 0 {
            assert(hiragana_grid()[7][0] == 'ら');
            lemma_romaji_single('ら');
        } else if v == 1 {
            assert(hiragana_grid()[7][1] == 'り');
            lemma_romaji_single('り');
        } else if v == 2 {
            assert(hiragana_grid()[7][2] == 'る');
            lemma_romaji_single('る');
        } else if v == 3 {
            assert(hiragana_grid()[7][3] == 'れ');
            lemma_romaji_single('れ');
        } else if v == 4 {
            assert(hiragana_grid()[7][4] == 'ろ');
            lemma_romaji_single('ろ');
        }
    } else if r == 8 {
        if v == 0 {
            assert(hiragana_grid()[8][0] == 'が');
            lemma_romaji_single('が');
        } else if v == 1 {
            assert(hiragana_grid()[8][1] == 'ぎ');
            lemma_romaji_single('ぎ');
        } else if v == 2 {
            assert(hiragana_grid()[8][2] == 'ぐ');
            lemma_romaji_single('ぐ');
        } else if v == 3 {
            assert(hiragana_grid()[8][3] == 'げ');
            lemma_romaji_single('げ');
        } else if v == 4 {
            assert(hiragana_grid()[8][4] == 'ご');
            lemma_romaji_single('ご');
        }
    } else if r == 9 {
        if v == 0 {
            assert(hiragana_grid()[9][0] == 'ざ');
            lemma_romaji_single('ざ');
        } else if v == 1 {
            assert(hiragana_grid()[9][1] == 'じ');
            lemma_romaji_single('じ');
        } else if v == 2 {
            assert(hiragana_grid()[9][2] == 'ず');
            lemma_romaji_single('ず');
        } else if v == 3 {
            assert(hiragana_grid()[9][3] == 'ぜ');
            lemma_romaji_single('ぜ');
        } else if v == 4 {
            assert(hiragana_grid()[9][4] == 'ぞ');
            lemma_romaji_single('ぞ');
        }
    } else if r == 10 {
        if v == 0 {
            assert(hiragana_grid()[10][0] == 'だ');
            lemma_romaji_single('だ');
        } else if v == 1 {
            assert(hiragana_grid()[10][1] == 'ぢ');
            lemma_romaji_single('ぢ');
        } else if v == 2 {
            assert(hiragana_grid()[10][2] == 'づ');
            lemma_romaji_single('づ');
        } else if v == 3 {
            assert(hiragana_grid()[10][3] == 'で');
            lemma_romaji_single('で');
        } else if v == 4 {
            assert(hiragana_grid()[10][4] == 'ど');
            lemma_romaji_single('ど');
        }
    } else if r == 11 {
        if v == 0 {
            assert(hiragana_grid()[11][0] == 'ば');
            lemma_romaji_single('ば');
        } else if v == 1 {
            assert(hiragana_grid()[11][1] == 'び');
            lemma_romaji_single('び');
        } else if v == 2 {
            assert(hiragana_grid()[11][2] == 'ぶ');
            lemma_romaji_single('ぶ');
        } else if v == 3 {
            assert(hiragana_grid()[11][3] == 'べ');
            lemma_romaji_single('べ');
        } else if v == 4 {
            assert(hiragana_grid()[11][4] == 'ぼ');
            lemma_romaji_single('ぼ');
        }
    } else if r == 12 {
        if v == 0 {
            assert(hiragana_grid()[12][0] == 'ぱ');
            lemma_romaji_single('ぱ');
        } else if v == 1 {
            assert(hiragana_grid()[12][1] == 'ぴ');
            lemma_romaji_single('ぴ');
        } else if v == 2 {
            assert(hiragana_grid()[12][2] == 'ぷ');
            lemma_romaji_single('ぷ');
        } else if v == 3 {
            assert(hiragana_grid()[12][3] == 'ぺ');
            lemma_romaji_single('ぺ');
        } else if v == 4 {
            assert(hiragana_grid()[12][4] == 'ぽ');
            lemma_romaji_single('ぽ');
        }
    }
}

proof fn lemma_katakana_cell(r: int, v: int)
    requires
        0 <= r < 8,
        0 <= v < 5,
    ensures
        romaji(seq![katakana_grid()[r][v]]) == hepburn(r, v),
{
    if r == 0 {
        if v == 0 {
            assert(katakana_grid()[0][0] == 'ア');
            lemma_romaji_single('ア');
        } else if v == 1 {
            assert(katakana_grid()[0][1] == 'イ');
            lemma_romaji_single('イ');
        } else if v == 2 {
            assert(katakana_grid()[0][2] == 'ウ');
            lemma_romaji_single('ウ');
        } else if v == 3 {
            assert(katakana_grid()[0][3] == 'エ');
            lemma_romaji_single('エ');
        } else if v == 4 {
            assert(katakana_grid()[0][4] == 'オ');
            lemma_romaji_single('オ');
        }
    } else if r == 1 {
        if v == 0 {
            assert(katakana_grid()[1][0] == 'カ');
            lemma_romaji_single('カ');
        } else if v == 1 {
            assert(katakana_grid()[1][1] == 'キ');
            lemma_romaji_single('キ');
        } else if v == 2 {
            assert(katakana_grid()[1][2] == 'ク');
            lemma_romaji_single('ク');
        } else if v == 3 {
            assert(katakana_grid()[1][3] == 'ケ');
            lemma_romaji_single('ケ');
        } else if v == 4 {
            assert(katakana_grid()[1][4] == 'コ');
            lemma_romaji_single('コ');
        }
    } else if r == 2 {
        if v == 0 {
            assert(katakana_grid()[2][0] == 'サ');
            lemma_romaji_single('サ');
        } else if v == 1 {
            assert(katakana_grid()[2][1] == 'シ');
            lemma_romaji_single('シ');
        } else if v == 2 {
            assert(katakana_grid()[2][2] == 'ス');
            lemma_romaji_single('ス');
        } else if v == 3 {
            assert(katakana_grid()[2][3] == 'セ');
            lemma_romaji_single('セ');
        } else if v == 4 {
            assert(katakana_grid()[2][4] == 'ソ');
            lemma_romaji_single('ソ');
        }
    } else if r == 3 {
        if v == 0 {
            assert(katakana_grid()[3][0] == 'タ');
            lemma_romaji_single('タ');
        } else if v == 1 {
            assert(katakana_grid()[3][1] == 'チ');
            lemma_romaji_single('チ');
        } else if v == 2 {
            assert(katakana_grid()[3][2] == 'ツ');
            lemma_romaji_single('ツ');
        } else if v == 3 {
            assert(katakana_grid()[3][3] == 'テ');
            lemma_romaji_single('テ');
        } else if v == 4 {
            assert(katakana_grid()[3][4] == 'ト');
            lemma_romaji_single('ト');
        }
    } else if r == 4 {
        if v == 0 {
            assert(katakana_grid()[4][0] == 'ナ');
            lemma_romaji_single('ナ');
        } else if v == 1 {
            assert(katakana_grid()[4][1] == 'ニ');
            lemma_romaji_single('ニ');
        } else if v == 2 {
            assert(katakana_grid()[4][2] == 'ヌ');
            lemma_romaji_single('ヌ');
        } else if v == 3 {
            assert(katakana_grid()[4][3] == 'ネ');
            lemma_romaji_single('ネ');
        } else if v == 4 {
            assert(katakana_grid()[4][4] == 'ノ');
            lemma_romaji_single('ノ');
        }
    } else if r == 5 {
        if v == 0 {
            assert(katakana_grid()[5][0] == 'ハ');
            lemma_romaji_single('ハ');
        } else if v == 1 {
            assert(katakana_grid()[5][1] == 'ヒ');
            lemma_romaji_single('ヒ');
        } else if v == 2 {
            assert(katakana_grid()[5][2] == 'フ');
            lemma_romaji_single('フ');
        } else if v == 3 {
            assert(katakana_grid()[5][3] == 'ヘ');
            lemma_romaji_single('ヘ');
        } else if v == 4 {
            assert(katakana_grid()[5][4] == 'ホ');
            lemma_romaji_single('ホ');
        }
    } else if r == 6 {
        if v == 0 {
            assert(katakana_grid()[6][0] == 'マ');
            lemma_romaji_single('マ');
        } else if v == 1 {
            assert(katakana_grid()[6][1] == 'ミ');
            lemma_romaji_single('ミ');
        } else if v == 2 {
            assert(katakana_grid()[6][2] == 'ム');
            lemma_romaji_single('ム');
        } else if v == 3 {
            assert(katakana_grid()[6][3] == 'メ');
            lemma_romaji_single('メ');
        } else if v == 4 {
            assert(katakana_grid()[6][4] == 'モ');
            lemma_romaji_single('モ');
        }
    } else if r == 7 {
        if v == 0 {
            assert(katakana_grid()[7][0] == 'ラ');
            lemma_romaji_single('ラ');
        } else if v == 1 {
            assert(katakana_grid()[7][1] == 'リ');
            lemma_romaji_single('リ');
        } else if v == 2 {
            assert(katakana_grid()[7][2] == 'ル');
            lemma_romaji_single('ル');
        } else if v == 3 {
            assert(katakana_grid()[7][3] == 'レ');
            lemma_romaji_single('レ');
        } else if v == 4 {
            assert(katakana_grid()[7][4] == 'ロ');
            lemma_romaji_single('ロ');
        }
    }
}

proof fn lemma_other_kana(k: int)
    requires
        0 <= k < 6,
    ensures
        romaji(seq![other_kana()[k].0]) == other_kana()[k].2,
        romaji(seq![other_kana()[k].1]) == other_kana()[k].2,
{
    lemma_romaji_single(other_kana()[k].0);
    lemma_romaji_single(other_kana()[k].1);
}

/// Every single kana reads as its Hepburn romanization: a kana of the syllabary grid reads as its
/// row's consonant and column's vowel (with the usual exceptions, see `hepburn`), its katakana
/// likewise, and ya, yu, yo, wa, wo and n as written.
pub proof fn lemma_kana_readings(r: int, v: int, k: int)
    ensures
        0 <= r < 13 && 0 <= v < 5 ==> romaji(seq![hiragana_grid()[r][v]]) == hepburn(r, v),
        0 <= r < 8 && 0 <= v < 5 ==> romaji(seq![katakana_grid()[r][v]]) == hepburn(r, v),
        0 <= k < 6 ==> romaji(seq![other_kana()[k].0]) == other_kana()[k].2 && romaji(seq![other_kana()[k].1])
            == other_kana()[k].2,
{
    if 0 <= r < 13 && 0 <= v < 5 {
        lemma_hiragana_cell(r, v);
    }
    if 0 <= r < 8 && 0 <= v < 5 {
        lemma_katakana_cell(r, v);
    }
    if 0 <= k < 6 {
        lemma_other_kana(k);
    }
}

} // verus!
