//! The size of the console font, as its BDF file gives it.
use crate::text::{
    char_index, chars_of, decimal_number_to, find_char, lemma_find_char, parse_usize, same_chars,
    split_words, words,
};
use vstd::prelude::*;
use vstd::string::*;

verus! {

/// The size of a character cell in pixels.
#[derive(Clone, Copy, Debug, PartialEq, Eq, Structural)]
pub struct FontMetrics {
    pub width: usize,
    pub height: usize,
}

impl Default for FontMetrics {
    fn default() -> (r: FontMetrics)
        ensures
            r == (FontMetrics { width: 0, height: 0 }),
    {
        FontMetrics { width: 0, height: 0 }
    }
}

/// The number that the `k`-th word stands for, or 8 where it stands for none.
pub open spec fn size_or_default(list: Seq<Seq<char>>, k: int) -> nat {
    if k < list.len() {
        match decimal_number_to(list[k], usize::MAX as int) {
            Some(v) => v,
            None => 8,
        }
    } else {
        8
    }
}

/// The width and the height that the text gives from index `i` on: the first two words behind
/// `FONTBOUNDINGBOX ` in the first line that begins so, and 8 for what is missing.
pub open spec fn bounding_box_from(s: Seq<char>, i: int) -> (nat, nat)
    decreases s.len() - i,
{
    if i < 0 || i >= s.len() {
        (8, 8)
    } else {
        let end = find_char(s, '\n', i);
        let line = s.subrange(i, end);
        let key = "FONTBOUNDINGBOX "@;
        proof {
            lemma_find_char(s, '\n', i);
        }
        if key.is_prefix_of(line) {
            let sizes = words(line.skip(key.len() as int));
            (size_or_default(sizes, 0), size_or_default(sizes, 1))
        } else if end < s.len() {
            bounding_box_from(s, end + 1)
        } else {
            (8, 8)
        }
    }
}

fn size_at(list: &Vec<String>, k: usize) -> (r: usize)
    ensures
        r == size_or_default(list.deep_view(), k as int),
{
    if k < list.len() {
        match parse_usize(list[k].as_str()) {
            Some(v) => v,
            None => 8,
        }
    } else {
        8
    }
}

/// Reads the size of a character cell out of a BDF file.
pub fn parse_font_metrics(text: &str) -> (r: FontMetrics)
    ensures
        (r.width as nat, r.height as nat) == bounding_box_from(text@, 0),
{
    let chars = chars_of(text);
    let s = chars.as_slice();
    let key = chars_of("FONTBOUNDINGBOX ");
    let mut i: usize = 0;
    while i < s.len()
        invariant
            s@ == text@,
            key@ == "FONTBOUNDINGBOX "@,
            i <= s@.len(),
            bounding_box_from(text@, 0) == bounding_box_from(s@, i as int),
        decreases s@.len() - i,
    {
        let end = char_index(s, '\n', i);
        let line = &s[i..end];
        if key.len() <= line.len() {
            let head = &line[0..key.len()];
            if same_chars(head, key.as_slice()) {
                let rest = &line[key.len()..line.len()];
                assert(key@.is_prefix_of(line@));
                assert(rest@ =~= line@.skip(key@.len() as int));
                let sizes = split_words(rest);
                return FontMetrics { width: size_at(&sizes, 0), height: size_at(&sizes, 1) };
            }
            assert(!key@.is_prefix_of(line@)) by {
                if key@.is_prefix_of(line@) {
                    assert(head@ =~= key@);
                }
            }
        }
        if end == s.len() {
            return FontMetrics { width: 8, height: 8 };
        }
        i = end + 1;
    }
    FontMetrics { width: 8, height: 8 }
}

} // verus!
