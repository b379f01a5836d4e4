//! What holds of every font file.
use crate::font::{bounding_box_from, parse_font_metrics, FontMetrics};
use crate::text::{
    decimal_number, decimal_text, decimal_text_reads_back, digit, find_char, join,
    lemma_char_found, lemma_find_char, lemma_find_shifted, words,
};
use crate::text_laws::{joined_words_come_apart, solid};
use vstd::prelude::*;
use vstd::string::*;

verus! {

/// The line that gives the size of a character cell.
pub open spec fn size_line(width: nat, height: nat) -> Seq<char> {
    "FONTBOUNDINGBOX "@ + decimal_text(width) + seq![' '] + decimal_text(height)
}

proof fn lemma_digits_are_solid(n: nat)
    ensures
        solid(decimal_text(n)),
        forall|k: int| 0 <= k < decimal_text(n).len() ==> #[trigger] decimal_text(n)[k] != '\n',
{
    let text = decimal_text(n);
    decimal_text_reads_back(n);
    assert(text.len() > 0);
    assert forall|k: int| 0 <= k < text.len() implies digit(#[trigger] text[k]) by {
        lemma_decimal_digit(n, k);
    }
}

proof fn lemma_decimal_digit(n: nat, k: int)
    requires
        0 <= k < decimal_text(n).len(),
    ensures
        digit(decimal_text(n)[k]),
    decreases n,
{
    if n >= 10 && k < decimal_text(n / 10).len() {
        lemma_decimal_digit(n / 10, k);
    }
}

/// The size in the first line of a file is read back, whatever lines follow.
pub proof fn size_reads_back(width: nat, height: nat, rest: Seq<char>)
    requires
        width <= usize::MAX,
        height <= usize::MAX,
    ensures
        bounding_box_from(size_line(width, height) + seq!['\n'] + rest, 0) == (width, height),
{
    let key = "FONTBOUNDINGBOX "@;
    let w = decimal_text(width);
    let h = decimal_text(height);
    let line = size_line(width, height);
    let s = line + seq!['\n'] + rest;
    reveal_strlit("FONTBOUNDINGBOX ");
    lemma_digits_are_solid(width);
    lemma_digits_are_solid(height);
    assert forall|k: int| 0 <= k < line.len() implies s[k] != '\n' by {
        if k < key.len() {
            assert(s[k] == key[k]);
        } else if k < key.len() + w.len() {
            assert(s[k] == w[k - key.len()]);
        } else if k > key.len() + w.len() {
            assert(s[k] == h[k - key.len() - w.len() - 1]);
        }
    }
    assert(s[line.len() as int] == '\n');
    lemma_char_found(s, '\n', 0, line.len() as int);
    assert(s.subrange(0, line.len() as int) =~= line);
    assert(key =~= line.subrange(0, key.len() as int));
    let list = seq![w, h];
    assert(list.drop_last() =~= seq![w]);
    assert(join(seq![w], seq![' ']) == w);
    assert(line.skip(key.len() as int) =~= join(list, seq![' ']));
    assert forall|k: int| 0 <= k < list.len() implies solid(#[trigger] list[k]) by {
        if k == 0 {
            assert(list[k] == w);
        } else {
            assert(list[k] == h);
        }
    }
    joined_words_come_apart(list);
    decimal_text_reads_back(width);
    decimal_text_reads_back(height);
}

/// A file in which no line gives the size stands for cells of eight by eight; a line that gives
/// something else does not matter.
pub proof fn other_lines_give_no_size(line: Seq<char>, rest: Seq<char>)
    requires
        forall|i: int| 0 <= i < line.len() ==> #[trigger] line[i] != '\n',
        !"FONTBOUNDINGBOX "@.is_prefix_of(line),
    ensures
        bounding_box_from(line + seq!['\n'] + rest, 0) == bounding_box_from(rest, 0),
        bounding_box_from(line, 0) == (8nat, 8nat),
        bounding_box_from(seq![], 0) == (8nat, 8nat),
{
    let s = line + seq!['\n'] + rest;
    let n = line.len() as int;
    assert(s[n] == '\n');
    assert forall|k: int| 0 <= k < n implies s[k] != '\n' by {
        assert(s[k] == line[k]);
    }
    lemma_char_found(s, '\n', 0, n);
    assert(s.subrange(0, n) =~= line);
    lemma_find_char(line, '\n', 0);
    assert(find_char(line, '\n', 0) == n);
    assert(line.subrange(0, n) =~= line);
    assert(s.skip(n + 1) =~= rest);
    lemma_shifted_box(s, rest, n + 1, 0);
}

proof fn lemma_shifted_box(s: Seq<char>, rest: Seq<char>, d: int, i: int)
    requires
        0 <= d <= s.len(),
        s.skip(d) == rest,
        0 <= i <= rest.len(),
    ensures
        bounding_box_from(s, d + i) == bounding_box_from(rest, i),
    decreases rest.len() - i,
{
    if i < rest.len() {
        lemma_find_char(rest, '\n', i);
        lemma_find_shifted(s, rest, d, '\n', i);
        let end = find_char(rest, '\n', i);
        assert(s.subrange(d + i, d + end) =~= rest.subrange(i, end));
        if end < rest.len() {
            lemma_shifted_box(s, rest, d, end + 1);
        }
    }
}

/// The size is that of the first two words behind `FONTBOUNDINGBOX ` in the first line that begins
/// so, each where it is a number that fits, and eight where it is not; what follows in the line
/// and in the file does not matter.
pub proof fn size_is_in_the_line(text: &str, r: FontMetrics, tail: Seq<char>, rest: Seq<char>)
    requires
        call_ensures(parse_font_metrics, (text,), r),
        !tail.contains('\n'),
        text@ == "FONTBOUNDINGBOX "@ + tail || text@ == "FONTBOUNDINGBOX "@ + tail + seq!['\n']
            + rest,
    ensures
        r.width == word_size(words(tail), 0),
        r.height == word_size(words(tail), 1),
{
    let key = "FONTBOUNDINGBOX "@;
    let line = key + tail;
    let n = line.len() as int;
    let s = text@;
    reveal_strlit("FONTBOUNDINGBOX ");
    assert forall|k: int| 0 <= k < n implies s[k] != '\n' by {
        assert(s[k] == line[k]);
        if k < key.len() {
            assert(line[k] == key[k]);
        } else {
            assert(line[k] == tail[k - key.len()]);
            assert(tail.contains(tail[k - key.len()]));
        }
    }
    if s.len() > n {
        assert(s[n] == '\n');
        lemma_char_found(s, '\n', 0, n);
    } else {
        lemma_find_char(s, '\n', 0);
        assert(find_char(s, '\n', 0) == n);
    }
    assert(s.subrange(0, n) =~= line);
    assert(key =~= line.subrange(0, key.len() as int));
    assert(line.skip(key.len() as int) =~= tail);
}

/// The number that a word stands for, where there is one that fits in a machine word, and else
/// eight.
pub open spec fn word_size(list: Seq<Seq<char>>, k: int) -> nat {
    if 0 <= k < list.len() && (decimal_number(list[k]) matches Some(n) && n <= usize::MAX) {
        decimal_number(list[k])->0
    } else {
        8
    }
}

/// A file in which no line begins with `FONTBOUNDINGBOX ` stands for cells of eight by eight.
pub proof fn size_is_eight_without_a_line(text: &str, r: FontMetrics)
    requires
        call_ensures(parse_font_metrics, (text,), r),
        forall|i: int|
            0 <= i < text@.len() ==> !"FONTBOUNDINGBOX "@.is_prefix_of(#[trigger] text@.skip(i)),
    ensures
        r.width == 8 && r.height == 8,
{
    lemma_no_line(text@, 0);
}

proof fn lemma_no_line(s: Seq<char>, i: int)
    requires
        0 <= i <= s.len(),
        forall|k: int|
            0 <= k < s.len() ==> !"FONTBOUNDINGBOX "@.is_prefix_of(#[trigger] s.skip(k)),
    ensures
        bounding_box_from(s, i) == (8nat, 8nat),
    decreases s.len() - i,
{
    if i < s.len() {
        let key = "FONTBOUNDINGBOX "@;
        let end = find_char(s, '\n', i);
        lemma_find_char(s, '\n', i);
        let line = s.subrange(i, end);
        if key.is_prefix_of(line) {
            assert(key =~= s.skip(i).subrange(0, key.len() as int)) by {
                assert(key == line.subrange(0, key.len() as int));
            }
            assert(key.is_prefix_of(s.skip(i)));
        }
        if end < s.len() {
            lemma_no_line(s, end + 1);
        }
    }
}

/// The size of a file is the one that its lines give.
pub proof fn size_is_what_the_lines_give(text: &str, r: FontMetrics)
    requires
        call_ensures(parse_font_metrics, (text,), r),
    ensures
        (r.width as nat, r.height as nat) == bounding_box_from(text@, 0),
{
}

/// A size without anything in it is zero by zero.
pub proof fn empty_size_is_zero(r: FontMetrics)
    requires
        call_ensures(FontMetrics::default, (), r),
    ensures
        r.width == 0 && r.height == 0,
{
}

} // verus!
