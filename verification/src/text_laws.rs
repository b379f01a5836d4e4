//! What holds of every text that is split into words.
use crate::text::{
    all_digits, decimal_number, decimal_number_to, decimal_string, decimal_text,
    decimal_text_reads_back, decimal_value, digit, ends_with, find_char, holds_text, join, joined,
    lemma_char_found, lemma_find_char, lemma_skip_white, lemma_skip_word, lemma_white_tail,
    letter, parse_u64, parse_usize, same_text, skip_white, skip_word, split_words, text_ends_with,
    text_has, trim, trim_start, trimmed, utf8_str, utf8_text, white_space, white_tail, words,
    words_from,
};
use vstd::prelude::*;
use vstd::string::*;
use vstd::utf8::{
    decode_utf8_encode_utf8, encode_utf8, encode_utf8_decode_utf8, encode_utf8_valid_utf8,
    valid_utf8,
};

verus! {

/// Whether a text is not empty and holds no white space.
pub open spec fn solid(w: Seq<char>) -> bool {
    &&& w.len() > 0
    &&& forall|i: int| 0 <= i < w.len() ==> !white_space(#[trigger] w[i])
}

/// Words are not empty and hold no white space.
pub proof fn words_are_solid(s: Seq<char>)
    ensures
        forall|k: int| 0 <= k < words(s).len() ==> solid(#[trigger] words(s)[k]),
{
    lemma_words_are_solid(s, 0);
}

proof fn lemma_words_are_solid(s: Seq<char>, i: int)
    requires
        0 <= i <= s.len(),
    ensures
        forall|k: int| 0 <= k < words_from(s, i).len() ==> solid(#[trigger] words_from(s, i)[k]),
    decreases s.len() - i,
{
    if i < s.len() {
        let b = skip_white(s, i);
        let e = skip_word(s, b);
        lemma_skip_white(s, i);
        lemma_skip_word(s, b);
        if b < s.len() {
            lemma_words_are_solid(s, e);
            let first = s.subrange(b, e);
            assert forall|k: int| 0 <= k < words_from(s, i).len() implies solid(
                #[trigger] words_from(s, i)[k],
            ) by {
                if k == 0 {
                    assert(words_from(s, i)[0] == first);
                    assert forall|j: int| 0 <= j < first.len() implies !white_space(
                        #[trigger] first[j],
                    ) by {
                        assert(first[j] == s[b + j]);
                    }
                } else {
                    assert(words_from(s, i)[k] == words_from(s, e)[k - 1]);
                }
            }
        }
    }
}

proof fn lemma_join_front(list: Seq<Seq<char>>, sep: Seq<char>)
    requires
        list.len() > 1,
    ensures
        join(list, sep) == list[0] + sep + join(list.drop_first(), sep),
    decreases list.len(),
{
    if list.len() == 2 {
        assert(join(list.drop_last(), sep) == list[0]);
        assert(join(list.drop_first(), sep) == list[1]);
    } else {
        lemma_join_front(list.drop_last(), sep);
        assert(list.drop_last().drop_first() =~= list.drop_first().drop_last());
        assert(join(list, sep) =~= list[0] + sep + join(list.drop_first(), sep));
    }
}

proof fn lemma_skip_solid(s: Seq<char>, i: int, e: int)
    requires
        0 <= i <= e <= s.len(),
        forall|k: int| i <= k < e ==> !white_space(#[trigger] s[k]),
        e < s.len() ==> white_space(s[e]),
    ensures
        skip_word(s, i) == e,
    decreases e - i,
{
    if i < e {
        lemma_skip_solid(s, i + 1, e);
    }
}

proof fn lemma_words_of_join(s: Seq<char>, i: int, list: Seq<Seq<char>>)
    requires
        0 <= i <= s.len(),
        s.skip(i) == join(list, seq![' ']),
        forall|k: int| 0 <= k < list.len() ==> solid(#[trigger] list[k]),
    ensures
        words_from(s, i) == list,
    decreases list.len(),
{
    let rest_text = s.skip(i);
    if list.len() == 0 {
        assert(rest_text.len() == 0);
        assert(words_from(s, i) =~= list);
    } else {
        let first = list[0];
        let rest = list.drop_first();
        let e = i + first.len();
        assert(solid(first));
        if list.len() > 1 {
            lemma_join_front(list, seq![' ']);
            assert(rest_text == first + seq![' '] + join(rest, seq![' ']));
        }
        assert(rest_text.len() >= first.len());
        assert forall|k: int| i <= k < e implies !white_space(#[trigger] s[k]) by {
            assert(s[k] == rest_text[k - i]);
            assert(rest_text[k - i] == first[k - i]);
        }
        if list.len() > 1 {
            assert(rest_text[first.len() as int] == ' ');
            assert(s[e] == ' ');
        }
        lemma_skip_solid(s, i, e);
        assert(skip_white(s, i) == i);
        assert(s.subrange(i, e) =~= first) by {
            assert forall|k: int| 0 <= k < first.len() implies s.subrange(i, e)[k] == first[k] by {
                assert(rest_text[k] == first[k]);
            }
        }
        if list.len() == 1 {
            assert(e == s.len());
            assert(words_from(s, e) =~= Seq::<Seq<char>>::empty());
            assert(words_from(s, i) =~= list);
        } else {
            assert(s.skip(e + 1) =~= join(rest, seq![' '])) by {
                assert forall|k: int| 0 <= k < join(rest, seq![' ']).len() implies s.skip(
                    e + 1,
                )[k] == join(rest, seq![' '])[k] by {
                    assert(rest_text[first.len() + 1 + k] == join(rest, seq![' '])[k]);
                }
            }
            assert forall|k: int| 0 <= k < rest.len() implies solid(#[trigger] rest[k]) by {
                assert(rest[k] == list[k + 1]);
            }
            lemma_words_of_join(s, e + 1, rest);
            lemma_join_starts_solid(rest);
            assert(!white_space(s[e + 1])) by {
                assert(s.skip(e + 1)[0] == s[e + 1]);
            }
            assert(skip_white(s, e) == skip_white(s, e + 1));
            assert(skip_white(s, e + 1) == e + 1);
            assert(words_from(s, e) == words_from(s, e + 1));
            assert(words_from(s, i) =~= list);
        }
    }
}

proof fn lemma_join_starts_solid(list: Seq<Seq<char>>)
    requires
        list.len() > 0,
        forall|k: int| 0 <= k < list.len() ==> solid(#[trigger] list[k]),
    ensures
        join(list, seq![' ']).len() > 0,
        !white_space(join(list, seq![' '])[0]),
{
    assert(solid(list[0]));
    if list.len() > 1 {
        lemma_join_front(list, seq![' ']);
    }
}

/// Words that are joined with spaces are split again into the same words.
pub proof fn joined_words_come_apart(list: Seq<Seq<char>>)
    requires
        forall|k: int| 0 <= k < list.len() ==> solid(#[trigger] list[k]),
    ensures
        words(join(list, seq![' '])) == list,
{
    let s = join(list, seq![' ']);
    assert(s.skip(0) =~= s);
    lemma_words_of_join(s, 0, list);
}

/// Bytes are read as a text exactly where they are its encoding.
pub proof fn text_is_what_bytes_encode(bytes: Seq<u8>, text: Seq<char>)
    ensures
        utf8_text(bytes) == Some(text) <==> bytes == encode_utf8(text),
{
    encode_utf8_decode_utf8(text);
    encode_utf8_valid_utf8(text);
    if valid_utf8(bytes) {
        decode_utf8_encode_utf8(bytes);
    }
}

/// Decoding gives a text exactly where the bytes are its encoding.
pub proof fn decoded_text_encodes_back(bytes: &[u8], r: Option<&str>)
    requires
        call_ensures(utf8_str, (bytes,), r),
    ensures
        r matches Some(s) ==> encode_utf8(s@) == bytes@,
        r is None ==> forall|text: Seq<char>| bytes@ != #[trigger] encode_utf8(text),
{
    if let Some(s) = r {
        text_is_what_bytes_encode(bytes@, s@);
    } else {
        assert forall|text: Seq<char>| bytes@ != #[trigger] encode_utf8(text) by {
            text_is_what_bytes_encode(bytes@, text);
        }
    }
}

/// A text ends with another exactly where something can be put before the other to give it.
pub proof fn end_stands_behind_something(s: Seq<char>, front: Seq<char>, tail: Seq<char>)
    ensures
        ends_with(front + tail, tail),
        ends_with(s, tail) ==> s == s.take(s.len() - tail.len()) + tail,
{
    assert((front + tail).skip((front + tail).len() - tail.len()) =~= tail);
    if ends_with(s, tail) {
        assert(s =~= s.take(s.len() - tail.len()) + s.skip(s.len() - tail.len()));
    }
}

/// Whether a text ends with another is found out from the characters alone: exactly where
/// something stands before the other.
pub proof fn end_is_found(s: &str, suffix: &str, r: bool)
    requires
        call_ensures(text_ends_with, (s, suffix), r),
    ensures
        r <==> exists|front: Seq<char>| s@ == #[trigger] (front + suffix@),
{
    if r {
        end_stands_behind_something(s@, seq![], suffix@);
        let front = s@.take(s@.len() - suffix@.len());
        assert(s@ == front + suffix@);
    }
    assert forall|front: Seq<char>| s@ == #[trigger] (front + suffix@) implies r by {
        end_stands_behind_something(s@, front, suffix@);
    }
}

/// A character is found in a text exactly where it stands at some place in it.
pub proof fn character_is_found(s: &str, c: char, r: bool)
    requires
        call_ensures(text_has, (s, c), r),
    ensures
        r <==> exists|i: int| 0 <= i < s@.len() && #[trigger] s@[i] == c,
{
}

/// White space is these characters and no others: tab, line feed, line tabulation, form feed,
/// carriage return, space, next line, the no-break, ogham, typographic, narrow, mathematical and
/// ideographic spaces, and the line and paragraph separators.
pub proof fn white_space_is_listed(c: char)
    ensures
        white_space(c) <==> seq![
            0x09u32,
            0x0a,
            0x0b,
            0x0c,
            0x0d,
            0x20,
            0x85,
            0xa0,
            0x1680,
            0x2000,
            0x2001,
            0x2002,
            0x2003,
            0x2004,
            0x2005,
            0x2006,
            0x2007,
            0x2008,
            0x2009,
            0x200a,
            0x2028,
            0x2029,
            0x202f,
            0x205f,
            0x3000,
        ].contains(c as u32),
{
    let u = c as u32;
    let list = seq![
        0x09u32,
        0x0a,
        0x0b,
        0x0c,
        0x0d,
        0x20,
        0x85,
        0xa0,
        0x1680,
        0x2000,
        0x2001,
        0x2002,
        0x2003,
        0x2004,
        0x2005,
        0x2006,
        0x2007,
        0x2008,
        0x2009,
        0x200a,
        0x2028,
        0x2029,
        0x202f,
        0x205f,
        0x3000,
    ];
    if white_space(c) {
        let k: int = if u <= 0x0d {
            u - 0x09
        } else if u == 0x20 {
            5
        } else if u == 0x85 {
            6
        } else if u == 0xa0 {
            7
        } else if u == 0x1680 {
            8
        } else if u <= 0x200a {
            9 + (u - 0x2000)
        } else if u == 0x2028 {
            20
        } else if u == 0x2029 {
            21
        } else if u == 0x202f {
            22
        } else if u == 0x205f {
            23
        } else {
            24
        };
        assert(list[k] == u);
    }
}

/// The digits and the letters are those of ASCII.
pub proof fn digits_and_letters_are_listed(c: char)
    ensures
        digit(c) <==> "0123456789"@.contains(c),
        letter(c) <==> "abcdefghijklmnopqrstuvwxyzABCDEFGHIJKLMNOPQRSTUVWXYZ"@.contains(c),
{
    reveal_strlit("0123456789");
    reveal_strlit("abcdefghijklmnopqrstuvwxyzABCDEFGHIJKLMNOPQRSTUVWXYZ");
    let digits = "0123456789"@;
    let letters = "abcdefghijklmnopqrstuvwxyzABCDEFGHIJKLMNOPQRSTUVWXYZ"@;
    if digit(c) {
        assert(digits[c as u32 - '0' as u32] == c);
    }
    if 'a' <= c <= 'z' {
        assert(letters[c as u32 - 'a' as u32] == c);
    }
    if 'A' <= c <= 'Z' {
        assert(letters[26 + (c as u32 - 'A' as u32)] == c);
    }
}

/// Whether a text holds nothing but white space.
pub open spec fn blank(s: Seq<char>) -> bool {
    forall|i: int| 0 <= i < s.len() ==> white_space(#[trigger] s[i])
}

/// Whether a text has no white space at either end.
pub open spec fn tight(s: Seq<char>) -> bool {
    s.len() > 0 ==> !white_space(s[0]) && !white_space(s.last())
}

pub proof fn lemma_skip_lead(s: Seq<char>, i: int, n: int)
    requires
        0 <= i <= n <= s.len(),
        forall|k: int| i <= k < n ==> white_space(#[trigger] s[k]),
        n < s.len() ==> !white_space(s[n]),
    ensures
        skip_white(s, i) == n,
    decreases n - i,
{
    if i < n {
        lemma_skip_lead(s, i + 1, n);
    }
}

pub proof fn lemma_white_from(s: Seq<char>, i: int, n: int)
    requires
        0 <= n <= i <= s.len(),
        forall|k: int| n <= k < i ==> white_space(#[trigger] s[k]),
        n > 0 ==> !white_space(s[n - 1]),
    ensures
        white_tail(s, i) == n,
    decreases i,
{
    if n < i {
        lemma_white_from(s, i - 1, n);
    }
}

/// Trimming takes off exactly the white space at both ends.
pub proof fn trimming_takes_the_blanks_off(lead: Seq<char>, body: Seq<char>, tail: Seq<char>)
    requires
        blank(lead),
        tight(body),
        blank(tail),
    ensures
        trim(lead + body + tail) == body,
{
    let s = lead + body + tail;
    let n = lead.len() as int;
    if body.len() == 0 {
        assert forall|k: int| 0 <= k < s.len() implies white_space(#[trigger] s[k]) by {
            if k < n {
                assert(s[k] == lead[k]);
            } else {
                assert(s[k] == tail[k - n]);
            }
        }
        lemma_skip_lead(s, 0, s.len() as int);
        assert(trim_start(s) =~= Seq::<char>::empty());
        assert(trim(s) =~= body);
    } else {
        assert forall|k: int| 0 <= k < n implies white_space(#[trigger] s[k]) by {
            assert(s[k] == lead[k]);
        }
        assert(s[n] == body[0]);
        lemma_skip_lead(s, 0, n);
        let t = trim_start(s);
        let m = body.len() as int;
        assert(t =~= body + tail);
        assert forall|k: int| m <= k < t.len() implies white_space(#[trigger] t[k]) by {
            assert(t[k] == tail[k - m]);
        }
        assert(t[m - 1] == body.last());
        lemma_white_from(t, t.len() as int, m);
        assert(trim(s) =~= body);
    }
}

/// Every text is its trimmed form with white space around it.
pub proof fn trimmed_text_stands_between_blanks(s: Seq<char>)
    ensures
        exists|lead: Seq<char>, tail: Seq<char>|
            blank(lead) && blank(tail) && tight(trim(s)) && s == #[trigger] (lead + trim(s) + tail),
{
    let n = skip_white(s, 0);
    lemma_skip_white(s, 0);
    let t = trim_start(s);
    let m = white_tail(t, t.len() as int);
    lemma_white_tail(t, t.len() as int);
    let lead = s.take(n);
    let tail = t.skip(m);
    assert(s =~= lead + trim(s) + tail);
    assert(blank(lead));
    assert forall|k: int| 0 <= k < tail.len() implies white_space(#[trigger] tail[k]) by {
        assert(tail[k] == t[m + k]);
    }
    if trim(s).len() > 0 {
        assert(trim(s)[0] == s[n]);
        assert(trim(s).last() == t[m - 1]);
    }
}

/// A search finds the first place of a character: what stands before it does not hold the
/// character, and without the character the search ends at the end.
pub proof fn search_finds_the_first(before: Seq<char>, c: char, rest: Seq<char>)
    requires
        !before.contains(c),
    ensures
        find_char(before + seq![c] + rest, c, 0) == before.len(),
        find_char(before, c, 0) == before.len(),
{
    let s = before + seq![c] + rest;
    let n = before.len() as int;
    assert forall|k: int| 0 <= k < n implies before[k] != c && s[k] != c by {
        assert(before.contains(before[k]));
        assert(s[k] == before[k]);
    }
    assert(s[n] == c);
    lemma_char_found(s, c, 0, n);
    lemma_find_char(before, c, 0);
    if find_char(before, c, 0) < n {
        assert(before.contains(c));
    }
}

proof fn lemma_words_shifted(s: Seq<char>, rest: Seq<char>, d: int, i: int)
    requires
        0 <= d <= s.len(),
        s.skip(d) == rest,
        0 <= i <= rest.len(),
    ensures
        words_from(s, d + i) == words_from(rest, i),
    decreases rest.len() - i,
{
    if i < rest.len() {
        let b = skip_white(rest, i);
        lemma_skip_white(rest, i);
        assert forall|k: int| d + i <= k < d + b implies white_space(#[trigger] s[k]) by {
            assert(s[k] == rest[k - d]);
        }
        if b < rest.len() {
            assert(s[d + b] == rest[b]);
        }
        lemma_skip_lead(s, d + i, d + b);
        if b < rest.len() {
            let e = skip_word(rest, b);
            lemma_skip_word(rest, b);
            assert forall|k: int| d + b <= k < d + e implies !white_space(#[trigger] s[k]) by {
                assert(s[k] == rest[k - d]);
            }
            if e < rest.len() {
                assert(s[d + e] == rest[e]);
            }
            lemma_skip_solid(s, d + b, d + e);
            assert(s.subrange(d + b, d + e) =~= rest.subrange(b, e));
            lemma_words_shifted(s, rest, d, e);
        }
    }
}

/// Words are cut at white space: a blank text has none, and a word with white space on both sides
/// of it stands before the words of what follows.
pub proof fn words_are_cut_at_blanks(lead: Seq<char>, w: Seq<char>, b: char, rest: Seq<char>)
    requires
        blank(lead),
        solid(w),
        white_space(b),
    ensures
        words(lead) == Seq::<Seq<char>>::empty(),
        words(lead + w) == seq![w],
        words(lead + w + seq![b] + rest) == seq![w] + words(rest),
{
    let n = lead.len() as int;
    lemma_skip_lead(lead, 0, n);
    assert(words(lead) =~= Seq::<Seq<char>>::empty());
    let e = n + w.len();
    let one = lead + w;
    let s = lead + w + seq![b] + rest;
    assert forall|k: int| 0 <= k < n implies white_space(#[trigger] one[k]) && white_space(
        #[trigger] s[k],
    ) by {
        assert(one[k] == lead[k] && s[k] == lead[k]);
    }
    assert forall|k: int| n <= k < e implies !white_space(#[trigger] one[k]) && !white_space(
        #[trigger] s[k],
    ) by {
        assert(one[k] == w[k - n] && s[k] == w[k - n]);
    }
    assert(one[n] == w[0] && s[n] == w[0]);
    lemma_skip_lead(one, 0, n);
    lemma_skip_lead(s, 0, n);
    assert(s[e] == b);
    lemma_skip_solid(one, n, e);
    lemma_skip_solid(s, n, e);
    assert(one.subrange(n, e) =~= w);
    assert(s.subrange(n, e) =~= w);
    assert(words_from(one, e) =~= Seq::<Seq<char>>::empty());
    assert(words(one) =~= seq![w]);
    assert(s.skip(e + 1) =~= rest);
    lemma_words_shifted(s, rest, e + 1, 0);
    assert(skip_white(s, e) == skip_white(s, e + 1));
    lemma_skip_white(s, e + 1);
    assert(words_from(s, e) =~= words_from(s, e + 1));
    assert(words(s) =~= seq![w] + words(rest));
}

/// A list of one text joins to that text, and two lists join with one separator between them.
pub proof fn joined_lists_join(a: Seq<Seq<char>>, b: Seq<Seq<char>>, sep: Seq<char>)
    ensures
        a.len() == 0 ==> join(a, sep) == Seq::<char>::empty(),
        a.len() == 1 ==> join(a, sep) == a[0],
        a.len() > 0 && b.len() > 0 ==> join(a + b, sep) == join(a, sep) + sep + join(b, sep),
    decreases b.len(),
{
    if a.len() > 0 && b.len() == 1 {
        assert((a + b).drop_last() =~= a);
    } else if a.len() > 0 && b.len() > 1 {
        joined_lists_join(a, b.drop_last(), sep);
        assert((a + b).drop_last() =~= a + b.drop_last());
        assert(join(a + b, sep) =~= join(a, sep) + sep + join(b, sep));
    }
}

/// The value of one more digit behind a number is ten times the number and the digit.
pub proof fn digits_count_by_ten(s: Seq<char>, d: int)
    requires
        0 <= d <= 9,
    ensures
        "0123456789"@.len() == 10,
        decimal_number(seq!["0123456789"@[d]]) == Some(d as nat),
        decimal_number(s) matches Some(v) ==> decimal_number(s.push("0123456789"@[d])) == Some(
            v * 10 + d as nat,
        ),
{
    reveal_strlit("0123456789");
    let c = "0123456789"@[d];
    assert(digit(c) && c as u32 == '0' as u32 + d);
    let one = seq![c];
    assert(one.drop_last() =~= Seq::<char>::empty());
    assert(decimal_value(Seq::<char>::empty()) == 0);
    assert(all_digits(one));
    if let Some(v) = decimal_number(s) {
        let more = s.push(c);
        if s[0] == '+' {
            assert(more.skip(1) =~= s.skip(1).push(c));
            assert(s.skip(1).push(c).drop_last() =~= s.skip(1));
            assert forall|k: int| 0 <= k < s.len() implies digit(
                #[trigger] s.skip(1).push(c)[k],
            ) by {
                if k < s.skip(1).len() {
                    assert(digit(s.skip(1)[k]));
                }
            }
        } else {
            assert(more.drop_last() =~= s);
            assert forall|k: int| 0 <= k < more.len() implies digit(#[trigger] more[k]) by {
                if k < s.len() {
                    assert(digit(s[k]));
                }
            }
        }
    }
}

/// A text is a number exactly where it is digits, one at least, with at most a plus sign before
/// them, which changes nothing.
pub proof fn numbers_are_digits(s: Seq<char>)
    ensures
        decimal_number(s) is Some ==> s.len() > 0 && forall|i: int|
            0 <= i < s.len() ==> "0123456789"@.contains(#[trigger] s[i]) || (i == 0 && s[i] == '+'),
        decimal_number(seq!['+']) is None,
        decimal_number(s) is Some && s[0] != '+' ==> decimal_number(seq!['+'] + s) == decimal_number(
            s,
        ),
        s.len() > 0 && (forall|i: int|
            0 <= i < s.len() ==> "0123456789"@.contains(#[trigger] s[i])) ==> decimal_number(
            s,
        ) is Some,
{
    assert forall|c: char| #[trigger] digit(c) <==> "0123456789"@.contains(c) by {
        digits_and_letters_are_listed(c);
    }
    if decimal_number(s) is Some {
        assert forall|i: int| 0 <= i < s.len() implies "0123456789"@.contains(#[trigger] s[i]) || (i
            == 0 && s[i] == '+') by {
            if s[0] == '+' {
                if i > 0 {
                    assert(s.skip(1)[i - 1] == s[i]);
                    assert(digit(s[i]));
                }
            } else {
                assert(digit(s[i]));
            }
        }
        assert((seq!['+'] + s).skip(1) =~= s);
    }
    assert(seq!['+'].skip(1).len() == 0);
    if s.len() > 0 && (forall|i: int|
        0 <= i < s.len() ==> "0123456789"@.contains(#[trigger] s[i])) {
        assert("0123456789"@.contains(s[0]));
        assert(digit(s[0]));
        assert(s[0] != '+');
        assert(all_digits(s));
    }
}

/// A number is read exactly where it fits.
pub proof fn numbers_are_read_where_they_fit(
    s: &str,
    wide: Option<u64>,
    word: Option<usize>,
)
    requires
        call_ensures(parse_u64, (s,), wide),
        call_ensures(parse_usize, (s,), word),
    ensures
        wide matches Some(v) ==> decimal_number(s@) == Some(v as nat),
        wide is None ==> decimal_number(s@) is None || decimal_number(s@)->0 > 0xffff_ffff_ffff_ffff,
        word matches Some(v) ==> decimal_number(s@) == Some(v as nat),
        word is None ==> decimal_number(s@) is None || decimal_number(s@)->0 > usize::MAX,
{
}

/// A bounded number is the number where it is at most the bound.
pub proof fn bounded_numbers(s: Seq<char>, max: int, n: nat)
    ensures
        decimal_number_to(s, max) == Some(n) <==> decimal_number(s) == Some(n) && n <= max,
{
}

/// A number that is written reads back as itself.
pub proof fn written_number_reads_back(n: u64, r: String)
    requires
        call_ensures(decimal_string, (n,), r),
    ensures
        decimal_number(r@) == Some(n as nat),
        r@[0] == '0' ==> n == 0,
        all_digits(r@),
{
    decimal_text_reads_back(n as nat);
    written_numbers_have_no_leading_zero(n as nat);
}

/// Splitting, joining and trimming give the words, the joined text and the trimmed text.
pub proof fn texts_are_cut_and_joined(
    s: &[char],
    split: Vec<String>,
    cut: &[char],
    list: &[String],
    sep: &str,
    whole: String,
)
    requires
        call_ensures(split_words, (s,), split),
        call_ensures(trimmed, (s,), cut),
        call_ensures(joined, (list, sep), whole),
    ensures
        split.deep_view() == words(s@),
        cut@ == trim(s@),
        whole@ == join(list.deep_view(), sep@),
{
}

/// A list holds a text exactly where one of its entries is that text, and two texts are the same
/// exactly where their characters are.
pub proof fn texts_are_compared_by_characters(
    list: &Vec<String>,
    text: &str,
    other: &str,
    held: bool,
    same: bool,
)
    requires
        call_ensures(holds_text, (list, text), held),
        call_ensures(same_text, (text, other), same),
    ensures
        held <==> exists|i: int| 0 <= i < list@.len() && (#[trigger] list@[i])@ == text@,
        same <==> text@ == other@,
{
    let view = list.deep_view();
    if held {
        let k = choose|k: int| 0 <= k < view.len() && view[k] == text@;
        assert(list@[k]@ == text@);
    }
    assert forall|i: int| 0 <= i < list@.len() && (#[trigger] list@[i])@ == text@ implies held by {
        assert(view[i] == text@);
    }
}

/// A number is written in digits without a leading zero.
pub proof fn written_numbers_have_no_leading_zero(n: nat)
    ensures
        decimal_text(n).len() > 0,
        decimal_text(n)[0] == '0' ==> n == 0,
        forall|i: int| 0 <= i < decimal_text(n).len() ==> digit(#[trigger] decimal_text(n)[i]),
    decreases n,
{
    if n >= 10 {
        written_numbers_have_no_leading_zero(n / 10);
        assert forall|i: int| 0 <= i < decimal_text(n).len() implies digit(
            #[trigger] decimal_text(n)[i],
        ) by {
            if i < decimal_text(n / 10).len() {
                assert(decimal_text(n)[i] == decimal_text(n / 10)[i]);
            }
        }
    }
}

} // verus!
