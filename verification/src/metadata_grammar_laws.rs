//! The grammar of metadata files: how lines and strings are spelled, and what they stand for.
use crate::error::{failure, ErrorKind, ShellError};
use crate::metadata::{
    bounded_text, join_path, line_field, line_value, parse_toml_string_field,
    parse_toml_string_literal, path_below, resolve_app_entry, string_field, string_literal,
    unescape, unquote,
};
use crate::metadata_laws::other_lines_do_not_matter;
use crate::text::{
    find_char, lemma_char_found, lemma_find_char, lemma_white_tail, trim, trim_start, white_space,
    white_tail,
};
use crate::text_laws::{
    blank, lemma_skip_lead, text_is_what_bytes_encode, tight, trimmed_text_stands_between_blanks,
    trimming_takes_the_blanks_off,
};
use vstd::prelude::*;
use vstd::string::*;
use vstd::utf8::encode_utf8;

verus! {

/// A piece of a text between quotes.
pub enum Written {
    /// Characters that stand for themselves.
    Text(Seq<char>),
    /// A character behind a backslash.
    Escape(char),
}

/// How pieces are written between quotes.
pub open spec fn spelled(ps: Seq<Written>) -> Seq<char>
    decreases ps.len(),
{
    if ps.len() == 0 {
        seq![]
    } else {
        (match ps[0] {
            Written::Text(t) => t,
            Written::Escape(c) => seq!['\\', c],
        }) + spelled(ps.drop_first())
    }
}

/// What pieces between quotes stand for. Behind a backslash `n`, `r` and `t` stand for line feed,
/// carriage return and tab, and every other character for itself.
pub open spec fn meaning(ps: Seq<Written>) -> Seq<char>
    decreases ps.len(),
{
    if ps.len() == 0 {
        seq![]
    } else {
        (match ps[0] {
            Written::Text(t) => t,
            Written::Escape('n') => seq!['\n'],
            Written::Escape('r') => seq!['\r'],
            Written::Escape('t') => seq!['\t'],
            Written::Escape(c) => seq![c],
        }) + meaning(ps.drop_first())
    }
}

/// Whether characters that stand for themselves are neither quotes nor backslashes.
pub open spec fn plain_texts(ps: Seq<Written>) -> bool {
    forall|i: int|
        0 <= i < ps.len() ==> ((#[trigger] ps[i]) matches Written::Text(t) ==> !t.contains('"')
            && !t.contains('\\'))
}

proof fn lemma_text(v: Seq<char>, i: int, t: Seq<char>, read: Seq<char>)
    requires
        0 <= i,
        i + t.len() <= v.len(),
        forall|k: int| 0 <= k < t.len() ==> v[i + k] == #[trigger] t[k],
        !t.contains('"'),
        !t.contains('\\'),
    ensures
        unquote(v, i, read) == unquote(v, i + t.len(), read + t),
    decreases t.len(),
{
    if t.len() == 0 {
        assert(read + t =~= read);
    } else {
        let others = t.drop_first();
        assert(v[i + 0] == t[0]);
        assert(t.contains(t[0]));
        assert forall|c: char| others.contains(c) implies t.contains(c) by {
            let k = choose|k: int| 0 <= k < others.len() && others[k] == c;
            assert(t[k + 1] == c);
        }
        assert forall|k: int| 0 <= k < others.len() implies v[i + 1 + k] == #[trigger] others[k] by {
            assert(v[i + (k + 1)] == t[k + 1]);
        }
        lemma_text(v, i + 1, others, read.push(t[0]));
        assert(read.push(t[0]) + others =~= read + t);
    }
}

proof fn lemma_closed(v: Seq<char>, i: int, ps: Seq<Written>, read: Seq<char>)
    requires
        plain_texts(ps),
        0 <= i,
        i + spelled(ps).len() < v.len(),
        forall|k: int| 0 <= k < spelled(ps).len() ==> v[i + k] == #[trigger] spelled(ps)[k],
        v[i + spelled(ps).len()] == '"',
    ensures
        unquote(v, i, read) == Some(read + meaning(ps)),
    decreases ps.len(),
{
    if ps.len() == 0 {
        assert(v[i + 0] == '"');
        assert(read + meaning(ps) =~= read);
    } else {
        let others = ps.drop_first();
        let head = match ps[0] {
            Written::Text(t) => t,
            Written::Escape(c) => seq!['\\', c],
        };
        assert(spelled(ps) == head + spelled(others));
        assert forall|k: int| 0 <= k < spelled(others).len() implies v[i + head.len() + k]
            == #[trigger] spelled(others)[k] by {
            assert(v[i + (head.len() + k)] == spelled(ps)[head.len() + k]);
        }
        assert forall|k: int| 0 <= k < others.len() implies ((#[trigger] others[k]) matches
            Written::Text(t) ==> !t.contains('"') && !t.contains('\\')) by {
            assert(others[k] == ps[k + 1]);
        }
        match ps[0] {
            Written::Text(t) => {
                assert forall|k: int| 0 <= k < t.len() implies v[i + k] == #[trigger] t[k] by {
                    assert(v[i + k] == spelled(ps)[k]);
                }
                lemma_text(v, i, t, read);
                lemma_closed(v, i + head.len(), others, read + t);
                assert((read + t) + meaning(others) =~= read + meaning(ps));
            },
            Written::Escape(c) => {
                assert(v[i + 0] == spelled(ps)[0] && v[i + 1] == spelled(ps)[1]);
                let e = unescape(c);
                lemma_closed(v, i + 2, others, read.push(e));
                assert(read.push(e) + meaning(others) =~= read + meaning(ps));
            },
        }
    }
}

/// A text that breaks off before its closing quote stands for nothing.
proof fn lemma_open(v: Seq<char>, i: int, ps: Seq<Written>, tail: Seq<char>, read: Seq<char>)
    requires
        plain_texts(ps),
        0 <= i <= v.len(),
        tail.len() == 0 || tail == seq!['\\'],
        v.len() - i <= spelled(ps).len() + tail.len(),
        forall|k: int| 0 <= k < v.len() - i ==> v[i + k] == #[trigger] (spelled(ps) + tail)[k],
    ensures
        unquote(v, i, read) is None,
    decreases ps.len(),
{
    let all = spelled(ps) + tail;
    if i == v.len() {
    } else if ps.len() == 0 {
        assert(v[i + 0] == all[0]);
        assert(all[0] == '\\');
    } else {
        let others = ps.drop_first();
        let head = match ps[0] {
            Written::Text(t) => t,
            Written::Escape(c) => seq!['\\', c],
        };
        assert(spelled(ps) == head + spelled(others));
        assert forall|k: int| 0 <= k < others.len() implies ((#[trigger] others[k]) matches
            Written::Text(t) ==> !t.contains('"') && !t.contains('\\')) by {
            assert(others[k] == ps[k + 1]);
        }
        let n = head.len() as int;
        if i + n <= v.len() {
            assert forall|k: int| 0 <= k < v.len() - (i + n) implies v[i + n + k]
                == #[trigger] (spelled(others) + tail)[k] by {
                assert(v[i + (n + k)] == all[n + k]);
            }
        }
        match ps[0] {
            Written::Text(t) => {
                if i + n <= v.len() {
                    assert forall|k: int| 0 <= k < t.len() implies v[i + k] == #[trigger] t[k] by {
                        assert(v[i + k] == all[k]);
                    }
                    lemma_text(v, i, t, read);
                    lemma_open(v, i + n, others, tail, read + t);
                } else {
                    let m = v.len() - i;
                    let part = t.take(m);
                    assert forall|k: int| 0 <= k < part.len() implies v[i + k]
                        == #[trigger] part[k] by {
                        assert(v[i + k] == all[k]);
                    }
                    assert forall|c: char| part.contains(c) implies t.contains(c) by {
                        let k = choose|k: int| 0 <= k < part.len() && part[k] == c;
                        assert(t[k] == c);
                    }
                    lemma_text(v, i, part, read);
                }
            },
            Written::Escape(c) => {
                assert(v[i + 0] == all[0]);
                if i + 2 <= v.len() {
                    assert(v[i + 1] == all[1]);
                    lemma_open(
                        v,
                        i + 2,
                        others,
                        tail,
                        read.push(unescape(v[i + 1])),
                    );
                }
            },
        }
    }
}

/// A string is read as what stands between its quotes, with its escapes resolved, whatever white
/// space goes before it and whatever follows it.
pub proof fn quoted_string_is_read(
    value: &str,
    r: Option<String>,
    lead: Seq<char>,
    ps: Seq<Written>,
    rest: Seq<char>,
)
    requires
        call_ensures(parse_toml_string_literal, (value,), r),
        blank(lead),
        plain_texts(ps),
        value@ == lead + (seq!['"'] + spelled(ps) + seq!['"'] + rest),
    ensures
        r matches Some(text) && text@ == meaning(ps),
        string_literal(value@) == Some(meaning(ps)),
{
    lemma_literal(lead, ps, rest);
}

proof fn lemma_literal(lead: Seq<char>, ps: Seq<Written>, rest: Seq<char>)
    requires
        blank(lead),
        plain_texts(ps),
    ensures
        string_literal(lead + (seq!['"'] + spelled(ps) + seq!['"'] + rest)) == Some(meaning(ps)),
{
    let t = seq!['"'] + spelled(ps) + seq!['"'] + rest;
    let value = lead + t;
    let n = lead.len() as int;
    let close = spelled(ps).len() + 1;
    assert(t[0] == '"' && t[close as int] == '"');
    assert forall|k: int| 0 <= k < n implies white_space(#[trigger] value[k]) by {
        assert(value[k] == lead[k]);
    }
    assert(value[n] == t[0]);
    lemma_skip_lead(value, 0, n);
    assert(trim_start(value) =~= t);
    lemma_white_tail(t, t.len() as int);
    assert(white_tail(t, t.len() as int) > close) by {
        if white_tail(t, t.len() as int) <= close {
            assert(white_space(t[close as int]));
        }
    }
    let v = trim(value);
    assert(v[0] == '"');
    assert forall|k: int| 0 <= k < spelled(ps).len() implies v[1 + k] == #[trigger] spelled(
        ps,
    )[k] by {
        assert(t[k + 1] == spelled(ps)[k]);
    }
    lemma_closed(v, 1, ps, seq![]);
    assert(Seq::<char>::empty() + meaning(ps) =~= meaning(ps));
}

/// A value is no string where it does not begin with a quote, where the quote is not closed, and
/// where it ends in a backslash between quotes.
pub proof fn other_values_are_no_strings(
    value: &str,
    r: Option<String>,
    lead: Seq<char>,
    ps: Seq<Written>,
    other: Seq<char>,
)
    requires
        call_ensures(parse_toml_string_literal, (value,), r),
        blank(lead),
        plain_texts(ps),
    ensures
        value@ == lead ==> r is None,
        value@ == lead + other && other.len() > 0 && other[0] != '"' && !white_space(other[0])
            ==> r is None,
        value@ == lead + (seq!['"'] + spelled(ps)) ==> r is None,
        value@ == lead + (seq!['"'] + (spelled(ps) + seq!['\\'])) ==> r is None,
{
    let n = lead.len() as int;
    if value@ == lead {
        lemma_skip_lead(value@, 0, n);
        assert(trim_start(value@).len() == 0);
    }
    if value@ == lead + other && other.len() > 0 && other[0] != '"' && !white_space(other[0]) {
        lemma_begins(lead, other);
    }
    if value@ == lead + (seq!['"'] + spelled(ps)) {
        assert(spelled(ps) + Seq::<char>::empty() =~= spelled(ps));
        lemma_breaks_off(lead, ps, seq![]);
    }
    if value@ == lead + (seq!['"'] + (spelled(ps) + seq!['\\'])) {
        lemma_breaks_off(lead, ps, seq!['\\']);
    }
}

/// Trimming leaves the first character that is not white space at the front.
proof fn lemma_begins(lead: Seq<char>, other: Seq<char>)
    requires
        blank(lead),
        other.len() > 0,
        !white_space(other[0]),
    ensures
        trim_start(lead + other) == other,
        0 < trim(lead + other).len() <= other.len(),
        trim(lead + other) == other.take(trim(lead + other).len() as int),
{
    let value = lead + other;
    let n = lead.len() as int;
    assert forall|k: int| 0 <= k < n implies white_space(#[trigger] value[k]) by {
        assert(value[k] == lead[k]);
    }
    assert(value[n] == other[0]);
    lemma_skip_lead(value, 0, n);
    assert(trim_start(value) =~= other);
    lemma_white_tail(other, other.len() as int);
    if white_tail(other, other.len() as int) == 0 {
        assert(white_space(other[0]));
    }
    assert(trim(value) =~= other.take(trim(value).len() as int));
}

proof fn lemma_breaks_off(lead: Seq<char>, ps: Seq<Written>, tail: Seq<char>)
    requires
        blank(lead),
        plain_texts(ps),
        tail.len() == 0 || tail == seq!['\\'],
    ensures
        string_literal(lead + (seq!['"'] + (spelled(ps) + tail))) is None,
{
    let all = spelled(ps) + tail;
    let t = seq!['"'] + all;
    assert(t[0] == '"');
    lemma_begins(lead, t);
    let v = trim(lead + t);
    assert forall|k: int| 0 <= k < v.len() - 1 implies v[1 + k] == #[trigger] all[k] by {
        assert(v[1 + k] == t[1 + k]);
    }
    lemma_open(v, 1, ps, tail, seq![]);
}

/// A line gives its value to the name before its first equals sign, with any white space around
/// the name and before the value; a line without an equals sign gives none.
pub proof fn line_gives_a_value_to_a_name(
    lead: Seq<char>,
    name: Seq<char>,
    gap: Seq<char>,
    value: Seq<char>,
    other: Seq<char>,
)
    requires
        blank(lead),
        tight(name),
        !name.contains('='),
        blank(gap),
        !other.contains('='),
    ensures
        line_field(lead + name + gap + seq!['='] + value) == Some(name),
        string_literal(line_value(lead + name + gap + seq!['='] + value)) == string_literal(value),
        line_field(other) is None,
{
    lemma_line(lead, name, gap, value);
    let t = trim(other);
    trimmed_text_stands_between_blanks(other);
    let (a, b) = choose|a: Seq<char>, b: Seq<char>|
        blank(a) && blank(b) && tight(trim(other)) && other == #[trigger] (a + trim(other) + b);
    lemma_find_char(t, '=', 0);
    if find_char(t, '=', 0) < t.len() {
        let k = find_char(t, '=', 0);
        assert(other[a.len() + k] == t[k]);
        assert(other.contains('='));
    }
}

proof fn lemma_line(lead: Seq<char>, name: Seq<char>, gap: Seq<char>, value: Seq<char>)
    requires
        blank(lead),
        tight(name),
        !name.contains('='),
        blank(gap),
    ensures
        line_field(lead + name + gap + seq!['='] + value) == Some(name),
        string_literal(line_value(lead + name + gap + seq!['='] + value)) == string_literal(value),
{
    let line = lead + name + gap + seq!['='] + value;
    trimmed_text_stands_between_blanks(value);
    let body = trim(value);
    let (before, after) = choose|before: Seq<char>, after: Seq<char>|
        blank(before) && blank(after) && tight(trim(value)) && value == #[trigger] (before + trim(
            value,
        ) + after);
    let kept = if body.len() == 0 {
        Seq::<char>::empty()
    } else {
        before + body
    };
    let cut = if body.len() == 0 {
        value
    } else {
        after
    };
    assert(blank(cut)) by {
        if body.len() == 0 {
            assert forall|k: int| 0 <= k < value.len() implies white_space(#[trigger] value[k]) by {
                if k < before.len() {
                    assert(value[k] == before[k]);
                } else {
                    assert(value[k] == after[k - before.len()]);
                }
            }
        }
    }
    let front = if name.len() == 0 {
        lead + gap
    } else {
        lead
    };
    let own_gap = if name.len() == 0 {
        Seq::<char>::empty()
    } else {
        gap
    };
    assert(blank(front)) by {
        assert forall|k: int| 0 <= k < front.len() implies white_space(#[trigger] front[k]) by {
            if k < lead.len() {
                assert(front[k] == lead[k]);
            } else {
                assert(front[k] == gap[k - lead.len()]);
            }
        }
    }
    let core = name + own_gap + seq!['='] + kept;
    assert(tight(core)) by {
        if name.len() > 0 {
            assert(core[0] == name[0]);
        } else {
            assert(core[0] == '=');
        }
        if body.len() > 0 {
            assert(core.last() == body.last());
        } else {
            assert(core.last() == '=');
        }
    }
    assert(line =~= front + core + cut);
    trimming_takes_the_blanks_off(front, core, cut);
    let at = (name.len() + own_gap.len()) as int;
    assert forall|k: int| 0 <= k < at implies core[k] != '=' by {
        if k < name.len() {
            assert(core[k] == name[k]);
            assert(name.contains(name[k]));
        } else {
            assert(core[k] == own_gap[k - name.len()]);
            assert(white_space(own_gap[k - name.len()]));
        }
    }
    assert(core[at] == '=');
    lemma_char_found(core, '=', 0, at);
    assert(core.take(at) =~= Seq::<char>::empty() + name + own_gap);
    trimming_takes_the_blanks_off(seq![], name, own_gap);
    assert(line_value(line) =~= kept);
    if body.len() == 0 {
        assert(Seq::<char>::empty() + body + Seq::<char>::empty() =~= kept);
        trimming_takes_the_blanks_off(seq![], body, seq![]);
    } else {
        assert(before + body + Seq::<char>::empty() =~= kept);
        trimming_takes_the_blanks_off(before, body, seq![]);
    }
}

/// The first line of a file that gives a value to a name decides, even where the value is no
/// string; lines that give none to it are passed over. An empty file gives none.
pub proof fn first_line_of_a_name_decides(line: Seq<char>, rest: Seq<char>, key: Seq<char>)
    requires
        !line.contains('\n'),
    ensures
        line_field(line) == Some(key) ==> string_field(line + seq!['\n'] + rest, key)
            == string_literal(line_value(line)),
        line_field(line) != Some(key) ==> string_field(line + seq!['\n'] + rest, key)
            == string_field(rest, key),
        line_field(line) == Some(key) && line.len() > 0 ==> string_field(line, key)
            == string_literal(line_value(line)),
        line_field(line) != Some(key) ==> string_field(line, key) is None,
        string_field(seq![], key) is None,
{
    let s = line + seq!['\n'] + rest;
    let n = line.len() as int;
    assert forall|k: int| 0 <= k < n implies line[k] != '\n' && s[k] != '\n' by {
        assert(line.contains(line[k]));
        assert(s[k] == line[k]);
    }
    assert(s[n] == '\n');
    lemma_char_found(s, '\n', 0, n);
    assert(s.subrange(0, n) =~= line);
    lemma_find_char(line, '\n', 0);
    if find_char(line, '\n', 0) < n {
        assert(line.contains('\n'));
    }
    assert(line.subrange(0, n) =~= line);
    if line_field(line) != Some(key) {
        assert(forall|i: int| 0 <= i < line.len() ==> #[trigger] line[i] != '\n');
        other_lines_do_not_matter(line, rest, key);
    }
}

/// A field is looked up as the lines say.
pub proof fn fields_are_looked_up(content: &str, key: &str, r: Option<String>)
    requires
        call_ensures(parse_toml_string_field, (content, key), r),
    ensures
        r matches Some(text) ==> string_field(content@, key@) == Some(text@),
        r is None ==> string_field(content@, key@) is None,
{
}

/// A file is taken as the text that it encodes, unless it is longer than allowed or encodes none;
/// the length goes first.
pub proof fn files_are_texts_within_bounds(
    path: &str,
    bytes: &[u8],
    max_bytes: usize,
    r: Result<String, ShellError>,
    text: Seq<char>,
)
    requires
        call_ensures(bounded_text, (path, bytes, max_bytes), r),
    ensures
        bytes@.len() > max_bytes ==> (r matches Err(e) && e@ == failure(
            ErrorKind::InvalidData,
            path@ + ": app metadata too large"@,
        )),
        bytes@.len() <= max_bytes && bytes@ == encode_utf8(text) ==> (r matches Ok(t) && t@ == text),
        bytes@.len() <= max_bytes && (forall|t: Seq<char>| bytes@ != #[trigger] encode_utf8(t))
            ==> (r matches Err(e) && e@ == failure(
            ErrorKind::InvalidData,
            path@ + ": invalid utf-8"@,
        )),
{
    text_is_what_bytes_encode(bytes@, text);
    if let Ok(t) = r {
        text_is_what_bytes_encode(bytes@, t@);
    }
}

/// Paths are joined with one slash between them, unless the first is empty or ends in one; an
/// absolute path stays as it is.
pub proof fn paths_are_joined_with_one_slash(base: &str, path: &str, r: String)
    requires
        call_ensures(join_path, (base, path), r),
    ensures
        path@.len() > 0 && path@[0] == '/' ==> r@ == path@,
        !(path@.len() > 0 && path@[0] == '/') && (base@.len() == 0 || base@.last() == '/') ==> r@
            == base@ + path@,
        !(path@.len() > 0 && path@[0] == '/') && base@.len() > 0 && base@.last() != '/' ==> r@
            == base@ + seq!['/'] + path@,
        r@ == path_below(base@, path@),
{
    assert(base@.push('/') =~= base@ + seq!['/']);
}

/// An application's entry: both files have to be there, the `entry` of the first goes before the
/// `path` of the second, and one of them has to be given.
pub proof fn entries_are_found_in_order(
    root: &str,
    about: &Option<String>,
    manifest: &Option<String>,
    r: Result<String, ShellError>,
)
    requires
        call_ensures(resolve_app_entry, (root, about, manifest), r),
    ensures
        *about is None ==> (r matches Err(e) && e@ == failure(
            ErrorKind::NotFound,
            root@ + ": app about.toml not found"@,
        )),
        *about is Some && *manifest is None ==> (r matches Err(e) && e@ == failure(
            ErrorKind::NotFound,
            root@ + ": app manifest.toml not found"@,
        )),
        (*about matches Some(a) && *manifest is Some && string_field(a@, "entry"@) is Some) ==> (
        r matches Ok(path) && path@ == path_below(root@, string_field((*about)->0@, "entry"@)->0)),
        (*about matches Some(a) && *manifest matches Some(m) && string_field(a@, "entry"@) is None
            && string_field(m@, "path"@) is Some) ==> (r matches Ok(path) && path@ == path_below(
            root@,
            string_field((*manifest)->0@, "path"@)->0,
        )),
        (*about matches Some(a) && *manifest matches Some(m) && string_field(a@, "entry"@) is None
            && string_field(m@, "path"@) is None) ==> (r matches Err(e) && e@ == failure(
            ErrorKind::InvalidData,
            root@ + ": app entry not found"@,
        )),
{
}

} // verus!
