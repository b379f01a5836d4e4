//! What holds of every metadata file: a string that is written into one is read back.
use crate::error::ErrorView;
use crate::metadata::{
    app_entry, line_field, line_value, path_below, string_field, string_field_from,
    string_literal, unescape, unquote,
};
use crate::text::{
    find_char, lemma_char_found, lemma_find_char, lemma_find_shifted, lemma_white_tail,
    trim, trim_start, white_space, white_tail,
};
use crate::text_laws::lemma_skip_lead;
use vstd::prelude::*;

verus! {

/// A character as it is written between quotes.
pub open spec fn escaped_char(c: char) -> Seq<char> {
    if c == '"' || c == '\\' {
        seq!['\\', c]
    } else if c == '\n' {
        seq!['\\', 'n']
    } else if c == '\r' {
        seq!['\\', 'r']
    } else if c == '\t' {
        seq!['\\', 't']
    } else {
        seq![c]
    }
}

/// A text as it is written between quotes.
pub open spec fn escaped(s: Seq<char>) -> Seq<char>
    decreases s.len(),
{
    if s.len() == 0 {
        seq![]
    } else {
        escaped_char(s[0]) + escaped(s.drop_first())
    }
}

/// A text in quotes.
pub open spec fn in_quotes(s: Seq<char>) -> Seq<char> {
    seq!['"'] + escaped(s) + seq!['"']
}

proof fn lemma_unquote(v: Seq<char>, i: int, s: Seq<char>, read: Seq<char>)
    requires
        0 <= i,
        i + escaped(s).len() < v.len(),
        forall|k: int| 0 <= k < escaped(s).len() ==> v[i + k] == #[trigger] escaped(s)[k],
        v[i + escaped(s).len()] == '"',
    ensures
        unquote(v, i, read) == Some(read + s),
    decreases s.len(),
{
    if s.len() == 0 {
        assert(v[i + 0] == '"');
        assert(read + s =~= read);
    } else {
        let c = s[0];
        let rest = s.drop_first();
        let head = escaped_char(c);
        let n = head.len();
        assert(escaped(s) == head + escaped(rest));
        assert(v[i + 0] == escaped(s)[0]);
        if n == 2 {
            assert(v[i + 1] == escaped(s)[1]);
            assert(unescape(head[1]) == c);
        }
        assert forall|k: int| 0 <= k < escaped(rest).len() implies v[i + n + k]
            == #[trigger] escaped(rest)[k] by {
            assert(escaped(s)[n + k] == escaped(rest)[k]);
            assert(v[i + (n + k)] == escaped(s)[n + k]);
        }
        lemma_unquote(v, i + n, rest, read.push(c));
        assert(read.push(c) + rest =~= read + s);
    }
}

/// A text that ends in no white space keeps its end.
proof fn lemma_trim_keeps(s: Seq<char>, at: int)
    requires
        0 <= at < s.len(),
        !white_space(s[at]),
    ensures
        white_tail(s, s.len() as int) > at,
{
    lemma_white_tail(s, s.len() as int);
}

/// A string in quotes is read back, whatever white space stands before it and whatever stands
/// behind it.
pub proof fn string_literal_reads_back(blank: Seq<char>, s: Seq<char>, rest: Seq<char>)
    requires
        forall|i: int| 0 <= i < blank.len() ==> white_space(#[trigger] blank[i]),
    ensures
        string_literal(blank + in_quotes(s) + rest) == Some(s),
{
    let value = blank + in_quotes(s) + rest;
    let n = blank.len() as int;
    assert(value[n] == '"') by {
        assert(in_quotes(s)[0] == '"');
    }
    lemma_skip_lead(value, 0, n);
    let t = trim_start(value);
    assert(t =~= in_quotes(s) + rest);
    let close = escaped(s).len() + 1;
    assert(in_quotes(s)[close as int] == '"');
    assert(t[close as int] == '"');
    lemma_trim_keeps(t, close as int);
    lemma_white_tail(t, t.len() as int);
    let v = trim(value);
    assert(v.len() > close);
    assert(v[0] == '"') by {
        assert(in_quotes(s)[0] == '"');
    }
    assert forall|k: int| 0 <= k < escaped(s).len() implies v[1 + k] == #[trigger] escaped(
        s,
    )[k] by {
        assert(in_quotes(s)[k + 1] == escaped(s)[k]);
    }
    lemma_unquote(v, 1, s, seq![]);
    assert(Seq::<char>::empty() + s =~= s);
}

proof fn lemma_escaped_has_no_line_feed(s: Seq<char>)
    ensures
        forall|k: int| 0 <= k < escaped(s).len() ==> #[trigger] escaped(s)[k] != '\n',
    decreases s.len(),
{
    if s.len() > 0 {
        let rest = s.drop_first();
        let head = escaped_char(s[0]);
        lemma_escaped_has_no_line_feed(rest);
        assert forall|k: int| 0 <= k < escaped(s).len() implies #[trigger] escaped(s)[k]
            != '\n' by {
            if k >= head.len() {
                assert(escaped(s)[k] == escaped(rest)[k - head.len()]);
            }
        }
    }
}

proof fn lemma_no_char_before_end(s: Seq<char>, c: char, i: int)
    requires
        0 <= i <= s.len(),
        forall|k: int| i <= k < s.len() ==> s[k] != c,
    ensures
        find_char(s, c, i) == s.len(),
    decreases s.len() - i,
{
    if i < s.len() {
        lemma_no_char_before_end(s, c, i + 1);
    }
}

/// Whether a text can name a value: it is not empty, holds no equals sign and no line feed, and
/// has no white space at its ends.
pub open spec fn is_key(key: Seq<char>) -> bool {
    &&& key.len() > 0
    &&& !white_space(key[0])
    &&& !white_space(key.last())
    &&& forall|i: int| 0 <= i < key.len() ==> #[trigger] key[i] != '=' && key[i] != '\n'
}

/// A line that gives a string to a key, written with one space on either side of the equals sign.
pub open spec fn field_line(key: Seq<char>, s: Seq<char>) -> Seq<char> {
    key + seq![' ', '=', ' '] + in_quotes(s)
}

proof fn lemma_field_line(key: Seq<char>, s: Seq<char>)
    requires
        is_key(key),
    ensures
        line_field(field_line(key, s)) == Some(key),
        string_literal(line_value(field_line(key, s))) == Some(s),
        forall|k: int| 0 <= k < field_line(key, s).len() ==> #[trigger] field_line(key, s)[k]
            != '\n',
{
    let line = field_line(key, s);
    let n = key.len() as int;
    let gap = seq![' ', '=', ' '];
    lemma_escaped_has_no_line_feed(s);
    assert forall|k: int| 0 <= k < line.len() implies #[trigger] line[k] != '\n' by {
        if k < n {
            assert(line[k] == key[k]);
        } else if k < n + 3 {
            assert(line[k] == gap[k - n]);
        } else {
            assert(line[k] == in_quotes(s)[k - n - 3]);
            if 0 < k - n - 3 < in_quotes(s).len() - 1 {
                assert(in_quotes(s)[k - n - 3] == escaped(s)[k - n - 4]);
            }
        }
    }
    // The line has no white space at its ends.
    assert(line[0] == key[0]);
    lemma_skip_lead(line, 0, 0);
    assert(trim_start(line) =~= line);
    assert(line.last() == in_quotes(s).last());
    lemma_trim_keeps(line, line.len() - 1);
    lemma_white_tail(line, line.len() as int);
    let t = trim(line);
    assert(t =~= line);
    // The first equals sign is the one behind the key.
    assert forall|k: int| 0 <= k < n + 1 implies t[k] != '=' by {
        if k < n {
            assert(t[k] == key[k]);
        } else {
            assert(t[k] == gap[0]);
        }
    }
    assert(t[n + 1] == gap[1]);
    lemma_char_found(t, '=', 0, n + 1);
    // The key is what stands before it, without the space.
    let field = t.take(n + 1);
    assert(field =~= key.push(' '));
    assert(field[0] == key[0]);
    lemma_skip_lead(field, 0, 0);
    assert(trim_start(field) =~= field);
    lemma_trim_keeps(field, n - 1);
    lemma_white_tail(field, n + 1);
    assert(field[n] == ' ');
    assert(trim(field) =~= key);
    // The value is what stands behind it.
    let blank = seq![' '];
    assert(line_value(line) =~= blank + in_quotes(s) + Seq::<char>::empty());
    string_literal_reads_back(blank, s, seq![]);
}

/// A file whose first line gives a string to a key has that string under the key, whatever lines
/// follow and where none follows.
pub proof fn string_field_reads_back(key: Seq<char>, s: Seq<char>, rest: Seq<char>)
    requires
        is_key(key),
    ensures
        string_field(field_line(key, s) + seq!['\n'] + rest, key) == Some(s),
        string_field(field_line(key, s), key) == Some(s),
{
    let line = field_line(key, s);
    let content = line + seq!['\n'] + rest;
    lemma_field_line(key, s);
    let n = line.len() as int;
    assert(content[n] == '\n');
    assert forall|k: int| 0 <= k < n implies content[k] != '\n' by {
        assert(content[k] == line[k]);
    }
    lemma_char_found(content, '\n', 0, n);
    assert(content.subrange(0, n) =~= line);
    lemma_no_char_before_end(line, '\n', 0);
    assert(line.subrange(0, n) =~= line);
}

/// A line that gives no value to the key does not matter.
pub proof fn other_lines_do_not_matter(line: Seq<char>, rest: Seq<char>, key: Seq<char>)
    requires
        forall|i: int| 0 <= i < line.len() ==> #[trigger] line[i] != '\n',
        line_field(line) != Some(key),
    ensures
        string_field(line + seq!['\n'] + rest, key) == string_field(rest, key),
{
    let content = line + seq!['\n'] + rest;
    let n = line.len() as int;
    assert(content[n] == '\n');
    assert forall|k: int| 0 <= k < n implies content[k] != '\n' by {
        assert(content[k] == line[k]);
    }
    lemma_char_found(content, '\n', 0, n);
    assert(content.subrange(0, n) =~= line);
    lemma_shifted(content, rest, n + 1, 0, key);
}

proof fn lemma_shifted(s: Seq<char>, rest: Seq<char>, d: int, i: int, key: Seq<char>)
    requires
        0 <= d <= s.len(),
        s.skip(d) =~= rest,
        0 <= i <= rest.len(),
    ensures
        string_field_from(s, d + i, key) == string_field_from(rest, i, key),
    decreases rest.len() - i,
{
    if i < rest.len() {
        lemma_find_char(rest, '\n', i);
        lemma_find_shifted(s, rest, d, '\n', i);
        let end = find_char(rest, '\n', i);
        assert(s.subrange(d + i, d + end) =~= rest.subrange(i, end));
        if end < rest.len() {
            lemma_shifted(s, rest, d, end + 1, key);
        }
    }
}

/// The entry that `about.toml` names goes before the path that `manifest.toml` names; both files
/// have to be there even so.
pub proof fn about_goes_before_manifest(
    app_root: Seq<char>,
    about: Seq<char>,
    m1: Seq<char>,
    m2: Seq<char>,
)
    requires
        string_field(about, "entry"@) is Some,
    ensures
        app_entry(app_root, Some(about), Some(m1)) == app_entry(app_root, Some(about), Some(m2)),
        app_entry(app_root, Some(about), Some(m1)) is Ok,
        app_entry(app_root, Some(about), None) is Err,
{
}

/// An application starts with the entry that its `about.toml` gives in its first line, and where
/// that file names none, with the path that its `manifest.toml` gives so.
pub proof fn application_starts_with_its_entry(
    app_root: Seq<char>,
    entry: Seq<char>,
    rest: Seq<char>,
    other: Seq<char>,
)
    ensures
        app_entry(app_root, Some(field_line("entry"@, entry) + seq!['\n'] + rest), Some(other))
            == Ok::<Seq<char>, ErrorView>(path_below(app_root, entry)),
        string_field(other, "entry"@) is None ==> app_entry(
            app_root,
            Some(other),
            Some(field_line("path"@, entry) + seq!['\n'] + rest),
        ) == Ok::<Seq<char>, ErrorView>(path_below(app_root, entry)),
{
    reveal_strlit("entry");
    reveal_strlit("path");
    assert(is_key("entry"@));
    assert(is_key("path"@));
    string_field_reads_back("entry"@, entry, rest);
    string_field_reads_back("path"@, entry, rest);
}

/// An absolute entry is taken as it stands; any other lies below the directory of the
/// application.
pub proof fn entry_is_absolute_or_below(base: Seq<char>, entry: Seq<char>)
    ensures
        entry.len() > 0 && entry[0] == '/' ==> path_below(base, entry) == entry,
        !(entry.len() > 0 && entry[0] == '/') ==> base.is_prefix_of(path_below(base, entry)),
{
    if !(entry.len() > 0 && entry[0] == '/') {
        assert(base =~= path_below(base, entry).subrange(0, base.len() as int));
    }
}

} // verus!
