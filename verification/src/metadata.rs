//! The metadata of an application: the two small files in its directory, and the program that
//! they name as its entry.
use crate::error::{failure, ErrorKind, ErrorView, ShellError};
use crate::text::{
    char_index, chars_of, find_char, lemma_find_char, same_chars, trim, trimmed, utf8_str,
    utf8_text,
};
use vstd::prelude::*;
use vstd::string::*;

verus! {

/// The most bytes that a metadata file may hold.
pub const MAX_APP_METADATA_BYTES: usize = 65536;

/// The character that a backslash and `c` stand for between quotes.
pub open spec fn unescape(c: char) -> char {
    if c == 'n' {
        '\n'
    } else if c == 'r' {
        '\r'
    } else if c == 't' {
        '\t'
    } else {
        c
    }
}

/// The text between index `i` and the next quote that no backslash precedes, with its escapes
/// resolved, behind `read`. `None` where no such quote follows.
pub open spec fn unquote(s: Seq<char>, i: int, read: Seq<char>) -> Option<Seq<char>>
    decreases s.len() - i,
{
    if i < 0 || i >= s.len() {
        None
    } else if s[i] == '"' {
        Some(read)
    } else if s[i] == '\\' {
        if i + 1 < s.len() {
            unquote(s, i + 2, read.push(unescape(s[i + 1])))
        } else {
            None
        }
    } else {
        unquote(s, i + 1, read.push(s[i]))
    }
}

/// The string that a value stands for: white space, then a quoted text. What follows the closing
/// quote does not matter.
pub open spec fn string_literal(value: Seq<char>) -> Option<Seq<char>> {
    let v = trim(value);
    if v.len() > 0 && v[0] == '"' {
        unquote(v, 1, seq![])
    } else {
        None
    }
}

/// The name that a line gives a value to: what stands before its first equals sign, without the
/// white space around it. `None` where the line has no equals sign.
pub open spec fn line_field(line: Seq<char>) -> Option<Seq<char>> {
    let t = trim(line);
    let at = find_char(t, '=', 0);
    if at < t.len() {
        Some(trim(t.take(at)))
    } else {
        None
    }
}

/// What stands behind the first equals sign of a line.
pub open spec fn line_value(line: Seq<char>) -> Seq<char> {
    let t = trim(line);
    t.skip(find_char(t, '=', 0) + 1)
}

/// The string that the first line at or after index `i` with the given name stands for.
///
/// A line ends at a line feed. A carriage return before it is white space at the end of the line,
/// and so has no meaning.
pub open spec fn string_field_from(s: Seq<char>, i: int, key: Seq<char>) -> Option<Seq<char>>
    decreases s.len() - i,
{
    if i < 0 || i >= s.len() {
        None
    } else {
        let end = find_char(s, '\n', i);
        let line = s.subrange(i, end);
        proof {
            lemma_find_char(s, '\n', i);
        }
        if line_field(line) == Some(key) {
            string_literal(line_value(line))
        } else if end < s.len() {
            string_field_from(s, end + 1, key)
        } else {
            None
        }
    }
}

/// The string that the first line with the given name stands for.
pub open spec fn string_field(s: Seq<char>, key: Seq<char>) -> Option<Seq<char>> {
    string_field_from(s, 0, key)
}

fn string_literal_of(value: &[char]) -> (r: Option<String>)
    ensures
        match string_literal(value@) {
            Some(t) => r matches Some(s) && s@ == t,
            None => r is None,
        },
{
    let v = trimmed(value);
    if v.len() == 0 || v[0] != '"' {
        return None;
    }
    let mut output = String::new();
    let mut i: usize = 1;
    while i < v.len()
        invariant
            v@ == trim(value@),
            i <= v@.len(),
            string_literal(value@) == unquote(v@, i as int, output@),
        decreases v@.len() - i,
    {
        let c = v[i];
        if c == '"' {
            return Some(output);
        }
        if c == '\\' {
            i = i + 1;
            if i == v.len() {
                return None;
            }
            let e = v[i];
            if e == 'n' {
                output.push('\n');
            } else if e == 'r' {
                output.push('\r');
            } else if e == 't' {
                output.push('\t');
            } else {
                output.push(e);
            }
        } else {
            output.push(c);
        }
        i = i + 1;
    }
    None
}

/// Reads a quoted string, with its escapes resolved.
pub fn parse_toml_string_literal(value: &str) -> (r: Option<String>)
    ensures
        match string_literal(value@) {
            Some(t) => r matches Some(s) && s@ == t,
            None => r is None,
        },
{
    string_literal_of(chars_of(value).as_slice())
}

/// Reads the string that the first line for `key` gives it.
pub fn parse_toml_string_field(content: &str, key: &str) -> (r: Option<String>)
    ensures
        match string_field(content@, key@) {
            Some(t) => r matches Some(s) && s@ == t,
            None => r is None,
        },
{
    let chars = chars_of(content);
    let s = chars.as_slice();
    let name = chars_of(key);
    let mut i: usize = 0;
    while i < s.len()
        invariant
            s@ == content@,
            name@ == key@,
            i <= s@.len(),
            string_field(content@, key@) == string_field_from(s@, i as int, key@),
        decreases s@.len() - i,
    {
        let end = char_index(s, '\n', i);
        let line = trimmed(&s[i..end]);
        let at = char_index(line, '=', 0);
        if at < line.len() {
            let field = &line[0..at];
            assert(field@ =~= line@.take(at as int));
            if same_chars(trimmed(field), name.as_slice()) {
                let value = &line[at + 1..line.len()];
                assert(value@ =~= line@.skip(at + 1));
                return string_literal_of(value);
            }
        }
        if end == s.len() {
            return None;
        }
        i = end + 1;
    }
    None
}

/// What a file of at most `max_bytes` bytes holds as text, or what is wrong with it.
pub open spec fn text_within(path: Seq<char>, bytes: Seq<u8>, max_bytes: int) -> Result<
    Seq<char>,
    ErrorView,
> {
    if bytes.len() > max_bytes {
        Err(failure(ErrorKind::InvalidData, path + ": app metadata too large"@))
    } else {
        match utf8_text(bytes) {
            Some(text) => Ok(text),
            None => Err(failure(ErrorKind::InvalidData, path + ": invalid utf-8"@)),
        }
    }
}

/// Takes what was read of a file as text. Of a file that is too long, one byte more than
/// `max_bytes` is enough to find that out.
pub fn bounded_text(path: &str, bytes: &[u8], max_bytes: usize) -> (r: Result<String, ShellError>)
    ensures
        match text_within(path@, bytes@, max_bytes as int) {
            Ok(t) => r matches Ok(s) && s@ == t,
            Err(e) => r matches Err(m) && m@ == e,
        },
{
    if bytes.len() > max_bytes {
        let message = path.to_string().concat(": app metadata too large");
        return Err(ShellError::new(ErrorKind::InvalidData, message.as_str()));
    }
    match utf8_str(bytes) {
        Some(text) => Ok(text.to_string()),
        None => {
            let message = path.to_string().concat(": invalid utf-8");
            Err(ShellError::new(ErrorKind::InvalidData, message.as_str()))
        },
    }
}

/// `path` below the directory `base`; an absolute `path` stays as it is.
pub open spec fn path_below(base: Seq<char>, path: Seq<char>) -> Seq<char> {
    if path.len() > 0 && path[0] == '/' {
        path
    } else if base.len() == 0 || base.last() == '/' {
        base + path
    } else {
        base.push('/') + path
    }
}

/// Joins two paths.
pub fn join_path(base: &str, path: &str) -> (r: String)
    ensures
        r@ == path_below(base@, path@),
{
    let b = chars_of(base);
    let p = chars_of(path);
    if p.len() > 0 && p[0] == '/' {
        return path.to_string();
    }
    let mut r = base.to_string();
    if b.len() > 0 && b[b.len() - 1] != '/' {
        r.push('/');
    }
    r.append(path);
    r
}

/// The program that an application starts with: the `entry` of its `about.toml`, or else the
/// `path` of its `manifest.toml`, taken below the application's directory.
///
/// A file that could not be read as text is given as `None`.
pub open spec fn app_entry(
    app_root: Seq<char>,
    about: Option<Seq<char>>,
    manifest: Option<Seq<char>>,
) -> Result<Seq<char>, ErrorView> {
    match (about, manifest) {
        (None, _) => Err(
            failure(ErrorKind::NotFound, app_root + ": app about.toml not found"@),
        ),
        (Some(_), None) => Err(
            failure(ErrorKind::NotFound, app_root + ": app manifest.toml not found"@),
        ),
        (Some(a), Some(m)) => match string_field(a, "entry"@) {
            Some(entry) => Ok(path_below(app_root, entry)),
            None => match string_field(m, "path"@) {
                Some(entry) => Ok(path_below(app_root, entry)),
                None => Err(
                    failure(ErrorKind::InvalidData, app_root + ": app entry not found"@),
                ),
            },
        },
    }
}

/// The text of an optional string.
pub open spec fn text_of(s: Option<String>) -> Option<Seq<char>> {
    match s {
        Some(t) => Some(t@),
        None => None,
    }
}

/// Finds the program that an application starts with, from the texts of its two metadata files.
pub fn resolve_app_entry(
    app_root: &str,
    about: &Option<String>,
    manifest: &Option<String>,
) -> (r: Result<String, ShellError>)
    ensures
        match app_entry(app_root@, text_of(*about), text_of(*manifest)) {
            Ok(t) => r matches Ok(s) && s@ == t,
            Err(e) => r matches Err(m) && m@ == e,
        },
{
    let about = match about {
        Some(text) => text,
        None => {
            let message = app_root.to_string().concat(": app about.toml not found");
            return Err(ShellError::new(ErrorKind::NotFound, message.as_str()));
        },
    };
    let manifest = match manifest {
        Some(text) => text,
        None => {
            let message = app_root.to_string().concat(": app manifest.toml not found");
            return Err(ShellError::new(ErrorKind::NotFound, message.as_str()));
        },
    };
    let entry = match parse_toml_string_field(about.as_str(), "entry") {
        Some(entry) => entry,
        None => match parse_toml_string_field(manifest.as_str(), "path") {
            Some(entry) => entry,
            None => {
                let message = app_root.to_string().concat(": app entry not found");
                return Err(ShellError::new(ErrorKind::InvalidData, message.as_str()));
            },
        },
    };
    Ok(join_path(app_root, entry.as_str()))
}

} // verus!
