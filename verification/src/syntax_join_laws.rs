//! What holds of command lines that are put together: a blank, a pipe or a comment between them.
use crate::syntax::{
    close_word, expansion, grow, lemma_expansion, lemma_skip_name, lemma_then_tokens, lex_from,
    lexed, name_char, parse_from, parsed, parsed_tokens, redirect_kind, skip_name, then_tokens,
    CommandView, Quote, TokenView,
};
use crate::text::{find_char, lemma_find_char, lemma_find_shifted, white_space};
use vstd::prelude::*;

verus! {

/// Whether the line has a comment at or behind index `i`, where the character at `i` stands in
/// the given quotes and a word has begun before it or not.
pub open spec fn comment_from(
    s: Seq<char>,
    i: int,
    quote: Quote,
    started: bool,
    vars: Seq<(Seq<char>, Seq<char>)>,
) -> bool
    decreases s.len() - i,
{
    if i < 0 || i >= s.len() {
        false
    } else {
        proof {
            lemma_expansion(s, i, vars);
        }
        let c = s[i];
        match quote {
            Quote::Single => if c == '\'' {
                comment_from(s, i + 1, Quote::Bare, started, vars)
            } else {
                comment_from(s, i + 1, Quote::Single, true, vars)
            },
            Quote::Double => if c == '"' {
                comment_from(s, i + 1, Quote::Bare, started, vars)
            } else if c == '\\' {
                i + 1 < s.len() && comment_from(s, i + 2, Quote::Double, true, vars)
            } else if c == '$' {
                match expansion(s, i, vars) {
                    Ok((_, next)) => comment_from(s, next, Quote::Double, true, vars),
                    Err(_) => false,
                }
            } else {
                comment_from(s, i + 1, Quote::Double, true, vars)
            },
            Quote::Bare => if c == '\'' {
                comment_from(s, i + 1, Quote::Single, true, vars)
            } else if c == '"' {
                comment_from(s, i + 1, Quote::Double, true, vars)
            } else if c == '\\' {
                i + 1 < s.len() && comment_from(s, i + 2, Quote::Bare, true, vars)
            } else if c == '$' {
                match expansion(s, i, vars) {
                    Ok((_, next)) => comment_from(s, next, Quote::Bare, true, vars),
                    Err(_) => false,
                }
            } else if c == '>' && i + 1 < s.len() && s[i + 1] == '>' {
                comment_from(s, i + 2, Quote::Bare, false, vars)
            } else if c == '|' || c == '<' || c == '>' {
                comment_from(s, i + 1, Quote::Bare, false, vars)
            } else if c == '#' && !started {
                true
            } else {
                comment_from(s, i + 1, Quote::Bare, !white_space(c), vars)
            },
        }
    }
}

/// Whether a line ends in a comment.
pub open spec fn has_comment(s: Seq<char>, vars: Seq<(Seq<char>, Seq<char>)>) -> bool {
    comment_from(s, 0, Quote::Bare, false, vars)
}

proof fn lemma_skip_name_joined(s: Seq<char>, n: int, i: int)
    requires
        0 <= i <= n < s.len(),
        !name_char(s[n]),
    ensures
        skip_name(s, i) == skip_name(s.take(n), i),
    decreases n - i,
{
    if i < n && name_char(s[i]) {
        lemma_skip_name_joined(s, n, i + 1);
    }
}

proof fn lemma_find_joined(s: Seq<char>, n: int, c: char, i: int)
    requires
        0 <= i <= n <= s.len(),
        find_char(s.take(n), c, i) < n,
    ensures
        find_char(s, c, i) == find_char(s.take(n), c, i),
    decreases n - i,
{
    if i < n && s[i] != c {
        lemma_find_joined(s, n, c, i + 1);
    }
}

/// What stands behind a character that belongs to no expansion does not change one before it.
proof fn lemma_expansion_joined(s: Seq<char>, n: int, i: int, vars: Seq<(Seq<char>, Seq<char>)>)
    requires
        0 <= i < n < s.len(),
        !name_char(s[n]),
        s[n] != '{',
        expansion(s.take(n), i, vars) is Ok,
    ensures
        expansion(s, i, vars) == expansion(s.take(n), i, vars),
        expansion(s, i, vars)->Ok_0.1 <= n,
{
    let a = s.take(n);
    let start = i + 1;
    lemma_expansion(a, i, vars);
    if start < n && s[start] == '{' {
        lemma_find_char(a, '}', start + 1);
        lemma_find_joined(s, n, '}', start + 1);
        let end = find_char(a, '}', start + 1);
        assert(a.subrange(start + 1, end) =~= s.subrange(start + 1, end));
    } else {
        lemma_skip_name_joined(s, n, start);
        lemma_skip_name(a, start);
        let end = skip_name(a, start);
        assert(a.subrange(start, end) =~= s.subrange(start, end));
    }
}

/// The tokens that a character between two lines gives.
spec fn between(c: char) -> Seq<TokenView> {
    if c == '|' {
        seq![TokenView::Pipe]
    } else {
        seq![]
    }
}

/// What stands behind a complete line and a blank or a pipe is read on its own, unless a comment
/// goes before it.
proof fn lemma_joined(
    s: Seq<char>,
    n: int,
    i: int,
    quote: Quote,
    word: Option<Seq<char>>,
    vars: Seq<(Seq<char>, Seq<char>)>,
)
    requires
        0 <= i <= n < s.len(),
        white_space(s[n]) || s[n] == '|',
        lex_from(s.take(n), i, quote, word, vars) is Ok,
    ensures
        lex_from(s, i, quote, word, vars) == (if comment_from(
            s.take(n),
            i,
            quote,
            word is Some,
            vars,
        ) {
            lex_from(s.take(n), i, quote, word, vars)
        } else {
            then_tokens(
                lex_from(s.take(n), i, quote, word, vars)->Ok_0 + between(s[n]),
                lex_from(s, n + 1, Quote::Bare, None, vars),
            )
        }),
    decreases n - i,
{
    let a = s.take(n);
    let rest = lex_from(s, n + 1, Quote::Bare, None, vars);
    if i == n {
        assert(quote is Bare);
        assert(close_word(word) + between(s[n]) =~= if s[n] == '|' {
            close_word(word).push(TokenView::Pipe)
        } else {
            close_word(word)
        });
    } else {
        let c = s[i];
        assert(a[i] == c);
        lemma_expansion(a, i, vars);
        if i + 1 < n {
            assert(a[i + 1] == s[i + 1]);
        }
        if !(quote is Single) && c == '$' {
            lemma_expansion_joined(s, n, i, vars);
            let (text, next) = expansion(a, i, vars)->Ok_0;
            lemma_joined(s, n, next, quote, grow(word, text), vars);
        } else if !(quote is Single) && c == '\\' {
            lemma_joined(s, n, i + 2, quote, grow(word, seq![s[i + 1]]), vars);
        } else {
            match quote {
                Quote::Single => {
                    if c == '\'' {
                        lemma_joined(s, n, i + 1, Quote::Bare, word, vars);
                    } else {
                        lemma_joined(s, n, i + 1, Quote::Single, grow(word, seq![c]), vars);
                    }
                },
                Quote::Double => {
                    if c == '"' {
                        lemma_joined(s, n, i + 1, Quote::Bare, word, vars);
                    } else {
                        lemma_joined(s, n, i + 1, Quote::Double, grow(word, seq![c]), vars);
                    }
                },
                Quote::Bare => {
                    if c == '\'' {
                        lemma_joined(s, n, i + 1, Quote::Single, grow(word, seq![]), vars);
                    } else if c == '"' {
                        lemma_joined(s, n, i + 1, Quote::Double, grow(word, seq![]), vars);
                    } else if c == '|' || c == '<' || c == '>' || white_space(c) {
                        let two = c == '>' && i + 1 < n && s[i + 1] == '>';
                        let step = if two {
                            2int
                        } else {
                            1int
                        };
                        let first = if c == '|' {
                            close_word(word).push(TokenView::Pipe)
                        } else if c == '<' {
                            close_word(word).push(TokenView::Input)
                        } else if two {
                            close_word(word).push(TokenView::Append)
                        } else if c == '>' {
                            close_word(word).push(TokenView::Output)
                        } else {
                            close_word(word)
                        };
                        lemma_joined(s, n, i + step, Quote::Bare, None, vars);
                        let tail = lex_from(a, i + step, Quote::Bare, None, vars);
                        assert(lex_from(a, i, quote, word, vars) == then_tokens(first, tail));
                        assert(lex_from(s, i, quote, word, vars) == then_tokens(
                            first,
                            lex_from(s, i + step, Quote::Bare, None, vars),
                        ));
                        lemma_then_tokens(first, tail->Ok_0 + between(s[n]), rest);
                        assert(first + (tail->Ok_0 + between(s[n])) =~= (first + tail->Ok_0)
                            + between(s[n]));
                    } else if c == '#' && word is None {
                    } else {
                        lemma_joined(s, n, i + 1, Quote::Bare, grow(word, seq![c]), vars);
                    }
                },
            }
        }
    }
}

proof fn lemma_skip_name_shifted(s: Seq<char>, rest: Seq<char>, d: int, i: int)
    requires
        0 <= d <= s.len(),
        s.skip(d) == rest,
        0 <= i,
    ensures
        skip_name(s, d + i) == d + skip_name(rest, i),
    decreases rest.len() - i,
{
    if i < rest.len() {
        assert(rest[i] == s[d + i]);
        if name_char(rest[i]) {
            lemma_skip_name_shifted(s, rest, d, i + 1);
        }
    }
}

proof fn lemma_expansion_shifted(
    s: Seq<char>,
    rest: Seq<char>,
    d: int,
    i: int,
    vars: Seq<(Seq<char>, Seq<char>)>,
)
    requires
        0 <= d <= s.len(),
        s.skip(d) == rest,
        0 <= i < rest.len(),
    ensures
        match expansion(rest, i, vars) {
            Ok((text, next)) => expansion(s, d + i, vars) == Ok::<(Seq<char>, int), Seq<char>>(
                (text, d + next),
            ),
            Err(e) => expansion(s, d + i, vars) == Err::<(Seq<char>, int), Seq<char>>(e),
        },
{
    let start = i + 1;
    assert(s.len() == d + rest.len());
    if start < rest.len() {
        assert(rest[start] == s[d + start]);
    }
    if start < rest.len() && rest[start] == '{' {
        lemma_find_shifted(s, rest, d, '}', start + 1);
        lemma_find_char(rest, '}', start + 1);
        let end = find_char(rest, '}', start + 1);
        assert(s.subrange(d + start + 1, d + end) =~= rest.subrange(start + 1, end));
    } else {
        lemma_skip_name_shifted(s, rest, d, start);
        lemma_skip_name(rest, start);
        let end = skip_name(rest, start);
        assert(s.subrange(d + start, d + end) =~= rest.subrange(start, end));
    }
}

/// The end of a line is read as it would be on its own.
proof fn lemma_shifted(
    s: Seq<char>,
    rest: Seq<char>,
    d: int,
    i: int,
    quote: Quote,
    word: Option<Seq<char>>,
    vars: Seq<(Seq<char>, Seq<char>)>,
)
    requires
        0 <= d <= s.len(),
        s.skip(d) == rest,
        0 <= i <= rest.len(),
    ensures
        lex_from(s, d + i, quote, word, vars) == lex_from(rest, i, quote, word, vars),
    decreases rest.len() - i,
{
    assert(s.len() == d + rest.len());
    if i < rest.len() {
        let c = rest[i];
        assert(s[d + i] == c);
        if i + 1 < rest.len() {
            assert(s[d + i + 1] == rest[i + 1]);
        }
        lemma_expansion(rest, i, vars);
        lemma_expansion_shifted(s, rest, d, i, vars);
        if !(quote is Single) && c == '$' {
            if let Ok((text, next)) = expansion(rest, i, vars) {
                lemma_shifted(s, rest, d, next, quote, grow(word, text), vars);
            }
        } else if !(quote is Single) && c == '\\' {
            if i + 1 < rest.len() {
                lemma_shifted(s, rest, d, i + 2, quote, grow(word, seq![rest[i + 1]]), vars);
            }
        } else {
            match quote {
                Quote::Single => {
                    lemma_shifted(s, rest, d, i + 1, Quote::Bare, word, vars);
                    lemma_shifted(s, rest, d, i + 1, Quote::Single, grow(word, seq![c]), vars);
                },
                Quote::Double => {
                    lemma_shifted(s, rest, d, i + 1, Quote::Bare, word, vars);
                    lemma_shifted(s, rest, d, i + 1, Quote::Double, grow(word, seq![c]), vars);
                },
                Quote::Bare => {
                    lemma_shifted(s, rest, d, i + 1, Quote::Single, grow(word, seq![]), vars);
                    lemma_shifted(s, rest, d, i + 1, Quote::Double, grow(word, seq![]), vars);
                    lemma_shifted(s, rest, d, i + 1, Quote::Bare, None, vars);
                    lemma_shifted(s, rest, d, i + 1, Quote::Bare, grow(word, seq![c]), vars);
                    if i + 1 < rest.len() {
                        lemma_shifted(s, rest, d, i + 2, Quote::Bare, None, vars);
                    }
                },
            }
        }
    }
}

/// A valid line, a blank and a second line give the tokens of both, or the error of the second.
/// A comment in the first line takes the second one in.
pub proof fn blank_joins_lines(
    first: Seq<char>,
    blank: char,
    second: Seq<char>,
    vars: Seq<(Seq<char>, Seq<char>)>,
)
    requires
        white_space(blank),
        lexed(first, vars) is Ok,
    ensures
        !has_comment(first, vars) ==> lexed(first + seq![blank] + second, vars) == then_tokens(
            lexed(first, vars)->Ok_0,
            lexed(second, vars),
        ),
        has_comment(first, vars) ==> lexed(first + seq![blank] + second, vars) == lexed(
            first,
            vars,
        ),
{
    let s = first + seq![blank] + second;
    let n = first.len() as int;
    assert(s.take(n) =~= first);
    assert(s[n] == blank);
    assert(s.skip(n + 1) =~= second);
    lemma_joined(s, n, 0, Quote::Bare, None, vars);
    lemma_shifted(s, second, n + 1, 0, Quote::Bare, None, vars);
    assert(lexed(first, vars)->Ok_0 + between(blank) =~= lexed(first, vars)->Ok_0);
}

/// A comment behind a valid line changes nothing: the line has the same tokens and stands for the
/// same pipeline, or is wrong in the same way.
pub proof fn comment_changes_nothing(
    line: Seq<char>,
    blank: char,
    comment: Seq<char>,
    vars: Seq<(Seq<char>, Seq<char>)>,
)
    requires
        white_space(blank),
        lexed(line, vars) is Ok,
    ensures
        lexed(line + seq![blank, '#'] + comment, vars) == lexed(line, vars),
        parsed(line + seq![blank, '#'] + comment, vars) == parsed(line, vars),
{
    let second = seq!['#'] + comment;
    blank_joins_lines(line, blank, second, vars);
    assert(line + seq![blank] + second =~= line + seq![blank, '#'] + comment);
    assert(second[0] == '#');
    assert(lexed(second, vars) == Ok::<Seq<TokenView>, Seq<char>>(seq![]));
    assert(lexed(line, vars)->Ok_0 + Seq::<TokenView>::empty() =~= lexed(line, vars)->Ok_0);
}

/// The tokens behind a pipe leave the commands before it as they are.
proof fn lemma_parse_joined(
    tokens: Seq<TokenView>,
    n: int,
    i: int,
    command: CommandView,
    done: Seq<CommandView>,
)
    requires
        0 <= i <= n < tokens.len(),
        tokens[n] is Pipe,
        parse_from(tokens.take(n), i, command, done) is Ok,
    ensures
        parse_from(tokens.take(n), i, command, done)->Ok_0.len() > 0 ==> parse_from(
            tokens,
            i,
            command,
            done,
        ) == parse_from(
            tokens,
            n + 1,
            CommandView::empty(),
            parse_from(tokens.take(n), i, command, done)->Ok_0,
        ),
        parse_from(tokens.take(n), i, command, done)->Ok_0.len() == 0 ==> parse_from(
            tokens,
            i,
            command,
            done,
        ) == Err::<Seq<CommandView>, Seq<char>>("expected a command before '|'"@),
    decreases n - i,
{
    let a = tokens.take(n);
    if i < n {
        assert(a[i] == tokens[i]);
        match tokens[i] {
            TokenView::Word(w) => {
                lemma_parse_joined(tokens, n, i + 1, command.with_word(w), done);
            },
            TokenView::Pipe => {
                lemma_parse_joined(tokens, n, i + 1, CommandView::empty(), done.push(command));
            },
            _ => {
                assert(i + 1 < n && a[i + 1] is Word);
                assert(a[i + 1] == tokens[i + 1]);
                lemma_parse_joined(
                    tokens,
                    n,
                    i + 2,
                    command.with_redirect(redirect_kind(tokens[i]), tokens[i + 1]->Word_0),
                    done,
                );
            },
        }
    }
}

/// The commands behind a pipe are those of the tokens behind it; the commands before it only stand
/// in front of them.
proof fn lemma_parse_shifted(
    tokens: Seq<TokenView>,
    rest: Seq<TokenView>,
    d: int,
    i: int,
    command: CommandView,
    before: Seq<CommandView>,
    done: Seq<CommandView>,
)
    requires
        0 <= d <= tokens.len(),
        tokens.skip(d) == rest,
        0 <= i <= rest.len(),
        before.len() > 0,
    ensures
        match parse_from(rest, i, command, done) {
            Ok(p) => parse_from(tokens, d + i, command, before + done) == (if p.len() > 0 {
                Ok::<Seq<CommandView>, Seq<char>>(before + p)
            } else {
                Err("expected a command after '|'"@)
            }),
            Err(e) => parse_from(tokens, d + i, command, before + done) == Err::<
                Seq<CommandView>,
                Seq<char>,
            >(e),
        },
    decreases rest.len() - i,
{
    assert(tokens.len() == d + rest.len());
    if i < rest.len() {
        assert(tokens[d + i] == rest[i]);
        if i + 1 < rest.len() {
            assert(tokens[d + i + 1] == rest[i + 1]);
        }
        match rest[i] {
            TokenView::Word(w) => {
                lemma_parse_shifted(tokens, rest, d, i + 1, command.with_word(w), before, done);
            },
            TokenView::Pipe => {
                assert((before + done).push(command) =~= before + done.push(command));
                lemma_parse_shifted(
                    tokens,
                    rest,
                    d,
                    i + 1,
                    CommandView::empty(),
                    before,
                    done.push(command),
                );
            },
            _ => {
                if i + 1 < rest.len() && rest[i + 1] is Word {
                    lemma_parse_shifted(
                        tokens,
                        rest,
                        d,
                        i + 2,
                        command.with_redirect(redirect_kind(rest[i]), rest[i + 1]->Word_0),
                        before,
                        done,
                    );
                }
            },
        }
    } else {
        assert((before + done).push(command) =~= before + done.push(command));
    }
}

/// Two lines joined by a pipe give the commands of both, in order. Where the second line is
/// wrong, the whole is wrong in the same way; and a line without a command on either side of the
/// pipe is an error. A comment in the first line takes the pipe and the second line in.
pub proof fn pipe_joins_lines(
    first: Seq<char>,
    second: Seq<char>,
    vars: Seq<(Seq<char>, Seq<char>)>,
)
    requires
        parsed(first, vars) is Ok,
    ensures
        has_comment(first, vars) ==> parsed(first + seq!['|'] + second, vars) == parsed(
            first,
            vars,
        ),
        !has_comment(first, vars) ==> parsed(first + seq!['|'] + second, vars) == (match lexed(
            second,
            vars,
        ) {
            Err(e) => Err::<Seq<CommandView>, Seq<char>>(e),
            Ok(_) => if parsed(first, vars)->Ok_0.len() == 0 {
                Err("expected a command before '|'"@)
            } else {
                match parsed(second, vars) {
                    Err(e) => Err(e),
                    Ok(p) => if p.len() == 0 {
                        Err("expected a command after '|'"@)
                    } else {
                        Ok(parsed(first, vars)->Ok_0 + p)
                    },
                }
            },
        }),
{
    let s = first + seq!['|'] + second;
    let n = first.len() as int;
    assert(s.take(n) =~= first);
    assert(s[n] == '|');
    assert(s.skip(n + 1) =~= second);
    lemma_joined(s, n, 0, Quote::Bare, None, vars);
    lemma_shifted(s, second, n + 1, 0, Quote::Bare, None, vars);
    if !has_comment(first, vars) {
        let t1 = lexed(first, vars)->Ok_0;
        assert(lexed(s, vars) == then_tokens(t1 + between('|'), lexed(second, vars)));
        if let Ok(t2) = lexed(second, vars) {
            let tokens = t1 + between('|') + t2;
            let m = t1.len() as int;
            assert(tokens.take(m) =~= t1);
            assert(tokens[m] is Pipe);
            assert(tokens.skip(m + 1) =~= t2);
            lemma_parse_joined(tokens, m, 0, CommandView::empty(), seq![]);
            let p1 = parsed_tokens(t1)->Ok_0;
            if p1.len() > 0 {
                lemma_parse_shifted(tokens, t2, m + 1, 0, CommandView::empty(), p1, seq![]);
                assert(p1 + Seq::<CommandView>::empty() =~= p1);
            }
        }
    }
}

} // verus!
