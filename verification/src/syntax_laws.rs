//! What holds of every command line: how text is protected from the lexer, and what shape a
//! pipeline has.
use crate::syntax::{
    close_word, expansion, grow, lex_from, lexed, name_char, parse_from, parsed, parsed_tokens,
    redirect_kind, skip_name, then_tokens, valid_name, variable, CommandView, Quote, RedirectKind,
    RedirectView, TokenView,
};
use crate::text::{lemma_char_found, white_space};
use vstd::prelude::*;

verus! {

/// Every command of a parsed command line has a name: its list of arguments is not empty.
pub proof fn every_command_has_arguments(s: Seq<char>, vars: Seq<(Seq<char>, Seq<char>)>)
    ensures
        parsed(s, vars) matches Ok(p) ==> forall|i: int|
            0 <= i < p.len() ==> (#[trigger] p[i]).argv.len() > 0,
{
    if let Ok(tokens) = lexed(s, vars) {
        lemma_commands_have_arguments(tokens, 0, CommandView::empty(), seq![]);
    }
}

proof fn lemma_commands_have_arguments(
    tokens: Seq<TokenView>,
    i: int,
    command: CommandView,
    done: Seq<CommandView>,
)
    requires
        forall|k: int| 0 <= k < done.len() ==> (#[trigger] done[k]).argv.len() > 0,
    ensures
        parse_from(tokens, i, command, done) matches Ok(p) ==> forall|k: int|
            0 <= k < p.len() ==> (#[trigger] p[k]).argv.len() > 0,
    decreases tokens.len() - i,
{
    if 0 <= i < tokens.len() {
        match tokens[i] {
            TokenView::Word(w) => {
                lemma_commands_have_arguments(tokens, i + 1, command.with_word(w), done);
            },
            TokenView::Pipe => {
                if command.argv.len() > 0 {
                    lemma_commands_have_arguments(
                        tokens,
                        i + 1,
                        CommandView::empty(),
                        done.push(command),
                    );
                }
            },
            _ => {
                if i + 1 < tokens.len() && tokens[i + 1] is Word {
                    lemma_commands_have_arguments(
                        tokens,
                        i + 2,
                        command.with_redirect(redirect_kind(tokens[i]), tokens[i + 1]->Word_0),
                        done,
                    );
                }
            },
        }
    }
}

/// How many of the tokens from index `i` on are pipes.
pub open spec fn pipes_from(tokens: Seq<TokenView>, i: int) -> nat
    decreases tokens.len() - i,
{
    if 0 <= i < tokens.len() {
        pipes_from(tokens, i + 1) + (if tokens[i] is Pipe {
            1nat
        } else {
            0nat
        })
    } else {
        0
    }
}

/// A pipeline has one command more than it has pipes, or it has neither.
pub proof fn one_command_more_than_pipes(tokens: Seq<TokenView>)
    ensures
        parsed_tokens(tokens) matches Ok(p) ==> p.len() == pipes_from(tokens, 0) + 1 || (p.len()
            == 0 && pipes_from(tokens, 0) == 0),
{
    lemma_commands_and_pipes(tokens, 0, CommandView::empty(), seq![]);
}

proof fn lemma_commands_and_pipes(
    tokens: Seq<TokenView>,
    i: int,
    command: CommandView,
    done: Seq<CommandView>,
)
    ensures
        parse_from(tokens, i, command, done) matches Ok(p) ==> p.len() == done.len() + pipes_from(
            tokens,
            i,
        ) + 1 || (p.len() == 0 && done.len() == 0 && pipes_from(tokens, i) == 0),
    decreases tokens.len() - i,
{
    if 0 <= i < tokens.len() {
        match tokens[i] {
            TokenView::Word(w) => {
                lemma_commands_and_pipes(tokens, i + 1, command.with_word(w), done);
            },
            TokenView::Pipe => {
                lemma_commands_and_pipes(tokens, i + 1, CommandView::empty(), done.push(command));
            },
            _ => {
                if i + 1 < tokens.len() && tokens[i + 1] is Word {
                    lemma_commands_and_pipes(
                        tokens,
                        i + 2,
                        command.with_redirect(redirect_kind(tokens[i]), tokens[i + 1]->Word_0),
                        done,
                    );
                    assert(pipes_from(tokens, i + 1) == pipes_from(tokens, i + 2));
                }
            },
        }
    }
}

/// A text between single quotes: a quote in it is written as the end of the quotes, an escaped
/// quote, and their beginning again.
pub open spec fn quoted_body(w: Seq<char>) -> Seq<char>
    decreases w.len(),
{
    if w.len() == 0 {
        seq![]
    } else if w[0] == '\'' {
        seq!['\'', '\\', '\'', '\''] + quoted_body(w.drop_first())
    } else {
        seq![w[0]] + quoted_body(w.drop_first())
    }
}

/// A text in single quotes.
pub open spec fn quoted(w: Seq<char>) -> Seq<char> {
    seq!['\''] + quoted_body(w) + seq!['\'']
}

/// A token as it can be written in a command line, with a space behind it.
pub open spec fn written(token: TokenView) -> Seq<char> {
    match token {
        TokenView::Word(w) => quoted(w).push(' '),
        TokenView::Pipe => seq!['|', ' '],
        TokenView::Input => seq!['<', ' '],
        TokenView::Output => seq!['>', ' '],
        TokenView::Append => seq!['>', '>', ' '],
    }
}

/// Tokens as they can be written in a command line.
pub open spec fn written_line(tokens: Seq<TokenView>) -> Seq<char>
    decreases tokens.len(),
{
    if tokens.len() == 0 {
        seq![]
    } else {
        written(tokens[0]) + written_line(tokens.drop_first())
    }
}

/// Whether `part` stands in `s` from index `i` on.
spec fn stands_at(s: Seq<char>, i: int, part: Seq<char>) -> bool {
    &&& 0 <= i
    &&& i + part.len() <= s.len()
    &&& s.subrange(i, i + part.len()) == part
}

proof fn lemma_stands_at(s: Seq<char>, i: int, a: Seq<char>, b: Seq<char>)
    requires
        stands_at(s, i, a + b),
    ensures
        stands_at(s, i, a),
        stands_at(s, i + a.len(), b),
{
    let part = s.subrange(i, i + (a + b).len());
    assert(s.subrange(i, i + a.len()) =~= part.subrange(0, a.len() as int));
    assert((a + b).subrange(0, a.len() as int) =~= a);
    assert(s.subrange(i + a.len(), i + a.len() + b.len()) =~= part.subrange(
        a.len() as int,
        (a + b).len() as int,
    ));
    assert((a + b).subrange(a.len() as int, (a + b).len() as int) =~= b);
}

proof fn lemma_chars_at(s: Seq<char>, i: int, part: Seq<char>)
    requires
        stands_at(s, i, part),
    ensures
        forall|k: int| 0 <= k < part.len() ==> s[i + k] == #[trigger] part[k],
{
    assert forall|k: int| 0 <= k < part.len() implies s[i + k] == #[trigger] part[k] by {
        assert(s.subrange(i, i + part.len())[k] == s[i + k]);
    }
}

/// Inside single quotes the written form of `w` adds exactly `w`.
proof fn lemma_quoted_body(
    s: Seq<char>,
    i: int,
    w: Seq<char>,
    before: Seq<char>,
    vars: Seq<(Seq<char>, Seq<char>)>,
)
    requires
        stands_at(s, i, quoted_body(w).push('\'')),
    ensures
        lex_from(s, i, Quote::Single, Some(before), vars) == lex_from(
            s,
            i + quoted_body(w).len() + 1,
            Quote::Bare,
            Some(before + w),
            vars,
        ),
    decreases w.len(),
{
    lemma_chars_at(s, i, quoted_body(w).push('\''));
    if w.len() == 0 {
        assert(quoted_body(w).push('\'')[0] == '\'');
        assert(s[i + 0] == '\'');
        assert(before + w =~= before);
    } else {
        let rest = w.drop_first();
        if w[0] == '\'' {
            let head = seq!['\'', '\\', '\'', '\''];
            let part = quoted_body(w).push('\'');
            assert(part =~= head + quoted_body(rest).push('\''));
            lemma_stands_at(s, i, head, quoted_body(rest).push('\''));
            assert(part[0] == '\'' && part[1] == '\\' && part[2] == '\'' && part[3] == '\'');
            assert(s[i + 0] == '\'' && s[i + 1] == '\\' && s[i + 2] == '\'' && s[i + 3] == '\'');
            let more = before + seq!['\''];
            assert(lex_from(s, i, Quote::Single, Some(before), vars) == lex_from(
                s,
                i + 1,
                Quote::Bare,
                Some(before),
                vars,
            ));
            assert(lex_from(s, i + 1, Quote::Bare, Some(before), vars) == lex_from(
                s,
                i + 3,
                Quote::Bare,
                Some(more),
                vars,
            ));
            assert(more + Seq::<char>::empty() =~= more);
            assert(lex_from(s, i + 3, Quote::Bare, Some(more), vars) == lex_from(
                s,
                i + 4,
                Quote::Single,
                Some(more),
                vars,
            ));
            lemma_quoted_body(s, i + 4, rest, more, vars);
            assert(more + rest =~= before + w);
        } else {
            let head = seq![w[0]];
            let part = quoted_body(w).push('\'');
            assert(part =~= head + quoted_body(rest).push('\''));
            lemma_stands_at(s, i, head, quoted_body(rest).push('\''));
            assert(part[0] == w[0]);
            assert(s[i + 0] == w[0]);
            let more = before + head;
            assert(lex_from(s, i, Quote::Single, Some(before), vars) == lex_from(
                s,
                i + 1,
                Quote::Single,
                Some(more),
                vars,
            ));
            lemma_quoted_body(s, i + 1, rest, more, vars);
            assert(more + rest =~= before + w);
        }
    }
}

/// A quoted text goes into the word that is being collected, unchanged.
proof fn lemma_quoted(
    s: Seq<char>,
    i: int,
    w: Seq<char>,
    word: Option<Seq<char>>,
    vars: Seq<(Seq<char>, Seq<char>)>,
)
    requires
        stands_at(s, i, quoted(w)),
    ensures
        lex_from(s, i, Quote::Bare, word, vars) == lex_from(
            s,
            i + quoted(w).len(),
            Quote::Bare,
            grow(word, w),
            vars,
        ),
{
    let tail = quoted_body(w).push('\'');
    assert(quoted(w) =~= seq!['\''] + tail);
    lemma_stands_at(s, i, seq!['\''], tail);
    lemma_chars_at(s, i, quoted(w));
    assert(quoted(w)[0] == '\'');
    assert(s[i + 0] == '\'');
    let before = grow(word, seq![])->0;
    lemma_quoted_body(s, i + 1, w, before, vars);
    assert(before + w =~= grow(word, w)->0);
}

/// Text in single quotes is taken as it stands: no character in it has a meaning of its own. (A
/// quote in it is written as [`quoted_body`] says.)
pub proof fn single_quotes_keep_text(w: Seq<char>, vars: Seq<(Seq<char>, Seq<char>)>)
    ensures
        lexed(quoted(w), vars) == Ok::<Seq<TokenView>, Seq<char>>(seq![TokenView::Word(w)]),
{
    let s = quoted(w);
    assert(s.subrange(0, s.len() as int) =~= s);
    lemma_quoted(s, 0, w, None, vars);
}

proof fn lemma_written_line(
    s: Seq<char>,
    i: int,
    tokens: Seq<TokenView>,
    vars: Seq<(Seq<char>, Seq<char>)>,
)
    requires
        stands_at(s, i, written_line(tokens)),
    ensures
        lex_from(s, i, Quote::Bare, None, vars) == then_tokens(
            tokens,
            lex_from(s, i + written_line(tokens).len(), Quote::Bare, None, vars),
        ),
    decreases tokens.len(),
{
    let end = lex_from(s, i + written_line(tokens).len(), Quote::Bare, None, vars);
    if tokens.len() == 0 {
        if let Ok(after) = end {
            assert(tokens + after =~= after);
        }
    } else {
        let token = tokens[0];
        let rest = tokens.drop_first();
        let next = i + written(token).len();
        lemma_stands_at(s, i, written(token), written_line(rest));
        lemma_chars_at(s, i, written(token));
        lemma_written_line(s, next, rest, vars);
        let following = lex_from(s, next, Quote::Bare, None, vars);
        if let Ok(after) = end {
            assert(seq![token] + (rest + after) =~= tokens + after);
        }
        assert(then_tokens(seq![token], following) == then_tokens(tokens, end));
        if let Ok(after) = following {
            assert(Seq::<TokenView>::empty() + after =~= after);
        }
        match token {
            TokenView::Word(w) => {
                assert(written(token) =~= quoted(w) + seq![' ']);
                lemma_stands_at(s, i, quoted(w), seq![' ']);
                lemma_quoted(s, i, w, None, vars);
                assert(written(token)[quoted(w).len() as int] == ' ');
                assert(s[next - 1] == ' ');
            },
            TokenView::Append => {
                assert(written(token)[0] == '>' && written(token)[1] == '>' && written(token)[2]
                    == ' ');
                assert(s[i + 0] == '>' && s[i + 1] == '>' && s[i + 2] == ' ');
                assert(lex_from(s, i + 2, Quote::Bare, None, vars) == then_tokens(
                    close_word(None),
                    following,
                ));
                assert(close_word(None).push(token) =~= seq![token]);
            },
            _ => {
                assert(written(token)[1] == ' ');
                assert(written(token)[0] == s[i + 0]);
                assert(s[i + 1] == ' ');
                assert(lex_from(s, i + 1, Quote::Bare, None, vars) == then_tokens(
                    close_word(None),
                    following,
                ));
                assert(close_word(None).push(token) =~= seq![token]);
            },
        }
    }
}

/// Every list of tokens can be written as a command line, and is read back from it unchanged,
/// whatever the variables are.
pub proof fn tokens_read_back(tokens: Seq<TokenView>, vars: Seq<(Seq<char>, Seq<char>)>)
    ensures
        lexed(written_line(tokens), vars) == Ok::<Seq<TokenView>, Seq<char>>(tokens),
{
    let s = written_line(tokens);
    assert(s.subrange(0, s.len() as int) =~= s);
    lemma_written_line(s, 0, tokens, vars);
    assert(tokens + Seq::<TokenView>::empty() =~= tokens);
}

/// A quote that is opened behind a complete line and not closed again makes the line invalid.
pub proof fn open_quote_is_rejected(
    tokens: Seq<TokenView>,
    text: Seq<char>,
    vars: Seq<(Seq<char>, Seq<char>)>,
)
    requires
        forall|i: int| 0 <= i < text.len() ==> #[trigger] text[i] != '\'',
    ensures
        lexed(written_line(tokens) + seq!['\''] + text, vars) == Err::<
            Seq<TokenView>,
            Seq<char>,
        >("unterminated quoted string"@),
        parsed(written_line(tokens) + seq!['\''] + text, vars) is Err,
{
    let line = written_line(tokens);
    let s = line + seq!['\''] + text;
    let n = line.len() as int;
    assert(s.subrange(0, n) =~= line);
    lemma_written_line(s, 0, tokens, vars);
    assert(s[n] == '\'');
    assert forall|k: int| n < k < s.len() implies s[k] != '\'' by {
        assert(s[k] == text[k - n - 1]);
    }
    lemma_open_quote(s, n + 1, seq![], vars);
}

proof fn lemma_open_quote(
    s: Seq<char>,
    i: int,
    word: Seq<char>,
    vars: Seq<(Seq<char>, Seq<char>)>,
)
    requires
        0 <= i <= s.len(),
        forall|k: int| i <= k < s.len() ==> s[k] != '\'',
    ensures
        lex_from(s, i, Quote::Single, Some(word), vars) == Err::<Seq<TokenView>, Seq<char>>(
            "unterminated quoted string"@,
        ),
    decreases s.len() - i,
{
    if i < s.len() {
        lemma_open_quote(s, i + 1, word + seq![s[i]], vars);
    }
}

/// A command line whose tokens end in a pipe is invalid, and so is every written line of such
/// tokens.
pub proof fn trailing_pipe_is_rejected(
    line: Seq<char>,
    tokens: Seq<TokenView>,
    vars: Seq<(Seq<char>, Seq<char>)>,
)
    ensures
        lexed(line, vars) == Ok::<Seq<TokenView>, Seq<char>>(tokens.push(TokenView::Pipe))
            ==> parsed(line, vars) is Err,
        parsed(written_line(tokens.push(TokenView::Pipe)), vars) is Err,
{
    lemma_trailing(tokens.push(TokenView::Pipe), 0, CommandView::empty(), seq![]);
    tokens_read_back(tokens.push(TokenView::Pipe), vars);
}

/// A command line whose tokens end in a redirection without a file is invalid, and so is every
/// written line of such tokens.
pub proof fn trailing_redirection_is_rejected(
    line: Seq<char>,
    tokens: Seq<TokenView>,
    kind: RedirectKind,
    vars: Seq<(Seq<char>, Seq<char>)>,
)
    ensures
        lexed(line, vars) == Ok::<Seq<TokenView>, Seq<char>>(tokens.push(redirect_token(kind)))
            ==> parsed(line, vars) is Err,
        parsed(written_line(tokens.push(redirect_token(kind))), vars) is Err,
{
    lemma_trailing(tokens.push(redirect_token(kind)), 0, CommandView::empty(), seq![]);
    tokens_read_back(tokens.push(redirect_token(kind)), vars);
}

proof fn lemma_trailing(
    tokens: Seq<TokenView>,
    i: int,
    command: CommandView,
    done: Seq<CommandView>,
)
    requires
        0 <= i < tokens.len(),
        !(tokens.last() is Word),
    ensures
        parse_from(tokens, i, command, done) is Err,
    decreases tokens.len() - i,
{
    match tokens[i] {
        TokenView::Word(w) => {
            lemma_trailing(tokens, i + 1, command.with_word(w), done);
        },
        TokenView::Pipe => {
            if i + 1 < tokens.len() {
                lemma_trailing(tokens, i + 1, CommandView::empty(), done.push(command));
            }
        },
        _ => {
            if i + 1 < tokens.len() && tokens[i + 1] is Word {
                lemma_trailing(
                    tokens,
                    i + 2,
                    command.with_redirect(redirect_kind(tokens[i]), tokens[i + 1]->Word_0),
                    done,
                );
            }
        },
    }
}

/// The token that announces a redirection.
pub open spec fn redirect_token(kind: RedirectKind) -> TokenView {
    match kind {
        RedirectKind::Input => TokenView::Input,
        RedirectKind::Output => TokenView::Output,
        RedirectKind::Append => TokenView::Append,
    }
}

/// The tokens of arguments.
pub open spec fn word_tokens(argv: Seq<Seq<char>>) -> Seq<TokenView>
    decreases argv.len(),
{
    if argv.len() == 0 {
        seq![]
    } else {
        seq![TokenView::Word(argv[0])] + word_tokens(argv.drop_first())
    }
}

/// The tokens of redirections.
pub open spec fn redirect_tokens(redirects: Seq<RedirectView>) -> Seq<TokenView>
    decreases redirects.len(),
{
    if redirects.len() == 0 {
        seq![]
    } else {
        seq![redirect_token(redirects[0].kind), TokenView::Word(redirects[0].path)]
            + redirect_tokens(redirects.drop_first())
    }
}

/// The tokens of a command.
pub open spec fn command_tokens(command: CommandView) -> Seq<TokenView> {
    word_tokens(command.argv) + redirect_tokens(command.redirects)
}

/// The tokens of a pipeline.
pub open spec fn pipeline_tokens(commands: Seq<CommandView>) -> Seq<TokenView>
    decreases commands.len(),
{
    if commands.len() == 0 {
        seq![]
    } else if commands.len() == 1 {
        command_tokens(commands[0])
    } else {
        command_tokens(commands[0]) + seq![TokenView::Pipe] + pipeline_tokens(
            commands.drop_first(),
        )
    }
}

proof fn lemma_word_tokens(
    tokens: Seq<TokenView>,
    i: int,
    argv: Seq<Seq<char>>,
    command: CommandView,
    done: Seq<CommandView>,
)
    requires
        0 <= i,
        word_tokens(argv).is_prefix_of(tokens.skip(i)),
        i <= tokens.len(),
    ensures
        i + word_tokens(argv).len() <= tokens.len(),
        parse_from(tokens, i, command, done) == parse_from(
            tokens,
            i + word_tokens(argv).len(),
            CommandView { argv: command.argv + argv, redirects: command.redirects },
            done,
        ),
    decreases argv.len(),
{
    let part = word_tokens(argv);
    if argv.len() == 0 {
        assert(command.argv + argv =~= command.argv);
    } else {
        let rest = argv.drop_first();
        assert(part[0] == tokens.skip(i)[0]);
        assert(tokens[i] == TokenView::Word(argv[0]));
        assert(word_tokens(rest).is_prefix_of(tokens.skip(i + 1))) by {
            assert forall|k: int| 0 <= k < word_tokens(rest).len() implies word_tokens(rest)[k]
                == tokens.skip(i + 1)[k] by {
                assert(part[k + 1] == tokens.skip(i)[k + 1]);
            }
            assert(word_tokens(rest) =~= tokens.skip(i + 1).subrange(
                0,
                word_tokens(rest).len() as int,
            ));
        }
        let more = command.with_word(argv[0]);
        lemma_word_tokens(tokens, i + 1, rest, more, done);
        assert(more.argv + rest =~= command.argv + argv);
    }
}

proof fn lemma_redirect_tokens(
    tokens: Seq<TokenView>,
    i: int,
    redirects: Seq<RedirectView>,
    command: CommandView,
    done: Seq<CommandView>,
)
    requires
        0 <= i,
        redirect_tokens(redirects).is_prefix_of(tokens.skip(i)),
        i <= tokens.len(),
    ensures
        i + redirect_tokens(redirects).len() <= tokens.len(),
        parse_from(tokens, i, command, done) == parse_from(
            tokens,
            i + redirect_tokens(redirects).len(),
            CommandView { argv: command.argv, redirects: command.redirects + redirects },
            done,
        ),
    decreases redirects.len(),
{
    let part = redirect_tokens(redirects);
    if redirects.len() == 0 {
        assert(command.redirects + redirects =~= command.redirects);
    } else {
        let rest = redirects.drop_first();
        assert(part[0] == tokens.skip(i)[0]);
        assert(part[1] == tokens.skip(i)[1]);
        assert(tokens[i] == redirect_token(redirects[0].kind));
        assert(tokens[i + 1] == TokenView::Word(redirects[0].path));
        assert(redirect_tokens(rest).is_prefix_of(tokens.skip(i + 2))) by {
            assert forall|k: int| 0 <= k < redirect_tokens(rest).len() implies redirect_tokens(
                rest,
            )[k] == tokens.skip(i + 2)[k] by {
                assert(part[k + 2] == tokens.skip(i)[k + 2]);
            }
            assert(redirect_tokens(rest) =~= tokens.skip(i + 2).subrange(
                0,
                redirect_tokens(rest).len() as int,
            ));
        }
        let more = command.with_redirect(redirects[0].kind, redirects[0].path);
        lemma_redirect_tokens(tokens, i + 2, rest, more, done);
        assert(more.redirects + rest =~= command.redirects + redirects);
    }
}

proof fn lemma_command_tokens(
    tokens: Seq<TokenView>,
    i: int,
    command: CommandView,
    done: Seq<CommandView>,
)
    requires
        0 <= i,
        command_tokens(command).is_prefix_of(tokens.skip(i)),
        i <= tokens.len(),
    ensures
        i + command_tokens(command).len() <= tokens.len(),
        parse_from(tokens, i, CommandView::empty(), done) == parse_from(
            tokens,
            i + command_tokens(command).len(),
            command,
            done,
        ),
{
    let part = command_tokens(command);
    let a = word_tokens(command.argv);
    let b = redirect_tokens(command.redirects);
    assert(a.is_prefix_of(tokens.skip(i))) by {
        assert(a =~= part.subrange(0, a.len() as int));
        assert(a =~= tokens.skip(i).subrange(0, a.len() as int));
    }
    lemma_word_tokens(tokens, i, command.argv, CommandView::empty(), done);
    assert(CommandView::empty().argv + command.argv =~= command.argv);
    let named = CommandView { argv: command.argv, redirects: seq![] };
    assert(b.is_prefix_of(tokens.skip(i + a.len()))) by {
        assert forall|k: int| 0 <= k < b.len() implies b[k] == tokens.skip(i + a.len())[k] by {
            assert(part[a.len() + k] == tokens.skip(i)[a.len() + k]);
        }
        assert(b =~= tokens.skip(i + a.len()).subrange(0, b.len() as int));
    }
    lemma_redirect_tokens(tokens, i + a.len(), command.redirects, named, done);
    assert(named.redirects + command.redirects =~= command.redirects);
}

proof fn lemma_pipeline_tokens(
    tokens: Seq<TokenView>,
    i: int,
    commands: Seq<CommandView>,
    done: Seq<CommandView>,
)
    requires
        0 <= i <= tokens.len(),
        tokens.skip(i) == pipeline_tokens(commands),
        commands.len() > 0,
        forall|k: int| 0 <= k < commands.len() ==> (#[trigger] commands[k]).argv.len() > 0,
    ensures
        parse_from(tokens, i, CommandView::empty(), done) == Ok::<Seq<CommandView>, Seq<char>>(
            done + commands,
        ),
    decreases commands.len(),
{
    let first = commands[0];
    let part = command_tokens(first);
    let next = i + part.len();
    assert(part.is_prefix_of(tokens.skip(i))) by {
        assert(part =~= tokens.skip(i).subrange(0, part.len() as int));
    }
    lemma_command_tokens(tokens, i, first, done);
    if commands.len() == 1 {
        assert(next == tokens.len());
        assert(done.push(first) =~= done + commands);
    } else {
        let rest = commands.drop_first();
        assert(tokens.skip(i)[part.len() as int] == TokenView::Pipe);
        assert(tokens[next] == TokenView::Pipe);
        assert(tokens.skip(next + 1) =~= pipeline_tokens(rest)) by {
            assert(tokens.skip(next + 1) =~= tokens.skip(i).skip(part.len() as int + 1));
        }
        assert forall|k: int| 0 <= k < rest.len() implies (#[trigger] rest[k]).argv.len() > 0 by {
            assert(rest[k] == commands[k + 1]);
        }
        lemma_pipeline_tokens(tokens, next + 1, rest, done.push(first));
        assert(done.push(first) + rest =~= done + commands);
    }
}

/// Every pipeline whose commands have names can be written as a command line, and is read back
/// from it unchanged, whatever the variables are.
pub proof fn pipeline_reads_back(
    commands: Seq<CommandView>,
    vars: Seq<(Seq<char>, Seq<char>)>,
)
    requires
        forall|k: int| 0 <= k < commands.len() ==> (#[trigger] commands[k]).argv.len() > 0,
    ensures
        parsed(written_line(pipeline_tokens(commands)), vars) == Ok::<
            Seq<CommandView>,
            Seq<char>,
        >(commands),
{
    let tokens = pipeline_tokens(commands);
    tokens_read_back(tokens, vars);
    if commands.len() > 0 {
        assert(tokens.skip(0) =~= tokens);
        lemma_pipeline_tokens(tokens, 0, commands, seq![]);
        assert(Seq::<CommandView>::empty() + commands =~= commands);
    } else {
        assert(commands =~= Seq::<CommandView>::empty());
    }
}

/// Whether a character stands for itself outside of quotes, wherever it stands.
pub open spec fn plain_char(c: char) -> bool {
    &&& !white_space(c)
    &&& c != '\'' && c != '"' && c != '\\' && c != '$' && c != '|' && c != '<' && c != '>' && c
        != '#'
}

/// A word of plain characters needs no quotes.
pub proof fn plain_word_stands_for_itself(w: Seq<char>, vars: Seq<(Seq<char>, Seq<char>)>)
    requires
        w.len() > 0,
        forall|i: int| 0 <= i < w.len() ==> plain_char(#[trigger] w[i]),
    ensures
        lexed(w, vars) == Ok::<Seq<TokenView>, Seq<char>>(seq![TokenView::Word(w)]),
{
    assert(plain_char(w[0]));
    lemma_plain(w, 1, vars);
    assert(w.take(1) =~= seq![w[0]]);
}

proof fn lemma_plain(w: Seq<char>, i: int, vars: Seq<(Seq<char>, Seq<char>)>)
    requires
        0 < i <= w.len(),
        forall|k: int| 0 <= k < w.len() ==> plain_char(#[trigger] w[k]),
    ensures
        lex_from(w, i, Quote::Bare, Some(w.take(i)), vars) == Ok::<Seq<TokenView>, Seq<char>>(
            seq![TokenView::Word(w)],
        ),
    decreases w.len() - i,
{
    if i < w.len() {
        assert(plain_char(w[i]));
        assert(w.take(i) + seq![w[i]] =~= w.take(i + 1));
        lemma_plain(w, i + 1, vars);
    } else {
        assert(w.take(i) =~= w);
    }
}

/// A line that holds white space, and perhaps a comment behind it, holds no tokens and asks for
/// nothing.
pub proof fn blank_line_and_comment_are_empty(
    blank: Seq<char>,
    comment: Seq<char>,
    vars: Seq<(Seq<char>, Seq<char>)>,
)
    requires
        forall|i: int| 0 <= i < blank.len() ==> white_space(#[trigger] blank[i]),
        comment.len() == 0 || comment[0] == '#',
    ensures
        lexed(blank + comment, vars) == Ok::<Seq<TokenView>, Seq<char>>(seq![]),
        parsed(blank + comment, vars) == Ok::<Seq<CommandView>, Seq<char>>(seq![]),
{
    lemma_blank(blank + comment, 0, blank.len() as int, vars);
}

proof fn lemma_blank(s: Seq<char>, i: int, n: int, vars: Seq<(Seq<char>, Seq<char>)>)
    requires
        0 <= i <= n <= s.len(),
        forall|k: int| 0 <= k < n ==> white_space(#[trigger] s[k]),
        n < s.len() ==> s[n] == '#',
    ensures
        lex_from(s, i, Quote::Bare, None, vars) == Ok::<Seq<TokenView>, Seq<char>>(seq![]),
    decreases n - i,
{
    if i < n {
        assert(white_space(s[i]));
        lemma_blank(s, i + 1, n, vars);
        assert(Seq::<TokenView>::empty() + Seq::<TokenView>::empty() =~= Seq::<TokenView>::empty());
    }
}

/// A variable in braces stands for its value, and for nothing where it is not set; the value is
/// taken as it stands, and is part of one word.
pub proof fn braced_variable_is_one_word(name: Seq<char>, vars: Seq<(Seq<char>, Seq<char>)>)
    requires
        valid_name(name),
    ensures
        lexed(seq!['$', '{'] + name + seq!['}'], vars) == Ok::<Seq<TokenView>, Seq<char>>(
            seq![TokenView::Word(variable(vars, name))],
        ),
{
    let s = seq!['$', '{'] + name + seq!['}'];
    let end: int = name.len() + 2int;
    assert forall|k: int| 2 <= k < end implies s[k] != '}' by {
        assert(s[k] == name[k - 2]);
        assert(name_char(name[k - 2]));
    }
    assert(s[end] == '}');
    lemma_char_found(s, '}', 2, end);
    assert(s.subrange(2, end) =~= name);
    assert(expansion(s, 0, vars) == Ok::<(Seq<char>, int), Seq<char>>(
        (variable(vars, name), end + 1),
    ));
    assert(lex_from(s, 0, Quote::Bare, None, vars) == lex_from(
        s,
        end + 1,
        Quote::Bare,
        Some(variable(vars, name)),
        vars,
    ));
}

/// A variable without braces is one word with its value too; its name is the longest that fits.
pub proof fn named_variable_is_one_word(name: Seq<char>, vars: Seq<(Seq<char>, Seq<char>)>)
    requires
        name.len() > 0,
        forall|i: int| 0 <= i < name.len() ==> name_char(#[trigger] name[i]),
    ensures
        lexed(seq!['$'] + name, vars) == Ok::<Seq<TokenView>, Seq<char>>(
            seq![TokenView::Word(variable(vars, name))],
        ),
{
    let s = seq!['$'] + name;
    let end = s.len() as int;
    assert forall|k: int| 1 <= k < end implies name_char(#[trigger] s[k]) by {
        assert(s[k] == name[k - 1]);
    }
    lemma_name_to_end(s, 1);
    assert(s[0] == '$');
    assert(s[1] == name[0]);
    assert(s.subrange(1, end) =~= name);
    assert(expansion(s, 0, vars) == Ok::<(Seq<char>, int), Seq<char>>(
        (variable(vars, name), end),
    ));
    assert(lex_from(s, 0, Quote::Bare, None, vars) == lex_from(
        s,
        end,
        Quote::Bare,
        Some(variable(vars, name)),
        vars,
    ));
}

proof fn lemma_name_to_end(s: Seq<char>, i: int)
    requires
        0 <= i <= s.len(),
        forall|k: int| i <= k < s.len() ==> name_char(#[trigger] s[k]),
    ensures
        skip_name(s, i) == s.len(),
    decreases s.len() - i,
{
    if i < s.len() {
        lemma_name_to_end(s, i + 1);
    }
}

/// A variable that is not set has no text.
pub proof fn unset_variable_is_empty(vars: Seq<(Seq<char>, Seq<char>)>, name: Seq<char>)
    requires
        forall|i: int| 0 <= i < vars.len() ==> (#[trigger] vars[i]).0 != name,
    ensures
        variable(vars, name) == Seq::<char>::empty(),
    decreases vars.len(),
{
    if vars.len() > 0 {
        let rest = vars.drop_first();
        assert forall|i: int| 0 <= i < rest.len() implies (#[trigger] rest[i]).0 != name by {
            assert(rest[i] == vars[i + 1]);
        }
        assert(vars[0].0 != name);
        unset_variable_is_empty(rest, name);
    }
}

/// Text in double quotes is taken as it stands where it holds no quote, no backslash and no
/// dollar sign.
pub proof fn double_quotes_keep_plain_text(w: Seq<char>, vars: Seq<(Seq<char>, Seq<char>)>)
    requires
        forall|i: int|
            0 <= i < w.len() ==> #[trigger] w[i] != '"' && w[i] != '\\' && w[i] != '$',
    ensures
        lexed(seq!['"'] + w + seq!['"'], vars) == Ok::<Seq<TokenView>, Seq<char>>(
            seq![TokenView::Word(w)],
        ),
{
    let s = seq!['"'] + w + seq!['"'];
    assert(w.take(0) =~= Seq::<char>::empty());
    lemma_double(s, w, 0, vars);
}

proof fn lemma_double(s: Seq<char>, w: Seq<char>, n: int, vars: Seq<(Seq<char>, Seq<char>)>)
    requires
        s == seq!['"'] + w + seq!['"'],
        0 <= n <= w.len(),
        forall|i: int|
            0 <= i < w.len() ==> #[trigger] w[i] != '"' && w[i] != '\\' && w[i] != '$',
    ensures
        lex_from(s, n + 1, Quote::Double, Some(w.take(n)), vars) == Ok::<
            Seq<TokenView>,
            Seq<char>,
        >(seq![TokenView::Word(w)]),
    decreases w.len() - n,
{
    if n < w.len() {
        assert(s[n + 1] == w[n]);
        assert(w.take(n) + seq![w[n]] =~= w.take(n + 1));
        lemma_double(s, w, n + 1, vars);
    } else {
        assert(s[n + 1] == '"');
        assert(w.take(n) =~= w);
        assert(lex_from(s, n + 2, Quote::Bare, Some(w), vars) == Ok::<Seq<TokenView>, Seq<char>>(
            seq![TokenView::Word(w)],
        ));
    }
}

/// A text with a backslash before each of its characters.
pub open spec fn backslashed(w: Seq<char>) -> Seq<char> {
    Seq::new(
        2 * w.len(),
        |i: int|
            if i % 2 == 0 {
                '\\'
            } else {
                w[i / 2]
            },
    )
}

/// A backslash takes the meaning of its own from any character behind it.
pub proof fn backslash_keeps_every_character(w: Seq<char>, vars: Seq<(Seq<char>, Seq<char>)>)
    requires
        w.len() > 0,
    ensures
        lexed(backslashed(w), vars) == Ok::<Seq<TokenView>, Seq<char>>(seq![TokenView::Word(w)]),
{
    assert(backslashed(w)[0] == '\\');
    assert(backslashed(w)[1] == w[0]);
    assert(w.take(1) =~= seq![w[0]]);
    lemma_backslashed(w, 1, vars);
}

proof fn lemma_backslashed(w: Seq<char>, n: int, vars: Seq<(Seq<char>, Seq<char>)>)
    requires
        0 < n <= w.len(),
    ensures
        lex_from(backslashed(w), 2 * n, Quote::Bare, Some(w.take(n)), vars) == Ok::<
            Seq<TokenView>,
            Seq<char>,
        >(seq![TokenView::Word(w)]),
    decreases w.len() - n,
{
    let s = backslashed(w);
    if n < w.len() {
        assert(s[2 * n] == '\\');
        assert(s[2 * n + 1] == w[n]);
        assert(w.take(n) + seq![w[n]] =~= w.take(n + 1));
        lemma_backslashed(w, n + 1, vars);
    } else {
        assert(w.take(n) =~= w);
    }
}

/// Whether a token announces a redirection.
pub open spec fn announces(token: TokenView) -> bool {
    token is Input || token is Output || token is Append
}

/// The pieces of a list of tokens that its pipes leave, in order: one more than there are pipes.
pub open spec fn pieces(tokens: Seq<TokenView>) -> Seq<Seq<TokenView>>
    decreases tokens.len(),
{
    if tokens.len() == 0 {
        seq![seq![]]
    } else {
        let before = pieces(tokens.drop_last());
        if tokens.last() is Pipe {
            before.push(seq![])
        } else {
            before.drop_last().push(before.last().push(tokens.last()))
        }
    }
}

/// Whether the last token of a piece is the file of a redirection.
pub open spec fn ends_in_file(piece: Seq<TokenView>) -> bool {
    piece.len() >= 2 && announces(piece[piece.len() - 2])
}

/// The arguments of a piece: its words, without the files of its redirections.
pub open spec fn arguments(piece: Seq<TokenView>) -> Seq<Seq<char>>
    decreases piece.len(),
{
    if piece.len() == 0 {
        seq![]
    } else if piece.last() is Word && !ends_in_file(piece) {
        arguments(piece.drop_last()).push(piece.last()->Word_0)
    } else {
        arguments(piece.drop_last())
    }
}

/// The kind of redirection that `<`, `>` and `>>` announce.
pub open spec fn announced_kind(token: TokenView) -> RedirectKind {
    if token is Input {
        RedirectKind::Input
    } else if token is Append {
        RedirectKind::Append
    } else {
        RedirectKind::Output
    }
}

/// The redirections of a piece: each token that announces one, with the word behind it.
pub open spec fn redirections(piece: Seq<TokenView>) -> Seq<RedirectView>
    decreases piece.len(),
{
    if piece.len() == 0 {
        seq![]
    } else if piece.last() is Word && ends_in_file(piece) {
        redirections(piece.drop_last()).push(
            RedirectView {
                kind: announced_kind(piece[piece.len() - 2]),
                path: piece.last()->Word_0,
            },
        )
    } else {
        redirections(piece.drop_last())
    }
}

/// The command that a piece stands for.
pub open spec fn piece_command(piece: Seq<TokenView>) -> CommandView {
    CommandView { argv: arguments(piece), redirects: redirections(piece) }
}

/// Whether every redirection is followed by a word.
pub open spec fn redirections_have_files(tokens: Seq<TokenView>) -> bool {
    forall|k: int|
        0 <= k < tokens.len() && announces(#[trigger] tokens[k]) ==> k + 1 < tokens.len()
            && tokens[k + 1] is Word
}

/// Whether every piece between pipes holds an argument.
pub open spec fn pieces_have_arguments(tokens: Seq<TokenView>) -> bool {
    forall|i: int|
        0 <= i < pieces(tokens).len() ==> arguments(#[trigger] pieces(tokens)[i]).len() > 0
}

/// A list of tokens is a pipeline exactly where every redirection is followed by a word and,
/// where there is a pipe, every piece between pipes holds an argument. The command at each place
/// then holds the arguments and the redirections of the piece at that place, in order; without a
/// pipe and without an argument there is no command at all.
pub proof fn pipeline_is_its_pieces(tokens: Seq<TokenView>)
    ensures
        pieces(tokens).len() == pipes_from(tokens, 0) + 1,
        parsed_tokens(tokens) is Ok <==> redirections_have_files(tokens) && (pipes_from(tokens, 0)
            > 0 ==> pieces_have_arguments(tokens)),
        parsed_tokens(tokens) matches Ok(p) ==> {
            if pipes_from(tokens, 0) == 0 && arguments(pieces(tokens)[0]).len() == 0 {
                p.len() == 0
            } else {
                &&& p.len() == pieces(tokens).len()
                &&& forall|i: int| 0 <= i < p.len() ==> #[trigger] p[i] == piece_command(
                    pieces(tokens)[i],
                )
            }
        },
{
    lemma_piece_count(tokens);
    assert(tokens.take(0) =~= Seq::<TokenView>::empty());
    assert(piece_command(Seq::<TokenView>::empty()) =~= CommandView::empty());
    lemma_pieces(tokens, 0, CommandView::empty(), seq![]);
}

proof fn lemma_pipes_from_push(tokens: Seq<TokenView>, token: TokenView, i: int)
    requires
        0 <= i <= tokens.len(),
    ensures
        pipes_from(tokens.push(token), i) == pipes_from(tokens, i) + (if token is Pipe {
            1nat
        } else {
            0nat
        }),
    decreases tokens.len() - i,
{
    if i < tokens.len() {
        lemma_pipes_from_push(tokens, token, i + 1);
    } else {
        assert(pipes_from(tokens.push(token), i + 1) == 0);
    }
}

proof fn lemma_piece_count(tokens: Seq<TokenView>)
    ensures
        pieces(tokens).len() == pipes_from(tokens, 0) + 1,
    decreases tokens.len(),
{
    if tokens.len() > 0 {
        lemma_piece_count(tokens.drop_last());
        lemma_pipes_from_push(tokens.drop_last(), tokens.last(), 0);
        assert(tokens.drop_last().push(tokens.last()) =~= tokens);
    }
}

/// A piece that a pipe has ended stays as it is.
proof fn lemma_ended_piece_stays(tokens: Seq<TokenView>, i: int, j: int)
    requires
        0 <= i < j <= tokens.len(),
        tokens[i] is Pipe,
    ensures
        pieces(tokens.take(j)).len() > pieces(tokens.take(i)).len(),
        pieces(tokens.take(j))[pieces(tokens.take(i)).len() - 1] == pieces(tokens.take(i)).last(),
    decreases j,
{
    lemma_piece_count(tokens.take(i));
    assert(tokens.take(j).drop_last() =~= tokens.take(j - 1));
    if j > i + 1 {
        lemma_ended_piece_stays(tokens, i, j - 1);
    }
}

proof fn lemma_pieces(
    tokens: Seq<TokenView>,
    i: int,
    command: CommandView,
    done: Seq<CommandView>,
)
    requires
        0 <= i <= tokens.len(),
        i > 0 ==> !announces(tokens[i - 1]),
        forall|k: int|
            0 <= k < i && announces(#[trigger] tokens[k]) ==> k + 1 < i && tokens[k + 1] is Word,
        pieces(tokens.take(i)).len() == done.len() + 1,
        command == piece_command(pieces(tokens.take(i)).last()),
        forall|k: int|
            0 <= k < done.len() ==> #[trigger] done[k] == piece_command(
                pieces(tokens.take(i))[k],
            ) && done[k].argv.len() > 0,
    ensures
        parse_from(tokens, i, command, done) is Ok <==> redirections_have_files(tokens) && (
        pieces(tokens).len() > 1 ==> pieces_have_arguments(tokens)),
        parse_from(tokens, i, command, done) matches Ok(p) ==> {
            if pieces(tokens).len() == 1 && arguments(pieces(tokens)[0]).len() == 0 {
                p.len() == 0
            } else {
                &&& p.len() == pieces(tokens).len()
                &&& forall|k: int| 0 <= k < p.len() ==> #[trigger] p[k] == piece_command(
                    pieces(tokens)[k],
                )
            }
        },
    decreases tokens.len() - i,
{
    let now = pieces(tokens.take(i));
    if i == tokens.len() {
        assert(tokens.take(i) =~= tokens);
        if command.argv.len() > 0 {
            assert forall|k: int| 0 <= k < now.len() implies arguments(#[trigger] now[k]).len()
                > 0 by {
                if k < done.len() {
                    assert(done[k] == piece_command(now[k]));
                }
            }
        } else {
            assert(arguments(now[done.len() as int]).len() == 0);
        }
    } else {
        let next = tokens.take(i + 1);
        assert(next.drop_last() =~= tokens.take(i));
        assert(next.last() == tokens[i]);
        lemma_last_piece(tokens.take(i));
        match tokens[i] {
            TokenView::Word(w) => {
                let piece = now.last().push(tokens[i]);
                assert(piece.drop_last() =~= now.last());
                assert(!ends_in_file(piece));
                assert(piece_command(piece) =~= command.with_word(w));
                lemma_pieces(tokens, i + 1, command.with_word(w), done);
            },
            TokenView::Pipe => {
                if command.argv.len() > 0 {
                    let more = done.push(command);
                    assert forall|k: int| 0 <= k < more.len() implies #[trigger] more[k]
                        == piece_command(pieces(next)[k]) && more[k].argv.len() > 0 by {
                        if k < done.len() {
                            assert(done[k] == piece_command(now[k]));
                        }
                    }
                    assert(piece_command(Seq::<TokenView>::empty()) =~= CommandView::empty());
                    lemma_pieces(tokens, i + 1, CommandView::empty(), more);
                } else {
                    lemma_ended_piece_stays(tokens, i, tokens.len() as int);
                    assert(tokens.take(tokens.len() as int) =~= tokens);
                    assert(arguments(pieces(tokens)[now.len() - 1]).len() == 0);
                }
            },
            _ => {
                assert(announces(tokens[i]));
                if i + 1 < tokens.len() && tokens[i + 1] is Word {
                    let after = tokens.take(i + 2);
                    assert(after.drop_last() =~= next);
                    let announced = now.last().push(tokens[i]);
                    let piece = announced.push(tokens[i + 1]);
                    assert(announced.drop_last() =~= now.last());
                    assert(piece.drop_last() =~= announced);
                    assert(pieces(next) =~= now.drop_last().push(announced));
                    assert(pieces(after) =~= now.drop_last().push(piece));
                    assert(ends_in_file(piece));
                    assert(arguments(announced) == arguments(now.last()));
                    assert(redirections(announced) == redirections(now.last()));
                    let more = command.with_redirect(
                        redirect_kind(tokens[i]),
                        tokens[i + 1]->Word_0,
                    );
                    assert(piece_command(piece) =~= more);
                    lemma_pieces(tokens, i + 2, more, done);
                }
            },
        }
    }
}

/// The last token of the last piece, if it has one, is the last token of all.
proof fn lemma_last_piece(tokens: Seq<TokenView>)
    ensures
        pieces(tokens).len() > 0,
        pieces(tokens).last().len() > 0 ==> tokens.len() > 0 && pieces(tokens).last().last()
            == tokens.last(),
{
    lemma_piece_count(tokens);
}

/// Whether tokens are the beginning of a pipeline: every redirection has its file, and every piece
/// that a pipe has ended holds an argument.
pub open spec fn sound_so_far(tokens: Seq<TokenView>) -> bool {
    &&& redirections_have_files(tokens)
    &&& forall|i: int|
        0 <= i < pieces(tokens).len() - 1 ==> arguments(#[trigger] pieces(tokens)[i]).len() > 0
}

/// The first fault of a list of tokens decides what is said of it: a pipe behind a piece without
/// an argument, a redirection without a file, or the end behind a pipe without an argument.
pub proof fn first_fault_decides(tokens: Seq<TokenView>, kind: RedirectKind, rest: Seq<TokenView>)
    requires
        sound_so_far(tokens),
    ensures
        arguments(pieces(tokens).last()).len() == 0 ==> parsed_tokens(
            tokens + seq![TokenView::Pipe] + rest,
        ) == Err::<Seq<CommandView>, Seq<char>>("expected a command before '|'"@),
        !(rest.len() > 0 && rest[0] is Word) ==> parsed_tokens(
            tokens + seq![redirect_token(kind)] + rest,
        ) == Err::<Seq<CommandView>, Seq<char>>("redirection requires a file path"@),
        arguments(pieces(tokens).last()).len() == 0 && tokens.contains(TokenView::Pipe)
            ==> parsed_tokens(tokens) == Err::<Seq<CommandView>, Seq<char>>(
            "expected a command after '|'"@,
        ),
{
    let n = tokens.len() as int;
    let piped = tokens + seq![TokenView::Pipe] + rest;
    let redirected = tokens + seq![redirect_token(kind)] + rest;
    assert(piped.take(n) =~= tokens && redirected.take(n) =~= tokens && tokens.take(n) =~= tokens);
    lemma_progress(piped, n);
    lemma_progress(redirected, n);
    lemma_progress(tokens, n);
    assert(gets_to(piped, n) && gets_to(redirected, n) && gets_to(tokens, n));
    assert(piped[n] == TokenView::Pipe);
    assert(redirected[n] == redirect_token(kind));
    if n + 1 < redirected.len() {
        assert(redirected[n + 1] == rest[0]);
    }
    if tokens.contains(TokenView::Pipe) {
        lemma_has_pipe(tokens);
        lemma_piece_count(tokens);
    }
}

proof fn lemma_has_pipe(tokens: Seq<TokenView>)
    requires
        tokens.contains(TokenView::Pipe),
    ensures
        pipes_from(tokens, 0) > 0,
{
    let k = choose|k: int| 0 <= k < tokens.len() && tokens[k] == TokenView::Pipe;
    lemma_pipe_counts(tokens, 0, k);
}

proof fn lemma_pipe_counts(tokens: Seq<TokenView>, i: int, k: int)
    requires
        0 <= i <= k < tokens.len(),
        tokens[k] is Pipe,
    ensures
        pipes_from(tokens, i) > 0,
    decreases k - i,
{
    if i < k {
        lemma_pipe_counts(tokens, i + 1, k);
    }
}

/// The commands of all pieces but the last.
spec fn ended_commands(tokens: Seq<TokenView>) -> Seq<CommandView> {
    Seq::new(
        (pieces(tokens).len() - 1) as nat,
        |k: int| piece_command(pieces(tokens)[k]),
    )
}

/// Whether parsing has collected the pieces of the first `n` tokens when it comes to them.
spec fn gets_to(tokens: Seq<TokenView>, n: int) -> bool {
    parsed_tokens(tokens) == parse_from(
        tokens,
        n,
        piece_command(pieces(tokens.take(n)).last()),
        ended_commands(tokens.take(n)),
    )
}

proof fn lemma_redirect_step(tokens: Seq<TokenView>, n: int)
    requires
        2 <= n <= tokens.len(),
        announces(tokens[n - 2]),
        tokens[n - 1] is Word,
        gets_to(tokens, n - 2),
    ensures
        gets_to(tokens, n),
{
    let t = tokens.take(n);
    let before = tokens.take(n - 1);
    let first = tokens.take(n - 2);
    let now = pieces(first);
    lemma_piece_count(first);
    assert(t.drop_last() =~= before);
    assert(before.drop_last() =~= first);
    let announced = now.last().push(tokens[n - 2]);
    let piece = announced.push(tokens[n - 1]);
    assert(announced.drop_last() =~= now.last());
    assert(piece.drop_last() =~= announced);
    assert(pieces(before) =~= now.drop_last().push(announced));
    assert(pieces(t) =~= now.drop_last().push(piece));
    assert(ends_in_file(piece));
    assert(arguments(announced) == arguments(now.last()));
    assert(redirections(announced) == redirections(now.last()));
    assert(piece_command(piece) =~= piece_command(now.last()).with_redirect(
        redirect_kind(tokens[n - 2]),
        tokens[n - 1]->Word_0,
    ));
    assert(ended_commands(t) =~= ended_commands(first));
}

proof fn lemma_pipe_step(tokens: Seq<TokenView>, n: int)
    requires
        1 <= n <= tokens.len(),
        tokens[n - 1] is Pipe,
        arguments(pieces(tokens.take(n - 1)).last()).len() > 0,
        gets_to(tokens, n - 1),
    ensures
        gets_to(tokens, n),
{
    let t = tokens.take(n);
    let before = tokens.take(n - 1);
    let now = pieces(before);
    lemma_piece_count(before);
    assert(t.drop_last() =~= before);
    assert(pieces(t) =~= now.push(seq![]));
    assert(piece_command(Seq::<TokenView>::empty()) =~= CommandView::empty());
    assert(ended_commands(t) =~= ended_commands(before).push(piece_command(now.last())));
}

proof fn lemma_word_step(tokens: Seq<TokenView>, n: int)
    requires
        1 <= n <= tokens.len(),
        tokens[n - 1] is Word,
        n >= 2 ==> !announces(tokens[n - 2]),
        gets_to(tokens, n - 1),
    ensures
        gets_to(tokens, n),
{
    let t = tokens.take(n);
    let before = tokens.take(n - 1);
    let now = pieces(before);
    lemma_piece_count(before);
    lemma_last_piece(before);
    assert(t.drop_last() =~= before);
    let piece = now.last().push(tokens[n - 1]);
    assert(piece.drop_last() =~= now.last());
    assert(pieces(t) =~= now.drop_last().push(piece));
    assert(!ends_in_file(piece));
    assert(piece_command(piece) =~= piece_command(now.last()).with_word(tokens[n - 1]->Word_0));
    assert(ended_commands(t) =~= ended_commands(before));
}

/// Parsing gets through the beginning of a pipeline, and has then collected its pieces.
proof fn lemma_progress(tokens: Seq<TokenView>, n: int)
    requires
        0 <= n <= tokens.len(),
        sound_so_far(tokens.take(n)),
    ensures
        gets_to(tokens, n),
    decreases n,
{
    let t = tokens.take(n);
    if n == 0 {
        assert(t =~= Seq::<TokenView>::empty());
        assert(piece_command(Seq::<TokenView>::empty()) =~= CommandView::empty());
        assert(ended_commands(t) =~= Seq::<CommandView>::empty());
    } else {
        assert(t[n - 1] == tokens[n - 1]);
        assert(!announces(t[n - 1]));
        if tokens[n - 1] is Word && n >= 2 && announces(tokens[n - 2]) {
            if n > 2 {
                assert(t[n - 3] == tokens[n - 3] && t[n - 2] == tokens[n - 2]);
                assert(!announces(t[n - 3]));
            }
            lemma_sound_before(tokens, n, n - 2);
            lemma_progress(tokens, n - 2);
            lemma_redirect_step(tokens, n);
        } else {
            if n >= 2 {
                assert(t[n - 2] == tokens[n - 2]);
                assert(!announces(t[n - 2]));
            }
            lemma_sound_before(tokens, n, n - 1);
            lemma_progress(tokens, n - 1);
            if tokens[n - 1] is Pipe {
                lemma_ended_piece_stays(tokens, n - 1, n);
                lemma_piece_count(tokens.take(n - 1));
                let m = pieces(tokens.take(n - 1)).len() - 1;
                assert(arguments(pieces(t)[m]).len() > 0);
                lemma_pipe_step(tokens, n);
            } else {
                lemma_word_step(tokens, n);
            }
        }
    }
}

/// What goes before the beginning of a pipeline is one too, unless it ends in a redirection.
proof fn lemma_sound_before(tokens: Seq<TokenView>, n: int, m: int)
    requires
        0 <= m <= n <= tokens.len(),
        n - m <= 2,
        sound_so_far(tokens.take(n)),
        m > 0 ==> !announces(tokens[m - 1]),
    ensures
        sound_so_far(tokens.take(m)),
{
    let t = tokens.take(n);
    let u = tokens.take(m);
    assert forall|k: int| 0 <= k < u.len() && announces(#[trigger] u[k]) implies k + 1 < u.len()
        && u[k + 1] is Word by {
        assert(announces(t[k]));
        assert(t[k + 1] == tokens[k + 1]);
    }
    lemma_pieces_grow(tokens, m, n);
    assert forall|i: int| 0 <= i < pieces(u).len() - 1 implies arguments(
        #[trigger] pieces(u)[i],
    ).len() > 0 by {
        assert(arguments(pieces(t)[i]).len() > 0);
    }
}

/// More tokens leave all pieces but the last as they are.
proof fn lemma_pieces_grow(tokens: Seq<TokenView>, m: int, n: int)
    requires
        0 <= m <= n <= tokens.len(),
    ensures
        pieces(tokens.take(m)).len() <= pieces(tokens.take(n)).len(),
        forall|i: int|
            0 <= i < pieces(tokens.take(m)).len() - 1 ==> #[trigger] pieces(tokens.take(n))[i]
                == pieces(tokens.take(m))[i],
    decreases n - m,
{
    lemma_piece_count(tokens.take(m));
    if m < n {
        lemma_pieces_grow(tokens, m, n - 1);
        assert(tokens.take(n).drop_last() =~= tokens.take(n - 1));
    }
}

} // verus!
