use msh::syntax::{
    expand_variable, finish_word, lex, parse_pipeline, validate_variable_name, variable_value,
    CommandSpec, Pipeline, Redirect, RedirectKind, Token, Variable,
};

fn word(text: &str) -> Token {
    Token::Word(text.to_string())
}

fn var(name: &str, value: &str) -> Variable {
    Variable { name: name.to_string(), value: value.to_string() }
}

fn lexed(line: &str) -> Vec<Token> {
    lex(line, &[var("HOME", "/home/mochi"), var("_x1", "one two"), var("HOME", "/other")]).unwrap()
}

fn lex_error(line: &str) -> String {
    lex(line, &[]).unwrap_err()
}

fn parse_error(line: &str) -> String {
    parse_pipeline(line, &[]).unwrap_err()
}

#[test]
fn parses_quotes_pipeline_and_redirections() {
    let parsed = parse_pipeline("echo 'hello world' | cat > output.txt", &[]).unwrap();
    assert_eq!(parsed.commands.len(), 2);
    assert_eq!(parsed.commands[0].argv, ["echo", "hello world"]);
    assert_eq!(parsed.commands[1].argv, ["cat"]);
    assert_eq!(
        parsed.commands[1].redirects,
        [Redirect {
            kind: RedirectKind::Output,
            path: "output.txt".into()
        }]
    );
}

#[test]
fn rejects_incomplete_syntax() {
    assert!(parse_pipeline("echo hello |", &[]).is_err());
    assert!(parse_pipeline("echo hello >", &[]).is_err());
    assert!(parse_pipeline("echo 'hello", &[]).is_err());
}

#[test]
fn words_are_split_at_white_space() {
    assert_eq!(lexed("  a \t b\u{3000}c  "), [word("a"), word("b"), word("c")]);
    assert_eq!(lexed(""), []);
    assert_eq!(lexed(" \t\n"), []);
}

#[test]
fn operators_need_no_space() {
    assert_eq!(
        lexed("a|b<c>d>>e"),
        [
            word("a"),
            Token::Pipe,
            word("b"),
            Token::Input,
            word("c"),
            Token::Output,
            word("d"),
            Token::Append,
            word("e"),
        ]
    );
    assert_eq!(lexed(">>>"), [Token::Append, Token::Output]);
    assert_eq!(lexed("> >"), [Token::Output, Token::Output]);
}

#[test]
fn single_quotes_keep_everything() {
    assert_eq!(lexed(r#"'a $HOME "b" \ | # c'"#), [word(r#"a $HOME "b" \ | # c"#)]);
    assert_eq!(lexed("''"), [word("")]);
    assert_eq!(lexed("a'b'c"), [word("abc")]);
    assert_eq!(lexed(r"'it'\''s'"), [word("it's")]);
}

#[test]
fn double_quotes_expand_and_escape() {
    assert_eq!(lexed(r#""a b""#), [word("a b")]);
    assert_eq!(lexed(r#""in $HOME""#), [word("in /home/mochi")]);
    assert_eq!(lexed(r#""\"\$\\\n""#), [word("\"$\\n")]);
    assert_eq!(lexed(r#""'|#""#), [word("'|#")]);
    assert_eq!(lexed(r#"x"""#), [word("x")]);
    assert_eq!(lexed(r#""""#), [word("")]);
}

#[test]
fn backslash_takes_meaning_away() {
    assert_eq!(lexed(r"\|\<\>\#\$\'\ \\"), [word(r"|<>#$' \")]);
    assert_eq!(lexed(r"a\ b"), [word("a b")]);
}

#[test]
fn comments_begin_where_no_word_does() {
    assert_eq!(lexed("a # b | c"), [word("a")]);
    assert_eq!(lexed("# a"), []);
    assert_eq!(lexed("a#b"), [word("a#b")]);
    assert_eq!(lexed("''#b"), [word("#b")]);
    assert_eq!(lexed("a|#b"), [word("a"), Token::Pipe]);
}

#[test]
fn variables_are_expanded() {
    assert_eq!(lexed("$HOME"), [word("/home/mochi")]);
    assert_eq!(lexed("${HOME}/bin"), [word("/home/mochi/bin")]);
    assert_eq!(lexed("x$HOME/y"), [word("x/home/mochi/y")]);
    assert_eq!(lexed("$_x1"), [word("one two")]);
    assert_eq!(lexed("$NONE"), [word("")]);
    assert_eq!(lexed("a${NONE}b"), [word("ab")]);
    assert_eq!(lexed("$"), [word("$")]);
    assert_eq!(lexed("$-"), [word("$-")]);
    assert_eq!(lexed("$ a"), [word("$"), word("a")]);
    assert_eq!(lexed("\"$\""), [word("$")]);
    assert_eq!(lex("$1a", &[var("1a", "v")]).unwrap(), [word("v")]);
}

#[test]
fn an_expansion_is_one_word() {
    assert_eq!(lex("$v", &[var("v", "a | b 'c' # $d")]).unwrap(), [word("a | b 'c' # $d")]);
}

#[test]
fn lexer_errors() {
    assert_eq!(lex_error("'a"), "unterminated quoted string");
    assert_eq!(lex_error("\"a"), "unterminated quoted string");
    assert_eq!(lex_error("a\\"), "trailing escape");
    assert_eq!(lex_error("\"a\\"), "trailing escape in double-quoted string");
    assert_eq!(lex_error("${a"), "unterminated parameter expansion");
    assert_eq!(lex_error("${"), "unterminated parameter expansion");
    assert_eq!(lex_error("${}"), "invalid parameter name: ");
    assert_eq!(lex_error("${1a}"), "invalid parameter name: 1a");
    assert_eq!(lex_error("\"${a b}\""), "invalid parameter name: a b");
    assert_eq!(lex_error("${é}"), "invalid parameter name: é");
}

#[test]
fn parser_errors() {
    assert_eq!(parse_error("| a"), "expected a command before '|'");
    assert_eq!(parse_error("a | | b"), "expected a command before '|'");
    assert_eq!(parse_error("a |"), "expected a command after '|'");
    assert_eq!(parse_error("a | > f"), "expected a command after '|'");
    assert_eq!(parse_error("> f | a"), "expected a command before '|'");
    assert_eq!(parse_error("a >"), "redirection requires a file path");
    assert_eq!(parse_error("a < | b"), "redirection requires a file path");
    assert_eq!(parse_error("a >> > f"), "redirection requires a file path");
    assert_eq!(parse_error("a 'b"), "unterminated quoted string");
}

#[test]
fn lines_without_a_command_are_empty_pipelines() {
    assert_eq!(parse_pipeline("", &[]).unwrap(), Pipeline::default());
    assert_eq!(parse_pipeline("  # note", &[]).unwrap(), Pipeline::default());
    assert_eq!(parse_pipeline("> f", &[]).unwrap(), Pipeline::default());
}

#[test]
fn redirections_stand_anywhere_in_a_command() {
    let parsed = parse_pipeline("< in sort -r >> \"out file\" x", &[]).unwrap();
    assert_eq!(
        parsed.commands,
        [CommandSpec {
            argv: vec!["sort".to_string(), "-r".to_string(), "x".to_string()],
            redirects: vec![
                Redirect { kind: RedirectKind::Input, path: "in".to_string() },
                Redirect { kind: RedirectKind::Append, path: "out file".to_string() },
            ],
        }]
    );
}

#[test]
fn one_command_more_than_pipes() {
    let parsed = parse_pipeline("a | b c | d '|' e", &[]).unwrap();
    assert_eq!(parsed.commands.len(), 3);
    assert_eq!(parsed.commands[2].argv, ["d", "|", "e"]);
}

#[test]
fn a_written_line_reads_back() {
    let tokens = vec![
        word("it's"),
        Token::Append,
        word(""),
        Token::Pipe,
        word("$x | \\"),
        Token::Input,
        word("\""),
        Token::Output,
    ];
    let line = r#"'it'\''s' >> '' | '$x | \' < '"' > "#;
    assert_eq!(lex(line, &[]).unwrap(), tokens);
}

#[test]
fn variable_names() {
    assert_eq!(validate_variable_name("PATH"), Ok(()));
    assert_eq!(validate_variable_name("_"), Ok(()));
    assert_eq!(validate_variable_name("a1_B"), Ok(()));
    assert_eq!(validate_variable_name(""), Err("invalid parameter name: ".to_string()));
    assert_eq!(validate_variable_name("1"), Err("invalid parameter name: 1".to_string()));
    assert_eq!(validate_variable_name("a-b"), Err("invalid parameter name: a-b".to_string()));
}

#[test]
fn the_first_variable_of_a_name_counts() {
    let vars = [var("a", "1"), var("b", "2"), var("a", "3")];
    assert_eq!(variable_value(&vars, "a"), "1");
    assert_eq!(variable_value(&vars, "b"), "2");
    assert_eq!(variable_value(&vars, "c"), "");
}

#[test]
fn expansion_ends_on_its_last_character() {
    let chars: Vec<char> = "x$ab}".chars().collect();
    let mut index: usize = 1;
    let mut output = "=".to_string();
    assert_eq!(expand_variable(&chars, &mut index, &mut output, &[var("ab", "v")]), Ok(()));
    assert_eq!((index, output.as_str()), (3, "=v"));

    let braced: Vec<char> = "${ab}c".chars().collect();
    let mut index: usize = 0;
    let mut output = String::new();
    assert_eq!(expand_variable(&braced, &mut index, &mut output, &[var("ab", "v")]), Ok(()));
    assert_eq!((index, output.as_str()), (4, "v"));

    let lone: Vec<char> = vec!['$'];
    let mut index: usize = 0;
    let mut output = String::new();
    assert_eq!(expand_variable(&lone, &mut index, &mut output, &[]), Ok(()));
    assert_eq!((index, output.as_str()), (0, "$"));

    let broken: Vec<char> = "${a".chars().collect();
    let mut index: usize = 0;
    let mut output = "kept".to_string();
    assert!(expand_variable(&broken, &mut index, &mut output, &[]).is_err());
    assert_eq!((index, output.as_str()), (0, "kept"));
}

#[test]
fn finishing_a_word_empties_the_buffer() {
    let mut tokens = vec![Token::Pipe];
    let mut text = "ab".to_string();
    let mut started = true;
    finish_word(&mut tokens, &mut text, &mut started);
    assert_eq!(tokens, [Token::Pipe, word("ab")]);
    assert_eq!((text.as_str(), started), ("", false));
    finish_word(&mut tokens, &mut text, &mut started);
    assert_eq!(tokens.len(), 2);
}

#[test]
fn default_command_is_empty() {
    let command = CommandSpec::default();
    assert!(command.argv.is_empty());
    assert!(command.redirects.is_empty());
}

#[test]
fn a_pipeline_is_its_pieces() {
    let parsed = parse_pipeline("> o a < i b | c >> x | d", &[]).unwrap();
    let redirect = |kind: RedirectKind, path: &str| Redirect { kind, path: path.to_string() };
    assert_eq!(parsed.commands.len(), 3);
    assert_eq!(parsed.commands[0].argv, ["a", "b"]);
    assert_eq!(
        parsed.commands[0].redirects,
        [redirect(RedirectKind::Output, "o"), redirect(RedirectKind::Input, "i")]
    );
    assert_eq!(parsed.commands[1].argv, ["c"]);
    assert_eq!(parsed.commands[1].redirects, [redirect(RedirectKind::Append, "x")]);
    assert_eq!(parsed.commands[2].argv, ["d"]);
}

#[test]
fn a_blank_joins_lines() {
    for (first, second) in [("a '|'>", ">b"), ("$", "{HOME}"), ("", "c d"), ("$HOME", "x#y")] {
        let mut both = lexed(first);
        both.extend(lexed(second));
        assert_eq!(lexed(&format!("{first} {second}")), both);
        assert_eq!(lexed(&format!("{first}\t{second}")), both);
    }
    assert_eq!(lex_error("a 'b"), lex_error("'b"));
    assert_eq!(lexed("a # b"), lexed("a #"));
}

#[test]
fn a_pipe_joins_lines() {
    let commands = |line: &str| parse_pipeline(line, &[]).unwrap().commands;
    let mut both = commands("a > f | b");
    both.extend(commands("c '|'"));
    assert_eq!(commands("a > f | b|c '|'"), both);
    assert_eq!(parse_error("|a"), "expected a command before '|'");
    assert_eq!(parse_error("> f|a"), "expected a command before '|'");
    assert_eq!(parse_error("a|"), "expected a command after '|'");
    assert_eq!(parse_error("|'a"), "unterminated quoted string");
    assert_eq!(parse_error("a|b >"), "redirection requires a file path");
    assert_eq!(commands("a #|b"), commands("a #"));
}

#[test]
fn a_comment_changes_nothing() {
    for line in ["a | b > c", "", "'#'", "a # b", "$HOME"] {
        assert_eq!(lexed(&format!("{line} # 'x | ${{")), lexed(line));
    }
    assert_eq!(parse_error("a | # b"), parse_error("a |"));
}
