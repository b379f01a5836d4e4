//! The command language: words with quotes, escapes and variables, joined into pipelines of
//! commands with redirections.
use crate::text::{
    char_index, chars_of, digit, find_char, is_white_space, lemma_find_char, letter, same_text,
    string_of, white_space,
};
use vstd::prelude::*;
use vstd::string::*;

verus! {

/// What a redirection does with its file.
#[derive(Clone, Debug, PartialEq, Eq)]
pub enum RedirectKind {
    /// The command reads the file.
    Input,
    /// The command overwrites the file.
    Output,
    /// The command writes at the end of the file.
    Append,
}

/// One redirection of a command.
#[derive(Clone, Debug, PartialEq, Eq)]
pub struct Redirect {
    pub kind: RedirectKind,
    pub path: String,
}

/// One command of a pipeline.
#[derive(Clone, Debug, PartialEq, Eq)]
pub struct CommandSpec {
    pub argv: Vec<String>,
    pub redirects: Vec<Redirect>,
}

/// Commands that read from each other, in order.
#[derive(Clone, Debug, PartialEq, Eq)]
pub struct Pipeline {
    pub commands: Vec<CommandSpec>,
}

/// The units that a command line is made of.
#[derive(Clone, Debug, PartialEq, Eq)]
pub enum Token {
    Word(String),
    Pipe,
    Input,
    Output,
    Append,
}

/// One variable of the environment.
#[derive(Clone, Debug, PartialEq, Eq)]
pub struct Variable {
    pub name: String,
    pub value: String,
}

/// What a [`Redirect`] says.
#[verifier::ext_equal]
pub struct RedirectView {
    pub kind: RedirectKind,
    pub path: Seq<char>,
}

/// What a [`CommandSpec`] says.
#[verifier::ext_equal]
pub struct CommandView {
    pub argv: Seq<Seq<char>>,
    pub redirects: Seq<RedirectView>,
}

/// What a [`Token`] says.
#[verifier::ext_equal]
pub enum TokenView {
    Word(Seq<char>),
    Pipe,
    Input,
    Output,
    Append,
}

impl DeepView for Redirect {
    type V = RedirectView;

    open spec fn deep_view(&self) -> RedirectView {
        RedirectView { kind: self.kind, path: self.path@ }
    }
}

impl DeepView for CommandSpec {
    type V = CommandView;

    open spec fn deep_view(&self) -> CommandView {
        CommandView { argv: self.argv.deep_view(), redirects: self.redirects.deep_view() }
    }
}

impl DeepView for Pipeline {
    type V = Seq<CommandView>;

    open spec fn deep_view(&self) -> Seq<CommandView> {
        self.commands.deep_view()
    }
}

impl DeepView for Token {
    type V = TokenView;

    open spec fn deep_view(&self) -> TokenView {
        match self {
            Token::Word(w) => TokenView::Word(w@),
            Token::Pipe => TokenView::Pipe,
            Token::Input => TokenView::Input,
            Token::Output => TokenView::Output,
            Token::Append => TokenView::Append,
        }
    }
}

impl DeepView for Variable {
    type V = (Seq<char>, Seq<char>);

    open spec fn deep_view(&self) -> (Seq<char>, Seq<char>) {
        (self.name@, self.value@)
    }
}

impl CommandView {
    /// The command that holds nothing yet.
    pub open spec fn empty() -> CommandView {
        CommandView { argv: seq![], redirects: seq![] }
    }

    /// The command with one more argument.
    pub open spec fn with_word(self, word: Seq<char>) -> CommandView {
        CommandView { argv: self.argv.push(word), redirects: self.redirects }
    }

    /// The command with one more redirection.
    pub open spec fn with_redirect(self, kind: RedirectKind, path: Seq<char>) -> CommandView {
        CommandView {
            argv: self.argv,
            redirects: self.redirects.push(RedirectView { kind, path }),
        }
    }
}

impl Default for CommandSpec {
    fn default() -> (r: CommandSpec)
        ensures
            r.deep_view() == CommandView::empty(),
    {
        let r = CommandSpec { argv: Vec::new(), redirects: Vec::new() };
        assert(r.deep_view() =~= CommandView::empty());
        r
    }
}

impl Default for Pipeline {
    fn default() -> (r: Pipeline)
        ensures
            r.deep_view() == Seq::<CommandView>::empty(),
    {
        let r = Pipeline { commands: Vec::new() };
        assert(r.deep_view() =~= Seq::<CommandView>::empty());
        r
    }
}

/// The characters that a variable's name may hold.
pub open spec fn name_char(c: char) -> bool {
    letter(c) || digit(c) || c == '_'
}

/// The names that may stand between braces: a letter or an underscore, then letters, digits and
/// underscores.
pub open spec fn valid_name(name: Seq<char>) -> bool {
    &&& name.len() > 0
    &&& !digit(name[0])
    &&& forall|i: int| 0 <= i < name.len() ==> name_char(#[trigger] name[i])
}

/// The value of a variable: that of the first one of this name, or nothing where none has it.
pub open spec fn variable(vars: Seq<(Seq<char>, Seq<char>)>, name: Seq<char>) -> Seq<char>
    decreases vars.len(),
{
    if vars.len() == 0 {
        seq![]
    } else if vars[0].0 == name {
        vars[0].1
    } else {
        variable(vars.drop_first(), name)
    }
}

/// The first index at or after `i` that holds no character of a name, or the end of `s`.
pub open spec fn skip_name(s: Seq<char>, i: int) -> int
    decreases s.len() - i,
{
    if 0 <= i < s.len() && name_char(s[i]) {
        skip_name(s, i + 1)
    } else {
        i
    }
}

/// What the dollar sign at index `i` stands for, and the index that follows the expansion.
///
/// With a brace behind it the name reaches to the next closing brace; otherwise it is the longest
/// run of name characters. A dollar sign without a name stands for itself.
pub open spec fn expansion(s: Seq<char>, i: int, vars: Seq<(Seq<char>, Seq<char>)>) -> Result<
    (Seq<char>, int),
    Seq<char>,
> {
    let start = i + 1;
    if start < s.len() && s[start] == '{' {
        let end = find_char(s, '}', start + 1);
        let name = s.subrange(start + 1, end);
        if end >= s.len() {
            Err("unterminated parameter expansion"@)
        } else if valid_name(name) {
            Ok((variable(vars, name), end + 1))
        } else {
            Err("invalid parameter name: "@ + name)
        }
    } else {
        let end = skip_name(s, start);
        if end == start {
            Ok((seq!['$'], start))
        } else {
            Ok((variable(vars, s.subrange(start, end)), end))
        }
    }
}

/// Which quotes a character stands in.
pub enum Quote {
    Bare,
    Single,
    Double,
}

/// A word after `text` was added to it; a word that had not begun begins.
pub open spec fn grow(word: Option<Seq<char>>, text: Seq<char>) -> Option<Seq<char>> {
    match word {
        Some(w) => Some(w + text),
        None => Some(text),
    }
}

/// The token that the end of a word gives, if a word had begun.
pub open spec fn close_word(word: Option<Seq<char>>) -> Seq<TokenView> {
    match word {
        Some(w) => seq![TokenView::Word(w)],
        None => seq![],
    }
}

/// `first`, then what `rest` gives.
pub open spec fn then_tokens(
    first: Seq<TokenView>,
    rest: Result<Seq<TokenView>, Seq<char>>,
) -> Result<Seq<TokenView>, Seq<char>> {
    match rest {
        Ok(tokens) => Ok(first + tokens),
        Err(e) => Err(e),
    }
}

/// The tokens of `s` from index `i` on, where `word` has been collected before it and the
/// character at `i` stands in the given quotes.
pub open spec fn lex_from(
    s: Seq<char>,
    i: int,
    quote: Quote,
    word: Option<Seq<char>>,
    vars: Seq<(Seq<char>, Seq<char>)>,
) -> Result<Seq<TokenView>, Seq<char>>
    decreases s.len() - i,
{
    if i < 0 || i >= s.len() {
        match quote {
            Quote::Bare => Ok(close_word(word)),
            _ => Err("unterminated quoted string"@),
        }
    } else {
        proof {
            lemma_expansion(s, i, vars);
        }
        let c = s[i];
        match quote {
            Quote::Single => if c == '\'' {
                lex_from(s, i + 1, Quote::Bare, word, vars)
            } else {
                lex_from(s, i + 1, Quote::Single, grow(word, seq![c]), vars)
            },
            Quote::Double => if c == '"' {
                lex_from(s, i + 1, Quote::Bare, word, vars)
            } else if c == '\\' {
                if i + 1 < s.len() {
                    lex_from(s, i + 2, Quote::Double, grow(word, seq![s[i + 1]]), vars)
                } else {
                    Err("trailing escape in double-quoted string"@)
                }
            } else if c == '$' {
                match expansion(s, i, vars) {
                    Ok((text, next)) => lex_from(s, next, Quote::Double, grow(word, text), vars),
                    Err(e) => Err(e),
                }
            } else {
                lex_from(s, i + 1, Quote::Double, grow(word, seq![c]), vars)
            },
            Quote::Bare => if c == '\'' {
                lex_from(s, i + 1, Quote::Single, grow(word, seq![]), vars)
            } else if c == '"' {
                lex_from(s, i + 1, Quote::Double, grow(word, seq![]), vars)
            } else if c == '\\' {
                if i + 1 < s.len() {
                    lex_from(s, i + 2, Quote::Bare, grow(word, seq![s[i + 1]]), vars)
                } else {
                    Err("trailing escape"@)
                }
            } else if c == '$' {
                match expansion(s, i, vars) {
                    Ok((text, next)) => lex_from(s, next, Quote::Bare, grow(word, text), vars),
                    Err(e) => Err(e),
                }
            } else if c == '|' {
                then_tokens(
                    close_word(word).push(TokenView::Pipe),
                    lex_from(s, i + 1, Quote::Bare, None, vars),
                )
            } else if c == '<' {
                then_tokens(
                    close_word(word).push(TokenView::Input),
                    lex_from(s, i + 1, Quote::Bare, None, vars),
                )
            } else if c == '>' && i + 1 < s.len() && s[i + 1] == '>' {
                then_tokens(
                    close_word(word).push(TokenView::Append),
                    lex_from(s, i + 2, Quote::Bare, None, vars),
                )
            } else if c == '>' {
                then_tokens(
                    close_word(word).push(TokenView::Output),
                    lex_from(s, i + 1, Quote::Bare, None, vars),
                )
            } else if c == '#' && word is None {
                Ok(seq![])
            } else if white_space(c) {
                then_tokens(close_word(word), lex_from(s, i + 1, Quote::Bare, None, vars))
            } else {
                lex_from(s, i + 1, Quote::Bare, grow(word, seq![c]), vars)
            },
        }
    }
}

/// The tokens of a command line, or what is wrong with it.
pub open spec fn lexed(s: Seq<char>, vars: Seq<(Seq<char>, Seq<char>)>) -> Result<
    Seq<TokenView>,
    Seq<char>,
> {
    lex_from(s, 0, Quote::Bare, None, vars)
}

/// The kind of redirection that a token announces.
pub open spec fn redirect_kind(token: TokenView) -> RedirectKind {
    match token {
        TokenView::Input => RedirectKind::Input,
        TokenView::Append => RedirectKind::Append,
        _ => RedirectKind::Output,
    }
}

/// The commands of a list of tokens from index `i` on, where `command` has been collected of the
/// current one and `done` of those before it.
pub open spec fn parse_from(
    tokens: Seq<TokenView>,
    i: int,
    command: CommandView,
    done: Seq<CommandView>,
) -> Result<Seq<CommandView>, Seq<char>>
    decreases tokens.len() - i,
{
    if i < 0 || i >= tokens.len() {
        if command.argv.len() > 0 {
            Ok(done.push(command))
        } else if done.len() == 0 {
            Ok(done)
        } else {
            Err("expected a command after '|'"@)
        }
    } else {
        match tokens[i] {
            TokenView::Word(w) => parse_from(tokens, i + 1, command.with_word(w), done),
            TokenView::Pipe => if command.argv.len() > 0 {
                parse_from(tokens, i + 1, CommandView::empty(), done.push(command))
            } else {
                Err("expected a command before '|'"@)
            },
            _ => if i + 1 < tokens.len() && tokens[i + 1] is Word {
                parse_from(
                    tokens,
                    i + 2,
                    command.with_redirect(redirect_kind(tokens[i]), tokens[i + 1]->Word_0),
                    done,
                )
            } else {
                Err("redirection requires a file path"@)
            },
        }
    }
}

/// The pipeline that a list of tokens stands for, or what is wrong with it.
pub open spec fn parsed_tokens(tokens: Seq<TokenView>) -> Result<Seq<CommandView>, Seq<char>> {
    parse_from(tokens, 0, CommandView::empty(), seq![])
}

/// The pipeline that a command line stands for, or what is wrong with it.
pub open spec fn parsed(s: Seq<char>, vars: Seq<(Seq<char>, Seq<char>)>) -> Result<
    Seq<CommandView>,
    Seq<char>,
> {
    match lexed(s, vars) {
        Ok(tokens) => parsed_tokens(tokens),
        Err(e) => Err(e),
    }
}

pub proof fn lemma_skip_name(s: Seq<char>, i: int)
    requires
        0 <= i,
    ensures
        i <= skip_name(s, i),
        i <= s.len() ==> skip_name(s, i) <= s.len(),
        forall|j: int| i <= j < skip_name(s, i) ==> name_char(#[trigger] s[j]),
    decreases s.len() - i,
{
    if i < s.len() && name_char(s[i]) {
        lemma_skip_name(s, i + 1);
    }
}

/// An expansion takes up at least the dollar sign and ends within the line.
pub proof fn lemma_expansion(s: Seq<char>, i: int, vars: Seq<(Seq<char>, Seq<char>)>)
    requires
        0 <= i < s.len(),
    ensures
        expansion(s, i, vars) matches Ok((text, next)) ==> i < next <= s.len(),
{
    lemma_skip_name(s, i + 1);
    if i + 1 < s.len() {
        lemma_find_char(s, '}', i + 2);
    }
}

fn is_name_char(c: char) -> (r: bool)
    ensures
        r == name_char(c),
{
    ('a' <= c && c <= 'z') || ('A' <= c && c <= 'Z') || ('0' <= c && c <= '9') || c == '_'
}

/// Checks the name between the braces of a parameter expansion.
pub fn validate_variable_name(name: &str) -> (r: Result<(), String>)
    ensures
        r is Ok <==> valid_name(name@),
        r matches Err(e) ==> e@ == "invalid parameter name: "@ + name@,
{
    let chars = chars_of(name);
    let mut valid: bool = chars.len() > 0 && !('0' <= chars[0] && chars[0] <= '9');
    let mut i: usize = 0;
    while i < chars.len()
        invariant
            i <= chars@.len(),
            chars@ == name@,
            valid == (chars@.len() > 0 && !digit(chars@[0]) && forall|j: int|
                0 <= j < i ==> name_char(#[trigger] chars@[j])),
        decreases chars@.len() - i,
    {
        valid = valid && is_name_char(chars[i]);
        i = i + 1;
    }
    if valid {
        Ok(())
    } else {
        Err("invalid parameter name: ".to_string().concat(name))
    }
}

/// The value of a variable, or nothing where it is not set.
pub fn variable_value(vars: &[Variable], name: &str) -> (r: String)
    ensures
        r@ == variable(vars.deep_view(), name@),
{
    let mut i: usize = 0;
    assert(vars.deep_view().skip(0) =~= vars.deep_view());
    while i < vars.len()
        invariant
            i <= vars@.len(),
            variable(vars.deep_view(), name@) == variable(vars.deep_view().skip(i as int), name@),
        decreases vars@.len() - i,
    {
        let ghost rest = vars.deep_view().skip(i as int);
        assert(rest[0] == vars@[i as int].deep_view());
        assert(rest.drop_first() =~= vars.deep_view().skip(i + 1));
        if same_text(vars[i].name.as_str(), name) {
            return vars[i].value.clone();
        }
        i = i + 1;
    }
    String::new()
}

/// Expands the dollar sign at `*index`: adds its text to `output` and moves `*index` to the last
/// character of the expansion.
pub fn expand_variable(
    chars: &[char],
    index: &mut usize,
    output: &mut String,
    vars: &[Variable],
) -> (r: Result<(), String>)
    requires
        *old(index) < usize::MAX,
    ensures
        match expansion(chars@, *old(index) as int, vars.deep_view()) {
            Ok((text, next)) => {
                &&& r is Ok
                &&& *final(index) + 1 == next
                &&& final(output)@ == old(output)@ + text
            },
            Err(e) => {
                &&& r matches Err(m) && m@ == e
                &&& *final(index) == *old(index)
                &&& final(output)@ == old(output)@
            },
        },
{
    let start = *index + 1;
    if start < chars.len() && chars[start] == '{' {
        let end = char_index(chars, '}', start + 1);
        if end == chars.len() {
            return Err("unterminated parameter expansion".to_string());
        }
        let name = string_of(&chars[start + 1..end]);
        validate_variable_name(name.as_str())?;
        output.append(variable_value(vars, name.as_str()).as_str());
        *index = end;
        return Ok(());
    }
    let mut end = start;
    while end < chars.len() && is_name_char(chars[end])
        invariant
            start <= end,
            skip_name(chars@, start as int) == skip_name(chars@, end as int),
            start <= chars@.len() ==> end <= chars@.len(),
            start > chars@.len() ==> end == start,
        decreases chars@.len() - end,
    {
        end = end + 1;
    }
    if end == start {
        output.push('$');
        assert(output@ =~= old(output)@ + seq!['$']);
        return Ok(());
    }
    let name = string_of(&chars[start..end]);
    output.append(variable_value(vars, name.as_str()).as_str());
    *index = end - 1;
    Ok(())
}

/// Ends the word that has been collected, if one had begun.
pub fn finish_word(tokens: &mut Vec<Token>, word: &mut String, started: &mut bool)
    ensures
        *old(started) ==> final(tokens).deep_view() == old(tokens).deep_view().push(
            TokenView::Word(old(word)@),
        ) && final(word)@ == Seq::<char>::empty(),
        !*old(started) ==> *final(tokens) == *old(tokens) && *final(word) == *old(word),
        !*final(started),
{
    if *started {
        let mut finished = String::new();
        core::mem::swap(&mut finished, word);
        tokens.push(Token::Word(finished));
        *started = false;
        assert(tokens.deep_view() =~= old(tokens).deep_view().push(TokenView::Word(old(word)@)));
    }
}

/// The quotes that the two flags stand for.
spec fn quote_of(single_quoted: bool, double_quoted: bool) -> Quote {
    if single_quoted {
        Quote::Single
    } else if double_quoted {
        Quote::Double
    } else {
        Quote::Bare
    }
}

/// The word that the buffer and the flag stand for.
spec fn word_of(word: Seq<char>, started: bool) -> Option<Seq<char>> {
    if started {
        Some(word)
    } else {
        None
    }
}

pub proof fn lemma_then_tokens(
    first: Seq<TokenView>,
    second: Seq<TokenView>,
    rest: Result<Seq<TokenView>, Seq<char>>,
)
    ensures
        then_tokens(first, then_tokens(second, rest)) == then_tokens(first + second, rest),
{
    if let Ok(tokens) = rest {
        assert(first + (second + tokens) =~= (first + second) + tokens);
    }
}

/// Cuts a command line into tokens. Variables take their values from `vars`.
pub fn lex(source: &str, vars: &[Variable]) -> (r: Result<Vec<Token>, String>)
    ensures
        match lexed(source@, vars.deep_view()) {
            Ok(tokens) => r matches Ok(v) && v.deep_view() == tokens,
            Err(e) => r matches Err(m) && m@ == e,
        },
{
    let chars = chars_of(source);
    let mut tokens: Vec<Token> = Vec::new();
    let mut word = String::new();
    let mut index: usize = 0;
    let mut single_quoted = false;
    let mut double_quoted = false;
    let mut word_started = false;
    let ghost env = vars.deep_view();
    let ghost whole = lexed(source@, env);
    proof {
        assert(tokens.deep_view() =~= Seq::<TokenView>::empty());
        if let Ok(ts) = whole {
            assert(tokens.deep_view() + ts =~= ts);
        }
    }
    while index < chars.len()
        invariant
            index <= chars@.len(),
            chars@ == source@,
            env == vars.deep_view(),
            whole == lexed(source@, env),
            !(single_quoted && double_quoted),
            single_quoted || double_quoted ==> word_started,
            !word_started ==> word@ == Seq::<char>::empty(),
            whole == then_tokens(
                tokens.deep_view(),
                lex_from(
                    chars@,
                    index as int,
                    quote_of(single_quoted, double_quoted),
                    word_of(word@, word_started),
                    env,
                ),
            ),
        decreases chars@.len() - index,
    {
        let character = chars[index];
        let ghost at = index as int;
        let ghost before = tokens.deep_view();
        let ghost pending = word_of(word@, word_started);
        proof {
            lemma_expansion(chars@, at, env);
        }
        if single_quoted {
            if character == '\'' {
                single_quoted = false;
            } else {
                word.push(character);
                assert(word_of(word@, word_started)->0 =~= grow(pending, seq![character])->0);
            }
            index = index + 1;
            continue;
        }
        if double_quoted {
            if character == '"' {
                double_quoted = false;
            } else if character == '\\' {
                index = index + 1;
                if index == chars.len() {
                    return Err("trailing escape in double-quoted string".to_string());
                }
                word.push(chars[index]);
                assert(word_of(word@, word_started)->0 =~= grow(pending, seq![chars@[at + 1]])->0);
            } else if character == '$' {
                expand_variable(chars.as_slice(), &mut index, &mut word, vars)?;
            } else {
                word.push(character);
                assert(word_of(word@, word_started)->0 =~= grow(pending, seq![character])->0);
            }
            index = index + 1;
            continue;
        }
        if character == '\'' {
            single_quoted = true;
            word_started = true;
            assert(word_of(word@, word_started)->0 =~= grow(pending, seq![])->0);
        } else if character == '"' {
            double_quoted = true;
            word_started = true;
            assert(word_of(word@, word_started)->0 =~= grow(pending, seq![])->0);
        } else if character == '\\' {
            index = index + 1;
            if index == chars.len() {
                return Err("trailing escape".to_string());
            }
            word.push(chars[index]);
            word_started = true;
            assert(word_of(word@, word_started)->0 =~= grow(pending, seq![chars@[at + 1]])->0);
        } else if character == '$' {
            expand_variable(chars.as_slice(), &mut index, &mut word, vars)?;
            word_started = true;
            proof {
                let text = expansion(chars@, at, env)->Ok_0.0;
                assert(word_of(word@, word_started)->0 =~= grow(pending, text)->0);
            }
        } else if character == '|' || character == '<' || character == '>' {
            finish_word(&mut tokens, &mut word, &mut word_started);
            let ghost closed = tokens.deep_view();
            assert(closed =~= before + close_word(pending));
            if character == '>' && index + 1 < chars.len() && chars[index + 1] == '>' {
                tokens.push(Token::Append);
                index = index + 1;
            } else if character == '|' {
                tokens.push(Token::Pipe);
            } else if character == '<' {
                tokens.push(Token::Input);
            } else {
                tokens.push(Token::Output);
            }
            proof {
                let token = tokens@.last().deep_view();
                let added = close_word(pending).push(token);
                assert(tokens.deep_view() =~= closed.push(token));
                assert(tokens.deep_view() =~= before + added);
                lemma_then_tokens(
                    before,
                    added,
                    lex_from(chars@, index + 1, Quote::Bare, None, env),
                );
            }
        } else if character == '#' && !word_started {
            assert(before + Seq::<TokenView>::empty() =~= before);
            return Ok(tokens);
        } else if is_white_space(character) {
            finish_word(&mut tokens, &mut word, &mut word_started);
            proof {
                assert(tokens.deep_view() =~= before + close_word(pending));
                lemma_then_tokens(
                    before,
                    close_word(pending),
                    lex_from(chars@, index + 1, Quote::Bare, None, env),
                );
            }
        } else {
            word.push(character);
            word_started = true;
            assert(word_of(word@, word_started)->0 =~= grow(pending, seq![character])->0);
        }
        index = index + 1;
    }
    if single_quoted || double_quoted {
        return Err("unterminated quoted string".to_string());
    }
    let ghost before = tokens.deep_view();
    let ghost pending = word_of(word@, word_started);
    finish_word(&mut tokens, &mut word, &mut word_started);
    assert(tokens.deep_view() =~= before + close_word(pending));
    Ok(tokens)
}

/// Parses a command line into a pipeline. Variables take their values from `vars`.
pub fn parse_pipeline(source: &str, vars: &[Variable]) -> (r: Result<Pipeline, String>)
    ensures
        match parsed(source@, vars.deep_view()) {
            Ok(commands) => r matches Ok(p) && p.deep_view() == commands,
            Err(e) => r matches Err(m) && m@ == e,
        },
{
    let tokens = lex(source, vars)?;
    let ghost view = tokens.deep_view();
    let mut pipeline = Pipeline::default();
    let mut command = CommandSpec::default();
    let mut index: usize = 0;
    while index < tokens.len()
        invariant
            index <= tokens@.len(),
            view == tokens.deep_view(),
            parsed_tokens(view) == parse_from(
                view,
                index as int,
                command.deep_view(),
                pipeline.deep_view(),
            ),
            parsed(source@, vars.deep_view()) == parsed_tokens(view),
        decreases tokens@.len() - index,
    {
        let ghost old_command = command.deep_view();
        let ghost old_pipeline = pipeline.deep_view();
        assert(view[index as int] == tokens@[index as int].deep_view());
        match &tokens[index] {
            Token::Word(word) => {
                command.argv.push(word.clone());
                assert(command.deep_view() =~= old_command.with_word(word@));
            },
            Token::Pipe => {
                if command.argv.len() == 0 {
                    return Err("expected a command before '|'".to_string());
                }
                let mut finished = CommandSpec::default();
                core::mem::swap(&mut finished, &mut command);
                pipeline.commands.push(finished);
                assert(pipeline.deep_view() =~= old_pipeline.push(old_command));
            },
            token => {
                let kind = match token {
                    Token::Input => RedirectKind::Input,
                    Token::Append => RedirectKind::Append,
                    _ => RedirectKind::Output,
                };
                if index + 1 == tokens.len() {
                    return Err("redirection requires a file path".to_string());
                }
                assert(view[index + 1] == tokens@[index + 1].deep_view());
                match &tokens[index + 1] {
                    Token::Word(path) => {
                        command.redirects.push(Redirect { kind, path: path.clone() });
                        assert(command.deep_view() =~= old_command.with_redirect(kind, path@));
                    },
                    _ => {
                        return Err("redirection requires a file path".to_string());
                    },
                }
                index = index + 1;
            },
        }
        index = index + 1;
    }
    if command.argv.len() == 0 {
        if pipeline.commands.len() == 0 {
            return Ok(pipeline);
        }
        return Err("expected a command after '|'".to_string());
    }
    let ghost old_pipeline = pipeline.deep_view();
    let ghost last = command.deep_view();
    pipeline.commands.push(command);
    assert(pipeline.deep_view() =~= old_pipeline.push(last));
    Ok(pipeline)
}

} // verus!
