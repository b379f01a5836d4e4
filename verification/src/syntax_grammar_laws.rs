//! The grammar of command lines: how each part of a line is spelled, and what it stands for. A
//! line that is spelled by the grammar has the tokens that the grammar says, and a line that
//! breaks off, or names a variable that cannot be named, is rejected for that reason.
use crate::syntax::{
    close_word, expansion, grow, lemma_then_tokens, lex, lex_from, lexed, name_char,
    parse_pipeline, parsed, skip_name, then_tokens, valid_name, variable, CommandView, Pipeline,
    Quote, Token, TokenView, Variable,
};
use crate::syntax_laws::{
    arguments, piece_command, pieces, pieces_have_arguments, pipeline_is_its_pieces, redirections,
    redirections_have_files,
};
use crate::text::{find_char, lemma_char_found, lemma_find_char, letter, white_space};
use crate::text_laws::digits_and_letters_are_listed;
use vstd::prelude::*;
use vstd::string::*;

verus! {

/// The characters of names are the letters and digits of ASCII and the underscore.
pub proof fn name_characters_are_listed(c: char)
    ensures
        name_char(c) <==> {
            ||| "abcdefghijklmnopqrstuvwxyzABCDEFGHIJKLMNOPQRSTUVWXYZ"@.contains(c)
            ||| "0123456789"@.contains(c)
            ||| c == '_'
        },
{
    digits_and_letters_are_listed(c);
}

/// A name is valid exactly where it is a letter or an underscore with characters of names behind
/// it.
pub proof fn valid_names_begin_with_no_digit(first: char, rest: Seq<char>)
    ensures
        !valid_name(seq![]),
        valid_name(seq![first] + rest) <==> (letter(first) || first == '_') && forall|i: int|
            0 <= i < rest.len() ==> name_char(#[trigger] rest[i]),
{
    let name = seq![first] + rest;
    assert(name[0] == first);
    if valid_name(name) {
        assert(name_char(name[0]));
        assert forall|i: int| 0 <= i < rest.len() implies name_char(#[trigger] rest[i]) by {
            assert(name_char(name[i + 1]));
        }
    }
    if (letter(first) || first == '_') && forall|i: int|
        0 <= i < rest.len() ==> name_char(#[trigger] rest[i]) {
        assert forall|i: int| 0 <= i < name.len() implies name_char(#[trigger] name[i]) by {
            if i > 0 {
                assert(name[i] == rest[i - 1]);
            }
        }
    }
}

/// The value of a variable is that of its first entry; other entries do not matter.
pub proof fn first_entry_of_a_variable_counts(
    before: Seq<(Seq<char>, Seq<char>)>,
    name: Seq<char>,
    value: Seq<char>,
    rest: Seq<(Seq<char>, Seq<char>)>,
)
    requires
        forall|i: int| 0 <= i < before.len() ==> (#[trigger] before[i]).0 != name,
    ensures
        variable(before + seq![(name, value)] + rest, name) == value,
    decreases before.len(),
{
    let vars = before + seq![(name, value)] + rest;
    if before.len() == 0 {
        assert(vars[0] == (name, value));
    } else {
        let fewer = before.drop_first();
        assert(vars[0] == before[0]);
        assert(before[0].0 != name);
        assert forall|i: int| 0 <= i < fewer.len() implies (#[trigger] fewer[i]).0 != name by {
            assert(fewer[i] == before[i + 1]);
        }
        first_entry_of_a_variable_counts(fewer, name, value, rest);
        assert(vars.drop_first() =~= fewer + seq![(name, value)] + rest);
    }
}

/// A piece of a word, bare or in double quotes.
pub enum Piece {
    /// Characters that stand for themselves.
    Plain(Seq<char>),
    /// A character behind a backslash.
    Escaped(char),
    /// A variable without braces.
    Named(Seq<char>),
    /// A variable in braces.
    Braced(Seq<char>),
    /// A dollar sign without a name.
    Dollar,
}

/// A part of a word.
pub enum Part {
    Bare(Piece),
    Single(Seq<char>),
    Double(Seq<Piece>),
}

/// An item of a command line.
pub enum Item {
    Word(Seq<Part>),
    Pipe,
    Input,
    Output,
    Append,
    Blank(char),
}

/// How a piece is spelled.
pub open spec fn spelled_piece(p: Piece) -> Seq<char> {
    match p {
        Piece::Plain(text) => text,
        Piece::Escaped(c) => seq!['\\', c],
        Piece::Named(name) => seq!['$'] + name,
        Piece::Braced(name) => seq!['$', '{'] + name + seq!['}'],
        Piece::Dollar => seq!['$'],
    }
}

/// What a piece stands for.
pub open spec fn piece_text(p: Piece, vars: Seq<(Seq<char>, Seq<char>)>) -> Seq<char> {
    match p {
        Piece::Plain(text) => text,
        Piece::Escaped(c) => seq![c],
        Piece::Named(name) => variable(vars, name),
        Piece::Braced(name) => variable(vars, name),
        Piece::Dollar => seq!['$'],
    }
}

/// Whether a character begins what follows a dollar sign in a line.
pub open spec fn begins_with_name(rest: Seq<char>) -> bool {
    rest.len() > 0 && name_char(rest[0])
}

/// Whether a variable or a dollar sign may stand before what follows it. Other pieces may stand
/// before anything.
pub open spec fn piece_ends(p: Piece, rest: Seq<char>) -> bool {
    match p {
        Piece::Named(name) => name.len() > 0 && (forall|i: int|
            0 <= i < name.len() ==> name_char(#[trigger] name[i])) && !begins_with_name(rest),
        Piece::Braced(name) => valid_name(name),
        Piece::Dollar => !begins_with_name(rest) && !(rest.len() > 0 && rest[0] == '{'),
        _ => true,
    }
}

/// Whether a character stands for itself inside a word outside quotes.
pub open spec fn bare(c: char) -> bool {
    &&& c != '\'' && c != '"' && c != '\\' && c != '$' && c != '|' && c != '<' && c != '>'
    &&& !white_space(c)
}

/// Whether the characters of a text stand for themselves outside quotes. A number sign does so
/// only inside a word.
pub open spec fn plain_when_bare(text: Seq<char>, begun: bool) -> bool {
    &&& text.len() > 0
    &&& text[0] == '#' ==> begun
    &&& forall|i: int| 0 <= i < text.len() ==> bare(#[trigger] text[i])
}

/// Whether the characters of a text stand for themselves in double quotes.
pub open spec fn plain_in_double(text: Seq<char>) -> bool {
    !text.contains('"') && !text.contains('\\') && !text.contains('$')
}

/// How pieces are spelled.
pub open spec fn spelled_pieces(ps: Seq<Piece>) -> Seq<char>
    decreases ps.len(),
{
    if ps.len() == 0 {
        seq![]
    } else {
        spelled_piece(ps[0]) + spelled_pieces(ps.drop_first())
    }
}

/// What pieces stand for.
pub open spec fn pieces_text(ps: Seq<Piece>, vars: Seq<(Seq<char>, Seq<char>)>) -> Seq<char>
    decreases ps.len(),
{
    if ps.len() == 0 {
        seq![]
    } else {
        piece_text(ps[0], vars) + pieces_text(ps.drop_first(), vars)
    }
}

/// Whether pieces may stand in double quotes before what follows them.
pub open spec fn pieces_fit(ps: Seq<Piece>, rest: Seq<char>) -> bool
    decreases ps.len(),
{
    ps.len() > 0 ==> {
        &&& ps[0] matches Piece::Plain(t) ==> plain_in_double(t)
        &&& piece_ends(ps[0], spelled_pieces(ps.drop_first()) + rest)
        &&& pieces_fit(ps.drop_first(), rest)
    }
}

/// How a part is spelled.
pub open spec fn spelled_part(p: Part) -> Seq<char> {
    match p {
        Part::Bare(piece) => spelled_piece(piece),
        Part::Single(text) => seq!['\''] + text + seq!['\''],
        Part::Double(ps) => seq!['"'] + spelled_pieces(ps) + seq!['"'],
    }
}

/// What a part stands for.
pub open spec fn part_text(p: Part, vars: Seq<(Seq<char>, Seq<char>)>) -> Seq<char> {
    match p {
        Part::Bare(piece) => piece_text(piece, vars),
        Part::Single(text) => text,
        Part::Double(ps) => pieces_text(ps, vars),
    }
}

/// Whether a part may stand in a word before what follows it.
pub open spec fn part_fits(p: Part, begun: bool, rest: Seq<char>) -> bool {
    match p {
        Part::Bare(piece) => {
            &&& piece matches Piece::Plain(t) ==> plain_when_bare(t, begun)
            &&& piece_ends(piece, rest)
        },
        Part::Single(text) => !text.contains('\''),
        Part::Double(ps) => pieces_fit(ps, seq!['"']),
    }
}

/// How a word is spelled.
pub open spec fn spelled_word(parts: Seq<Part>) -> Seq<char>
    decreases parts.len(),
{
    if parts.len() == 0 {
        seq![]
    } else {
        spelled_part(parts[0]) + spelled_word(parts.drop_first())
    }
}

/// What a word stands for.
pub open spec fn word_text(parts: Seq<Part>, vars: Seq<(Seq<char>, Seq<char>)>) -> Seq<char>
    decreases parts.len(),
{
    if parts.len() == 0 {
        seq![]
    } else {
        part_text(parts[0], vars) + word_text(parts.drop_first(), vars)
    }
}

/// Whether parts may make up a word, or the rest of one that has begun, before what follows them.
pub open spec fn word_fits(parts: Seq<Part>, begun: bool, rest: Seq<char>) -> bool
    decreases parts.len(),
{
    parts.len() > 0 ==> {
        &&& part_fits(parts[0], begun, spelled_word(parts.drop_first()) + rest)
        &&& word_fits(parts.drop_first(), true, rest)
    }
}

/// How an item is spelled.
pub open spec fn spelled_item(item: Item) -> Seq<char> {
    match item {
        Item::Word(parts) => spelled_word(parts),
        Item::Pipe => seq!['|'],
        Item::Input => seq!['<'],
        Item::Output => seq!['>'],
        Item::Append => seq!['>', '>'],
        Item::Blank(c) => seq![c],
    }
}

/// The tokens that an item stands for.
pub open spec fn item_tokens(item: Item, vars: Seq<(Seq<char>, Seq<char>)>) -> Seq<TokenView> {
    match item {
        Item::Word(parts) => seq![TokenView::Word(word_text(parts, vars))],
        Item::Pipe => seq![TokenView::Pipe],
        Item::Input => seq![TokenView::Input],
        Item::Output => seq![TokenView::Output],
        Item::Append => seq![TokenView::Append],
        Item::Blank(_) => seq![],
    }
}

/// Whether an item may stand before what follows it. Two words need something between them.
pub open spec fn item_fits(item: Item, after_word: bool, rest: Seq<char>) -> bool {
    match item {
        Item::Word(parts) => parts.len() > 0 && !after_word && word_fits(parts, false, rest),
        Item::Output => !(rest.len() > 0 && rest[0] == '>'),
        Item::Blank(c) => white_space(c),
        _ => true,
    }
}

/// How a line is spelled.
pub open spec fn spelled_line(items: Seq<Item>) -> Seq<char>
    decreases items.len(),
{
    if items.len() == 0 {
        seq![]
    } else {
        spelled_item(items[0]) + spelled_line(items.drop_first())
    }
}

/// The tokens that a line stands for.
pub open spec fn line_tokens(items: Seq<Item>, vars: Seq<(Seq<char>, Seq<char>)>) -> Seq<TokenView>
    decreases items.len(),
{
    if items.len() == 0 {
        seq![]
    } else {
        item_tokens(items[0], vars) + line_tokens(items.drop_first(), vars)
    }
}

/// Whether items may make up a line before what follows them.
pub open spec fn line_fits(items: Seq<Item>, after_word: bool, rest: Seq<char>) -> bool
    decreases items.len(),
{
    items.len() > 0 ==> {
        &&& item_fits(items[0], after_word, spelled_line(items.drop_first()) + rest)
        &&& line_fits(items.drop_first(), items[0] is Word, rest)
    }
}

/// The tokens of a line that are complete before its end, where a word may have begun before it.
spec fn complete(
    items: Seq<Item>,
    word: Option<Seq<char>>,
    vars: Seq<(Seq<char>, Seq<char>)>,
) -> Seq<TokenView>
    decreases items.len(),
{
    if items.len() == 0 {
        seq![]
    } else if let Item::Word(parts) = items[0] {
        complete(items.drop_first(), grow(word, word_text(parts, vars)), vars)
    } else {
        close_word(word) + item_tokens(items[0], vars) + complete(items.drop_first(), None, vars)
    }
}

/// The word that has begun at the end of a line.
spec fn begun(
    items: Seq<Item>,
    word: Option<Seq<char>>,
    vars: Seq<(Seq<char>, Seq<char>)>,
) -> Option<Seq<char>>
    decreases items.len(),
{
    if items.len() == 0 {
        word
    } else if let Item::Word(parts) = items[0] {
        begun(items.drop_first(), grow(word, word_text(parts, vars)), vars)
    } else {
        begun(items.drop_first(), None, vars)
    }
}

/// Whether the line is `text` from index `i` on.
spec fn from_here(s: Seq<char>, i: int, text: Seq<char>) -> bool {
    0 <= i <= s.len() && s.skip(i) == text
}

proof fn lemma_from_here(s: Seq<char>, i: int, a: Seq<char>, b: Seq<char>)
    requires
        from_here(s, i, a + b),
    ensures
        i + a.len() + b.len() == s.len(),
        from_here(s, i + a.len(), b),
        forall|k: int| 0 <= k < a.len() ==> s[i + k] == #[trigger] a[k],
        b.len() > 0 ==> s[i + a.len()] == b[0],
{
    assert(s.skip(i).len() == a.len() + b.len());
    assert forall|k: int| 0 <= k < a.len() implies s[i + k] == #[trigger] a[k] by {
        assert(s.skip(i)[k] == (a + b)[k]);
    }
    assert(s.skip(i + a.len()) =~= b) by {
        assert forall|k: int| 0 <= k < b.len() implies s.skip(i + a.len())[k] == b[k] by {
            assert(s.skip(i)[a.len() + k] == (a + b)[a.len() + k]);
        }
    }
    if b.len() > 0 {
        assert(s.skip(i + a.len())[0] == b[0]);
    }
}

proof fn lemma_name_ends(s: Seq<char>, i: int, e: int)
    requires
        0 <= i <= e <= s.len(),
        forall|k: int| i <= k < e ==> name_char(#[trigger] s[k]),
        e < s.len() ==> !name_char(s[e]),
    ensures
        skip_name(s, i) == e,
    decreases e - i,
{
    if i < e {
        lemma_name_ends(s, i + 1, e);
    }
}

/// A dollar sign is expanded as its piece says.
proof fn lemma_expands(
    s: Seq<char>,
    i: int,
    p: Piece,
    rest: Seq<char>,
    vars: Seq<(Seq<char>, Seq<char>)>,
)
    requires
        p is Named || p is Braced || p is Dollar,
        from_here(s, i, spelled_piece(p) + rest),
        piece_ends(p, rest),
    ensures
        s[i] == '$',
        i < s.len(),
        expansion(s, i, vars) == Ok::<(Seq<char>, int), Seq<char>>(
            (piece_text(p, vars), i + spelled_piece(p).len()),
        ),
{
    let text = spelled_piece(p);
    lemma_from_here(s, i, text, rest);
    let e = i + text.len();
    assert(text[0] == '$');
    assert(s[i + 0] == text[0]);
    match p {
        Piece::Named(name) => {
            assert forall|k: int| i + 1 <= k < e implies name_char(#[trigger] s[k]) by {
                assert(s[i + (k - i)] == text[k - i]);
                assert(text[k - i] == name[k - i - 1]);
            }
            lemma_name_ends(s, i + 1, e);
            assert(name_char(s[i + 1]));
            assert(s.subrange(i + 1, e) =~= name) by {
                assert forall|k: int| 0 <= k < name.len() implies s.subrange(i + 1, e)[k]
                    == name[k] by {
                    assert(s[i + (k + 1)] == text[k + 1]);
                }
            }
        },
        Piece::Braced(name) => {
            assert(s[i + 1] == text[1]);
            assert forall|k: int| i + 2 <= k < e - 1 implies s[k] != '}' by {
                assert(s[i + (k - i)] == text[k - i]);
                assert(text[k - i] == name[k - i - 2]);
                assert(name_char(name[k - i - 2]));
            }
            assert(s[i + (text.len() - 1)] == text[text.len() - 1]);
            lemma_char_found(s, '}', i + 2, e - 1);
            assert(s.subrange(i + 2, e - 1) =~= name) by {
                assert forall|k: int| 0 <= k < name.len() implies s.subrange(i + 2, e - 1)[k]
                    == name[k] by {
                    assert(s[i + (k + 2)] == text[k + 2]);
                }
            }
        },
        _ => {
            lemma_name_ends(s, i + 1, i + 1);
        },
    }
}

proof fn lemma_grow(word: Option<Seq<char>>, a: Seq<char>, b: Seq<char>)
    ensures
        grow(grow(word, a), b) == grow(word, a + b),
{
    if let Some(w) = word {
        assert((w + a) + b =~= w + (a + b));
    }
}

/// Characters that stand for themselves are added to the word.
proof fn lemma_plain(
    s: Seq<char>,
    i: int,
    quote: Quote,
    word: Option<Seq<char>>,
    text: Seq<char>,
    rest: Seq<char>,
    vars: Seq<(Seq<char>, Seq<char>)>,
)
    requires
        quote is Bare || quote is Double,
        from_here(s, i, text + rest),
        text.len() > 0 || word is Some,
        quote is Bare && text.len() > 0 ==> plain_when_bare(text, word is Some),
        quote is Double ==> plain_in_double(text),
    ensures
        lex_from(s, i, quote, word, vars) == lex_from(
            s,
            i + text.len(),
            quote,
            grow(word, text),
            vars,
        ),
    decreases text.len(),
{
    if text.len() == 0 {
        assert(word->0 + text =~= word->0);
    } else {
        let one = seq![text[0]];
        let others = text.drop_first();
        assert(text + rest =~= one + (others + rest));
        lemma_from_here(s, i, one, others + rest);
        assert(one[0] == text[0]);
        assert(s[i + 0] == text[0]);
        if quote is Double {
            assert(text.contains(text[0]));
            assert forall|c: char| others.contains(c) implies text.contains(c) by {
                let k = choose|k: int| 0 <= k < others.len() && others[k] == c;
                assert(text[k + 1] == c);
            }
        } else {
            assert(bare(text[0]));
            assert forall|k: int| 0 <= k < others.len() implies bare(#[trigger] others[k]) by {
                assert(bare(text[k + 1]));
            }
        }
        lemma_plain(s, i + 1, quote, grow(word, one), others, rest, vars);
        lemma_grow(word, one, others);
        assert(one + others =~= text);
    }
}

/// A piece adds what it stands for to the word.
proof fn lemma_piece(
    s: Seq<char>,
    i: int,
    quote: Quote,
    word: Option<Seq<char>>,
    p: Piece,
    rest: Seq<char>,
    vars: Seq<(Seq<char>, Seq<char>)>,
)
    requires
        quote is Bare || quote is Double,
        quote is Double ==> word is Some,
        from_here(s, i, spelled_piece(p) + rest),
        piece_ends(p, rest),
        quote is Bare ==> (p matches Piece::Plain(t) ==> plain_when_bare(t, word is Some)),
        quote is Double ==> (p matches Piece::Plain(t) ==> plain_in_double(t)),
    ensures
        lex_from(s, i, quote, word, vars) == lex_from(
            s,
            i + spelled_piece(p).len(),
            quote,
            grow(word, piece_text(p, vars)),
            vars,
        ),
{
    let text = spelled_piece(p);
    lemma_from_here(s, i, text, rest);
    match p {
        Piece::Plain(plain) => {
            lemma_plain(s, i, quote, word, plain, rest, vars);
        },
        Piece::Escaped(c) => {
            assert(s[i + 0] == text[0]);
            assert(s[i + 1] == text[1]);
        },
        _ => {
            lemma_expands(s, i, p, rest, vars);
        },
    }
}

/// Pieces in double quotes add what they stand for to the word.
proof fn lemma_pieces(
    s: Seq<char>,
    i: int,
    word: Option<Seq<char>>,
    ps: Seq<Piece>,
    rest: Seq<char>,
    vars: Seq<(Seq<char>, Seq<char>)>,
)
    requires
        word is Some,
        from_here(s, i, spelled_pieces(ps) + rest),
        pieces_fit(ps, rest),
    ensures
        from_here(s, i + spelled_pieces(ps).len(), rest),
        lex_from(s, i, Quote::Double, word, vars) == lex_from(
            s,
            i + spelled_pieces(ps).len(),
            Quote::Double,
            grow(word, pieces_text(ps, vars)),
            vars,
        ),
    decreases ps.len(),
{
    lemma_from_here(s, i, spelled_pieces(ps), rest);
    if ps.len() == 0 {
        assert(word->0 + Seq::<char>::empty() =~= word->0);
    } else {
        let first = spelled_piece(ps[0]);
        let others = ps.drop_first();
        let behind = spelled_pieces(others) + rest;
        let text = piece_text(ps[0], vars);
        assert(spelled_pieces(ps) + rest =~= first + behind);
        lemma_from_here(s, i, first, behind);
        lemma_piece(s, i, Quote::Double, word, ps[0], behind, vars);
        lemma_pieces(s, i + first.len(), grow(word, text), others, rest, vars);
        lemma_grow(word, text, pieces_text(others, vars));
    }
}

/// Text in single quotes is added to the word.
proof fn lemma_single(
    s: Seq<char>,
    i: int,
    word: Option<Seq<char>>,
    text: Seq<char>,
    rest: Seq<char>,
    vars: Seq<(Seq<char>, Seq<char>)>,
)
    requires
        word is Some,
        from_here(s, i, text + rest),
        !text.contains('\''),
    ensures
        lex_from(s, i, Quote::Single, word, vars) == lex_from(
            s,
            i + text.len(),
            Quote::Single,
            grow(word, text),
            vars,
        ),
    decreases text.len(),
{
    lemma_from_here(s, i, text, rest);
    if text.len() == 0 {
        assert(word->0 + text =~= word->0);
    } else {
        let others = text.drop_first();
        assert(s[i + 0] == text[0]);
        assert(text.contains(text[0]));
        assert forall|k: int| 0 <= k < others.len() implies others[k] != '\'' by {
            assert(text.contains(text[k + 1]));
        }
        assert(text + rest =~= seq![text[0]] + (others + rest));
        lemma_from_here(s, i, seq![text[0]], others + rest);
        lemma_single(s, i + 1, grow(word, seq![text[0]]), others, rest, vars);
        lemma_grow(word, seq![text[0]], others);
        assert(seq![text[0]] + others =~= text);
    }
}

/// A part adds what it stands for to the word.
proof fn lemma_part(
    s: Seq<char>,
    i: int,
    word: Option<Seq<char>>,
    p: Part,
    rest: Seq<char>,
    vars: Seq<(Seq<char>, Seq<char>)>,
)
    requires
        from_here(s, i, spelled_part(p) + rest),
        part_fits(p, word is Some, rest),
    ensures
        lex_from(s, i, Quote::Bare, word, vars) == lex_from(
            s,
            i + spelled_part(p).len(),
            Quote::Bare,
            grow(word, part_text(p, vars)),
            vars,
        ),
{
    lemma_from_here(s, i, spelled_part(p), rest);
    let opened = grow(word, seq![]);
    match p {
        Part::Bare(piece) => {
            lemma_piece(s, i, Quote::Bare, word, piece, rest, vars);
        },
        Part::Single(text) => {
            let close = seq!['\''] + rest;
            assert(spelled_part(p)[0] == '\'');
            assert(s[i + 0] == '\'');
            assert(spelled_part(p) + rest =~= seq!['\''] + (text + close));
            lemma_from_here(s, i, seq!['\''], text + close);
            lemma_single(s, i + 1, opened, text, close, vars);
            lemma_from_here(s, i + 1, text, close);
            lemma_grow(word, seq![], text);
            assert(Seq::<char>::empty() + text =~= text);
            assert(s[i + 1 + text.len()] == '\'');
        },
        Part::Double(ps) => {
            let close = seq!['"'] + rest;
            assert(spelled_part(p)[0] == '"');
            assert(s[i + 0] == '"');
            assert(spelled_part(p) + rest =~= seq!['"'] + (spelled_pieces(ps) + close));
            lemma_from_here(s, i, seq!['"'], spelled_pieces(ps) + close);
            lemma_fit_before_quote(ps, rest);
            lemma_pieces(s, i + 1, opened, ps, close, vars);
            lemma_from_here(s, i + 1, spelled_pieces(ps), close);
            lemma_grow(word, seq![], pieces_text(ps, vars));
            assert(Seq::<char>::empty() + pieces_text(ps, vars) =~= pieces_text(ps, vars));
            assert(s[i + 1 + spelled_pieces(ps).len()] == '"');
        },
    }
}

/// Only the first character behind pieces matters to them.
proof fn lemma_fit_before_quote(ps: Seq<Piece>, rest: Seq<char>)
    requires
        pieces_fit(ps, seq!['"']),
    ensures
        pieces_fit(ps, seq!['"'] + rest),
    decreases ps.len(),
{
    if ps.len() > 0 {
        let others = ps.drop_first();
        lemma_fit_before_quote(others, rest);
        let a = spelled_pieces(others) + seq!['"'];
        let b = spelled_pieces(others) + (seq!['"'] + rest);
        assert(a[0] == b[0]) by {
            if spelled_pieces(others).len() > 0 {
                assert(a[0] == spelled_pieces(others)[0]);
            }
        }
    }
}

/// A word is collected part by part.
proof fn lemma_word(
    s: Seq<char>,
    i: int,
    word: Option<Seq<char>>,
    parts: Seq<Part>,
    rest: Seq<char>,
    vars: Seq<(Seq<char>, Seq<char>)>,
)
    requires
        from_here(s, i, spelled_word(parts) + rest),
        word_fits(parts, word is Some, rest),
        parts.len() > 0 || word is Some,
    ensures
        lex_from(s, i, Quote::Bare, word, vars) == lex_from(
            s,
            i + spelled_word(parts).len(),
            Quote::Bare,
            grow(word, word_text(parts, vars)),
            vars,
        ),
    decreases parts.len(),
{
    if parts.len() == 0 {
        assert(word->0 + Seq::<char>::empty() =~= word->0);
    } else {
        let first = spelled_part(parts[0]);
        let others = parts.drop_first();
        let behind = spelled_word(others) + rest;
        let text = part_text(parts[0], vars);
        assert(spelled_word(parts) + rest =~= first + behind);
        lemma_from_here(s, i, first, behind);
        lemma_part(s, i, word, parts[0], behind, vars);
        lemma_word(s, i + first.len(), grow(word, text), others, rest, vars);
        lemma_grow(word, text, word_text(others, vars));
    }
}

/// A line is read item by item.
proof fn lemma_line(
    s: Seq<char>,
    i: int,
    word: Option<Seq<char>>,
    items: Seq<Item>,
    rest: Seq<char>,
    vars: Seq<(Seq<char>, Seq<char>)>,
)
    requires
        from_here(s, i, spelled_line(items) + rest),
        line_fits(items, word is Some, rest),
    ensures
        from_here(s, i + spelled_line(items).len(), rest),
        lex_from(s, i, Quote::Bare, word, vars) == then_tokens(
            complete(items, word, vars),
            lex_from(
                s,
                i + spelled_line(items).len(),
                Quote::Bare,
                begun(items, word, vars),
                vars,
            ),
        ),
    decreases items.len(),
{
    lemma_from_here(s, i, spelled_line(items), rest);
    let end = lex_from(
        s,
        i + spelled_line(items).len(),
        Quote::Bare,
        begun(items, word, vars),
        vars,
    );
    if items.len() == 0 {
        if let Ok(tokens) = end {
            assert(Seq::<TokenView>::empty() + tokens =~= tokens);
        }
    } else {
        let first = spelled_item(items[0]);
        let others = items.drop_first();
        let behind = spelled_line(others) + rest;
        let next = i + first.len();
        assert(spelled_line(items) + rest =~= first + behind);
        lemma_from_here(s, i, first, behind);
        match items[0] {
            Item::Word(parts) => {
                let text = grow(word, word_text(parts, vars));
                lemma_word(s, i, word, parts, behind, vars);
                lemma_line(s, next, text, others, rest, vars);
            },
            item => {
                assert(s[i + 0] == first[0]);
                if item is Append {
                    assert(s[i + 1] == first[1]);
                }
                let added = close_word(word) + item_tokens(item, vars);
                lemma_line(s, next, None, others, rest, vars);
                assert(added =~= if item is Blank {
                    close_word(word)
                } else {
                    close_word(word).push(item_tokens(item, vars)[0])
                });
                assert(lex_from(s, i, Quote::Bare, word, vars) == then_tokens(
                    added,
                    lex_from(s, next, Quote::Bare, None, vars),
                ));
                lemma_then_tokens(added, complete(others, None, vars), end);
            },
        }
    }
}

/// The complete tokens and the last word are all the tokens of the line.
proof fn lemma_tokens(
    items: Seq<Item>,
    word: Option<Seq<char>>,
    rest: Seq<char>,
    vars: Seq<(Seq<char>, Seq<char>)>,
)
    requires
        line_fits(items, word is Some, rest),
    ensures
        complete(items, word, vars) + close_word(begun(items, word, vars)) == close_word(word)
            + line_tokens(items, vars),
        items.len() > 0 ==> (begun(items, word, vars) is Some <==> items.last() is Word),
    decreases items.len(),
{
    let all = complete(items, word, vars) + close_word(begun(items, word, vars));
    if items.len() == 0 {
        assert(all =~= close_word(word) + line_tokens(items, vars));
    } else {
        let others = items.drop_first();
        if others.len() > 0 {
            assert(others.last() == items.last());
        }
        match items[0] {
            Item::Word(parts) => {
                let text = word_text(parts, vars);
                lemma_tokens(others, grow(word, text), rest, vars);
                assert(all =~= close_word(word) + line_tokens(items, vars));
            },
            item => {
                lemma_tokens(others, None, rest, vars);
                let tail = complete(others, None, vars) + close_word(begun(others, None, vars));
                assert(tail =~= line_tokens(others, vars));
                assert(all =~= close_word(word) + item_tokens(item, vars) + tail);
                assert(all =~= close_word(word) + line_tokens(items, vars));
            },
        }
    }
}

/// A line that is spelled by the grammar has the tokens that the grammar says, whatever the words
/// are made of. A comment may stand at its end, though not inside a word.
pub proof fn spelled_line_is_read(
    items: Seq<Item>,
    comment: Seq<char>,
    vars: Seq<(Seq<char>, Seq<char>)>,
)
    requires
        comment.len() > 0 ==> comment[0] == '#' && !(items.len() > 0 && items.last() is Word),
        line_fits(items, false, comment),
    ensures
        lexed(spelled_line(items) + comment, vars) == Ok::<Seq<TokenView>, Seq<char>>(
            line_tokens(items, vars),
        ),
{
    let s = spelled_line(items) + comment;
    assert(s.skip(0) =~= s);
    lemma_line(s, 0, None, items, comment, vars);
    lemma_tokens(items, None, comment, vars);
    lemma_from_here(s, 0, spelled_line(items), comment);
    assert(complete(items, None, vars) + close_word(begun(items, None, vars)) =~= line_tokens(
        items,
        vars,
    ));
    if comment.len() > 0 {
        assert(begun(items, None, vars) is None);
    }
}

/// What can be wrong at the end of a line.
pub enum Fault {
    /// A single quote is not closed.
    OpenSingle(Seq<char>),
    /// A double quote is not closed.
    OpenDouble(Seq<Piece>),
    /// A backslash has nothing behind it.
    Escape,
    /// A backslash in double quotes has nothing behind it.
    DoubleEscape(Seq<Piece>),
    /// A brace is not closed.
    OpenBrace(Seq<char>),
    /// A brace in double quotes is not closed.
    DoubleOpenBrace(Seq<Piece>, Seq<char>),
    /// What stands in braces is no name, whatever follows.
    BadName(Seq<char>, Seq<char>),
    /// What stands in braces in double quotes is no name, whatever follows.
    DoubleBadName(Seq<Piece>, Seq<char>, Seq<char>),
}

/// How a fault is spelled.
pub open spec fn spelled_fault(fault: Fault) -> Seq<char> {
    match fault {
        Fault::OpenSingle(text) => seq!['\''] + text,
        Fault::OpenDouble(ps) => seq!['"'] + spelled_pieces(ps),
        Fault::Escape => seq!['\\'],
        Fault::DoubleEscape(ps) => seq!['"'] + (spelled_pieces(ps) + seq!['\\']),
        Fault::OpenBrace(text) => seq!['$', '{'] + text,
        Fault::DoubleOpenBrace(ps, text) => seq!['"'] + (spelled_pieces(ps) + (seq!['$', '{']
            + text)),
        Fault::BadName(name, rest) => seq!['$', '{'] + (name + (seq!['}'] + rest)),
        Fault::DoubleBadName(ps, name, rest) => seq!['"'] + (spelled_pieces(ps) + (seq!['$', '{']
            + (name + (seq!['}'] + rest)))),
    }
}

/// Whether what a fault holds is what it says.
pub open spec fn fault_fits(fault: Fault) -> bool {
    match fault {
        Fault::OpenSingle(text) => !text.contains('\''),
        Fault::OpenDouble(ps) => pieces_fit(ps, seq![]),
        Fault::Escape => true,
        Fault::DoubleEscape(ps) => pieces_fit(ps, seq!['\\']),
        Fault::OpenBrace(text) => !text.contains('}'),
        Fault::DoubleOpenBrace(ps, text) => pieces_fit(ps, seq!['$', '{'] + text)
            && !text.contains('}'),
        Fault::BadName(name, rest) => !name.contains('}') && !valid_name(name),
        Fault::DoubleBadName(ps, name, rest) => pieces_fit(
            ps,
            seq!['$', '{'] + (name + (seq!['}'] + rest)),
        ) && !name.contains('}') && !valid_name(name),
    }
}

/// What is said of a fault.
pub open spec fn fault_message(fault: Fault) -> Seq<char> {
    match fault {
        Fault::OpenSingle(_) => "unterminated quoted string"@,
        Fault::OpenDouble(_) => "unterminated quoted string"@,
        Fault::Escape => "trailing escape"@,
        Fault::DoubleEscape(_) => "trailing escape in double-quoted string"@,
        Fault::OpenBrace(_) => "unterminated parameter expansion"@,
        Fault::DoubleOpenBrace(_, _) => "unterminated parameter expansion"@,
        Fault::BadName(name, _) => "invalid parameter name: "@ + name,
        Fault::DoubleBadName(_, name, _) => "invalid parameter name: "@ + name,
    }
}

proof fn lemma_open_brace(s: Seq<char>, i: int, text: Seq<char>, vars: Seq<(Seq<char>, Seq<char>)>)
    requires
        from_here(s, i, seq!['$', '{'] + text),
        !text.contains('}'),
    ensures
        i < s.len() && s[i] == '$',
        expansion(s, i, vars) == Err::<(Seq<char>, int), Seq<char>>(
            "unterminated parameter expansion"@,
        ),
{
    let head = seq!['$', '{'];
    lemma_from_here(s, i, head, text);
    assert(s[i + 0] == head[0] && s[i + 1] == head[1]);
    lemma_from_here(s, i + 2, text, seq![]);
    lemma_find_char(s, '}', i + 2);
    if find_char(s, '}', i + 2) < s.len() {
        let k = find_char(s, '}', i + 2) - (i + 2);
        assert(s[i + 2 + k] == text[k]);
        assert(text.contains(text[k]));
    }
}

proof fn lemma_bad_name(
    s: Seq<char>,
    i: int,
    name: Seq<char>,
    rest: Seq<char>,
    vars: Seq<(Seq<char>, Seq<char>)>,
)
    requires
        from_here(s, i, seq!['$', '{'] + (name + (seq!['}'] + rest))),
        !name.contains('}'),
        !valid_name(name),
    ensures
        i < s.len() && s[i] == '$',
        expansion(s, i, vars) == Err::<(Seq<char>, int), Seq<char>>(
            "invalid parameter name: "@ + name,
        ),
{
    let head = seq!['$', '{'];
    let close = seq!['}'] + rest;
    lemma_from_here(s, i, head, name + close);
    assert(s[i + 0] == head[0] && s[i + 1] == head[1]);
    lemma_from_here(s, i + 2, name, close);
    let e = i + 2 + name.len();
    assert(close[0] == '}');
    assert forall|k: int| i + 2 <= k < e implies s[k] != '}' by {
        assert(s[i + 2 + (k - i - 2)] == name[k - i - 2]);
        assert(name.contains(name[k - i - 2]));
    }
    lemma_char_found(s, '}', i + 2, e);
    assert(s.subrange(i + 2, e) =~= name) by {
        assert forall|k: int| 0 <= k < name.len() implies s.subrange(i + 2, e)[k] == name[k] by {
            assert(s[i + 2 + k] == name[k]);
        }
    }
}

/// The rest of a line that opens a double quote and goes on with pieces.
proof fn lemma_opened(
    s: Seq<char>,
    i: int,
    word: Option<Seq<char>>,
    ps: Seq<Piece>,
    rest: Seq<char>,
    vars: Seq<(Seq<char>, Seq<char>)>,
)
    requires
        from_here(s, i, seq!['"'] + (spelled_pieces(ps) + rest)),
        pieces_fit(ps, rest),
    ensures
        from_here(s, i + 1 + spelled_pieces(ps).len(), rest),
        exists|w: Option<Seq<char>>|
            lex_from(s, i, Quote::Bare, word, vars) == #[trigger] lex_from(
                s,
                i + 1 + spelled_pieces(ps).len(),
                Quote::Double,
                w,
                vars,
            ),
{
    let head = seq!['"'];
    lemma_from_here(s, i, head, spelled_pieces(ps) + rest);
    assert(s[i + 0] == head[0]);
    lemma_pieces(s, i + 1, grow(word, seq![]), ps, rest, vars);
}

proof fn lemma_fault(
    s: Seq<char>,
    i: int,
    word: Option<Seq<char>>,
    fault: Fault,
    vars: Seq<(Seq<char>, Seq<char>)>,
)
    requires
        from_here(s, i, spelled_fault(fault)),
        fault_fits(fault),
    ensures
        lex_from(s, i, Quote::Bare, word, vars) == Err::<Seq<TokenView>, Seq<char>>(
            fault_message(fault),
        ),
{
    match fault {
        Fault::OpenSingle(text) => {
            let head = seq!['\''];
            lemma_from_here(s, i, head, text);
            assert(s[i + 0] == head[0]);
            assert(text + Seq::<char>::empty() =~= text);
            lemma_single(s, i + 1, grow(word, seq![]), text, seq![], vars);
            lemma_from_here(s, i + 1, text, seq![]);
        },
        Fault::OpenDouble(ps) => {
            assert(spelled_pieces(ps) + Seq::<char>::empty() =~= spelled_pieces(ps));
            lemma_opened(s, i, word, ps, seq![], vars);
            let e = i + 1 + spelled_pieces(ps).len();
            assert(s.skip(e).len() == 0);
        },
        Fault::Escape => {
            lemma_from_here(s, i, seq!['\\'], seq![]);
            assert(seq!['\\'][0] == '\\');
            assert(s[i + 0] == '\\');
        },
        Fault::DoubleEscape(ps) => {
            lemma_opened(s, i, word, ps, seq!['\\'], vars);
            let e = i + 1 + spelled_pieces(ps).len();
            assert(s.skip(e).len() == 1);
            assert(s.skip(e)[0] == s[e]);
        },
        Fault::OpenBrace(text) => {
            lemma_open_brace(s, i, text, vars);
        },
        Fault::DoubleOpenBrace(ps, text) => {
            lemma_opened(s, i, word, ps, seq!['$', '{'] + text, vars);
            lemma_open_brace(s, i + 1 + spelled_pieces(ps).len(), text, vars);
        },
        Fault::BadName(name, rest) => {
            lemma_bad_name(s, i, name, rest, vars);
        },
        Fault::DoubleBadName(ps, name, rest) => {
            lemma_opened(
                s,
                i,
                word,
                ps,
                seq!['$', '{'] + (name + (seq!['}'] + rest)),
                vars,
            );
            lemma_bad_name(s, i + 1 + spelled_pieces(ps).len(), name, rest, vars);
        },
    }
}

/// A line that ends in a fault is rejected for that fault, whatever stands before it.
pub proof fn faulty_line_is_rejected(
    items: Seq<Item>,
    fault: Fault,
    vars: Seq<(Seq<char>, Seq<char>)>,
)
    requires
        line_fits(items, false, spelled_fault(fault)),
        fault_fits(fault),
    ensures
        lexed(spelled_line(items) + spelled_fault(fault), vars) == Err::<
            Seq<TokenView>,
            Seq<char>,
        >(fault_message(fault)),
        parsed(spelled_line(items) + spelled_fault(fault), vars) == Err::<
            Seq<CommandView>,
            Seq<char>,
        >(fault_message(fault)),
{
    let s = spelled_line(items) + spelled_fault(fault);
    assert(s.skip(0) =~= s);
    lemma_line(s, 0, None, items, spelled_fault(fault), vars);
    lemma_fault(
        s,
        spelled_line(items).len() as int,
        begun(items, None, vars),
        fault,
        vars,
    );
}

/// In double quotes a variable in braces contributes exactly its value to the word, between the
/// texts that stand around it.
pub proof fn braced_variable_in_double_quotes(
    a: Seq<char>,
    name: Seq<char>,
    b: Seq<char>,
    vars: Seq<(Seq<char>, Seq<char>)>,
)
    requires
        valid_name(name),
        forall|i: int|
            0 <= i < a.len() ==> #[trigger] a[i] != '"' && a[i] != '\\' && a[i] != '$',
        forall|i: int|
            0 <= i < b.len() ==> #[trigger] b[i] != '"' && b[i] != '\\' && b[i] != '$',
    ensures
        lexed(seq!['"'] + a + seq!['$', '{'] + name + seq!['}'] + b + seq!['"'], vars) == Ok::<
            Seq<TokenView>,
            Seq<char>,
        >(seq![TokenView::Word(a + variable(vars, name) + b)]),
{
    let quote = seq!['"'];
    let last = seq![Piece::Plain(b)];
    let two = seq![Piece::Braced(name)] + last;
    let ps = seq![Piece::Plain(a)] + two;
    assert(last.drop_first() =~= Seq::<Piece>::empty());
    assert(two.drop_first() =~= last);
    assert(ps.drop_first() =~= two);
    assert(pieces_fit(last.drop_first(), quote));
    assert(pieces_fit(last, quote));
    assert(pieces_fit(two, quote));
    assert(pieces_fit(ps, quote));
    assert(spelled_pieces(last.drop_first()) =~= Seq::<char>::empty());
    assert(spelled_pieces(last) =~= b);
    assert(spelled_pieces(two) =~= seq!['$', '{'] + name + seq!['}'] + b);
    assert(pieces_text(last.drop_first(), vars) =~= Seq::<char>::empty());
    assert(pieces_text(last, vars) =~= b);
    assert(pieces_text(two, vars) =~= variable(vars, name) + b);
    let text = a + variable(vars, name) + b;
    assert(pieces_text(ps, vars) =~= text);
    double_quoted_word_is_read(ps, vars);
    assert(seq!['"'] + spelled_pieces(ps) + seq!['"'] =~= seq!['"'] + a + seq!['$', '{'] + name
        + seq!['}'] + b + seq!['"']);
}

/// Pieces in double quotes are one word: what they stand for, one after the other.
pub proof fn double_quoted_word_is_read(ps: Seq<Piece>, vars: Seq<(Seq<char>, Seq<char>)>)
    requires
        pieces_fit(ps, seq!['"']),
    ensures
        lexed(seq!['"'] + spelled_pieces(ps) + seq!['"'], vars) == Ok::<
            Seq<TokenView>,
            Seq<char>,
        >(seq![TokenView::Word(pieces_text(ps, vars))]),
{
    let parts = seq![Part::Double(ps)];
    assert(parts.drop_first() =~= Seq::<Part>::empty());
    assert(word_fits(parts.drop_first(), true, seq![]));
    word_is_read(parts, vars);
    assert(spelled_word(parts.drop_first()) =~= Seq::<char>::empty());
    assert(spelled_word(parts) =~= seq!['"'] + spelled_pieces(ps) + seq!['"']);
    assert(word_text(parts.drop_first(), vars) =~= Seq::<char>::empty());
    assert(word_text(parts, vars) =~= pieces_text(ps, vars));
}

/// Parts without anything between them are one word: what they stand for, one after the other.
pub proof fn word_is_read(parts: Seq<Part>, vars: Seq<(Seq<char>, Seq<char>)>)
    requires
        parts.len() > 0,
        word_fits(parts, false, seq![]),
    ensures
        lexed(spelled_word(parts), vars) == Ok::<Seq<TokenView>, Seq<char>>(
            seq![TokenView::Word(word_text(parts, vars))],
        ),
{
    let items = seq![Item::Word(parts)];
    let none = items.drop_first();
    assert(none =~= Seq::<Item>::empty());
    assert(spelled_line(none) =~= Seq::<char>::empty());
    assert(spelled_line(none) + Seq::<char>::empty() =~= Seq::<char>::empty());
    assert(line_fits(none, true, seq![]));
    assert(line_fits(items, false, seq![]));
    spelled_line_is_read(items, seq![], vars);
    assert(spelled_line(items) + Seq::<char>::empty() =~= spelled_word(parts));
    assert(line_tokens(none, vars) =~= Seq::<TokenView>::empty());
    assert(line_tokens(items, vars) =~= seq![TokenView::Word(word_text(parts, vars))]);
}

/// The lexer reads a line that is spelled by the grammar as the grammar says, and rejects a faulty
/// one for its fault.
pub proof fn lexer_follows_the_grammar(
    source: &str,
    vars: &[Variable],
    r: Result<Vec<Token>, String>,
    items: Seq<Item>,
    comment: Seq<char>,
    fault: Fault,
)
    requires
        call_ensures(lex, (source, vars), r),
    ensures
        source@ == spelled_line(items) + comment && line_fits(items, false, comment) && (
        comment.len() > 0 ==> comment[0] == '#' && !(items.len() > 0 && items.last() is Word)) ==> (
        r matches Ok(tokens) && tokens.deep_view() == line_tokens(items, vars.deep_view())),
        source@ == spelled_line(items) + spelled_fault(fault) && fault_fits(fault) && line_fits(
            items,
            false,
            spelled_fault(fault),
        ) ==> (r matches Err(message) && message@ == fault_message(fault)),
{
    if line_fits(items, false, comment) && (comment.len() > 0 ==> comment[0] == '#' && !(items.len()
        > 0 && items.last() is Word)) {
        spelled_line_is_read(items, comment, vars.deep_view());
    }
    if fault_fits(fault) && line_fits(items, false, spelled_fault(fault)) {
        faulty_line_is_rejected(items, fault, vars.deep_view());
    }
}

/// The parser gives the pipeline of the tokens that the grammar says: one command for each piece
/// between pipes, with its arguments and redirections.
pub proof fn parser_follows_the_grammar(
    source: &str,
    vars: &[Variable],
    r: Result<Pipeline, String>,
    items: Seq<Item>,
    comment: Seq<char>,
)
    requires
        call_ensures(parse_pipeline, (source, vars), r),
        source@ == spelled_line(items) + comment,
        line_fits(items, false, comment),
        comment.len() > 0 ==> comment[0] == '#' && !(items.len() > 0 && items.last() is Word),
    ensures
        ({
            let tokens = line_tokens(items, vars.deep_view());
            let all = pieces(tokens);
            &&& r is Ok <==> redirections_have_files(tokens) && (all.len() > 1
                ==> pieces_have_arguments(tokens))
            &&& r matches Ok(p) ==> {
                if all.len() == 1 && arguments(all[0]).len() == 0 {
                    p.commands@.len() == 0
                } else {
                    &&& p.commands@.len() == all.len()
                    &&& forall|i: int|
                        0 <= i < all.len() ==> {
                            &&& (#[trigger] p.commands@[i]).argv.deep_view() == arguments(all[i])
                            &&& p.commands@[i].redirects.deep_view() == redirections(all[i])
                        }
                }
            }
        }),
{
    let tokens = line_tokens(items, vars.deep_view());
    spelled_line_is_read(items, comment, vars.deep_view());
    pipeline_is_its_pieces(tokens);
    if let Ok(p) = r {
        let all = pieces(tokens);
        assert(p.commands.deep_view().len() == p.commands@.len());
        assert forall|i: int| 0 <= i < all.len() && !(all.len() == 1 && arguments(all[0]).len()
            == 0) implies {
            &&& (#[trigger] p.commands@[i]).argv.deep_view() == arguments(all[i])
            &&& p.commands@[i].redirects.deep_view() == redirections(all[i])
        } by {
            assert(p.commands.deep_view()[i] == p.commands@[i].deep_view());
            assert(p.deep_view()[i] == piece_command(all[i]));
        }
    }
}

} // verus!
