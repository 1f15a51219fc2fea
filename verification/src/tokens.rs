//! Token streams: what a `proc_macro2::TokenStream` holds, and how generated
//! code is written into one.

use proc_macro2::TokenStream;
use quote::{ToTokens, TokenStreamExt};
use vstd::prelude::*;

use crate::text::occurs;

verus! {

/// A token stream of the `proc_macro2` crate. What it holds is given by
/// [`tokens`].
#[verifier::external_type_specification]
#[verifier::external_body]
pub struct ExTokenStream(proc_macro2::TokenStream);

/// The delimiters that enclose a group of tokens.
#[derive(Clone, Copy, Debug, PartialEq, Eq, Structural)]
pub enum Delimiter {
    /// `( ... )`
    Parenthesis,
    /// `{ ... }`
    Brace,
    /// `[ ... ]`
    Bracket,
    /// A group without visible delimiters.
    Invisible,
}

/// One token, without its position in the source. A group is the tokens it
/// encloses between an `Open` and the matching `Close`.
pub enum Token {
    /// An identifier or keyword, with its text (with `r#` if it is raw).
    Ident(Seq<char>),
    /// A punctuation character, and whether it is joined to the next one.
    Punct(char, bool),
    /// A literal, with its text.
    Literal(Seq<char>),
    /// The opening delimiter of a group.
    Open(Delimiter),
    /// The closing delimiter of a group.
    Close(Delimiter),
}

/// The tokens that a stream holds, in order.
pub uninterp spec fn tokens(stream: TokenStream) -> Seq<Token>;

/// `proc_macro2::TokenStream::new` gives a stream without tokens.
pub assume_specification[ proc_macro2::TokenStream::new ]() -> (stream: TokenStream)
    ensures
        tokens(stream) == Seq::<Token>::empty(),
;

/// `proc_macro2::TokenStream::is_empty` tells whether a stream has no token.
pub assume_specification[ proc_macro2::TokenStream::is_empty ](stream: &TokenStream) -> (empty: bool)
    ensures
        empty == (tokens(*stream).len() == 0),
;

/// Cloning a `proc_macro2::TokenStream` keeps its tokens.
pub assume_specification[ <proc_macro2::TokenStream as Clone>::clone ](
    stream: &TokenStream,
) -> (copy: TokenStream)
    ensures
        tokens(copy) == tokens(*stream),
;

/// The text is that of an identifier or a keyword made of ASCII letters,
/// digits and underscores, with a letter in front.
pub open spec fn is_word(text: Seq<char>) -> bool {
    &&& text.len() > 0
    &&& is_letter(text[0])
    &&& forall|i: int|
        0 <= i < text.len() ==> is_letter(#[trigger] text[i]) || is_digit(text[i]) || text[i] == '_'
}

/// An ASCII letter.
pub open spec fn is_letter(c: char) -> bool {
    'a' <= c <= 'z' || 'A' <= c <= 'Z'
}

/// An ASCII digit.
pub open spec fn is_digit(c: char) -> bool {
    '0' <= c <= '9'
}

/// Appends an identifier or keyword: `proc_macro2::Ident::new` makes it from
/// its text, at the call site of the macro, and
/// `quote::TokenStreamExt::append` puts it behind the tokens that are there.
#[verifier::external_body]
fn push_word(stream: &mut TokenStream, text: &str)
    requires
        is_word(text@),
    ensures
        tokens(*final(stream)) == tokens(*old(stream)).push(Token::Ident(text@)),
{
    stream.append(proc_macro2::Ident::new(text, proc_macro2::Span::call_site()));
}

/// A character that `proc_macro2::Punct::new` takes.
pub open spec fn is_punctuation(c: char) -> bool {
    ||| c == '!' || c == '#' || c == '$' || c == '%' || c == '&' || c == '\'' || c == '*'
    ||| c == '+' || c == ',' || c == '-' || c == '.' || c == '/' || c == ':' || c == ';'
    ||| c == '<' || c == '=' || c == '>' || c == '?' || c == '@' || c == '^' || c == '|'
    ||| c == '~'
}

/// Appends a punctuation character: `proc_macro2::Punct::new` makes it, joined
/// to the next one or not, and `quote::TokenStreamExt::append` puts it behind
/// the tokens that are there.
#[verifier::external_body]
fn push_punct(stream: &mut TokenStream, c: char, joint: bool)
    requires
        is_punctuation(c),
    ensures
        tokens(*final(stream)) == tokens(*old(stream)).push(Token::Punct(c, joint)),
{
    let spacing = if joint { proc_macro2::Spacing::Joint } else { proc_macro2::Spacing::Alone };
    stream.append(proc_macro2::Punct::new(c, spacing));
}

/// The character of a decimal digit.
pub open spec fn digit(d: nat) -> char {
    if d == 0 {
        '0'
    } else if d == 1 {
        '1'
    } else if d == 2 {
        '2'
    } else if d == 3 {
        '3'
    } else if d == 4 {
        '4'
    } else if d == 5 {
        '5'
    } else if d == 6 {
        '6'
    } else if d == 7 {
        '7'
    } else if d == 8 {
        '8'
    } else {
        '9'
    }
}

/// A number in decimal, without leading zeros.
pub open spec fn decimal(n: nat) -> Seq<char>
    decreases n,
{
    if n < 10 {
        seq![digit(n)]
    } else {
        decimal(n / 10).push(digit(n % 10))
    }
}

/// Appends a number: `proc_macro2::Literal::u32_unsuffixed` makes the literal,
/// whose text is the number in decimal, and `quote::TokenStreamExt::append`
/// puts it behind the tokens that are there.
#[verifier::external_body]
fn push_number(stream: &mut TokenStream, n: u32)
    ensures
        tokens(*final(stream)) == tokens(*old(stream)).push(Token::Literal(decimal(n as nat))),
{
    stream.append(proc_macro2::Literal::u32_unsuffixed(n));
}

/// The tokens of a group.
pub open spec fn enclosed(delimiter: Delimiter, inner: Seq<Token>) -> Seq<Token> {
    seq![Token::Open(delimiter)] + inner + seq![Token::Close(delimiter)]
}

/// `{ inner }`
pub open spec fn braces(inner: Seq<Token>) -> Seq<Token> {
    enclosed(Delimiter::Brace, inner)
}

/// `( inner )`
pub open spec fn parens(inner: Seq<Token>) -> Seq<Token> {
    enclosed(Delimiter::Parenthesis, inner)
}

/// Appends a group: `proc_macro2::Group::new` encloses the inner tokens in the
/// delimiter, and `quote::TokenStreamExt::append` puts the group behind the
/// tokens that are there.
#[verifier::external_body]
pub(crate) fn push_group(stream: &mut TokenStream, delimiter: Delimiter, inner: TokenStream)
    ensures
        tokens(*final(stream)) == tokens(*old(stream)) + enclosed(delimiter, tokens(inner)),
{
    let delimiter = match delimiter {
        Delimiter::Parenthesis => proc_macro2::Delimiter::Parenthesis,
        Delimiter::Brace => proc_macro2::Delimiter::Brace,
        Delimiter::Bracket => proc_macro2::Delimiter::Bracket,
        Delimiter::Invisible => proc_macro2::Delimiter::None,
    };
    stream.append(proc_macro2::Group::new(delimiter, inner));
}

/// Appends the tokens of another stream, with
/// `<proc_macro2::TokenStream as quote::ToTokens>::to_tokens`.
#[verifier::external_body]
pub(crate) fn push_stream(stream: &mut TokenStream, more: &TokenStream)
    ensures
        tokens(*final(stream)) == tokens(*old(stream)) + tokens(*more),
{
    more.to_tokens(stream);
}

/// The text of an identifier or a literal.
pub open spec fn token_text(token: Token) -> Seq<char> {
    match token {
        Token::Ident(text) => text,
        Token::Literal(text) => text,
        _ => seq![],
    }
}

/// A word of ASCII letters with a capital in front.
pub open spec fn is_capitalized(word: Seq<char>) -> bool {
    &&& word.len() > 0
    &&& 'A' <= word[0] <= 'Z'
    &&& forall|i: int| 0 <= i < word.len() ==> is_letter(#[trigger] word[i])
}

/// Some identifier or literal among the tokens has the word in its text.
pub open spec fn mentions(stream: Seq<Token>, word: Seq<char>) -> bool {
    exists|i: int| 0 <= i < stream.len() && occurs(word, token_text(#[trigger] stream[i]))
}

/// The `Display` of `proc_macro2::TokenStream`. It prints each token with its
/// own text and keeps neighbouring words apart, so that a word of letters can
/// only come from the text of a single token. How the tokens are spaced is left
/// open: it is up to the compiler.
#[verifier::external_body]
pub(crate) fn print(stream: &TokenStream) -> (text: String)
    ensures
        forall|word: Seq<char>|
            is_capitalized(word) ==> #[trigger] occurs(word, text@) == mentions(
                tokens(*stream),
                word,
            ),
{
    stream.to_string()
}

/// A piece of generated code.
#[derive(Clone, Copy, Debug)]
pub enum Part {
    /// An identifier or keyword.
    Word(&'static str),
    /// A punctuation character on its own.
    Op(char),
    /// An operator of two characters, as `->`.
    Op2(char, char),
    /// The path separator `::`.
    Sep,
    /// A lifetime, without its apostrophe.
    Life(&'static str),
    /// A number.
    Num(u32),
    /// `()`
    Unit,
}

impl Part {
    /// The tokens of the piece.
    pub open spec fn tokens(self) -> Seq<Token> {
        match self {
            Part::Word(text) => seq![Token::Ident(text@)],
            Part::Op(c) => seq![Token::Punct(c, false)],
            Part::Op2(c, d) => seq![Token::Punct(c, true), Token::Punct(d, false)],
            Part::Sep => seq![Token::Punct(':', true), Token::Punct(':', false)],
            Part::Life(text) => seq![Token::Punct('\'', true), Token::Ident(text@)],
            Part::Num(n) => seq![Token::Literal(decimal(n as nat))],
            Part::Unit => parens(seq![]),
        }
    }

    /// The piece can be written as tokens.
    pub open spec fn valid(self) -> bool {
        match self {
            Part::Word(text) => is_word(text@),
            Part::Op(c) => is_punctuation(c),
            Part::Op2(c, d) => is_punctuation(c) && is_punctuation(d),
            Part::Sep => true,
            Part::Life(text) => is_word(text@),
            Part::Num(n) => true,
            Part::Unit => true,
        }
    }
}

/// The tokens of pieces of code, one behind the other.
pub open spec fn code(parts: Seq<Part>) -> Seq<Token>
    decreases parts.len(),
{
    if parts.len() == 0 {
        seq![]
    } else {
        code(parts.drop_last()) + parts.last().tokens()
    }
}

/// Appends one piece of code.
pub(crate) fn push_part(stream: &mut TokenStream, part: Part)
    requires
        part.valid(),
    ensures
        tokens(*final(stream)) == tokens(*old(stream)) + part.tokens(),
{
    match part {
        Part::Word(text) => push_word(stream, text),
        Part::Op(c) => push_punct(stream, c, false),
        Part::Op2(c, d) => {
            push_punct(stream, c, true);
            push_punct(stream, d, false);
        },
        Part::Sep => {
            push_punct(stream, ':', true);
            push_punct(stream, ':', false);
        },
        Part::Life(text) => {
            push_punct(stream, '\'', true);
            push_word(stream, text);
        },
        Part::Num(n) => push_number(stream, n),
        Part::Unit => push_group(stream, Delimiter::Parenthesis, TokenStream::new()),
    }
    assert(tokens(*stream) =~= tokens(*old(stream)) + part.tokens());
}

/// Appends pieces of code, one behind the other.
pub(crate) fn push_code(stream: &mut TokenStream, parts: Vec<Part>)
    requires
        forall|i: int| 0 <= i < parts.len() ==> (#[trigger] parts[i]).valid(),
    ensures
        tokens(*final(stream)) == tokens(*old(stream)) + code(parts@),
{
    let ghost before = tokens(*stream);
    let mut i: usize = 0;
    assert(parts@.take(0) =~= seq![]);
    while i < parts.len()
        invariant
            i <= parts.len(),
            forall|i: int| 0 <= i < parts.len() ==> (#[trigger] parts[i]).valid(),
            tokens(*stream) =~= before + code(parts@.take(i as int)),
        decreases parts.len() - i,
    {
        push_part(stream, parts[i]);
        i = i + 1;
        assert(parts@.take(i as int).drop_last() =~= parts@.take(i - 1));
    }
    assert(parts@.take(i as int) =~= parts@);
}

/// A stream of pieces of code, one behind the other.
pub(crate) fn write_code(parts: Vec<Part>) -> (stream: TokenStream)
    requires
        forall|i: int| 0 <= i < parts.len() ==> (#[trigger] parts[i]).valid(),
    ensures
        tokens(stream) == code(parts@),
{
    let mut stream = TokenStream::new();
    push_code(&mut stream, parts);
    assert(tokens(stream) =~= code(parts@));
    stream
}

/// A stream of one piece of code.
pub(crate) fn write_part(part: Part) -> (stream: TokenStream)
    requires
        part.valid(),
    ensures
        tokens(stream) == part.tokens(),
{
    let mut stream = TokenStream::new();
    push_part(&mut stream, part);
    assert(tokens(stream) =~= part.tokens());
    stream
}

} // verus!
