use vstd::prelude::*;
use vstd::string::*;
use vstd::utf8::{decode_utf8, is_char_boundary};
use crate::utils::Location;

verus! {

/// The kinds of tokens of the source language. `S` is what the text of a
/// name or of a literal is held in.
#[derive(Debug, Clone, PartialEq, Eq)]
pub enum TokenKind<S> {
    Integer(i32),
    Text(S),
    Identifier(S),
    Val,
    Var,
    Def,
    Class,
    If,
    Elif,
    Else,
    While,
    Return,
    True,
    False,
    Nothing,
    Plus,
    Minus,
    Star,
    Slash,
    Percent,
    Less,
    LessEq,
    Greater,
    GreaterEq,
    EqualEqual,
    NotEqual,
    Assign,
    LeftParen,
    RightParen,
    LeftBrace,
    RightBrace,
    LeftBracket,
    RightBracket,
    Comma,
    Semicolon,
    Dot,
}

/// A token and the bytes of the source that it was read from.
#[derive(Debug, Clone, PartialEq, Eq)]
pub struct Token<S> {
    pub kind: TokenKind<S>,
    pub location: Location,
}

/// A token with its text as a sequence of characters.
pub type TokenView = Token<Seq<char>>;

/// Why a source text is not a program.
#[derive(Debug, Clone, Copy, PartialEq, Eq, Structural)]
pub enum ParseErrorKind {
    /// A byte that starts no token.
    UnexpectedCharacter,
    /// A string literal without its closing quote.
    UnterminatedString,
    /// An integer literal above the largest 32-bit integer.
    IntegerOverflow,
    /// A token that cannot stand where it stands.
    UnexpectedToken,
    /// The text ends where more is needed.
    UnexpectedEnd,
    /// An assignment to what is neither a variable, a member nor an element.
    InvalidTarget,
}

/// A parse error and the byte offset in the source at which it was found.
#[derive(Debug, Clone, Copy, PartialEq, Eq, Structural)]
pub struct ParseError {
    pub kind: ParseErrorKind,
    pub position: usize,
}

/// What a kind of token is.
pub open spec fn kind_view(kind: TokenKind<String>) -> TokenKind<Seq<char>> {
    match kind {
        TokenKind::Integer(v) => TokenKind::Integer(v),
        TokenKind::Text(s) => TokenKind::Text(s@),
        TokenKind::Identifier(s) => TokenKind::Identifier(s@),
        TokenKind::Val => TokenKind::Val,
        TokenKind::Var => TokenKind::Var,
        TokenKind::Def => TokenKind::Def,
        TokenKind::Class => TokenKind::Class,
        TokenKind::If => TokenKind::If,
        TokenKind::Elif => TokenKind::Elif,
        TokenKind::Else => TokenKind::Else,
        TokenKind::While => TokenKind::While,
        TokenKind::Return => TokenKind::Return,
        TokenKind::True => TokenKind::True,
        TokenKind::False => TokenKind::False,
        TokenKind::Nothing => TokenKind::Nothing,
        TokenKind::Plus => TokenKind::Plus,
        TokenKind::Minus => TokenKind::Minus,
        TokenKind::Star => TokenKind::Star,
        TokenKind::Slash => TokenKind::Slash,
        TokenKind::Percent => TokenKind::Percent,
        TokenKind::Less => TokenKind::Less,
        TokenKind::LessEq => TokenKind::LessEq,
        TokenKind::Greater => TokenKind::Greater,
        TokenKind::GreaterEq => TokenKind::GreaterEq,
        TokenKind::EqualEqual => TokenKind::EqualEqual,
        TokenKind::NotEqual => TokenKind::NotEqual,
        TokenKind::Assign => TokenKind::Assign,
        TokenKind::LeftParen => TokenKind::LeftParen,
        TokenKind::RightParen => TokenKind::RightParen,
        TokenKind::LeftBrace => TokenKind::LeftBrace,
        TokenKind::RightBrace => TokenKind::RightBrace,
        TokenKind::LeftBracket => TokenKind::LeftBracket,
        TokenKind::RightBracket => TokenKind::RightBracket,
        TokenKind::Comma => TokenKind::Comma,
        TokenKind::Semicolon => TokenKind::Semicolon,
        TokenKind::Dot => TokenKind::Dot,
    }
}

/// What a token is.
pub open spec fn token_view(token: Token<String>) -> TokenView {
    Token { kind: kind_view(token.kind), location: token.location }
}

/// What the tokens are.
pub open spec fn views(tokens: Seq<Token<String>>) -> Seq<TokenView> {
    tokens.map_values(|t: Token<String>| token_view(t))
}

pub open spec fn is_digit(b: u8) -> bool {
    0x30 <= b <= 0x39
}

pub open spec fn is_letter(b: u8) -> bool {
    (0x41 <= b <= 0x5a) || (0x61 <= b <= 0x7a) || b == 0x5f
}

pub open spec fn is_space(b: u8) -> bool {
    b == 0x20 || b == 0x09 || b == 0x0a || b == 0x0d
}

/// Whether the bytes from `from` up to `to` can be cut out of the text as
/// text: both offsets lie between characters.
pub open spec fn sliceable(bytes: Seq<u8>, from: int, to: int) -> bool {
    &&& 0 <= from <= to <= bytes.len()
    &&& is_char_boundary(bytes, to)
    &&& is_char_boundary(bytes.subrange(0, to), from)
}

/// Where the digits that start at `pos` end.
pub open spec fn number_end(bytes: Seq<u8>, pos: nat) -> nat
    decreases bytes.len() - pos,
{
    if pos < bytes.len() && is_digit(bytes[pos as int]) {
        number_end(bytes, pos + 1)
    } else {
        pos
    }
}

/// The number that the decimal digits from `start` up to `end` stand for.
pub open spec fn number_value(bytes: Seq<u8>, start: nat, end: nat) -> nat
    decreases end,
{
    if end <= start || end > bytes.len() {
        0
    } else {
        number_value(bytes, start, (end - 1) as nat) * 10 + (bytes[end - 1] - 0x30) as nat
    }
}

/// A word is a letter or an underscore followed by letters, digits and
/// underscores: where the word that has come to `pos` ends.
pub open spec fn word_end(bytes: Seq<u8>, pos: nat) -> nat
    decreases bytes.len() - pos,
{
    if pos < bytes.len() && (is_letter(bytes[pos as int]) || is_digit(bytes[pos as int])) {
        word_end(bytes, pos + 1)
    } else {
        pos
    }
}

/// Where the next double quote at or after `pos` stands; the length of the
/// text where there is none.
pub open spec fn quote_at(bytes: Seq<u8>, pos: nat) -> nat
    decreases bytes.len() - pos,
{
    if pos < bytes.len() && bytes[pos as int] != 0x22 {
        quote_at(bytes, pos + 1)
    } else {
        pos
    }
}

/// The keyword that a word is, or the identifier.
pub open spec fn word_token(text: Seq<char>) -> TokenKind<Seq<char>> {
    if text == "val"@ {
        TokenKind::Val
    } else if text == "var"@ {
        TokenKind::Var
    } else if text == "def"@ {
        TokenKind::Def
    } else if text == "class"@ {
        TokenKind::Class
    } else if text == "if"@ {
        TokenKind::If
    } else if text == "elif"@ {
        TokenKind::Elif
    } else if text == "else"@ {
        TokenKind::Else
    } else if text == "while"@ {
        TokenKind::While
    } else if text == "return"@ {
        TokenKind::Return
    } else if text == "true"@ {
        TokenKind::True
    } else if text == "false"@ {
        TokenKind::False
    } else if text == "none"@ {
        TokenKind::Nothing
    } else {
        TokenKind::Identifier(text)
    }
}

/// The token that one or two bytes of punctuation make, and its length.
pub open spec fn punctuation_token(first: u8, second: Option<u8>) -> Option<
    (TokenKind<Seq<char>>, nat),
> {
    let followed = second == Some(0x3du8);
    if first == 0x2b {
        Some((TokenKind::Plus, 1))
    } else if first == 0x2d {
        Some((TokenKind::Minus, 1))
    } else if first == 0x2a {
        Some((TokenKind::Star, 1))
    } else if first == 0x2f {
        Some((TokenKind::Slash, 1))
    } else if first == 0x25 {
        Some((TokenKind::Percent, 1))
    } else if first == 0x3c {
        if followed {
            Some((TokenKind::LessEq, 2))
        } else {
            Some((TokenKind::Less, 1))
        }
    } else if first == 0x3e {
        if followed {
            Some((TokenKind::GreaterEq, 2))
        } else {
            Some((TokenKind::Greater, 1))
        }
    } else if first == 0x3d {
        if followed {
            Some((TokenKind::EqualEqual, 2))
        } else {
            Some((TokenKind::Assign, 1))
        }
    } else if first == 0x21 {
        if followed {
            Some((TokenKind::NotEqual, 2))
        } else {
            None
        }
    } else if first == 0x28 {
        Some((TokenKind::LeftParen, 1))
    } else if first == 0x29 {
        Some((TokenKind::RightParen, 1))
    } else if first == 0x7b {
        Some((TokenKind::LeftBrace, 1))
    } else if first == 0x7d {
        Some((TokenKind::RightBrace, 1))
    } else if first == 0x5b {
        Some((TokenKind::LeftBracket, 1))
    } else if first == 0x5d {
        Some((TokenKind::RightBracket, 1))
    } else if first == 0x2c {
        Some((TokenKind::Comma, 1))
    } else if first == 0x3b {
        Some((TokenKind::Semicolon, 1))
    } else if first == 0x2e {
        Some((TokenKind::Dot, 1))
    } else {
        None
    }
}

/// The token that starts at `pos`, where a byte stands that is no blank,
/// and the offset behind the token: a number, a word, a string literal in
/// double quotes, or punctuation, whichever the first byte starts.
pub open spec fn token_at(bytes: Seq<u8>, pos: nat) -> Result<(TokenView, nat), ParseError> {
    let first = bytes[pos as int];
    if is_digit(first) {
        let end = number_end(bytes, pos);
        let value = number_value(bytes, pos, end);
        if value > i32::MAX {
            Err(ParseError { kind: ParseErrorKind::IntegerOverflow, position: pos as usize })
        } else {
            Ok(
                (
                    Token {
                        kind: TokenKind::Integer(value as i32),
                        location: Location(pos as usize, end as usize),
                    },
                    end,
                ),
            )
        }
    } else if is_letter(first) {
        let end = word_end(bytes, pos + 1);
        if sliceable(bytes, pos as int, end as int) {
            Ok(
                (
                    Token {
                        kind: word_token(decode_utf8(bytes.subrange(pos as int, end as int))),
                        location: Location(pos as usize, end as usize),
                    },
                    end,
                ),
            )
        } else {
            Err(ParseError { kind: ParseErrorKind::UnexpectedCharacter, position: pos as usize })
        }
    } else if first == 0x22 {
        let close = quote_at(bytes, pos + 1);
        if close >= bytes.len() {
            Err(ParseError { kind: ParseErrorKind::UnterminatedString, position: pos as usize })
        } else if sliceable(bytes, pos as int + 1, close as int) {
            Ok(
                (
                    Token {
                        kind: TokenKind::Text(
                            decode_utf8(bytes.subrange(pos as int + 1, close as int)),
                        ),
                        location: Location(pos as usize, (close + 1) as usize),
                    },
                    close + 1,
                ),
            )
        } else {
            Err(ParseError { kind: ParseErrorKind::UnexpectedCharacter, position: pos as usize })
        }
    } else {
        let second = if pos + 1 < bytes.len() {
            Some(bytes[pos as int + 1])
        } else {
            None
        };
        match punctuation_token(first, second) {
            Some((kind, length)) => Ok(
                (
                    Token { kind, location: Location(pos as usize, (pos + length) as usize) },
                    pos + length,
                ),
            ),
            None => Err(
                ParseError { kind: ParseErrorKind::UnexpectedCharacter, position: pos as usize },
            ),
        }
    }
}

/// The tokens of the text from `pos` on, behind the tokens `before`.
/// Blanks, tabs and line ends stand between tokens and are no tokens.
pub open spec fn scan(bytes: Seq<u8>, pos: nat, before: Seq<TokenView>) -> Result<
    Seq<TokenView>,
    ParseError,
>
    decreases bytes.len() - pos,
{
    if pos >= bytes.len() {
        Ok(before)
    } else if is_space(bytes[pos as int]) {
        scan(bytes, pos + 1, before)
    } else {
        match token_at(bytes, pos) {
            Ok((token, end)) => if pos < end <= bytes.len() {
                scan(bytes, end, before.push(token))
            } else {
                Ok(before)
            },
            Err(e) => Err(e),
        }
    }
}

/// The tokens of a source text.
pub open spec fn tokens_of(bytes: Seq<u8>) -> Result<Seq<TokenView>, ParseError> {
    scan(bytes, 0, Seq::empty())
}

fn digit(b: u8) -> (r: bool)
    ensures
        r == is_digit(b),
{
    0x30 <= b && b <= 0x39
}

fn letter(b: u8) -> (r: bool)
    ensures
        r == is_letter(b),
{
    (0x41 <= b && b <= 0x5a) || (0x61 <= b && b <= 0x7a) || b == 0x5f
}

fn space(b: u8) -> (r: bool)
    ensures
        r == is_space(b),
{
    b == 0x20 || b == 0x09 || b == 0x0a || b == 0x0d
}

/// The part of `source` between two byte offsets, where both lie between
/// characters.
pub fn slice<'a>(source: &'a str, from: usize, to: usize) -> (r: Option<&'a str>)
    ensures
        r is Some <==> sliceable(source.spec_bytes(), from as int, to as int),
        r is Some ==> r->0.spec_bytes() == source.spec_bytes().subrange(from as int, to as int)
            && r->0@ == decode_utf8(source.spec_bytes().subrange(from as int, to as int)),
{
    let length = source.as_bytes().len();
    if from <= to && to <= length && source.is_char_boundary(to) {
        let (head, _) = source.split_at(to);
        assert(head.spec_bytes() =~= source.spec_bytes().subrange(0, to as int));
        assert(head.spec_bytes() == source.spec_bytes().subrange(0, to as int));
        if head.is_char_boundary(from) {
            assert(sliceable(source.spec_bytes(), from as int, to as int));
            let (_, text) = head.split_at(from);
            assert(text.spec_bytes() =~= source.spec_bytes().subrange(from as int, to as int));
            proof {
                vstd::utf8::encode_utf8_decode_utf8(text@);
            }
            Some(text)
        } else {
            assert(!is_char_boundary(source.spec_bytes().subrange(0, to as int), from as int));
            None
        }
    } else {
        assert(!sliceable(source.spec_bytes(), from as int, to as int));
        None
    }
}

/// The keyword that `word` is, or the identifier.
fn word_kind(word: &str) -> (r: TokenKind<String>)
    ensures
        kind_view(r) == word_token(word@),
{
    let text = String::from_str(word);
    if <String as PartialEq>::eq(&text, &String::from_str("val")) {
        TokenKind::Val
    } else if <String as PartialEq>::eq(&text, &String::from_str("var")) {
        TokenKind::Var
    } else if <String as PartialEq>::eq(&text, &String::from_str("def")) {
        TokenKind::Def
    } else if <String as PartialEq>::eq(&text, &String::from_str("class")) {
        TokenKind::Class
    } else if <String as PartialEq>::eq(&text, &String::from_str("if")) {
        TokenKind::If
    } else if <String as PartialEq>::eq(&text, &String::from_str("elif")) {
        TokenKind::Elif
    } else if <String as PartialEq>::eq(&text, &String::from_str("else")) {
        TokenKind::Else
    } else if <String as PartialEq>::eq(&text, &String::from_str("while")) {
        TokenKind::While
    } else if <String as PartialEq>::eq(&text, &String::from_str("return")) {
        TokenKind::Return
    } else if <String as PartialEq>::eq(&text, &String::from_str("true")) {
        TokenKind::True
    } else if <String as PartialEq>::eq(&text, &String::from_str("false")) {
        TokenKind::False
    } else if <String as PartialEq>::eq(&text, &String::from_str("none")) {
        TokenKind::Nothing
    } else {
        TokenKind::Identifier(text)
    }
}

/// The token that one or two bytes of punctuation make, and its length.
fn punctuation(first: u8, second: Option<u8>) -> (r: Option<(TokenKind<String>, usize)>)
    ensures
        match r {
            Some((kind, length)) => punctuation_token(first, second) == Some(
                (kind_view(kind), length as nat),
            ) && 1 <= length <= 2 && (length == 2 ==> second is Some),
            None => punctuation_token(first, second) is None,
        },
{
    let followed = match second {
        Some(b) => b == 0x3d,
        None => false,
    };
    if first == 0x2b {
        Some((TokenKind::Plus, 1))
    } else if first == 0x2d {
        Some((TokenKind::Minus, 1))
    } else if first == 0x2a {
        Some((TokenKind::Star, 1))
    } else if first == 0x2f {
        Some((TokenKind::Slash, 1))
    } else if first == 0x25 {
        Some((TokenKind::Percent, 1))
    } else if first == 0x3c {
        if followed {
            Some((TokenKind::LessEq, 2))
        } else {
            Some((TokenKind::Less, 1))
        }
    } else if first == 0x3e {
        if followed {
            Some((TokenKind::GreaterEq, 2))
        } else {
            Some((TokenKind::Greater, 1))
        }
    } else if first == 0x3d {
        if followed {
            Some((TokenKind::EqualEqual, 2))
        } else {
            Some((TokenKind::Assign, 1))
        }
    } else if first == 0x21 {
        if followed {
            Some((TokenKind::NotEqual, 2))
        } else {
            None
        }
    } else if first == 0x28 {
        Some((TokenKind::LeftParen, 1))
    } else if first == 0x29 {
        Some((TokenKind::RightParen, 1))
    } else if first == 0x7b {
        Some((TokenKind::LeftBrace, 1))
    } else if first == 0x7d {
        Some((TokenKind::RightBrace, 1))
    } else if first == 0x5b {
        Some((TokenKind::LeftBracket, 1))
    } else if first == 0x5d {
        Some((TokenKind::RightBracket, 1))
    } else if first == 0x2c {
        Some((TokenKind::Comma, 1))
    } else if first == 0x3b {
        Some((TokenKind::Semicolon, 1))
    } else if first == 0x2e {
        Some((TokenKind::Dot, 1))
    } else {
        None
    }
}

/// The value of a number does not shrink as digits are added.
proof fn lemma_number_grows(bytes: Seq<u8>, start: nat, end: nat, further: nat)
    requires
        start <= end <= further <= bytes.len(),
        forall|i: int| start <= i < further ==> is_digit(#[trigger] bytes[i]),
    ensures
        number_value(bytes, start, end) <= number_value(bytes, start, further),
    decreases further - end,
{
    if end < further {
        lemma_number_grows(bytes, start, end, (further - 1) as nat);
    }
}

/// Reads the token that starts at `pos`.
fn read_token(source: &str, bytes: &[u8], pos: usize) -> (r: Result<(Token<String>, usize), ParseError>)
    requires
        bytes@ == source.spec_bytes(),
        pos < bytes.len(),
        !is_space(bytes@[pos as int]),
    ensures
        match token_at(bytes@, pos as nat) {
            Ok((token, end)) => r is Ok && token_view(r->Ok_0.0) == token && r->Ok_0.1 == end
                && pos < end <= bytes.len(),
            Err(e) => r == Err::<(Token<String>, usize), ParseError>(e),
        },
{
    let first = bytes[pos];
    if digit(first) {
        let mut value: i32 = 0;
        let mut end: usize = pos;
        while end < bytes.len() && digit(bytes[end])
            invariant
                pos <= end <= bytes.len(),
                end > pos || is_digit(bytes@[end as int]),
                value == number_value(bytes@, pos as nat, end as nat),
                number_end(bytes@, pos as nat) == number_end(bytes@, end as nat),
                forall|i: int| pos <= i < end ==> is_digit(#[trigger] bytes@[i]),
            decreases bytes.len() - end,
        {
            let d = (bytes[end] - 0x30) as i32;
            if value > (i32::MAX - d) / 10 {
                proof {
                    let last = number_end(bytes@, pos as nat);
                    lemma_digits_up_to(bytes@, end as nat);
                    lemma_digits_up_to(bytes@, (end + 1) as nat);
                    assert(number_value(bytes@, pos as nat, (end + 1) as nat) > i32::MAX);
                    lemma_number_grows(bytes@, pos as nat, (end + 1) as nat, last);
                }
                return Err(ParseError { kind: ParseErrorKind::IntegerOverflow, position: pos });
            }
            value = value * 10 + d;
            end += 1;
        }
        Ok((Token { kind: TokenKind::Integer(value), location: Location(pos, end) }, end))
    } else if letter(first) {
        let mut end: usize = pos + 1;
        while end < bytes.len() && (letter(bytes[end]) || digit(bytes[end]))
            invariant
                pos < end <= bytes.len(),
                word_end(bytes@, pos as nat + 1) == word_end(bytes@, end as nat),
            decreases bytes.len() - end,
        {
            end += 1;
        }
        match slice(source, pos, end) {
            Some(word) => Ok((Token { kind: word_kind(word), location: Location(pos, end) }, end)),
            None => Err(ParseError { kind: ParseErrorKind::UnexpectedCharacter, position: pos }),
        }
    } else if first == 0x22 {
        let mut close: usize = pos + 1;
        while close < bytes.len() && bytes[close] != 0x22
            invariant
                pos < close <= bytes.len(),
                quote_at(bytes@, pos as nat + 1) == quote_at(bytes@, close as nat),
            decreases bytes.len() - close,
        {
            close += 1;
        }
        if close >= bytes.len() {
            return Err(ParseError { kind: ParseErrorKind::UnterminatedString, position: pos });
        }
        match slice(source, pos + 1, close) {
            Some(text) => Ok(
                (
                    Token {
                        kind: TokenKind::Text(String::from_str(text)),
                        location: Location(pos, close + 1),
                    },
                    close + 1,
                ),
            ),
            None => Err(ParseError { kind: ParseErrorKind::UnexpectedCharacter, position: pos }),
        }
    } else {
        let second = if pos + 1 < bytes.len() {
            Some(bytes[pos + 1])
        } else {
            None
        };
        match punctuation(first, second) {
            Some((kind, length)) => Ok(
                (Token { kind, location: Location(pos, pos + length) }, pos + length),
            ),
            None => Err(ParseError { kind: ParseErrorKind::UnexpectedCharacter, position: pos }),
        }
    }
}

/// The bytes from `pos` up to the end of the number that `pos` stands in
/// are digits.
proof fn lemma_digits_up_to(bytes: Seq<u8>, pos: nat)
    requires
        pos <= bytes.len(),
    ensures
        pos <= number_end(bytes, pos) <= bytes.len(),
        forall|i: int| pos <= i < number_end(bytes, pos) ==> is_digit(#[trigger] bytes[i]),
    decreases bytes.len() - pos,
{
    if pos < bytes.len() && is_digit(bytes[pos as int]) {
        lemma_digits_up_to(bytes, pos + 1);
    }
}

/// Splits a source text into its tokens.
pub fn lex(source: &str) -> (r: Result<Vec<Token<String>>, ParseError>)
    ensures
        match tokens_of(source.spec_bytes()) {
            Ok(tokens) => r is Ok && views(r->Ok_0@) == tokens,
            Err(e) => r == Err::<Vec<Token<String>>, ParseError>(e),
        },
{
    let bytes = source.as_bytes();
    let mut tokens: Vec<Token<String>> = Vec::new();
    let mut pos: usize = 0;
    assert(views(tokens@) =~= Seq::<TokenView>::empty());
    while pos < bytes.len()
        invariant
            pos <= bytes.len(),
            bytes@ == source.spec_bytes(),
            tokens_of(bytes@) == scan(bytes@, pos as nat, views(tokens@)),
        decreases bytes.len() - pos,
    {
        if space(bytes[pos]) {
            pos += 1;
        } else {
            let ghost before = views(tokens@);
            match read_token(source, bytes, pos) {
                Ok((token, end)) => {
                    tokens.push(token);
                    assert(views(tokens@) =~= before.push(token_view(token)));
                    pos = end;
                },
                Err(e) => {
                    return Err(e);
                },
            }
        }
    }
    Ok(tokens)
}

} // verus!
