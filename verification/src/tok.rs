//! A tokenizer for the surface syntax.
//!
//! Positions are byte offsets into the UTF-8 text. The contracts speak of the
//! text as a sequence of characters and derive byte offsets from it.

use unicode_xid::UnicodeXID;
use vstd::prelude::*;
use vstd::std_specs::iter::IteratorSpec;
use vstd::string::StrSliceExecFns;
use vstd::string::StringSliceAdditionalSpecFns;
use vstd::utf8::encode_scalar;
use vstd::utf8::encode_utf8;

verus! {

/// A lexical error: what went wrong, and the byte offset at which it did.
#[derive(Clone, Debug, PartialEq, Eq)]
pub struct Error {
    pub location: usize,
    pub code: ErrorCode,
}

/// The kinds of lexical error.
#[derive(Clone, Debug, PartialEq, Eq)]
pub enum ErrorCode {
    UnrecognizedToken,
    UnterminatedEscape,
    UnterminatedStringLiteral,
    UnterminatedCode,
    ExpectedStringLiteral,
}

/// The error `c` at the byte offset `l`.
fn error<T>(c: ErrorCode, l: usize) -> (r: Result<T, Error>)
    ensures
        r == Err::<T, Error>(Error { location: l, code: c }),
{
    Err(Error { location: l, code: c })
}

/// A token of the surface syntax. Tokens that carry text borrow it from the input.
#[derive(Clone, Debug, PartialEq, Eq)]
pub enum Tok<'input> {
    Def,
    End,
    Extern,
    Forall,
    Fun,
    Inductive,
    In,
    Import,
    Let,
    Match,
    Module,
    Type,
    With,
    Id(&'input str),
    StringLiteral(&'input str),
    Arrow,
    Bar,
    BangEquals,
    Colon,
    ColonColon,
    ColonEq,
    Comma,
    DotDot,
    Equals,
    EqualsEquals,
    EqualsGreaterThanCode(&'input str),
    EqualsGreaterThanQuestionCode(&'input str),
    EqualsGreaterThanLookahead,
    EqualsGreaterThanLookbehind,
    FatArrow,
    Hash,
    GreaterThan,
    LeftBrace,
    LeftBracket,
    LeftParen,
    LessThan,
    Lookahead,
    Lookbehind,
    Period,
    Plus,
    Question,
    RightBrace,
    RightBracket,
    RightParen,
    Semi,
    Star,
    TildeTilde,
    Underscore,
}

/// What a token is, with the text it carries as a sequence of characters.
pub enum TokView {
    Def,
    End,
    Extern,
    Forall,
    Fun,
    Inductive,
    In,
    Import,
    Let,
    Match,
    Module,
    Type,
    With,
    Id(Seq<char>),
    StringLiteral(Seq<char>),
    Arrow,
    Bar,
    BangEquals,
    Colon,
    ColonColon,
    ColonEq,
    Comma,
    DotDot,
    Equals,
    EqualsEquals,
    EqualsGreaterThanCode(Seq<char>),
    EqualsGreaterThanQuestionCode(Seq<char>),
    EqualsGreaterThanLookahead,
    EqualsGreaterThanLookbehind,
    FatArrow,
    Hash,
    GreaterThan,
    LeftBrace,
    LeftBracket,
    LeftParen,
    LessThan,
    Lookahead,
    Lookbehind,
    Period,
    Plus,
    Question,
    RightBrace,
    RightBracket,
    RightParen,
    Semi,
    Star,
    TildeTilde,
    Underscore,
}

impl<'input> View for Tok<'input> {
    type V = TokView;

    open spec fn view(&self) -> TokView {
        match *self {
            Tok::Def => TokView::Def,
            Tok::End => TokView::End,
            Tok::Extern => TokView::Extern,
            Tok::Forall => TokView::Forall,
            Tok::Fun => TokView::Fun,
            Tok::Inductive => TokView::Inductive,
            Tok::In => TokView::In,
            Tok::Import => TokView::Import,
            Tok::Let => TokView::Let,
            Tok::Match => TokView::Match,
            Tok::Module => TokView::Module,
            Tok::Type => TokView::Type,
            Tok::With => TokView::With,
            Tok::Id(s) => TokView::Id(s@),
            Tok::StringLiteral(s) => TokView::StringLiteral(s@),
            Tok::Arrow => TokView::Arrow,
            Tok::Bar => TokView::Bar,
            Tok::BangEquals => TokView::BangEquals,
            Tok::Colon => TokView::Colon,
            Tok::ColonColon => TokView::ColonColon,
            Tok::ColonEq => TokView::ColonEq,
            Tok::Comma => TokView::Comma,
            Tok::DotDot => TokView::DotDot,
            Tok::Equals => TokView::Equals,
            Tok::EqualsEquals => TokView::EqualsEquals,
            Tok::EqualsGreaterThanCode(s) => TokView::EqualsGreaterThanCode(s@),
            Tok::EqualsGreaterThanQuestionCode(s) => TokView::EqualsGreaterThanQuestionCode(s@),
            Tok::EqualsGreaterThanLookahead => TokView::EqualsGreaterThanLookahead,
            Tok::EqualsGreaterThanLookbehind => TokView::EqualsGreaterThanLookbehind,
            Tok::FatArrow => TokView::FatArrow,
            Tok::Hash => TokView::Hash,
            Tok::GreaterThan => TokView::GreaterThan,
            Tok::LeftBrace => TokView::LeftBrace,
            Tok::LeftBracket => TokView::LeftBracket,
            Tok::LeftParen => TokView::LeftParen,
            Tok::LessThan => TokView::LessThan,
            Tok::Lookahead => TokView::Lookahead,
            Tok::Lookbehind => TokView::Lookbehind,
            Tok::Period => TokView::Period,
            Tok::Plus => TokView::Plus,
            Tok::Question => TokView::Question,
            Tok::RightBrace => TokView::RightBrace,
            Tok::RightBracket => TokView::RightBracket,
            Tok::RightParen => TokView::RightParen,
            Tok::Semi => TokView::Semi,
            Tok::Star => TokView::Star,
            Tok::TildeTilde => TokView::TildeTilde,
            Tok::Underscore => TokView::Underscore,
        }
    }
}

/// A value with the byte offsets at which it starts and ends.
pub type Spanned<T> = (usize, T, usize);

/// Number of bytes that the UTF-8 encoding of `s` takes.
pub open spec fn utf8_len(s: Seq<char>) -> nat {
    encode_utf8(s).len()
}

/// Byte offset at which character `i` of `s` starts in the UTF-8 encoding of `s`.
pub open spec fn byte_offset(s: Seq<char>, i: int) -> nat {
    utf8_len(s.take(i))
}

/// Number of bytes that the UTF-8 encoding of one character takes.
pub open spec fn utf8_width(c: char) -> nat {
    let v = c as u32;
    if v <= 0x7F {
        1
    } else if v <= 0x7FF {
        2
    } else if v <= 0xFFFF {
        3
    } else {
        4
    }
}

/// The encoding of a concatenation is the concatenation of the encodings.
pub proof fn lemma_encode_concat(a: Seq<char>, b: Seq<char>)
    ensures
        encode_utf8(a + b) == encode_utf8(a) + encode_utf8(b),
    decreases a.len(),
{
    if a.len() == 0 {
        assert(a + b == b);
        assert(encode_utf8(a) + encode_utf8(b) == encode_utf8(b));
    } else {
        assert((a + b).drop_first() == a.drop_first() + b);
        lemma_encode_concat(a.drop_first(), b);
        assert(encode_utf8(a + b) == encode_scalar(a[0] as u32) + (encode_utf8(a.drop_first())
            + encode_utf8(b)));
    }
}

/// The offset of the next character is the offset of this one plus its width.
pub proof fn lemma_offset_step(s: Seq<char>, i: int)
    requires
        0 <= i < s.len(),
    ensures
        byte_offset(s, i + 1) == byte_offset(s, i) + utf8_width(s[i]),
        byte_offset(s, i + 1) <= utf8_len(s),
{
    let one = seq![s[i]];
    assert(s.take(i + 1) == s.take(i) + one);
    lemma_encode_concat(s.take(i), one);
    assert(one.drop_first() == Seq::<char>::empty());
    assert(encode_utf8(one) == encode_scalar(s[i] as u32) + encode_utf8(one.drop_first()));
    vstd::utf8::char_is_scalar(s[i]);
    assert(s == s.take(i + 1) + s.skip(i + 1));
    lemma_encode_concat(s.take(i + 1), s.skip(i + 1));
}

/// No character starts beyond the end of the encoding.
pub proof fn lemma_offset_bound(s: Seq<char>, i: int)
    requires
        0 <= i <= s.len(),
    ensures
        byte_offset(s, i) <= utf8_len(s),
        byte_offset(s, s.len() as int) == utf8_len(s),
{
    assert(s == s.take(i) + s.skip(i));
    lemma_encode_concat(s.take(i), s.skip(i));
    assert(s.take(s.len() as int) == s);
}

/// Every character starts at a character boundary of the encoding.
pub proof fn lemma_offset_is_boundary(s: Seq<char>, i: int)
    requires
        0 <= i <= s.len(),
    ensures
        vstd::utf8::is_char_boundary(encode_utf8(s), byte_offset(s, i) as int),
    decreases i,
{
    let bytes = encode_utf8(s);
    vstd::utf8::encode_utf8_valid_utf8(s);
    if i == 0 {
        assert(s.take(0) == Seq::<char>::empty());
    } else {
        let rest = s.drop_first();
        vstd::utf8::encode_utf8_first_scalar(s);
        assert(vstd::utf8::pop_first_scalar(bytes) =~= encode_utf8(rest));
        assert(s.take(i) == seq![s[0]] + rest.take(i - 1));
        lemma_encode_concat(seq![s[0]], rest.take(i - 1));
        assert(seq![s[0]].drop_first() == Seq::<char>::empty());
        assert(encode_utf8(seq![s[0]]) == encode_scalar(s[0] as u32) + encode_utf8(
            seq![s[0]].drop_first(),
        ));
        lemma_offset_is_boundary(rest, i - 1);
        lemma_offset_bound(s, i);
        reveal_with_fuel(vstd::utf8::is_char_boundary, 2);
    }
}

/// The text that two encodings of the same bytes hold is the same.
proof fn lemma_same_encoding(a: Seq<char>, b: Seq<char>)
    requires
        encode_utf8(a) == encode_utf8(b),
    ensures
        a == b,
{
    vstd::utf8::encode_utf8_decode_utf8(a);
    vstd::utf8::encode_utf8_decode_utf8(b);
}

/// The part of `text` from the byte offset `from` up to the byte offset
/// `to`, which are the offsets of its characters `p` and `q`.
fn slice<'a>(text: &'a str, from: usize, to: usize, Ghost(p): Ghost<int>, Ghost(q): Ghost<int>) -> (r:
    &'a str)
    requires
        0 <= p <= q <= text@.len(),
        from == byte_offset(text@, p),
        to == byte_offset(text@, q),
    ensures
        r@ == text@.subrange(p, q),
{
    proof {
        lemma_offset_is_boundary(text@, q);
        lemma_encode_concat(text@.take(q), text@.skip(q));
        assert(text@ == text@.take(q) + text@.skip(q));
        assert(encode_utf8(text@).subrange(0, to as int) =~= encode_utf8(text@.take(q)));
    }
    let (head, _) = text.split_at(to);
    proof {
        lemma_same_encoding(head@, text@.take(q));
        assert(head@.take(p) =~= text@.take(p));
        lemma_offset_is_boundary(head@, p);
        lemma_encode_concat(head@.take(p), head@.skip(p));
        assert(head@ == head@.take(p) + head@.skip(p));
        assert(encode_utf8(head@).subrange(from as int, encode_utf8(head@).len() as int)
            =~= encode_utf8(head@.skip(p)));
    }
    let (_, body) = head.split_at(from);
    proof {
        lemma_same_encoding(body@, head@.skip(p));
        assert(head@.skip(p) =~= text@.subrange(p, q));
    }
    body
}

fn char_width(c: char) -> (w: usize)
    ensures
        w == utf8_width(c),
{
    let v: u32 = c as u32;
    if v <= 0x7F {
        1
    } else if v <= 0x7FF {
        2
    } else if v <= 0xFFFF {
        3
    } else {
        4
    }
}

/// The characters of `text`, in order.
fn decode(text: &str) -> (chars: Vec<char>)
    ensures
        chars@ == text@,
{
    let mut chars: Vec<char> = Vec::new();
    let mut it = text.chars();
    loop
        invariant
            chars@ + it.remaining() == text@,
        ensures
            chars@ == text@,
        decreases text@.len() - chars@.len(),
    {
        match it.next() {
            Some(c) => {
                chars.push(c);
            },
            None => {
                break ;
            },
        }
    }
    chars
}



/// Whether `c` has the Unicode property XID_Start.
pub uninterp spec fn xid_start(c: char) -> bool;

/// Whether `c` has the Unicode property XID_Continue.
pub uninterp spec fn xid_continue(c: char) -> bool;

/// Whether `c` has the Unicode property White_Space.
pub uninterp spec fn white_space(c: char) -> bool;

/// Calls `UnicodeXID::is_xid_start` of the `unicode-xid` crate. Not proved:
/// that the answer is the property XID_Start of `c`, and that among the ASCII
/// characters exactly the letters have it.
#[verifier::external_body]
fn is_identifier_start(c: char) -> (r: bool)
    ensures
        r == xid_start(c),
        c as u32 <= 0x7f ==> r == (('a' <= c && c <= 'z') || ('A' <= c && c <= 'Z')),
{
    UnicodeXID::is_xid_start(c)
}

/// Calls `UnicodeXID::is_xid_continue` of the `unicode-xid` crate. Not proved:
/// that the answer is the property XID_Continue of `c`, and that among the
/// ASCII characters exactly the letters, the digits and `_` have it.
#[verifier::external_body]
fn is_identifier_continue(c: char) -> (r: bool)
    ensures
        r == xid_continue(c),
        c as u32 <= 0x7f ==> r == (('a' <= c && c <= 'z') || ('A' <= c && c <= 'Z') || ('0' <= c
            && c <= '9') || c == '_'),
{
    UnicodeXID::is_xid_continue(c)
}

/// Calls `char::is_whitespace`. Not proved: that the answer is the property
/// White_Space of `c`.
#[verifier::external_body]
fn is_whitespace(c: char) -> (r: bool)
    ensures
        r == white_space(c),
{
    c.is_whitespace()
}

/// One item of the token stream, with positions before any shift.
pub enum Lexeme {
    Token { start: nat, tok: TokView, end: nat },
    Fault { location: nat, code: ErrorCode },
}

/// What the tokenizer yields at a position, and the position it stops at.
pub struct Lexed {
    pub item: Option<Lexeme>,
    pub pos: int,
}

/// The token that a character forms by itself, whatever follows it.
pub open spec fn single(c: char) -> Option<TokView> {
    if c == ',' {
        Some(TokView::Comma)
    } else if c == '#' {
        Some(TokView::Hash)
    } else if c == '>' {
        Some(TokView::GreaterThan)
    } else if c == '{' {
        Some(TokView::LeftBrace)
    } else if c == '[' {
        Some(TokView::LeftBracket)
    } else if c == '(' {
        Some(TokView::LeftParen)
    } else if c == '<' {
        Some(TokView::LessThan)
    } else if c == '+' {
        Some(TokView::Plus)
    } else if c == '?' {
        Some(TokView::Question)
    } else if c == '}' {
        Some(TokView::RightBrace)
    } else if c == ']' {
        Some(TokView::RightBracket)
    } else if c == ')' {
        Some(TokView::RightParen)
    } else if c == ';' {
        Some(TokView::Semi)
    } else if c == '*' {
        Some(TokView::Star)
    } else if c == '_' {
        Some(TokView::Underscore)
    } else if c == '|' {
        Some(TokView::Bar)
    } else {
        None
    }
}

/// Whether `c` can begin a token of two characters.
pub open spec fn begins_pair(c: char) -> bool {
    c == '!' || c == ':' || c == '.' || c == '=' || c == '@' || c == '-' || c == '~'
}

/// The token that the two characters `c`, `d` form together.
pub open spec fn pair(c: char, d: char) -> Option<TokView> {
    if c == '!' && d == '=' {
        Some(TokView::BangEquals)
    } else if c == ':' && d == ':' {
        Some(TokView::ColonColon)
    } else if c == ':' && d == '=' {
        Some(TokView::ColonEq)
    } else if c == '.' && d == '.' {
        Some(TokView::DotDot)
    } else if c == '=' && d == '=' {
        Some(TokView::EqualsEquals)
    } else if c == '=' && d == '>' {
        Some(TokView::FatArrow)
    } else if c == '@' && d == 'L' {
        Some(TokView::Lookahead)
    } else if c == '@' && d == 'R' {
        Some(TokView::Lookbehind)
    } else if c == '-' && d == '>' {
        Some(TokView::Arrow)
    } else if c == '~' && d == '~' {
        Some(TokView::TildeTilde)
    } else {
        None
    }
}

/// The token that a character which can begin a pair forms when no pair follows.
pub open spec fn unpaired(c: char) -> Option<TokView> {
    if c == ':' {
        Some(TokView::Colon)
    } else if c == '.' {
        Some(TokView::Period)
    } else if c == '=' {
        Some(TokView::Equals)
    } else {
        None
    }
}

/// The first position from `p` on whose character satisfies `stop`, or the
/// length of `s` where there is none.
pub open spec fn scan_until(s: Seq<char>, p: int, stop: spec_fn(char) -> bool) -> int
    decreases s.len() - p,
{
    if p < 0 || p >= s.len() {
        s.len() as int
    } else if stop(s[p]) {
        p
    } else {
        scan_until(s, p + 1, stop)
    }
}

/// The position of the quote that closes a string literal whose contents
/// begin at `p`. A backslash takes the character after it along.
pub open spec fn string_end(s: Seq<char>, p: int, escape: bool) -> Option<int>
    decreases s.len() - p,
{
    if p < 0 || p >= s.len() {
        None
    } else if escape {
        string_end(s, p + 1, false)
    } else if s[p] == '\\' {
        string_end(s, p + 1, true)
    } else if s[p] == '"' {
        Some(p)
    } else {
        string_end(s, p + 1, false)
    }
}

/// The string literal whose contents begin at `p`, reported as starting at `start`.
pub open spec fn string_literal_at(s: Seq<char>, p: int, start: nat) -> Lexed {
    match string_end(s, p, false) {
        Some(q) => Lexed {
            item: Some(
                Lexeme::Token {
                    start,
                    tok: TokView::StringLiteral(s.subrange(p, q)),
                    end: byte_offset(s, q) + 1,
                },
            ),
            pos: q + 1,
        },
        None => Lexed {
            item: Some(
                Lexeme::Fault { location: start, code: ErrorCode::UnterminatedStringLiteral },
            ),
            pos: s.len() as int,
        },
    }
}

/// The keyword that `word` spells, or the identifier that it is.
pub open spec fn word_token(word: Seq<char>) -> TokView {
    if word == "def"@ {
        TokView::Def
    } else if word == "end"@ {
        TokView::End
    } else if word == "extern"@ {
        TokView::Extern
    } else if word == "forall"@ {
        TokView::Forall
    } else if word == "fun"@ {
        TokView::Fun
    } else if word == "in"@ {
        TokView::In
    } else if word == "inductive"@ {
        TokView::Inductive
    } else if word == "import"@ {
        TokView::Import
    } else if word == "let"@ {
        TokView::Let
    } else if word == "match"@ {
        TokView::Match
    } else if word == "module"@ {
        TokView::Module
    } else if word == "Type"@ {
        TokView::Type
    } else if word == "with"@ {
        TokView::With
    } else {
        TokView::Id(word)
    }
}

/// The position at which the word that begins at `p` ends.
pub open spec fn word_end(s: Seq<char>, p: int) -> int {
    scan_until(s, p, |c: char| !xid_continue(c))
}

/// The position of the line feed that ends a comment, or the end of the text.
pub open spec fn line_end(s: Seq<char>, p: int) -> int {
    scan_until(s, p, |c: char| c == '\n')
}

/// The next item of the token stream of `s` from position `p` on.
///
/// White space and comments (from `//` to the end of the line) are skipped.
/// A character that begins no token is reported and not consumed.
pub open spec fn next_token(s: Seq<char>, p: int) -> Lexed
    decreases s.len() - p,
{
    if p < 0 || p >= s.len() {
        Lexed { item: None, pos: p }
    } else {
        let c = s[p];
        let at = byte_offset(s, p);
        let unrecognized = Some(
            Lexeme::Fault { location: at, code: ErrorCode::UnrecognizedToken },
        );
        if let Some(tok) = single(c) {
            Lexed { item: Some(Lexeme::Token { start: at, tok, end: at + 1 }), pos: p + 1 }
        } else if begins_pair(c) {
            if p + 1 < s.len() && pair(c, s[p + 1]) is Some {
                Lexed {
                    item: Some(
                        Lexeme::Token { start: at, tok: pair(c, s[p + 1])->0, end: at + 2 },
                    ),
                    pos: p + 2,
                }
            } else if let Some(tok) = unpaired(c) {
                Lexed { item: Some(Lexeme::Token { start: at, tok, end: at + 1 }), pos: p + 1 }
            } else {
                Lexed { item: unrecognized, pos: p + 1 }
            }
        } else if c == '"' {
            string_literal_at(s, p + 1, at)
        } else if c == '/' {
            if p + 1 < s.len() && s[p + 1] == '/' {
                let q = line_end(s, p + 1);
                if p < q <= s.len() {
                    next_token(s, q)
                } else {
                    Lexed { item: None, pos: p }
                }
            } else {
                Lexed { item: unrecognized, pos: p + 1 }
            }
        } else if xid_start(c) {
            let q = word_end(s, p);
            Lexed {
                item: Some(
                    Lexeme::Token {
                        start: at,
                        tok: word_token(s.subrange(p, q)),
                        end: byte_offset(s, q),
                    },
                ),
                pos: q,
            }
        } else if white_space(c) {
            next_token(s, p + 1)
        } else {
            Lexed { item: unrecognized, pos: p }
        }
    }
}

/// `scan_until` stops at or after its start and within the text; nothing
/// before its stop satisfies the test, and the character at it does.
pub proof fn lemma_scan_until(s: Seq<char>, p: int, stop: spec_fn(char) -> bool)
    requires
        0 <= p <= s.len(),
    ensures
        p <= scan_until(s, p, stop) <= s.len(),
        forall|i: int| p <= i < scan_until(s, p, stop) ==> !stop(#[trigger] s[i]),
        scan_until(s, p, stop) < s.len() ==> stop(s[scan_until(s, p, stop)]),
    decreases s.len() - p,
{
    if p < s.len() && !stop(s[p]) {
        lemma_scan_until(s, p + 1, stop);
    }
}

/// A position within the text at which the test holds, with none before it
/// from `p` on, is where `scan_until` stops; so is the end of the text where
/// the test holds nowhere from `p` on.
pub proof fn lemma_scan_until_unique(s: Seq<char>, p: int, q: int, stop: spec_fn(char) -> bool)
    requires
        0 <= p <= q <= s.len(),
        forall|i: int| p <= i < q ==> !stop(#[trigger] s[i]),
        q < s.len() ==> stop(s[q]),
    ensures
        scan_until(s, p, stop) == q,
    decreases q - p,
{
    if p < q {
        assert(!stop(s[p]));
        lemma_scan_until_unique(s, p + 1, q, stop);
    }
}


/// Where a piece of code ends.
pub enum CodeEnd {
    /// At this position, which holds the terminator or is the end of the text.
    Found(int),
    /// Nowhere: the string literal that opens at this position is not closed.
    BadString(int),
    /// Nowhere: the text ends inside brackets.
    Unterminated,
}

/// Where the piece of code that runs from `p` on, inside `balance` open
/// brackets, ends: at the first `,`, `;` or closing delimiter outside all
/// brackets, or at the end of the text. String literals and comments are
/// passed over whole; a lone `/` is passed over too.
pub open spec fn code_end(
    s: Seq<char>,
    p: int,
    balance: nat,
    open: Seq<char>,
    close: Seq<char>,
) -> CodeEnd
    decreases s.len() - p,
{
    if p < 0 || p >= s.len() {
        if balance > 0 {
            CodeEnd::Unterminated
        } else {
            CodeEnd::Found(s.len() as int)
        }
    } else {
        let c = s[p];
        if c == '"' {
            match string_end(s, p + 1, false) {
                Some(q) => if p < q < s.len() {
                    code_end(s, q + 1, balance, open, close)
                } else {
                    CodeEnd::Unterminated
                },
                None => CodeEnd::BadString(p),
            }
        } else if c == '/' {
            if p + 1 < s.len() && s[p + 1] == '/' {
                let q = line_end(s, p + 1);
                if p < q <= s.len() {
                    code_end(s, q, balance, open, close)
                } else {
                    CodeEnd::Unterminated
                }
            } else {
                code_end(s, p + 1, balance, open, close)
            }
        } else if open.contains(c) {
            code_end(s, p + 1, balance + 1, open, close)
        } else if balance > 0 {
            if close.contains(c) {
                code_end(s, p + 1, (balance - 1) as nat, open, close)
            } else {
                code_end(s, p + 1, balance, open, close)
            }
        } else if c == ',' || c == ';' || close.contains(c) {
            CodeEnd::Found(p)
        } else {
            code_end(s, p + 1, balance, open, close)
        }
    }
}

/// What follows a `=>` that began at byte offset `start`, read from `p` on.
pub open spec fn right_arrow_at(s: Seq<char>, p: int, start: nat) -> Lexed {
    if p < 0 || p >= s.len() {
        Lexed {
            item: Some(Lexeme::Fault { location: start, code: ErrorCode::UnterminatedCode }),
            pos: p,
        }
    } else if s[p] == '@' {
        if p + 1 < s.len() && s[p + 1] == 'L' {
            Lexed {
                item: Some(
                    Lexeme::Token {
                        start,
                        tok: TokView::EqualsGreaterThanLookahead,
                        end: byte_offset(s, p) + 2,
                    },
                ),
                pos: p + 2,
            }
        } else if p + 1 < s.len() && s[p + 1] == 'R' {
            Lexed {
                item: Some(
                    Lexeme::Token {
                        start,
                        tok: TokView::EqualsGreaterThanLookbehind,
                        end: byte_offset(s, p) + 2,
                    },
                ),
                pos: p + 2,
            }
        } else {
            Lexed {
                item: Some(Lexeme::Fault { location: start, code: ErrorCode::UnrecognizedToken }),
                pos: p + 1,
            }
        }
    } else {
        let from = if s[p] == '?' {
            p + 1
        } else {
            p
        };
        match code_end(s, from, 0, "([{"@, "}])"@) {
            CodeEnd::Found(q) => Lexed {
                item: Some(
                    Lexeme::Token {
                        start,
                        tok: if s[p] == '?' {
                            TokView::EqualsGreaterThanQuestionCode(s.subrange(from, q))
                        } else {
                            TokView::EqualsGreaterThanCode(s.subrange(from, q))
                        },
                        end: byte_offset(s, q),
                    },
                ),
                pos: q,
            },
            CodeEnd::BadString(quote) => Lexed {
                item: Some(
                    Lexeme::Fault {
                        location: byte_offset(s, quote),
                        code: ErrorCode::UnterminatedStringLiteral,
                    },
                ),
                pos: s.len() as int,
            },
            CodeEnd::Unterminated => Lexed {
                item: Some(Lexeme::Fault { location: start, code: ErrorCode::UnterminatedCode }),
                pos: s.len() as int,
            },
        }
    }
}

/// The closing quote of a string literal lies at or after the start of the
/// search and within the text.
pub proof fn lemma_string_end_bounds(s: Seq<char>, p: int, escape: bool)
    requires
        0 <= p,
    ensures
        string_end(s, p, escape) matches Some(q) ==> p <= q < s.len(),
    decreases s.len() - p,
{
    if p < s.len() {
        lemma_string_end_bounds(s, p + 1, false);
        lemma_string_end_bounds(s, p + 1, true);
    }
}

/// The byte offsets that the end of a piece of code is reported with are
/// offsets into the encoding of the text.
pub proof fn lemma_code_end_offsets(s: Seq<char>, p: int, open: Seq<char>, close: Seq<char>)
    requires
        0 <= p <= s.len(),
    ensures
        code_end(s, p, 0, open, close) matches CodeEnd::Found(q) ==> p <= q <= s.len()
            && byte_offset(s, q) <= utf8_len(s),
        code_end(s, p, 0, open, close) matches CodeEnd::BadString(quote) ==> p <= quote < s.len()
            && byte_offset(s, quote) <= utf8_len(s),
{
    lemma_code_end_bounds(s, p, 0, open, close);
    match code_end(s, p, 0, open, close) {
        CodeEnd::Found(q) => lemma_offset_bound(s, q),
        CodeEnd::BadString(quote) => lemma_offset_bound(s, quote),
        CodeEnd::Unterminated => {},
    }
}

/// The end of a piece of code lies at or after its start and within the text.
pub proof fn lemma_code_end_bounds(
    s: Seq<char>,
    p: int,
    balance: nat,
    open: Seq<char>,
    close: Seq<char>,
)
    requires
        0 <= p <= s.len(),
    ensures
        code_end(s, p, balance, open, close) matches CodeEnd::Found(q) ==> p <= q <= s.len(),
        code_end(s, p, balance, open, close) matches CodeEnd::BadString(quote) ==> p <= quote
            < s.len(),
    decreases s.len() - p,
{
    if p < s.len() {
        let c = s[p];
        if c == '"' {
            match string_end(s, p + 1, false) {
                Some(q) => {
                    if p < q < s.len() {
                        lemma_code_end_bounds(s, q + 1, balance, open, close);
                    }
                },
                None => {},
            }
        } else if c == '/' {
            if p + 1 < s.len() && s[p + 1] == '/' {
                let q = line_end(s, p + 1);
                if p < q <= s.len() {
                    lemma_code_end_bounds(s, q, balance, open, close);
                }
            } else {
                lemma_code_end_bounds(s, p + 1, balance, open, close);
            }
        } else if open.contains(c) {
            lemma_code_end_bounds(s, p + 1, balance + 1, open, close);
        } else if balance > 0 {
            if close.contains(c) {
                lemma_code_end_bounds(s, p + 1, (balance - 1) as nat, open, close);
            } else {
                lemma_code_end_bounds(s, p + 1, balance, open, close);
            }
        } else if c == ',' || c == ';' || close.contains(c) {
        } else {
            lemma_code_end_bounds(s, p + 1, balance, open, close);
        }
    }
}

/// Whether `c` occurs in `s`.
fn has_char(s: &str, c: char) -> (r: bool)
    ensures
        r == s@.contains(c),
{
    let mut seen: Ghost<Seq<char>> = Ghost(Seq::empty());
    let mut it = s.chars();
    loop
        invariant
            seen@ + it.remaining() == s@,
            !seen@.contains(c),
        decreases s@.len() - seen@.len(),
    {
        match it.next() {
            Some(d) => {
                if d == c {
                    assert(s@[seen@.len() as int] == c);
                    return true;
                }
                proof {
                    seen@ = seen@.push(d);
                }
            },
            None => {
                assert(seen@ == s@);
                return false;
            },
        }
    }
}

/// The character at position `p` of `s` with its byte offset, if there is one.
pub open spec fn peek(s: Seq<char>, p: int) -> Option<(usize, char)> {
    if 0 <= p < s.len() {
        Some((byte_offset(s, p) as usize, s[p]))
    } else {
        None
    }
}

/// Whether `r` is the item `item`, with every position moved up by `shift`.
pub open spec fn yields<'a>(
    r: Option<Result<(usize, Tok<'a>, usize), Error>>,
    item: Option<Lexeme>,
    shift: nat,
) -> bool {
    match (r, item) {
        (None, None) => true,
        (Some(Ok((l, t, h))), Some(Lexeme::Token { start, tok, end })) => {
            &&& l == start + shift
            &&& t@ == tok
            &&& h == end + shift
        },
        (Some(Err(e)), Some(Lexeme::Fault { location, code })) => {
            &&& e.location == location + shift
            &&& e.code == code
        },
        _ => false,
    }
}

/// Whether two texts hold the same characters.
fn same_text(a: &str, b: &str) -> (r: bool)
    ensures
        r == (a@ == b@),
{
    let x = a.as_bytes();
    let y = b.as_bytes();
    proof {
        vstd::utf8::encode_utf8_decode_utf8(a@);
        vstd::utf8::encode_utf8_decode_utf8(b@);
    }
    if x.len() != y.len() {
        return false;
    }
    let mut i: usize = 0;
    while i < x.len()
        invariant
            i <= x.len(),
            x@.len() == y@.len(),
            x@ == a.spec_bytes(),
            y@ == b.spec_bytes(),
            vstd::utf8::decode_utf8(a.spec_bytes()) == a@,
            vstd::utf8::decode_utf8(b.spec_bytes()) == b@,
            forall|j: int| 0 <= j < i ==> x@[j] == y@[j],
        decreases x.len() - i,
    {
        if x[i] != y[i] {
            return false;
        }
        i = i + 1;
    }
    assert(x@ =~= y@);
    true
}

/// The keyword that `word` spells, or the identifier that it is.
fn keyword<'a>(word: &'a str) -> (tok: Tok<'a>)
    ensures
        tok@ == word_token(word@),
{
    if same_text(word, "def") {
        Tok::Def
    } else if same_text(word, "end") {
        Tok::End
    } else if same_text(word, "extern") {
        Tok::Extern
    } else if same_text(word, "forall") {
        Tok::Forall
    } else if same_text(word, "fun") {
        Tok::Fun
    } else if same_text(word, "in") {
        Tok::In
    } else if same_text(word, "inductive") {
        Tok::Inductive
    } else if same_text(word, "import") {
        Tok::Import
    } else if same_text(word, "let") {
        Tok::Let
    } else if same_text(word, "match") {
        Tok::Match
    } else if same_text(word, "module") {
        Tok::Module
    } else if same_text(word, "Type") {
        Tok::Type
    } else if same_text(word, "with") {
        Tok::With
    } else {
        Tok::Id(word)
    }
}

/// The token that `c` forms by itself, whatever follows it.
fn single_tok<'a>(c: char) -> (r: Option<Tok<'a>>)
    ensures
        match r {
            Some(tok) => single(c) == Some(tok@),
            None => single(c) is None,
        },
{
    match c {
        ',' => Some(Tok::Comma),
        '#' => Some(Tok::Hash),
        '>' => Some(Tok::GreaterThan),
        '{' => Some(Tok::LeftBrace),
        '[' => Some(Tok::LeftBracket),
        '(' => Some(Tok::LeftParen),
        '<' => Some(Tok::LessThan),
        '+' => Some(Tok::Plus),
        '?' => Some(Tok::Question),
        '}' => Some(Tok::RightBrace),
        ']' => Some(Tok::RightBracket),
        ')' => Some(Tok::RightParen),
        ';' => Some(Tok::Semi),
        '*' => Some(Tok::Star),
        '_' => Some(Tok::Underscore),
        '|' => Some(Tok::Bar),
        _ => None,
    }
}

/// Whether `c` can begin a token of two characters.
fn starts_pair(c: char) -> (r: bool)
    ensures
        r == begins_pair(c),
{
    c == '!' || c == ':' || c == '.' || c == '=' || c == '@' || c == '-' || c == '~'
}

/// The token that the two characters `c`, `d` form together.
fn pair_tok<'a>(c: char, d: char) -> (r: Option<Tok<'a>>)
    ensures
        match r {
            Some(tok) => pair(c, d) == Some(tok@),
            None => pair(c, d) is None,
        },
{
    match (c, d) {
        ('!', '=') => Some(Tok::BangEquals),
        (':', ':') => Some(Tok::ColonColon),
        (':', '=') => Some(Tok::ColonEq),
        ('.', '.') => Some(Tok::DotDot),
        ('=', '=') => Some(Tok::EqualsEquals),
        ('=', '>') => Some(Tok::FatArrow),
        ('@', 'L') => Some(Tok::Lookahead),
        ('@', 'R') => Some(Tok::Lookbehind),
        ('-', '>') => Some(Tok::Arrow),
        ('~', '~') => Some(Tok::TildeTilde),
        _ => None,
    }
}

/// The token that a character which can begin a pair forms when no pair follows.
fn unpaired_tok<'a>(c: char) -> (r: Option<Tok<'a>>)
    ensures
        match r {
            Some(tok) => unpaired(c) == Some(tok@),
            None => unpaired(c) is None,
        },
{
    match c {
        ':' => Some(Tok::Colon),
        '.' => Some(Tok::Period),
        '=' => Some(Tok::Equals),
        _ => None,
    }
}

/// A tokenizer over a text. It holds one character of lookahead.
pub struct Tokenizer<'input> {
    text: &'input str,
    chars: Vec<char>,
    pos: usize,
    offset: usize,
    lookahead: Option<(usize, char)>,
    shift: usize,
}

impl<'input> Tokenizer<'input> {
    /// The text being read.
    pub closed spec fn text(&self) -> Seq<char> {
        self.text@
    }

    /// How many characters have been consumed.
    pub closed spec fn position(&self) -> int {
        self.pos as int
    }

    /// By how much `next` moves every position up.
    pub closed spec fn shift(&self) -> nat {
        self.shift as nat
    }

    /// The lookahead is the character at the position, and the byte offset
    /// is that of the position.
    pub closed spec fn wf(&self) -> bool {
        &&& self.chars@ == self.text@
        &&& self.pos <= self.chars.len()
        &&& self.offset == byte_offset(self.text@, self.pos as int)
        &&& self.lookahead == peek(self.text@, self.pos as int)
        &&& utf8_len(self.text@) <= usize::MAX
    }

    /// Every position of the text, moved up by the shift, fits in a `usize`.
    pub open spec fn in_range(&self) -> bool {
        utf8_len(self.text()) + self.shift() <= usize::MAX
    }

    /// A tokenizer at the start of `text`, whose `next` reports positions
    /// moved up by `shift`.
    pub fn new(text: &'input str, shift: usize) -> (t: Tokenizer<'input>)
        ensures
            t.wf(),
            t.text() == text@,
            t.position() == 0,
            t.shift() == shift,
    {
        // The text is held in memory, so its length in bytes is a `usize`.
        let length = text.as_bytes().len();
        assert(utf8_len(text@) == length);
        let chars = decode(text);
        let lookahead = if chars.len() > 0 {
            Some((0, chars[0]))
        } else {
            None
        };
        assert(text@.take(0) == Seq::<char>::empty());
        Tokenizer { text, chars, pos: 0, offset: 0, lookahead, shift }
    }

    /// As `new`, where every position of the text, moved up by `shift`,
    /// fits in a `usize`; `None` where one does not.
    pub fn try_new(text: &'input str, shift: usize) -> (r: Option<Tokenizer<'input>>)
        ensures
            r is Some <==> utf8_len(text@) + shift <= usize::MAX,
            r matches Some(t) ==> t.wf() && t.in_range() && t.text() == text@ && t.position() == 0
                && t.shift() == shift,
    {
        let n = text.as_bytes().len();
        if shift <= usize::MAX - n {
            Some(Tokenizer::new(text, shift))
        } else {
            None
        }
    }

    /// Consumes the lookahead and returns the new one.
    fn bump(&mut self) -> (r: Option<(usize, char)>)
        requires
            old(self).wf(),
        ensures
            final(self).wf(),
            final(self).text() == old(self).text(),
            final(self).shift() == old(self).shift(),
            final(self).position() == if old(self).position() < old(self).text().len() {
                old(self).position() + 1
            } else {
                old(self).position()
            },
            r == peek(final(self).text(), final(self).position()),
    {
        if self.pos < self.chars.len() {
            let w = char_width(self.chars[self.pos]);
            proof {
                lemma_offset_step(self.text@, self.pos as int);
            }
            self.offset = self.offset + w;
            self.pos = self.pos + 1;
        }
        self.lookahead = if self.pos < self.chars.len() {
            Some((self.offset, self.chars[self.pos]))
        } else {
            None
        };
        self.lookahead
    }

    /// Consumes characters up to the first one on which `terminate` answers
    /// `true`, and returns its byte offset; `None` at the end of the text.
    fn take_until<F: Fn(char) -> bool>(&mut self, terminate: F) -> (r: Option<usize>)
        requires
            old(self).wf(),
            forall|c: char| call_requires(terminate, (c,)),
        ensures
            final(self).wf(),
            final(self).text() == old(self).text(),
            final(self).shift() == old(self).shift(),
            old(self).position() <= final(self).position() <= final(self).text().len(),
            forall|i: int|
                old(self).position() <= i < final(self).position() ==> call_ensures(
                    terminate,
                    (#[trigger] final(self).text()[i],),
                    false,
                ),
            final(self).position() < final(self).text().len() ==> call_ensures(
                terminate,
                (final(self).text()[final(self).position()],),
                true,
            ),
            r == match peek(final(self).text(), final(self).position()) {
                Some((idx, _)) => Some(idx),
                None => None,
            },
    {
        loop
            invariant
                self.wf(),
                self.text() == old(self).text(),
                self.shift() == old(self).shift(),
                old(self).position() <= self.position() <= self.text().len(),
                forall|c: char| call_requires(terminate, (c,)),
                forall|i: int|
                    old(self).position() <= i < self.position() ==> call_ensures(
                        terminate,
                        (#[trigger] self.text()[i],),
                        false,
                    ),
            decreases self.text().len() - self.position(),
        {
            match self.lookahead {
                None => {
                    return None;
                },
                Some((idx1, c)) => {
                    if terminate(c) {
                        return Some(idx1);
                    } else {
                        self.bump();
                    }
                },
            }
        }
    }

    /// Consumes characters for as long as `keep_going` answers `true`, and
    /// returns the byte offset of the first on which it does not.
    fn take_while<F: Fn(char) -> bool>(&mut self, keep_going: F) -> (r: Option<usize>)
        requires
            old(self).wf(),
            forall|c: char| call_requires(keep_going, (c,)),
        ensures
            final(self).wf(),
            final(self).text() == old(self).text(),
            final(self).shift() == old(self).shift(),
            old(self).position() <= final(self).position() <= final(self).text().len(),
            forall|i: int|
                old(self).position() <= i < final(self).position() ==> call_ensures(
                    keep_going,
                    (#[trigger] final(self).text()[i],),
                    true,
                ),
            final(self).position() < final(self).text().len() ==> call_ensures(
                keep_going,
                (final(self).text()[final(self).position()],),
                false,
            ),
            r == match peek(final(self).text(), final(self).position()) {
                Some((idx, _)) => Some(idx),
                None => None,
            },
    {
        let test = &keep_going;
        let stop = |c: char| -> (b: bool)
            requires
                call_requires(test, (c,)),
            ensures
                b ==> call_ensures(test, (c,), false),
                !b ==> call_ensures(test, (c,), true)
            {
                let keep = test(c);
                !keep
            };
        self.take_until(stop)
    }

    /// Reads a string literal whose opening quote, at byte offset `idx0`, has
    /// been consumed: the contents run from the position to the closing quote.
    fn string_literal(&mut self, idx0: usize) -> (r: Result<Spanned<Tok<'input>>, Error>)
        requires
            old(self).wf(),
        ensures
            final(self).wf(),
            final(self).text() == old(self).text(),
            final(self).shift() == old(self).shift(),
            final(self).position() == string_literal_at(
                old(self).text(),
                old(self).position(),
                idx0 as nat,
            ).pos,
            yields(
                Some(r),
                string_literal_at(old(self).text(), old(self).position(), idx0 as nat).item,
                0,
            ),
            r matches Ok((_, _, h)) ==> h <= utf8_len(old(self).text()),
    {
        let start = self.pos;
        let from = self.offset;
        let mut escape = false;
        loop
            invariant
                self.wf(),
                self.text() == old(self).text(),
                self.shift() == old(self).shift(),
                start == old(self).position(),
                from == byte_offset(self.text(), start as int),
                start <= self.position() <= self.text().len(),
                string_end(self.text(), start as int, false) == string_end(
                    self.text(),
                    self.position(),
                    escape,
                ),
            decreases self.text().len() - self.position(),
        {
            match self.lookahead {
                None => {
                    return error(ErrorCode::UnterminatedStringLiteral, idx0);
                },
                Some((idx1, c)) => {
                    if escape {
                        escape = false;
                    } else if c == '\\' {
                        escape = true;
                    } else if c == '"' {
                        let end = self.pos;
                        proof {
                            lemma_offset_step(self.text@, end as int);
                        }
                        self.bump();
                        let text: &'input str = self.text;
                        let contents = slice(
                            text,
                            from,
                            idx1,
                            Ghost(start as int),
                            Ghost(end as int),
                        );
                        return Ok((idx0, Tok::StringLiteral(contents), idx1 + 1));
                    }
                    self.bump();
                },
            }
        }
    }

    /// Reads the word that begins at the position, reported as starting at `idx0`.
    fn word(&mut self, idx0: usize) -> (r: Spanned<&'input str>)
        requires
            old(self).wf(),
        ensures
            final(self).wf(),
            final(self).text() == old(self).text(),
            final(self).shift() == old(self).shift(),
            final(self).position() == word_end(old(self).text(), old(self).position()),
            old(self).position() <= final(self).position() <= final(self).text().len(),
            r.0 == idx0,
            r.1@ == old(self).text().subrange(old(self).position(), final(self).position()),
            r.2 == byte_offset(final(self).text(), final(self).position()),
    {
        let ghost start = self.position();
        let from = self.offset;
        let text: &'input str = self.text;
        let found = self.take_while(is_identifier_continue);
        proof {
            lemma_scan_until_unique(
                self.text(),
                start,
                self.position(),
                |c: char| !xid_continue(c),
            );
            assert(self.text().take(self.text().len() as int) == self.text());
        }
        match found {
            Some(end) => (
                idx0,
                slice(text, from, end, Ghost(start), Ghost(self.position())),
                end,
            ),
            None => (
                idx0,
                slice(text, from, self.offset, Ghost(start), Ghost(self.position())),
                self.offset,
            ),
        }
    }

    /// Reads the keyword or identifier that begins at the position.
    fn identifierish(&mut self, idx0: usize) -> (r: Result<Spanned<Tok<'input>>, Error>)
        requires
            old(self).wf(),
        ensures
            final(self).wf(),
            final(self).text() == old(self).text(),
            final(self).shift() == old(self).shift(),
            final(self).position() == word_end(old(self).text(), old(self).position()),
            old(self).position() <= final(self).position() <= final(self).text().len(),
            r matches Ok((start, tok, end)) && start == idx0 && tok@ == word_token(
                old(self).text().subrange(old(self).position(), final(self).position()),
            ) && end == byte_offset(final(self).text(), final(self).position()),
    {
        let (start, word, end) = self.word(idx0);
        let tok = keyword(word);
        Ok((start, tok, end))
    }

    /// The next item of the token stream, with positions as byte offsets
    /// into the text; `None` at the end of the text.
    pub fn next_unshifted(&mut self) -> (r: Option<Result<Spanned<Tok<'input>>, Error>>)
        requires
            old(self).wf(),
        ensures
            final(self).wf(),
            final(self).text() == old(self).text(),
            final(self).shift() == old(self).shift(),
            final(self).position() == next_token(old(self).text(), old(self).position()).pos,
            yields(r, next_token(old(self).text(), old(self).position()).item, 0),
            r matches Some(Ok((l, _, h))) ==> l <= utf8_len(old(self).text()) && h <= utf8_len(
                old(self).text(),
            ),
            r matches Some(Err(e)) ==> e.location <= utf8_len(old(self).text()),
    {
        loop
            invariant
                self.wf(),
                self.text() == old(self).text(),
                self.shift() == old(self).shift(),
                0 <= self.position() <= self.text().len(),
                next_token(self.text(), self.position()) == next_token(
                    old(self).text(),
                    old(self).position(),
                ),
            decreases self.text().len() - self.position(),
        {
            proof {
                let s = self.text();
                let p = self.position();
                lemma_offset_bound(s, p);
                if p < s.len() {
                    lemma_offset_step(s, p);
                    if p + 1 < s.len() {
                        lemma_offset_step(s, p + 1);
                    }
                }
            }
            let (idx0, c) = match self.lookahead {
                None => {
                    return None;
                },
                Some(ahead) => ahead,
            };
            if let Some(tok) = single_tok(c) {
                self.bump();
                return Some(Ok((idx0, tok, idx0 + 1)));
            } else if starts_pair(c) {
                if let Some((idx1, d)) = self.bump() {
                    if let Some(tok) = pair_tok(c, d) {
                        self.bump();
                        return Some(Ok((idx0, tok, idx1 + 1)));
                    }
                }
                match unpaired_tok(c) {
                    Some(tok) => {
                        return Some(Ok((idx0, tok, idx0 + 1)));
                    },
                    None => {
                        return Some(error(ErrorCode::UnrecognizedToken, idx0));
                    },
                }
            } else if c == '"' {
                self.bump();
                return Some(self.string_literal(idx0));
            } else if c == '/' {
                match self.bump() {
                    Some((_, '/')) => {
                        let ghost from = self.position();
                        let newline = |c: char| -> (b: bool)
                            ensures
                                b == (c == '\n')
                            { c == '\n' };
                        self.take_until(newline);
                        proof {
                            lemma_scan_until_unique(
                                self.text(),
                                from,
                                self.position(),
                                |c: char| c == '\n',
                            );
                        }
                    },
                    _ => {
                        return Some(error(ErrorCode::UnrecognizedToken, idx0));
                    },
                }
            } else if is_identifier_start(c) {
                let word = self.identifierish(idx0);
                proof {
                    lemma_offset_bound(self.text(), self.position());
                }
                return Some(word);
            } else if is_whitespace(c) {
                self.bump();
            } else {
                return Some(error(ErrorCode::UnrecognizedToken, idx0));
            }
        }
    }

    /// The next item of the token stream, with every position moved up by
    /// the shift; `None` at the end of the text.
    pub fn next(&mut self) -> (r: Option<Result<Spanned<Tok<'input>>, Error>>)
        requires
            old(self).wf(),
            old(self).in_range(),
        ensures
            final(self).wf(),
            final(self).text() == old(self).text(),
            final(self).shift() == old(self).shift(),
            final(self).position() == next_token(old(self).text(), old(self).position()).pos,
            yields(
                r,
                next_token(old(self).text(), old(self).position()).item,
                old(self).shift(),
            ),
    {
        match self.next_unshifted() {
            None => None,
            Some(Ok((l, t, r))) => Some(Ok((l + self.shift, t, r + self.shift))),
            Some(Err(Error { location, code })) => Some(
                Err(Error { location: location + self.shift, code }),
            ),
        }
    }

    /// Finds the end of a piece of code that begins at the position: the
    /// first `,`, `;` or closing delimiter outside all brackets, string
    /// literals and comments, or the end of the text. Returns its byte offset
    /// and leaves it unconsumed. `idx0` is where an unterminated piece is
    /// reported.
    pub fn code(&mut self, idx0: usize, open_delims: &str, close_delims: &str) -> (r: Result<
        usize,
        Error,
    >)
        requires
            old(self).wf(),
        ensures
            final(self).wf(),
            final(self).text() == old(self).text(),
            final(self).shift() == old(self).shift(),
            old(self).position() <= final(self).position() <= final(self).text().len(),
            match code_end(
                old(self).text(),
                old(self).position(),
                0,
                open_delims@,
                close_delims@,
            ) {
                CodeEnd::Found(q) => {
                    &&& r == Ok::<usize, Error>(byte_offset(old(self).text(), q) as usize)
                    &&& final(self).position() == q
                },
                CodeEnd::BadString(quote) => {
                    &&& r == Err::<usize, Error>(
                        Error {
                            location: byte_offset(old(self).text(), quote) as usize,
                            code: ErrorCode::UnterminatedStringLiteral,
                        },
                    )
                    &&& old(self).position() <= quote < final(self).text().len()
                    &&& final(self).position() == final(self).text().len()
                },
                CodeEnd::Unterminated => {
                    &&& r == Err::<usize, Error>(
                        Error { location: idx0, code: ErrorCode::UnterminatedCode },
                    )
                    &&& final(self).position() == final(self).text().len()
                },
            },
    {
        let mut balance: usize = 0;
        loop
            invariant
                self.wf(),
                self.text() == old(self).text(),
                self.shift() == old(self).shift(),
                old(self).position() <= self.position() <= self.text().len(),
                balance <= self.position() - old(self).position(),
                code_end(self.text(), self.position(), balance as nat, open_delims@, close_delims@)
                    == code_end(
                    old(self).text(),
                    old(self).position(),
                    0,
                    open_delims@,
                    close_delims@,
                ),
            decreases self.text().len() - self.position(),
        {
            proof {
                lemma_offset_bound(self.text(), self.position());
            }
            if let Some((idx, c)) = self.lookahead {
                if c == '"' {
                    proof {
                        lemma_string_end_bounds(self.text(), self.position() + 1, false);
                    }
                    self.bump();
                    match self.string_literal(idx) {
                        Ok(_) => {},
                        Err(e) => {
                            return Err(e);
                        },
                    }
                    continue ;
                } else if c == '/' {
                    self.bump();
                    if let Some((_, '/')) = self.lookahead {
                        let ghost from = self.position();
                        let newline = |c: char| -> (b: bool)
                            ensures
                                b == (c == '\n')
                            { c == '\n' };
                        self.take_until(newline);
                        proof {
                            lemma_scan_until_unique(
                                self.text(),
                                from,
                                self.position(),
                                |c: char| c == '\n',
                            );
                        }
                    }
                    continue ;
                } else if has_char(open_delims, c) {
                    balance = balance + 1;
                } else if balance > 0 {
                    if has_char(close_delims, c) {
                        balance = balance - 1;
                    }
                } else {
                    if c == ',' || c == ';' || has_char(close_delims, c) {
                        return Ok(idx);
                    }
                }
            } else if balance > 0 {
                return error(ErrorCode::UnterminatedCode, idx0);
            } else {
                return Ok(self.offset);
            }
            self.bump();
        }
    }

    /// Reads what follows a `=>` that began at byte offset `idx0`: a
    /// lookahead or lookbehind mark, or a piece of code, with or without a
    /// leading `?`.
    pub fn right_arrow(&mut self, idx0: usize) -> (r: Result<Spanned<Tok<'input>>, Error>)
        requires
            old(self).wf(),
        ensures
            final(self).wf(),
            final(self).text() == old(self).text(),
            final(self).shift() == old(self).shift(),
            final(self).position() == right_arrow_at(
                old(self).text(),
                old(self).position(),
                idx0 as nat,
            ).pos,
            yields(
                Some(r),
                right_arrow_at(old(self).text(), old(self).position(), idx0 as nat).item,
                0,
            ),
    {
        proof {
            let s = self.text();
            let p = self.position();
            lemma_offset_bound(s, p);
            if p < s.len() {
                lemma_offset_step(s, p);
                if p + 1 < s.len() {
                    lemma_offset_step(s, p + 1);
                }
            }
        }
        let text: &'input str = self.text;
        match self.lookahead {
            Some((_, '@')) => {
                match self.bump() {
                    Some((idx2, 'L')) => {
                        self.bump();
                        Ok((idx0, Tok::EqualsGreaterThanLookahead, idx2 + 1))
                    },
                    Some((idx2, 'R')) => {
                        self.bump();
                        Ok((idx0, Tok::EqualsGreaterThanLookbehind, idx2 + 1))
                    },
                    _ => error(ErrorCode::UnrecognizedToken, idx0),
                }
            },
            Some((_, '?')) => {
                self.bump();
                let ghost start = self.position();
                let from = self.offset;
                let end = self.code(idx0, "([{", "}])");
                proof {
                    lemma_code_end_offsets(self.text(), start, "([{"@, "}])"@);
                }
                match end {
                    Ok(idx2) => {
                        let code = slice(text, from, idx2, Ghost(start), Ghost(self.position()));
                        Ok((idx0, Tok::EqualsGreaterThanQuestionCode(code), idx2))
                    },
                    Err(e) => Err(e),
                }
            },
            Some((_, _)) => {
                let ghost start = self.position();
                let from = self.offset;
                let end = self.code(idx0, "([{", "}])");
                proof {
                    lemma_code_end_offsets(self.text(), start, "([{"@, "}])"@);
                }
                match end {
                    Ok(idx2) => {
                        let code = slice(text, from, idx2, Ghost(start), Ghost(self.position()));
                        Ok((idx0, Tok::EqualsGreaterThanCode(code), idx2))
                    },
                    Err(e) => Err(e),
                }
            },
            None => error(ErrorCode::UnterminatedCode, idx0),
        }
    }
}

} // verus!
