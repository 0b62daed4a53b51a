//! Lexical analysis: from text to tokens.

use crate::interpreter::ast::Literal;
use crate::text::{
    byte_is_alnum, byte_is_alpha, byte_is_continuation, byte_is_digit, can_slice, digit_char,
    is_alnum, is_alpha, is_continuation, is_digit, lemma_boundary_after_ascii,
    lemma_next_boundary,
};
use std::ops::Range;
use vstd::prelude::*;
use vstd::string::StringExecFns;
use vstd::string::StringSliceAdditionalSpecFns;

verus! {

/// The classes of tokens.
#[derive(Debug, PartialEq, Eq, Structural, Clone, Copy)]
pub enum TokenKind {
    LParen,
    RParen,
    Comma,
    Dot,
    Minus,
    Plus,
    Slash,
    Star,
    Exp,
    Indentifier,
    Equal,
    Number,
    Eof,
    Unkown,
}

/// The ways in which scanning can fail. There is none: the one variant
/// holds a value of a type that has no values, so no error can be made.
#[derive(Debug)]
pub enum ScanError {
    Never(core::convert::Infallible),
}

/// A token: its class, the literal it carries, and the half-open range of
/// bytes of the source that it covers.
#[derive(Debug, PartialEq)]
pub struct Token {
    pub kind: TokenKind,
    pub literal: Option<Literal>,
    pub start: usize,
    pub end: usize,
}

/// What a token holds, with its literal as a sequence of characters.
pub struct TokenView {
    pub kind: TokenKind,
    pub literal: Option<Seq<char>>,
    pub start: usize,
    pub end: usize,
}

impl View for Token {
    type V = TokenView;

    open spec fn view(&self) -> TokenView {
        TokenView {
            kind: self.kind,
            literal: match self.literal {
                Some(l) => Some(l.text()),
                None => None,
            },
            start: self.start,
            end: self.end,
        }
    }
}

impl Clone for Token {
    fn clone(&self) -> (r: Self)
        ensures
            r == *self,
    {
        let literal = match &self.literal {
            Some(l) => Some(l.clone()),
            None => None,
        };
        Token { kind: self.kind, literal, start: self.start, end: self.end }
    }
}

impl Token {
    /// The bytes of the source that the token covers.
    pub fn span(&self) -> (r: Range<usize>)
        ensures
            r.start == self.start,
            r.end == self.end,
    {
        self.start..self.end
    }
}

/// The classes of bytes that a token can run over.
#[derive(Debug, Clone, Copy, PartialEq, Eq, Structural)]
pub enum ByteClass {
    Digit,
    Alphanumeric,
    Continuation,
}

impl ByteClass {
    pub open spec fn holds(self, b: u8) -> bool {
        match self {
            ByteClass::Digit => is_digit(b),
            ByteClass::Alphanumeric => is_alnum(b),
            ByteClass::Continuation => is_continuation(b),
        }
    }

    pub fn test(self, b: u8) -> (r: bool)
        ensures
            r == self.holds(b),
    {
        match self {
            ByteClass::Digit => byte_is_digit(b),
            ByteClass::Alphanumeric => byte_is_alnum(b),
            ByteClass::Continuation => byte_is_continuation(b),
        }
    }
}

/// The number of bytes of the class `class` that follow each other in `src`
/// from `i` on.
pub open spec fn run_len(src: Seq<u8>, i: int, class: ByteClass) -> nat
    decreases src.len() - i,
{
    if 0 <= i < src.len() && class.holds(src[i]) {
        1 + run_len(src, i + 1, class)
    } else {
        0
    }
}

/// The class of the token that the one byte `b` makes, if it makes one.
pub open spec fn symbol_kind(b: u8) -> Option<TokenKind> {
    if b == 0x28 {
        Some(TokenKind::LParen)
    } else if b == 0x29 {
        Some(TokenKind::RParen)
    } else if b == 0x2c {
        Some(TokenKind::Comma)
    } else if b == 0x2e {
        Some(TokenKind::Dot)
    } else if b == 0x2d {
        Some(TokenKind::Minus)
    } else if b == 0x2b {
        Some(TokenKind::Plus)
    } else if b == 0x2f {
        Some(TokenKind::Slash)
    } else if b == 0x2a {
        Some(TokenKind::Star)
    } else if b == 0x3d {
        Some(TokenKind::Equal)
    } else if b == 0x5e {
        Some(TokenKind::Exp)
    } else {
        None
    }
}

/// Where the numeral that begins at `start` ends: after its digits, and
/// after a point and more digits if a digit follows the point.
pub open spec fn number_end(src: Seq<u8>, start: int) -> int {
    let whole = start + 1 + run_len(src, start + 1, ByteClass::Digit);
    if whole + 1 < src.len() && src[whole] == 0x2e && is_digit(src[whole + 1]) {
        whole + 1 + run_len(src, whole + 1, ByteClass::Digit)
    } else {
        whole
    }
}

/// The class of the token that begins with the byte `b`, which is no space.
pub open spec fn token_kind(b: u8) -> TokenKind {
    match symbol_kind(b) {
        Some(kind) => kind,
        None => if is_digit(b) {
            TokenKind::Number
        } else if is_alpha(b) {
            TokenKind::Indentifier
        } else {
            TokenKind::Unkown
        },
    }
}

/// Where the token that begins at `start` ends. A numeral and a name run as
/// far as they can. A byte that begins no other token makes an unknown
/// token together with the bytes that continue its character.
pub open spec fn token_end(src: Seq<u8>, start: int) -> int {
    let b = src[start];
    if symbol_kind(b) is Some {
        start + 1
    } else if is_digit(b) {
        number_end(src, start)
    } else if is_alpha(b) {
        start + 1 + run_len(src, start + 1, ByteClass::Alphanumeric)
    } else {
        start + 1 + run_len(src, start + 1, ByteClass::Continuation)
    }
}

/// The characters of a numeral with the bytes `bytes`.
pub open spec fn numeral_text(bytes: Seq<u8>) -> Seq<char> {
    Seq::new(
        bytes.len(),
        |i: int|
            if bytes[i] == 0x2e {
                '.'
            } else {
                digit_char(bytes[i] - 0x30)
            },
    )
}

/// The token that begins at `start`, where no space stands.
pub open spec fn token_at(src: Seq<u8>, start: int) -> TokenView {
    let end = token_end(src, start);
    let kind = token_kind(src[start]);
    TokenView {
        kind,
        literal: if kind == TokenKind::Number {
            Some(numeral_text(src.subrange(start, end)))
        } else {
            None
        },
        start: start as usize,
        end: end as usize,
    }
}

/// The token that ends every token sequence, at the end of the source.
pub open spec fn eof_token(src: Seq<u8>) -> TokenView {
    TokenView {
        kind: TokenKind::Eof,
        literal: None,
        start: src.len() as usize,
        end: src.len() as usize,
    }
}

/// The tokens of `src` from `pos` on: spaces are passed over, every other
/// byte belongs to one token, and the end of input comes last.
pub open spec fn spec_scan(src: Seq<u8>, pos: int) -> Seq<TokenView>
    decreases
            if pos < src.len() {
                src.len() - pos
            } else {
                0
            },
{
    if 0 <= pos < src.len() {
        if src[pos] == 0x20 {
            spec_scan(src, pos + 1)
        } else {
            seq![token_at(src, pos)] + spec_scan(src, token_end(src, pos))
        }
    } else {
        seq![eof_token(src)]
    }
}

/// The values of a sequence of tokens.
pub open spec fn tokens_view(tokens: Seq<Token>) -> Seq<TokenView> {
    Seq::new(tokens.len(), |i: int| tokens[i]@)
}

/// The range of the token can be cut out of the source: it lies inside the
/// source, and both of its ends fall between characters.
pub open spec fn token_fits(src: Seq<u8>, token: TokenView) -> bool {
    can_slice(src, token.start as int, token.end as int)
}

/// The range of each of `tokens` can be cut out of the source.
pub open spec fn tokens_fit(src: Seq<u8>, tokens: Seq<TokenView>) -> bool {
    forall|i: int| 0 <= i < tokens.len() ==> token_fits(src, #[trigger] tokens[i])
}

/// A run of bytes of a class lies inside the text, holds bytes of the class
/// only, and ends where the text ends or another byte stands.
pub proof fn lemma_run(src: Seq<u8>, i: int, class: ByteClass)
    requires
        0 <= i <= src.len(),
    ensures
        i + run_len(src, i, class) <= src.len(),
        forall|k: int| i <= k < i + run_len(src, i, class) ==> class.holds(#[trigger] src[k]),
        i + run_len(src, i, class) < src.len() ==> !class.holds(src[i + run_len(src, i, class)]),
    decreases src.len() - i,
{
    if i < src.len() && class.holds(src[i]) {
        lemma_run(src, i + 1, class);
    }
}

/// Bytes of a class that end where the text ends or another byte stands are
/// a run.
pub proof fn lemma_run_exact(src: Seq<u8>, i: int, end: int, class: ByteClass)
    requires
        0 <= i <= end <= src.len(),
        forall|k: int| i <= k < end ==> class.holds(#[trigger] src[k]),
        end < src.len() ==> !class.holds(src[end]),
    ensures
        run_len(src, i, class) == end - i,
    decreases end - i,
{
    if i < end {
        lemma_run_exact(src, i + 1, end, class);
    }
}

/// The token that begins between two characters ends between two
/// characters, inside the text and behind its beginning.
pub proof fn lemma_token_end(src: Seq<u8>, pos: int)
    requires
        vstd::utf8::valid_utf8(src),
        vstd::utf8::is_char_boundary(src, pos),
        0 <= pos < src.len(),
    ensures
        pos < token_end(src, pos) <= src.len(),
        vstd::utf8::is_char_boundary(src, token_end(src, pos)),
{
    let b = src[pos];
    let end = token_end(src, pos);
    if symbol_kind(b) is Some {
        lemma_boundary_after_ascii(src, pos, pos + 1);
    } else if is_digit(b) {
        lemma_run(src, pos + 1, ByteClass::Digit);
        let whole = pos + 1 + run_len(src, pos + 1, ByteClass::Digit);
        if end != whole {
            lemma_run(src, whole + 1, ByteClass::Digit);
        }
        lemma_boundary_after_ascii(src, pos, end);
    } else if is_alpha(b) {
        lemma_run(src, pos + 1, ByteClass::Alphanumeric);
        lemma_boundary_after_ascii(src, pos, end);
    } else {
        lemma_next_boundary(src, pos);
        let next = pos + crate::text::char_len_at(src, pos);
        if next < src.len() {
            lemma_next_boundary(src, next);
        }
        lemma_run_exact(src, pos + 1, next, ByteClass::Continuation);
    }
}

/// The range of every token of a text can be cut out of the text: no token
/// begins or ends inside a character.
pub proof fn lemma_scan_fits(src: Seq<u8>, pos: int)
    requires
        vstd::utf8::valid_utf8(src),
        vstd::utf8::is_char_boundary(src, pos),
        0 <= pos <= src.len() <= usize::MAX,
    ensures
        tokens_fit(src, spec_scan(src, pos)),
    decreases src.len() - pos,
{
    if pos < src.len() {
        if src[pos] == 0x20 {
            lemma_boundary_after_ascii(src, pos, pos + 1);
            lemma_scan_fits(src, pos + 1);
        } else {
            lemma_token_end(src, pos);
            let end = token_end(src, pos);
            lemma_scan_fits(src, end);
            let rest = spec_scan(src, end);
            let all = seq![token_at(src, pos)] + rest;
            assert forall|i: int| 0 <= i < all.len() implies token_fits(src, #[trigger] all[i]) by {
                if i > 0 {
                    assert(all[i] == rest[i - 1]);
                }
            }
        }
    } else {
        vstd::utf8::is_char_boundary_start_end_of_seq(src);
    }
}

/// The numeral that the bytes `start..end` of `bytes` spell.
fn numeral(bytes: &[u8], start: usize, end: usize) -> (r: String)
    requires
        start <= end <= bytes@.len(),
        forall|i: int| start <= i < end ==> is_digit(#[trigger] bytes@[i]) || bytes@[i] == 0x2e,
    ensures
        r@ == numeral_text(bytes@.subrange(start as int, end as int)),
{
    let mut out = String::from_str("");
    proof {
        reveal_strlit("");
        reveal_strlit(".");
    }
    let mut i: usize = start;
    while i < end
        invariant
            start <= i <= end <= bytes@.len(),
            forall|j: int| start <= j < end ==> is_digit(#[trigger] bytes@[j]) || bytes@[j] == 0x2e,
            out@ == numeral_text(bytes@.subrange(start as int, i as int)),
        decreases end - i,
    {
        let ghost before = out@;
        if bytes[i] == 0x2e {
            proof {
                reveal_strlit(".");
            }
            out.append(".");
            assert(out@ =~= before.push('.'));
        } else {
            crate::text::push_decimal(&mut out, (bytes[i] - 0x30) as u64);
            assert(out@ =~= before.push(digit_char(bytes@[i as int] - 0x30)));
        }
        i += 1;
        assert(bytes@.subrange(start as int, i as int) =~= bytes@.subrange(
            start as int,
            i - 1,
        ).push(bytes@[i - 1]));
        assert(out@ =~= numeral_text(bytes@.subrange(start as int, i as int)));
    }
    out
}

/// Turns the text of one line of input into tokens.
pub struct Scanner<'a> {
    source: &'a str,
    tokens: Vec<Token>,
    start: usize,
    current: usize,
}

impl<'a> Scanner<'a> {
    /// The bytes of the text that is scanned.
    pub closed spec fn src(&self) -> Seq<u8> {
        self.source.spec_bytes()
    }

    /// The tokens found so far.
    pub closed spec fn found(&self) -> Seq<TokenView> {
        tokens_view(self.tokens@)
    }

    /// Where the next token is looked for.
    pub closed spec fn pos(&self) -> int {
        self.current as int
    }

    /// The tokens found and those still to come are the tokens of the text.
    pub open spec fn wf(&self) -> bool {
        &&& 0 <= self.pos() <= self.src().len()
        &&& self.found() + spec_scan(self.src(), self.pos()) == spec_scan(self.src(), 0)
    }

    /// A scanner at the beginning of `source`.
    pub fn new(source: &'a str) -> (r: Self)
        ensures
            r.wf(),
            r.src() == source.spec_bytes(),
            r.pos() == 0,
            r.found() == Seq::<TokenView>::empty(),
    {
        let r = Self { source, tokens: Vec::new(), start: 0, current: 0 };
        assert(r.found() =~= Seq::<TokenView>::empty());
        assert(r.found() + spec_scan(r.src(), 0) =~= spec_scan(r.src(), 0));
        r
    }

    fn is_at_end(&self) -> (r: bool)
        ensures
            r == (self.pos() >= self.src().len()),
    {
        self.current >= self.source.as_bytes().len()
    }

    fn add_token(&mut self, kind: TokenKind, literal: Option<Literal>)
        ensures
            final(self).source == old(self).source,
            final(self).start == old(self).start,
            final(self).current == old(self).current,
            final(self).found() == old(self).found().push(
                TokenView {
                    kind,
                    literal: match literal {
                        Some(l) => Some(l.text()),
                        None => None,
                    },
                    start: old(self).start,
                    end: old(self).current,
                },
            ),
    {
        self.tokens.push(Token { kind, literal, start: self.start, end: self.current });
        assert(self.found() =~= old(self).found().push(self.tokens@.last()@));
    }

    fn peek(&self) -> (r: Option<u8>)
        ensures
            r == if self.pos() < self.src().len() {
                Some(self.src()[self.pos()])
            } else {
                None
            },
    {
        self.peek_offset(0)
    }

    fn peek_offset(&self, offset: usize) -> (r: Option<u8>)
        ensures
            r == if self.pos() + offset < self.src().len() {
                Some(self.src()[self.pos() + offset])
            } else {
                None
            },
    {
        let bytes = self.source.as_bytes();
        if self.current < bytes.len() && offset < bytes.len() - self.current {
            Some(bytes[self.current + offset])
        } else {
            None
        }
    }

    fn advance(&mut self) -> (r: u8)
        requires
            old(self).pos() < old(self).src().len(),
        ensures
            r == old(self).src()[old(self).pos()],
            final(self).source == old(self).source,
            final(self).tokens == old(self).tokens,
            final(self).start == old(self).start,
            final(self).pos() == old(self).pos() + 1,
    {
        let bytes = self.source.as_bytes();
        let b = bytes[self.current];
        self.current += 1;
        b
    }

    /// Steps over the bytes of the class `class` that follow each other.
    fn advance_while(&mut self, class: ByteClass)
        requires
            old(self).pos() <= old(self).src().len(),
        ensures
            final(self).source == old(self).source,
            final(self).tokens == old(self).tokens,
            final(self).start == old(self).start,
            final(self).pos() == old(self).pos() + run_len(old(self).src(), old(self).pos(), class),
            final(self).pos() <= old(self).src().len(),
            forall|i: int|
                old(self).pos() <= i < final(self).pos() ==> class.holds(
                    #[trigger] old(self).src()[i],
                ),
    {
        let bytes = self.source.as_bytes();
        while self.current < bytes.len() && class.test(bytes[self.current])
            invariant
                bytes@ == self.src(),
                self.source == old(self).source,
                self.tokens == old(self).tokens,
                self.start == old(self).start,
                old(self).pos() <= self.pos() <= self.src().len(),
                self.pos() + run_len(self.src(), self.pos(), class) == old(self).pos() + run_len(
                    old(self).src(),
                    old(self).pos(),
                    class,
                ),
                forall|i: int|
                    old(self).pos() <= i < self.pos() ==> class.holds(
                        #[trigger] old(self).src()[i],
                    ),
            decreases bytes@.len() - self.current,
        {
            self.current += 1;
        }
    }

    fn number(&mut self)
        requires
            old(self).start + 1 == old(self).current,
            old(self).pos() <= old(self).src().len(),
            is_digit(old(self).src()[old(self).start as int]),
        ensures
            final(self).source == old(self).source,
            final(self).start == old(self).start,
            final(self).pos() == number_end(old(self).src(), old(self).start as int),
            final(self).pos() <= old(self).src().len(),
            final(self).found() == old(self).found().push(
                token_at(old(self).src(), old(self).start as int),
            ),
    {
        self.advance_while(ByteClass::Digit);
        let dot = self.peek();
        let after = self.peek_offset(1);
        if dot == Some(0x2e) && after.is_some() && byte_is_digit(after.unwrap()) {
            self.advance();
            self.advance_while(ByteClass::Digit);
        }
        let text = numeral(self.source.as_bytes(), self.start, self.current);
        self.add_token(TokenKind::Number, Some(Literal::Number(text)));
    }

    fn literal(&mut self)
        requires
            old(self).start + 1 == old(self).current,
            old(self).pos() <= old(self).src().len(),
            is_alpha(old(self).src()[old(self).start as int]),
        ensures
            final(self).source == old(self).source,
            final(self).start == old(self).start,
            final(self).pos() == token_end(old(self).src(), old(self).start as int),
            final(self).pos() <= old(self).src().len(),
            final(self).found() == old(self).found().push(
                token_at(old(self).src(), old(self).start as int),
            ),
    {
        self.advance_while(ByteClass::Alphanumeric);
        self.add_token(TokenKind::Indentifier, None)
    }

    /// Scans the token at the current place, or steps over a space.
    fn scan_token(&mut self) -> (r: Result<(), String>)
        requires
            old(self).wf(),
            old(self).pos() < old(self).src().len(),
            old(self).start == old(self).current,
        ensures
            r is Ok,
            final(self).wf(),
            final(self).src() == old(self).src(),
            old(self).pos() < final(self).pos(),
    {
        let ghost src = self.src();
        let ghost at = self.pos();
        let ghost before = self.found();
        let c = self.advance();
        match c {
            0x28 => self.add_token(TokenKind::LParen, None),
            0x29 => self.add_token(TokenKind::RParen, None),
            0x2c => self.add_token(TokenKind::Comma, None),
            0x2e => self.add_token(TokenKind::Dot, None),
            0x2d => self.add_token(TokenKind::Minus, None),
            0x2b => self.add_token(TokenKind::Plus, None),
            0x2f => self.add_token(TokenKind::Slash, None),
            0x2a => self.add_token(TokenKind::Star, None),
            0x3d => self.add_token(TokenKind::Equal, None),
            0x5e => self.add_token(TokenKind::Exp, None),
            0x20 => {},
            _ => {
                if byte_is_digit(c) {
                    self.number();
                } else if byte_is_alpha(c) {
                    self.literal();
                } else {
                    self.advance_while(ByteClass::Continuation);
                    self.add_token(TokenKind::Unkown, None);
                }
            },
        }
        proof {
            if c == 0x20 {
                assert(self.found() == before);
            } else {
                assert(self.found() == before.push(token_at(src, at)));
                assert(self.pos() == token_end(src, at));
                assert(before.push(token_at(src, at)) + spec_scan(src, token_end(src, at))
                    =~= before + (seq![token_at(src, at)] + spec_scan(src, token_end(src, at))));
            }
        }
        Ok(())
    }

    /// The tokens of the text, with the end of input as the last one.
    /// Scanning never fails.
    pub fn scan_tokens(self) -> (r: Result<Vec<Token>, String>)
        requires
            self.wf(),
        ensures
            r matches Ok(tokens) && tokens_view(tokens@) == spec_scan(self.src(), 0),
            r matches Ok(tokens) && tokens_fit(self.src(), tokens_view(tokens@)),
    {
        let ghost src = self.src();
        let len = self.source.as_bytes().len();
        proof {
            vstd::utf8::encode_utf8_valid_utf8(self.source@);
            vstd::utf8::is_char_boundary_start_end_of_seq(src);
            assert(src.len() == len);
            lemma_scan_fits(src, 0);
        }
        let mut scanner = self;
        while !scanner.is_at_end()
            invariant
                scanner.wf(),
                scanner.src() == src,
            decreases scanner.src().len() - scanner.pos(),
        {
            scanner.start = scanner.current;
            let _ = scanner.scan_token();
        }
        let end = scanner.current;
        let mut tokens = scanner.tokens;
        let ghost found = tokens_view(tokens@);
        tokens.push(Token { kind: TokenKind::Eof, literal: None, start: end, end });
        proof {
            assert(tokens@.last()@ == eof_token(src));
            assert(tokens_view(tokens@) =~= found.push(eof_token(src)));
            assert(found + spec_scan(src, end as int) =~= tokens_view(tokens@));
        }
        Ok(tokens)
    }
}

} // verus!
