use vstd::prelude::*;

use crate::lex::models::token::{token_view, Token, TokenView};
use crate::lex::models::token_reader::TokenReader;
use crate::lex::models::token_type::TokenType;
use crate::text::{f64_literal, i64_literal, parse_i64, parses_as_f64, text_contains, text_eq};
use vstd::utf8::{decode_utf8, encode_utf8, is_continuation_byte};

verus! {

broadcast use {
    vstd::utf8::encode_utf8_valid_utf8,
    vstd::utf8::encode_utf8_decode_utf8,
    vstd::utf8::is_char_boundary_iff_not_is_continuation_byte,
    vstd::utf8::is_char_boundary_start_end_of_seq,
};

/// Reads the bytes of a source one at a time, each as the character of the
/// same number, and groups them into tokens.
pub struct Lexer {
    pub input: String,
    /// Index of the current character.
    pub position: usize,
    /// Index of the character after the current one.
    pub read_position: usize,
    /// The current character, or `'\0'` past the end of the input.
    pub ch: char,
}

/// The character of `s` at `i`, or `'\0'` outside `s`.
pub open spec fn char_at(s: Seq<char>, i: int) -> char {
    if 0 <= i < s.len() {
        s[i]
    } else {
        '\0'
    }
}

/// The bytes of a text, each read as the character of the same number, as
/// `u8 as char` reads it.
pub open spec fn byte_chars(bytes: Seq<u8>) -> Seq<char> {
    bytes.map_values(|b: u8| b as char)
}

/// The text whose UTF-8 encoding is the bytes that `t` reads as characters.
pub open spec fn decoded(t: Seq<char>) -> Seq<char> {
    decode_utf8(t.map_values(|c: char| c as u8))
}

/// Whether a piece of the source may start or end at `i`: at the end, or
/// at a byte that begins the encoding of a character.
pub open spec fn at_boundary(s: Seq<char>, i: int) -> bool {
    i >= s.len() || !is_continuation_byte(s[i] as u8)
}

/// Whitespace among the characters a byte reads as: space, the controls
/// from tab to carriage return, next line and no-break space (what
/// `char::is_whitespace` answers for them).
pub open spec fn is_space(c: char) -> bool {
    c == ' ' || ('\t' <= c && c <= '\r') || c == '\u{85}' || c == '\u{a0}'
}

/// Letters among the characters a byte reads as (what
/// `char::is_alphabetic` answers for them).
pub open spec fn is_letter(c: char) -> bool {
    ('a' <= c && c <= 'z') || ('A' <= c && c <= 'Z') || c == '\u{aa}' || c == '\u{b5}' || c
        == '\u{ba}' || ('\u{c0}' <= c && c <= '\u{d6}') || ('\u{d8}' <= c && c <= '\u{f6}') || (
    '\u{f8}' <= c && c <= '\u{ff}')
}

/// Numerals among the characters a byte reads as: the decimal digits, the
/// superscripts two, three and one, and the vulgar fractions (what
/// `char::is_numeric` answers for them).
pub open spec fn is_numeral(c: char) -> bool {
    ('0' <= c && c <= '9') || c == '\u{b2}' || c == '\u{b3}' || c == '\u{b9}' || ('\u{bc}' <= c
        && c <= '\u{be}')
}

/// Letters and numerals among the characters a byte reads as (what
/// `char::is_alphanumeric` answers for them).
pub open spec fn is_letter_or_digit(c: char) -> bool {
    is_letter(c) || is_numeral(c)
}

fn space_char(c: char) -> (r: bool)
    ensures
        r == is_space(c),
{
    c == ' ' || ('\t' <= c && c <= '\r') || c == '\u{85}' || c == '\u{a0}'
}

fn letter_char(c: char) -> (r: bool)
    ensures
        r == is_letter(c),
{
    ('a' <= c && c <= 'z') || ('A' <= c && c <= 'Z') || c == '\u{aa}' || c == '\u{b5}' || c
        == '\u{ba}' || ('\u{c0}' <= c && c <= '\u{d6}') || ('\u{d8}' <= c && c <= '\u{f6}') || (
    '\u{f8}' <= c && c <= '\u{ff}')
}

fn numeral_char(c: char) -> (r: bool)
    ensures
        r == is_numeral(c),
{
    ('0' <= c && c <= '9') || c == '\u{b2}' || c == '\u{b3}' || c == '\u{b9}' || ('\u{bc}' <= c
        && c <= '\u{be}')
}

/// The first position at or after `p` that does not hold whitespace.
pub open spec fn skip_spaces(s: Seq<char>, p: int) -> int
    decreases s.len() - p,
{
    if 0 <= p < s.len() && is_space(s[p]) {
        skip_spaces(s, p + 1)
    } else {
        p
    }
}

/// The end of the run of letters and digits that starts at `p`.
pub open spec fn scan_word(s: Seq<char>, p: int) -> int
    decreases s.len() - p,
{
    if 0 <= p < s.len() && is_letter_or_digit(s[p]) {
        scan_word(s, p + 1)
    } else {
        p
    }
}

/// The end of the number that starts at `p`: numerals and at most one `.`
/// (none when `dot_seen`).
pub open spec fn scan_number(s: Seq<char>, p: int, dot_seen: bool) -> int
    decreases s.len() - p,
{
    if 0 <= p < s.len() && (is_numeral(s[p]) || (s[p] == '.' && !dot_seen)) {
        scan_number(s, p + 1, dot_seen || s[p] == '.')
    } else {
        p
    }
}

/// The position of the closing `delimiter` of a string literal whose text
/// starts at `p`: the first `delimiter` or `'\0'` at or after `p`, or the
/// end of the input.
pub open spec fn scan_string(s: Seq<char>, p: int, delimiter: char) -> int
    decreases s.len() - p,
{
    if 0 <= p < s.len() && s[p] != delimiter && s[p] != '\0' {
        scan_string(s, p + 1, delimiter)
    } else {
        p
    }
}

/// The kind of a word or operator text: keywords, type names, booleans and
/// punctuation by their text, then integer literals, floating-point literals
/// (as `str::parse` reads them), and identifiers for everything else.
pub open spec fn token_type_of(w: Seq<char>) -> TokenType {
    if w == "let"@ || w == "if"@ || w == "else"@ || w == "return"@ || w == "function"@ {
        TokenType::Keyword
    } else if w == "int"@ || w == "float"@ || w == "bool"@ || w == "string"@ {
        TokenType::Type
    } else if w == "true"@ || w == "false"@ {
        TokenType::Bool
    } else if w == ";"@ {
        TokenType::Semicolon
    } else if w == ":"@ {
        TokenType::Colon
    } else if w == ","@ {
        TokenType::Comma
    } else if w == "="@ {
        TokenType::Equals
    } else if w == "+"@ || w == "-"@ || w == "*"@ || w == "/"@ || w == "=="@ || w == "<="@ || w
        == ">="@ || w == ">"@ || w == "<"@ || w == "%"@ || w == "!="@ || w
        == "!"@ {
        TokenType::Operator
    } else if w == "("@ {
        TokenType::LeftParen
    } else if w == ")"@ {
        TokenType::RightParen
    } else if w == "{"@ {
        TokenType::LeftBracket
    } else if w == "}"@ {
        TokenType::RightBracket
    } else if i64_literal(w) is Some {
        TokenType::Int
    } else if f64_literal(w) {
        TokenType::Float
    } else {
        TokenType::Identifier
    }
}

/// Whether `c` followed by `next` forms one of the operators `!=`, `==`,
/// `<=`, `>=`.
pub open spec fn is_two_char_operator(c: char, next: char) -> bool {
    (c == '!' || c == '=' || c == '<' || c == '>') && next == '='
}

/// One step of the lexer from position `pos` of `s`, the source's bytes
/// read as characters: the token read and the position after it. A word or
/// a number is the text that its bytes encode.
pub open spec fn lex_step(s: Seq<char>, pos: int) -> (TokenView, int) {
    let p = skip_spaces(s, pos);
    let c = char_at(s, p);
    if c == '\0' {
        (token_view(TokenType::EOF, seq![]), p)
    } else if is_letter(c) {
        let e = scan_word(s, p);
        let w = decoded(s.subrange(p, e));
        (token_view(token_type_of(w), w), e)
    } else if is_numeral(c) {
        let e = scan_number(s, p, false);
        let w = decoded(s.subrange(p, e));
        (token_view(if w.contains('.') { TokenType::Float } else { TokenType::Int }, w), e)
    } else if c == '"' || c == '\'' {
        let e = scan_string(s, p + 1, c);
        (token_view(TokenType::String, s.subrange(p + 1, e)), e + 1)
    } else if is_two_char_operator(c, char_at(s, p + 1)) {
        let w = seq![c, char_at(s, p + 1)];
        (token_view(token_type_of(w), w), p + 2)
    } else {
        let w = seq![c];
        (token_view(token_type_of(w), w), p + 1)
    }
}

proof fn lemma_skip_spaces(s: Seq<char>, p: int)
    ensures
        skip_spaces(s, p) >= p,
        p <= s.len() ==> skip_spaces(s, p) <= s.len(),
        !is_space(char_at(s, skip_spaces(s, p))),
    decreases s.len() - p,
{
    if 0 <= p < s.len() && is_space(s[p]) {
        lemma_skip_spaces(s, p + 1);
    }
}

proof fn lemma_scan_word(s: Seq<char>, p: int)
    ensures
        scan_word(s, p) >= p,
        p <= s.len() ==> scan_word(s, p) <= s.len(),
    decreases s.len() - p,
{
    if 0 <= p < s.len() && is_letter_or_digit(s[p]) {
        lemma_scan_word(s, p + 1);
    }
}

proof fn lemma_scan_number(s: Seq<char>, p: int, dot_seen: bool)
    ensures
        scan_number(s, p, dot_seen) >= p,
        p <= s.len() ==> scan_number(s, p, dot_seen) <= s.len(),
    decreases s.len() - p,
{
    if 0 <= p < s.len() && (is_numeral(s[p]) || (s[p] == '.' && !dot_seen)) {
        lemma_scan_number(s, p + 1, dot_seen || s[p] == '.');
    }
}

proof fn lemma_scan_string(s: Seq<char>, p: int, delimiter: char)
    ensures
        scan_string(s, p, delimiter) >= p,
        p <= s.len() ==> scan_string(s, p, delimiter) <= s.len(),
    decreases s.len() - p,
{
    if 0 <= p < s.len() && s[p] != delimiter && s[p] != '\0' {
        lemma_scan_string(s, p + 1, delimiter);
    }
}

/// Whether the word or number that starts after the whitespace at `pos`
/// begins and ends on character boundaries, so that the lexer can take its
/// text out of the source.
pub open spec fn slices_cleanly(s: Seq<char>, pos: int) -> bool {
    let p = skip_spaces(s, pos);
    let c = char_at(s, p);
    if is_letter(c) {
        at_boundary(s, p) && at_boundary(s, scan_word(s, p))
    } else if is_numeral(c) {
        at_boundary(s, p) && at_boundary(s, scan_number(s, p, false))
    } else {
        true
    }
}

/// Whether every word and number that the lexer reads from `pos` on begins
/// and ends on character boundaries.
pub open spec fn lexes_cleanly_from(s: Seq<char>, pos: int) -> bool
    decreases s.len() + 2 - pos,
{
    let (t, q) = lex_step(s, pos);
    slices_cleanly(s, pos) && (t.token_type == TokenType::EOF || !(pos < q <= s.len() + 1)
        || lexes_cleanly_from(s, q))
}

impl Lexer {
    /// The source as the lexer reads it: its UTF-8 bytes, each as a
    /// character.
    pub open spec fn source(&self) -> Seq<char> {
        byte_chars(encode_utf8(self.input@))
    }

    /// The lexer's fields agree: the source is short enough for every
    /// position to be counted, the read position is one past the current
    /// one, and the current character is the source's character there.
    pub open spec fn wf(&self) -> bool {
        &&& self.source().len() + 3 < usize::MAX
        &&& self.read_position == self.position + 1
        &&& self.ch == char_at(self.source(), self.position as int)
    }

    /// A lexer at the start of `input`.
    pub fn new(input: String) -> (l: Lexer)
        requires
            encode_utf8(input@).len() + 3 < usize::MAX,
        ensures
            l.wf(),
            l.input@ == input@,
            l.position == 0,
    {
        let mut l = Lexer { input, position: 0, read_position: 0, ch: '\0' };
        l.read_char();
        l
    }

    /// Moves to the next byte: the current position becomes the read
    /// position, and the current character is the byte there read as a
    /// character, or `'\0'` past the end.
    pub fn read_char(&mut self)
        requires
            old(self).source().len() < usize::MAX,
            old(self).read_position < usize::MAX,
        ensures
            final(self).input == old(self).input,
            final(self).position == old(self).read_position,
            final(self).read_position == old(self).read_position + 1,
            final(self).ch == char_at(old(self).source(), old(self).read_position as int),
    {
        let bytes = self.input.as_str().as_bytes();
        if self.read_position >= bytes.len() {
            self.ch = '\0';
        } else {
            self.ch = bytes[self.read_position] as char;
        }
        self.position = self.read_position;
        self.read_position += 1;
    }

    /// Moves past the whitespace at the current position.
    fn skip_whitespace(&mut self)
        requires
            old(self).wf(),
        ensures
            final(self).wf(),
            final(self).input == old(self).input,
            final(self).position == skip_spaces(old(self).source(), old(self).position as int),
    {
        while space_char(self.ch)
            invariant
                self.wf(),
                self.input == old(self).input,
                skip_spaces(self.source(), self.position as int) == skip_spaces(
                    old(self).source(),
                    old(self).position as int,
                ),
            decreases self.source().len() - self.position,
        {
            self.read_char();
        }
    }

    /// The kind of a word or operator, as `token_type_of` states.
    fn get_token_type(word: &str) -> (t: TokenType)
        ensures
            t == token_type_of(word@),
    {
        if text_eq(word, "let") || text_eq(word, "if") || text_eq(word, "else") || text_eq(
            word,
            "return",
        ) || text_eq(word, "function") {
            TokenType::Keyword
        } else if text_eq(word, "int") || text_eq(word, "float") || text_eq(word, "bool")
            || text_eq(word, "string") {
            TokenType::Type
        } else if text_eq(word, "true") || text_eq(word, "false") {
            TokenType::Bool
        } else if text_eq(word, ";") {
            TokenType::Semicolon
        } else if text_eq(word, ":") {
            TokenType::Colon
        } else if text_eq(word, ",") {
            TokenType::Comma
        } else if text_eq(word, "=") {
            TokenType::Equals
        } else if text_eq(word, "+") || text_eq(word, "-") || text_eq(word, "*") || text_eq(
            word,
            "/",
        ) || text_eq(word, "==") || text_eq(word, "<=") || text_eq(word, ">=") || text_eq(
            word,
            ">",
        ) || text_eq(word, "<") || text_eq(word, "%") || text_eq(word, "!=")
            || text_eq(word, "!") {
            TokenType::Operator
        } else if text_eq(word, "(") {
            TokenType::LeftParen
        } else if text_eq(word, ")") {
            TokenType::RightParen
        } else if text_eq(word, "{") {
            TokenType::LeftBracket
        } else if text_eq(word, "}") {
            TokenType::RightBracket
        } else if parse_i64(word).is_some() {
            TokenType::Int
        } else if parses_as_f64(word) {
            TokenType::Float
        } else {
            TokenType::Identifier
        }
    }

    /// The text that the source's bytes from `start` up to the current
    /// position encode; both ends are character boundaries.
    fn text_before(&self, start: usize) -> (text: String)
        requires
            self.wf(),
            start <= self.position <= self.source().len(),
            at_boundary(self.source(), start as int),
            at_boundary(self.source(), self.position as int),
        ensures
            text@ == decoded(self.source().subrange(start as int, self.position as int)),
    {
        let whole = self.input.as_str();
        let ghost bytes = encode_utf8(self.input@);
        proof {
            assert(whole@ == self.input@);
            assert(forall|i: int| 0 <= i < bytes.len() ==> #[trigger] (bytes[i] as char) as u8 == bytes[i]) by {
                assert forall|i: int| 0 <= i < bytes.len() implies #[trigger] (bytes[i] as char) as u8 == bytes[i] by {
                    let b = bytes[i];
                    assert((b as char) as u8 == b);
                }
            }
            if start < bytes.len() {
                assert(self.source()[start as int] as u8 == bytes[start as int]);
            }
            assert(vstd::utf8::is_char_boundary(bytes, start as int));
        }
        let (_, rest) = whole.split_at(start);
        let ghost rest_bytes = vstd::string::StringSliceAdditionalSpecFns::spec_bytes(rest);
        proof {
            assert(rest_bytes =~= bytes.subrange(start as int, bytes.len() as int));
            let k = self.position - start;
            if self.position < bytes.len() {
                assert(rest_bytes[k] == bytes[self.position as int]);
                assert(self.source()[self.position as int] as u8 == bytes[self.position as int]);
            } else {
                assert(k == rest_bytes.len());
            }
            assert(vstd::utf8::is_char_boundary(rest_bytes, k));
        }
        let (piece, _) = rest.split_at(self.position - start);
        proof {
            let piece_bytes = vstd::string::StringSliceAdditionalSpecFns::spec_bytes(piece);
            assert(piece_bytes =~= bytes.subrange(start as int, self.position as int));
            assert(self.source().subrange(start as int, self.position as int).map_values(
                |c: char| c as u8,
            ) =~= bytes.subrange(start as int, self.position as int));
            assert(piece@ == decode_utf8(piece_bytes));
        }
        String::from_str(piece)
    }

    /// Reads the run of letters and numerals that starts at the current
    /// character, whose ends are character boundaries.
    fn scan_identifier(&mut self) -> (word: String)
        requires
            old(self).wf(),
            old(self).position <= old(self).source().len(),
            at_boundary(old(self).source(), old(self).position as int),
            at_boundary(
                old(self).source(),
                scan_word(old(self).source(), old(self).position as int),
            ),
        ensures
            final(self).wf(),
            final(self).input == old(self).input,
            final(self).position == scan_word(old(self).source(), old(self).position as int),
            word@ == decoded(
                old(self).source().subrange(old(self).position as int, final(self).position as int),
            ),
    {
        let position = self.position;
        proof {
            lemma_scan_word(self.source(), position as int);
        }
        while letter_char(self.ch) || numeral_char(self.ch)
            invariant
                self.wf(),
                self.input == old(self).input,
                position <= self.position <= self.source().len(),
                scan_word(self.source(), self.position as int) == scan_word(
                    self.source(),
                    position as int,
                ),
            decreases self.source().len() - self.position,
        {
            self.read_char();
        }
        self.text_before(position)
    }

    /// Reads the number that starts at the current character, numerals and
    /// at most one `.`, whose ends are character boundaries.
    fn scan_numeral(&mut self) -> (number: String)
        requires
            old(self).wf(),
            old(self).position <= old(self).source().len(),
            at_boundary(old(self).source(), old(self).position as int),
            at_boundary(
                old(self).source(),
                scan_number(old(self).source(), old(self).position as int, false),
            ),
        ensures
            final(self).wf(),
            final(self).input == old(self).input,
            final(self).position == scan_number(
                old(self).source(),
                old(self).position as int,
                false,
            ),
            number@ == decoded(
                old(self).source().subrange(old(self).position as int, final(self).position as int),
            ),
    {
        let position = self.position;
        let mut has_dot = false;
        proof {
            lemma_scan_number(self.source(), position as int, false);
        }
        while numeral_char(self.ch) || (self.ch == '.' && !has_dot)
            invariant
                self.wf(),
                self.input == old(self).input,
                position <= self.position <= self.source().len(),
                scan_number(self.source(), self.position as int, has_dot) == scan_number(
                    self.source(),
                    position as int,
                    false,
                ),
            decreases self.source().len() - self.position,
        {
            if self.ch == '.' {
                has_dot = true;
            }
            self.read_char();
        }
        self.text_before(position)
    }

    /// Reads an operator or punctuation starting at the current character:
    /// `!=`, `==`, `<=` and `>=` as two characters, anything else as one.
    fn read_operator(&mut self) -> (op: String)
        requires
            old(self).wf(),
            old(self).ch != '\0',
        ensures
            final(self).wf(),
            final(self).input == old(self).input,
            is_two_char_operator(old(self).ch, char_at(old(self).source(), old(self).position + 1))
                ==> op@ == seq![old(self).ch, char_at(old(self).source(), old(self).position + 1)]
                && final(self).position == old(self).position + 2,
            !is_two_char_operator(old(self).ch, char_at(old(self).source(), old(self).position + 1))
                ==> op@ == seq![old(self).ch] && final(self).position == old(self).position + 1,
    {
        let c1 = self.ch;
        let bytes = self.input.as_str().as_bytes();
        let c2 = if self.read_position < bytes.len() {
            bytes[self.read_position] as char
        } else {
            '\0'
        };
        let mut op = String::new();
        if (c1 == '!' || c1 == '=' || c1 == '<' || c1 == '>') && c2 == '=' {
            self.read_char();
            self.read_char();
            op.push(c1);
            op.push(c2);
            assert(op@ =~= seq![c1, c2]);
        } else {
            self.read_char();
            op.push(c1);
            assert(op@ =~= seq![c1]);
        }
        op
    }

    /// Reads the next token: skips whitespace, then reads the end of input,
    /// a word, a number, a string literal or an operator, as `lex_step`
    /// states. A word or number must begin and end on character boundaries
    /// to be taken out of the source.
    pub fn next_token(&mut self) -> (t: Token)
        requires
            old(self).wf(),
            slices_cleanly(old(self).source(), old(self).position as int),
        ensures
            final(self).wf(),
            final(self).input == old(self).input,
            (t@, final(self).position as int) == lex_step(old(self).source(), old(self).position as int),
    {
        proof {
            lemma_skip_spaces(self.source(), self.position as int);
        }
        self.skip_whitespace();
        if self.ch == '\0' {
            let t = Token { token_type: TokenType::EOF, value: String::new() };
            assert(t@.value =~= seq![]);
            return t;
        }
        proof {
            assert(self.position < self.source().len());
        }
        if letter_char(self.ch) {
            let word = self.scan_identifier();
            let token_type = Self::get_token_type(word.as_str());
            return Token { token_type, value: word };
        }
        if numeral_char(self.ch) {
            let number = self.scan_numeral();
            let token_type = if text_contains(number.as_str(), '.') {
                TokenType::Float
            } else {
                TokenType::Int
            };
            return Token { token_type, value: number };
        }
        if self.ch == '"' || self.ch == '\'' {
            let string_value = self.read_string();
            return Token { token_type: TokenType::String, value: string_value };
        }
        let op_str = self.read_operator();
        let token_type = Self::get_token_type(op_str.as_str());
        Token { token_type, value: op_str }
    }
}

impl TokenReader for Lexer {
    /// Ready to read: well formed, not past the end of the input, and the
    /// word or number that starts here begins and ends on character
    /// boundaries.
    open spec fn reader_ready(&self) -> bool {
        &&& self.wf()
        &&& self.position <= self.source().len()
        &&& at_boundary(self.source(), self.position as int)
        &&& at_boundary(self.source(), scan_word(self.source(), self.position as int))
        &&& at_boundary(self.source(), scan_number(self.source(), self.position as int, false))
    }

    /// Reads the run of letters and numerals that starts at the current
    /// character.
    fn read_identifier(&mut self) -> (word: String)
        ensures
            final(self).wf(),
            final(self).input == old(self).input,
            final(self).position == scan_word(old(self).source(), old(self).position as int),
            word@ == decoded(
                old(self).source().subrange(old(self).position as int, final(self).position as int),
            ),
    {
        self.scan_identifier()
    }

    /// Reads the number that starts at the current character: numerals and
    /// at most one `.`.
    fn read_number(&mut self) -> (number: String)
        ensures
            final(self).wf(),
            final(self).input == old(self).input,
            final(self).position == scan_number(
                old(self).source(),
                old(self).position as int,
                false,
            ),
            number@ == decoded(
                old(self).source().subrange(old(self).position as int, final(self).position as int),
            ),
    {
        self.scan_numeral()
    }

    /// Reads a string literal whose delimiter is the current character: the
    /// characters up to the next delimiter or `'\0'`, after which the lexer
    /// moves one character further.
    fn read_string(&mut self) -> (result: String)
        ensures
            final(self).wf(),
            final(self).input == old(self).input,
            final(self).position == scan_string(
                old(self).source(),
                old(self).position + 1,
                old(self).ch,
            ) + 1,
            old(self).position < old(self).source().len() ==> result@ == old(self).source().subrange(
                old(self).position + 1,
                final(self).position - 1,
            ),
            old(self).position == old(self).source().len() ==> result@ == Seq::<char>::empty(),
    {
        let mut result = String::new();
        let delimiter = self.ch;
        let start = self.position + 1;
        self.read_char();
        proof {
            lemma_scan_string(self.source(), start as int, delimiter);
        }
        while self.ch != delimiter && self.ch != '\0'
            invariant
                self.wf(),
                self.input == old(self).input,
                start <= self.position <= self.source().len() + 1,
                start <= self.source().len() ==> result@ =~= self.source().subrange(
                    start as int,
                    self.position as int,
                ),
                start > self.source().len() ==> result@ =~= seq![],
                scan_string(self.source(), self.position as int, delimiter) == scan_string(
                    self.source(),
                    start as int,
                    delimiter,
                ),
            decreases self.source().len() - self.position,
        {
            result.push(self.ch);
            self.read_char();
        }
        self.read_char();
        result
    }
}

/// The views of a sequence of tokens.
pub open spec fn token_views(ts: Seq<Token>) -> Seq<TokenView> {
    ts.map_values(|t: Token| t@)
}

/// All the tokens that the lexer reads from position `pos` of `s`, up to and
/// including the first end-of-input token.
pub open spec fn lex_all(s: Seq<char>, pos: int) -> Seq<TokenView>
    decreases s.len() + 2 - pos,
{
    let (t, q) = lex_step(s, pos);
    if t.token_type == TokenType::EOF || !(pos < q <= s.len() + 1) {
        seq![t]
    } else {
        seq![t] + lex_all(s, q)
    }
}

/// Each step of the lexer that does not read the end of the input moves
/// forward and stays within one character past the input; the step that
/// reads the end of the input stays at the first non-whitespace position.
pub proof fn lemma_lex_step_progress(s: Seq<char>, pos: int)
    requires
        0 <= pos <= s.len() + 1,
    ensures
        lex_step(s, pos).0.token_type != TokenType::EOF ==> pos < lex_step(s, pos).1 <= s.len()
            + 1,
        lex_step(s, pos).0.token_type == TokenType::EOF ==> lex_step(s, pos).1 == skip_spaces(
            s,
            pos,
        ),
        pos <= lex_step(s, pos).1 <= s.len() + 1,
{
    lemma_skip_spaces(s, pos);
    let p = skip_spaces(s, pos);
    let c = char_at(s, p);
    if c != '\0' {
        assert(p < s.len());
        lemma_scan_word(s, p + 1);
        lemma_scan_number(s, p + 1, false);
        lemma_scan_number(s, p + 1, true);
        lemma_scan_string(s, p + 1, c);
        if is_two_char_operator(c, char_at(s, p + 1)) {
            assert(p + 1 < s.len());
        }
    }
}

/// Once the lexer has read the end of the input, reading again gives the
/// end of the input again and does not move.
pub proof fn law_end_of_input_is_stable(s: Seq<char>, pos: int)
    requires
        0 <= pos <= s.len() + 1,
        lex_step(s, pos).0.token_type == TokenType::EOF,
    ensures
        lex_step(s, lex_step(s, pos).1) == lex_step(s, pos),
{
    lemma_lex_step_progress(s, pos);
    lemma_skip_spaces(s, pos);
}

/// The tokens of an input end with exactly one end-of-input token: every
/// token before the last one is of another kind.
pub proof fn law_tokens_end_with_eof(s: Seq<char>, pos: int)
    requires
        0 <= pos <= s.len() + 1,
    ensures
        lex_all(s, pos).len() >= 1,
        lex_all(s, pos).last().token_type == TokenType::EOF,
        forall|i: int|
            0 <= i < lex_all(s, pos).len() - 1 ==> (#[trigger] lex_all(s, pos)[i]).token_type
                != TokenType::EOF,
    decreases s.len() + 2 - pos,
{
    lemma_lex_step_progress(s, pos);
    let (t, q) = lex_step(s, pos);
    if t.token_type != TokenType::EOF {
        law_tokens_end_with_eof(s, q);
        let rest = lex_all(s, q);
        assert(lex_all(s, pos) == seq![t] + rest);
        assert forall|i: int| 0 <= i < lex_all(s, pos).len() - 1 implies (#[trigger] lex_all(
            s,
            pos,
        )[i]).token_type != TokenType::EOF by {
            if i > 0 {
                assert(lex_all(s, pos)[i] == rest[i - 1]);
            }
        }
    }
}

/// The tokens of an ASCII source, as `lex_all` states: the lexer's tokens
/// up to and including the end of the input.
pub fn tokenize(input: String) -> (tokens: Vec<Token>)
    requires
        encode_utf8(input@).len() + 3 < usize::MAX,
        lexes_cleanly_from(byte_chars(encode_utf8(input@)), 0),
    ensures
        token_views(tokens@) == lex_all(byte_chars(encode_utf8(input@)), 0),
{
    let ghost s = byte_chars(encode_utf8(input@));
    let mut lexer = Lexer::new(input);
    let mut tokens: Vec<Token> = Vec::new();
    loop
        invariant
            lexer.wf(),
            lexer.source() == s,
            s == byte_chars(encode_utf8(input@)),
            lexes_cleanly_from(s, lexer.position as int),
            lexer.position <= s.len() + 1,
            token_views(tokens@) + lex_all(s, lexer.position as int) == lex_all(s, 0),
        decreases s.len() + 2 - lexer.position,
    {
        let ghost before = lexer.position as int;
        proof {
            lemma_lex_step_progress(s, before);
        }
        let ghost prev = tokens@;
        let t = lexer.next_token();
        let at_end = t.token_type == TokenType::EOF;
        tokens.push(t);
        proof {
            assert(token_views(tokens@) =~= token_views(prev).push(t@));
            if at_end {
                assert(lex_all(s, before) == seq![t@]);
            } else {
                assert(lex_all(s, before) == seq![t@] + lex_all(s, lexer.position as int));
            }
            assert(token_views(prev) + lex_all(s, before) =~= token_views(tokens@) + (
            if at_end { Seq::<TokenView>::empty() } else { lex_all(s, lexer.position as int) }));
        }
        if at_end {
            assert(token_views(tokens@) =~= lex_all(s, 0));
            return tokens;
        }
    }
}

/// The characters of `s` from position `a` up to `b` that are not
/// whitespace, in order.
pub open spec fn unspaced(s: Seq<char>, a: int, b: int) -> Seq<char>
    decreases b - a,
{
    if a >= b {
        Seq::empty()
    } else {
        (if is_space(s[a]) {
            Seq::empty()
        } else {
            seq![s[a]]
        }) + unspaced(s, a + 1, b)
    }
}

/// The texts of tokens, one after the other.
pub open spec fn token_texts(ts: Seq<TokenView>) -> Seq<char>
    decreases ts.len(),
{
    if ts.len() == 0 {
        Seq::empty()
    } else {
        ts[0].value + token_texts(ts.drop_first())
    }
}

proof fn lemma_unspaced_split(s: Seq<char>, a: int, b: int, c: int)
    requires
        a <= b <= c,
    ensures
        unspaced(s, a, c) == unspaced(s, a, b) + unspaced(s, b, c),
    decreases b - a,
{
    if a < b {
        lemma_unspaced_split(s, a + 1, b, c);
        let h: Seq<char> = if is_space(s[a]) { Seq::empty() } else { seq![s[a]] };
        assert(h + (unspaced(s, a + 1, b) + unspaced(s, b, c)) =~= h + unspaced(s, a + 1, b)
            + unspaced(s, b, c));
    } else {
        assert(Seq::<char>::empty() + unspaced(s, b, c) =~= unspaced(s, b, c));
    }
}

proof fn lemma_unspaced_no_space(s: Seq<char>, a: int, b: int)
    requires
        0 <= a <= b <= s.len(),
        forall|i: int| a <= i < b ==> !is_space(#[trigger] s[i]),
    ensures
        unspaced(s, a, b) == s.subrange(a, b),
    decreases b - a,
{
    if a < b {
        lemma_unspaced_no_space(s, a + 1, b);
        assert(seq![s[a]] + s.subrange(a + 1, b) =~= s.subrange(a, b));
    } else {
        assert(s.subrange(a, b) =~= Seq::<char>::empty());
    }
}

proof fn lemma_unspaced_skipped(s: Seq<char>, pos: int)
    requires
        0 <= pos <= s.len(),
    ensures
        unspaced(s, pos, skip_spaces(s, pos)) == Seq::<char>::empty(),
    decreases s.len() - pos,
{
    if pos < s.len() && is_space(s[pos]) {
        lemma_unspaced_skipped(s, pos + 1);
        assert(Seq::<char>::empty() + Seq::<char>::empty() =~= Seq::<char>::empty());
    }
}

proof fn lemma_scan_word_chars(s: Seq<char>, p: int)
    requires
        0 <= p <= s.len(),
    ensures
        forall|i: int| p <= i < scan_word(s, p) ==> is_letter_or_digit(#[trigger] s[i]),
    decreases s.len() - p,
{
    if p < s.len() && is_letter_or_digit(s[p]) {
        lemma_scan_word_chars(s, p + 1);
    }
}

proof fn lemma_scan_number_chars(s: Seq<char>, p: int, dot_seen: bool)
    requires
        0 <= p <= s.len(),
    ensures
        forall|i: int| p <= i < scan_number(s, p, dot_seen) ==> (is_numeral(#[trigger] s[i]) || s[i]
            == '.'),
    decreases s.len() - p,
{
    if p < s.len() && (is_numeral(s[p]) || (s[p] == '.' && !dot_seen)) {
        lemma_scan_number_chars(s, p + 1, dot_seen || s[p] == '.');
    }
}

proof fn lemma_decoded_ascii(t: Seq<char>)
    requires
        vstd::utf8::is_ascii_chars(t),
    ensures
        decoded(t) == t,
{
    vstd::utf8::is_ascii_chars_encode_utf8(t);
    assert(encode_utf8(t) =~= t.map_values(|c: char| c as u8));
}

/// On an ASCII input with no string literal and no `'\0'`, the lexer
/// loses, adds and reorders nothing: the texts of its tokens, one after the
/// other, are the input without its whitespace, and there is at most one
/// token per character, and the end-of-input token.
pub proof fn law_tokens_spell_the_input(s: Seq<char>, pos: int)
    requires
        0 <= pos <= s.len(),
        vstd::utf8::is_ascii_chars(s),
        forall|i: int| 0 <= i < s.len() ==> #[trigger] s[i] != '\0' && s[i] != '"' && s[i] != '\'',
    ensures
        lex_all(s, pos).len() <= s.len() - pos + 1,
        token_texts(lex_all(s, pos)) == unspaced(s, pos, s.len() as int),
    decreases s.len() - pos,
{
    lemma_lex_step_progress(s, pos);
    lemma_skip_spaces(s, pos);
    let p = skip_spaces(s, pos);
    lemma_unspaced_skipped(s, pos);
    let (t, q) = lex_step(s, pos);
    let c = char_at(s, p);
    if c == '\0' {
        assert(p == s.len());
        assert(lex_all(s, pos) == seq![t]);
        assert(token_texts(seq![t]) =~= t.value + token_texts(seq![t].drop_first()));
        assert(t.value =~= Seq::<char>::empty());
        assert(token_texts(Seq::<TokenView>::empty()) =~= Seq::<char>::empty());
    } else {
        assert(p < s.len());
        assert(!is_space(s[p]));
        if is_letter(c) {
            lemma_scan_word(s, p);
            lemma_scan_word_chars(s, p);
        } else if is_numeral(c) {
            lemma_scan_number(s, p, false);
            lemma_scan_number_chars(s, p, false);
        } else if is_two_char_operator(c, char_at(s, p + 1)) {
            assert(p + 1 < s.len());
            assert(t.value =~= s.subrange(p, p + 2));
        } else {
            assert(t.value =~= s.subrange(p, p + 1));
        }
        assert(q <= s.len());
        if is_letter(c) || is_numeral(c) {
            assert(vstd::utf8::is_ascii_chars(s.subrange(p, q))) by {
                assert forall|i: int| 0 <= i < s.subrange(p, q).len() implies '\0' <= #[trigger] s.subrange(
                    p,
                    q,
                )[i] <= '\u{7f}' by {
                    assert(s.subrange(p, q)[i] == s[p + i]);
                }
            }
            lemma_decoded_ascii(s.subrange(p, q));
        }
        assert(t.value == s.subrange(p, q));
        lemma_unspaced_no_space(s, p, q);
        law_tokens_spell_the_input(s, q);
        let rest = lex_all(s, q);
        assert(lex_all(s, pos) == seq![t] + rest);
        assert((seq![t] + rest).drop_first() =~= rest);
        lemma_unspaced_split(s, pos, p, s.len() as int);
        lemma_unspaced_split(s, p, q, s.len() as int);
        assert(unspaced(s, pos, s.len() as int) =~= t.value + unspaced(s, q, s.len() as int));
    }
}

proof fn lemma_scan_word_stops(s: Seq<char>, p: int)
    requires
        0 <= p <= s.len(),
    ensures
        scan_word(s, p) >= s.len() || !is_letter_or_digit(s[scan_word(s, p)]),
    decreases s.len() - p,
{
    if p < s.len() && is_letter_or_digit(s[p]) {
        lemma_scan_word_stops(s, p + 1);
    }
}

/// A word is read whole: the token that starts at a letter spans every
/// letter and digit that follows it, up to the first other character or
/// the end of the input, and its text is what those characters encode.
pub proof fn law_word_runs_over_letters_and_digits(s: Seq<char>, pos: int)
    requires
        0 <= pos <= s.len(),
        is_letter(char_at(s, skip_spaces(s, pos))),
    ensures
        ({
            let p = skip_spaces(s, pos);
            let (t, e) = lex_step(s, pos);
            &&& p < e <= s.len()
            &&& forall|i: int| p <= i < e ==> is_letter_or_digit(#[trigger] s[i])
            &&& e == s.len() || !is_letter_or_digit(s[e])
            &&& t.value == decoded(s.subrange(p, e))
        }),
{
    lemma_skip_spaces(s, pos);
    let p = skip_spaces(s, pos);
    assert(p < s.len());
    lemma_scan_word(s, p);
    lemma_scan_word(s, p + 1);
    lemma_scan_word_chars(s, p);
    lemma_scan_word_stops(s, p);
}

proof fn lemma_scan_number_stops(s: Seq<char>, p: int, dot_seen: bool)
    requires
        0 <= p <= s.len(),
    ensures
        ({
            let e = scan_number(s, p, dot_seen);
            &&& forall|i: int| p <= i < e ==> is_numeral(#[trigger] s[i]) || s[i] == '.'
            &&& dot_seen ==> forall|i: int| p <= i < e ==> #[trigger] s[i] != '.'
            &&& forall|i: int, j: int| p <= i < j < e ==> !(#[trigger] s[i] == '.' && #[trigger] s[j] == '.')
            &&& e >= s.len() || !(is_numeral(s[e]) || (s[e] == '.' && !dot_seen && forall|i: int|
                p <= i < e ==> #[trigger] s[i] != '.'))
        }),
    decreases s.len() - p,
{
    lemma_scan_number(s, p, dot_seen);
    if p < s.len() && (is_numeral(s[p]) || (s[p] == '.' && !dot_seen)) {
        lemma_scan_number_stops(s, p + 1, dot_seen || s[p] == '.');
        let e = scan_number(s, p, dot_seen);
        assert(e == scan_number(s, p + 1, dot_seen || s[p] == '.'));
        assert forall|i: int, j: int| p <= i < j < e implies !(#[trigger] s[i] == '.' && #[trigger] s[j]
            == '.') by {
            if i == p && s[p] == '.' {
                assert(s[j] != '.');
            }
        }
        if s[p] != '.' {
            if e < s.len() && s[e] == '.' && !dot_seen && (forall|i: int| p <= i < e ==> #[trigger] s[i] != '.') {
                assert(forall|i: int| p + 1 <= i < e ==> #[trigger] s[i] != '.');
            }
        } else {
            lemma_scan_number(s, p + 1, true);
            assert(p < e && s[p] == '.');
            assert(!(forall|i: int| p <= i < e ==> #[trigger] s[i] != '.'));
        }
    }
}

/// A number is read whole: the token that starts at a numeral spans the
/// numerals that follow it and at most one `.`, up to the first character
/// that can not go on, and its text is what those characters encode.
pub proof fn law_number_runs_over_numerals(s: Seq<char>, pos: int)
    requires
        0 <= pos <= s.len(),
        is_numeral(char_at(s, skip_spaces(s, pos))),
    ensures
        ({
            let p = skip_spaces(s, pos);
            let (t, e) = lex_step(s, pos);
            &&& p < e <= s.len()
            &&& forall|i: int| p <= i < e ==> is_numeral(#[trigger] s[i]) || s[i] == '.'
            &&& forall|i: int, j: int| p <= i < j < e ==> !(#[trigger] s[i] == '.' && #[trigger] s[j] == '.')
            &&& e == s.len() || !(is_numeral(s[e]) || (s[e] == '.' && forall|i: int|
                p <= i < e ==> #[trigger] s[i] != '.'))
            &&& t.value == decoded(s.subrange(p, e))
            &&& t.token_type == (if t.value.contains('.') { TokenType::Float } else { TokenType::Int })
        }),
{
    lemma_skip_spaces(s, pos);
    let p = skip_spaces(s, pos);
    assert(p < s.len());
    lemma_scan_number(s, p + 1, false);
    lemma_scan_number_stops(s, p, false);
    assert(!is_letter(s[p]));
}

/// `==`, `!=`, `<=` and `>=` are read as one operator token of two
/// characters, never as two tokens.
pub proof fn law_two_character_operators(s: Seq<char>, pos: int)
    requires
        0 <= pos <= s.len(),
        ({
            let p = skip_spaces(s, pos);
            &&& p + 1 < s.len()
            &&& s[p] == '=' || s[p] == '!' || s[p] == '<' || s[p] == '>'
            &&& s[p + 1] == '='
        }),
    ensures
        ({
            let p = skip_spaces(s, pos);
            lex_step(s, pos) == (
                token_view(TokenType::Operator, seq![s[p], '=']),
                p + 2,
            )
        }),
{
    lemma_skip_spaces(s, pos);
    let p = skip_spaces(s, pos);
    let w = seq![s[p], '='];
    reveal_strlit("==");
    reveal_strlit("!=");
    reveal_strlit("<=");
    reveal_strlit(">=");
    reveal_strlit("let");
    reveal_strlit("if");
    reveal_strlit("else");
    reveal_strlit("return");
    reveal_strlit("function");
    reveal_strlit("int");
    reveal_strlit("float");
    reveal_strlit("bool");
    reveal_strlit("string");
    reveal_strlit("true");
    reveal_strlit("false");
    reveal_strlit(";");
    reveal_strlit(":");
    reveal_strlit(",");
    reveal_strlit("=");
    reveal_strlit("+");
    reveal_strlit("-");
    reveal_strlit("*");
    reveal_strlit("/");
    if s[p] == '=' {
        assert(w =~= "=="@);
    } else if s[p] == '!' {
        assert(w =~= "!="@);
    } else if s[p] == '<' {
        assert(w =~= "<="@);
    } else {
        assert(w =~= ">="@);
    }
    assert(w.len() == 2 && w[1] == '=');
    assert(w != "let"@ && w != "if"@ && w != "else"@ && w != "return"@ && w != "function"@);
    assert(w != "int"@ && w != "float"@ && w != "bool"@ && w != "string"@);
    assert(w != "true"@ && w != "false"@ && w != ";"@ && w != ":"@ && w != ","@ && w != "="@);
    assert(token_type_of(w) == TokenType::Operator);
    assert(char_at(s, p) == s[p] && char_at(s, p + 1) == '=');
    assert(!is_letter(s[p]) && !is_numeral(s[p]));
    assert(seq![char_at(s, p), char_at(s, p + 1)] =~= w);
}

/// A string literal is read up to its closing quote: the token's text is
/// every character between the opening quote and the first matching quote
/// (or the end of the input), none of which is that quote, and reading
/// goes on after the closing quote.
pub proof fn law_string_runs_to_its_quote(s: Seq<char>, pos: int)
    requires
        0 <= pos <= s.len(),
        char_at(s, skip_spaces(s, pos)) == '"' || char_at(s, skip_spaces(s, pos)) == '\'',
    ensures
        ({
            let p = skip_spaces(s, pos);
            let q = s[p];
            let (t, e) = lex_step(s, pos);
            &&& t.token_type == TokenType::String
            &&& p + 1 <= e - 1 <= s.len()
            &&& t.value == s.subrange(p + 1, e - 1)
            &&& forall|i: int| p + 1 <= i < e - 1 ==> #[trigger] s[i] != q && s[i] != '\0'
            &&& e - 1 == s.len() || s[e - 1] == q || s[e - 1] == '\0'
        }),
{
    lemma_skip_spaces(s, pos);
    let p = skip_spaces(s, pos);
    assert(p < s.len());
    lemma_scan_string(s, p + 1, s[p]);
    lemma_scan_string_stops(s, p + 1, s[p]);
    assert(!is_letter(s[p]) && !is_numeral(s[p]));
}

proof fn lemma_scan_string_stops(s: Seq<char>, p: int, delimiter: char)
    requires
        0 <= p <= s.len(),
    ensures
        forall|i: int| p <= i < scan_string(s, p, delimiter) ==> #[trigger] s[i] != delimiter && s[i]
            != '\0',
        scan_string(s, p, delimiter) == s.len() || s[scan_string(s, p, delimiter)] == delimiter
            || s[scan_string(s, p, delimiter)] == '\0',
    decreases s.len() - p,
{
    lemma_scan_string(s, p, delimiter);
    if p < s.len() && s[p] != delimiter && s[p] != '\0' {
        lemma_scan_string_stops(s, p + 1, delimiter);
    }
}

/// Whether a piece of the source may start or end at byte `i`.
fn boundary_at(bytes: &[u8], i: usize) -> (r: bool)
    ensures
        r == at_boundary(byte_chars(bytes@), i as int),
{
    proof {
        if i < bytes@.len() {
            let b = bytes@[i as int];
            assert(byte_chars(bytes@)[i as int] as u8 == b);
        }
    }
    i >= bytes.len() || !(0x80 <= bytes[i] && bytes[i] <= 0xbf)
}

impl Lexer {
    /// Whether the word or number that starts after the whitespace at the
    /// current position begins and ends on character boundaries, as
    /// `slices_cleanly` states.
    pub fn slices_cleanly_here(&self) -> (r: bool)
        requires
            self.wf(),
        ensures
            r == slices_cleanly(self.source(), self.position as int),
    {
        let bytes = self.input.as_str().as_bytes();
        let ghost s = self.source();
        proof {
            assert(bytes@ == encode_utf8(self.input@));
            lemma_skip_spaces(s, self.position as int);
        }
        if self.position >= bytes.len() {
            proof {
                assert(skip_spaces(s, self.position as int) == self.position);
            }
            return true;
        }
        let mut p = self.position;
        while p < bytes.len() && space_char(bytes[p] as char)
            invariant
                s == byte_chars(bytes@),
                self.position <= p <= bytes@.len(),
                skip_spaces(s, p as int) == skip_spaces(s, self.position as int),
            decreases bytes.len() - p,
        {
            p += 1;
        }
        let c = if p < bytes.len() {
            bytes[p] as char
        } else {
            '\0'
        };
        if letter_char(c) {
            let mut e = p;
            while e < bytes.len() && (letter_char(bytes[e] as char) || numeral_char(bytes[e] as char))
                invariant
                    s == byte_chars(bytes@),
                    p <= e <= bytes@.len(),
                    scan_word(s, e as int) == scan_word(s, p as int),
                decreases bytes.len() - e,
            {
                e += 1;
            }
            boundary_at(bytes, p) && boundary_at(bytes, e)
        } else if numeral_char(c) {
            let mut e = p;
            let mut dot = false;
            while e < bytes.len() && (numeral_char(bytes[e] as char) || (bytes[e] == 0x2e && !dot))
                invariant
                    s == byte_chars(bytes@),
                    p <= e <= bytes@.len(),
                    scan_number(s, e as int, dot) == scan_number(s, p as int, false),
                decreases bytes.len() - e,
            {
                if bytes[e] == 0x2e {
                    dot = true;
                }
                e += 1;
            }
            boundary_at(bytes, p) && boundary_at(bytes, e)
        } else {
            true
        }
    }
}

/// Whether every word and number of `input` begins and ends on character
/// boundaries, as `tokenize` requires.
pub fn lexes_cleanly(input: &str) -> (r: bool)
    requires
        encode_utf8(input@).len() + 3 < usize::MAX,
    ensures
        r == lexes_cleanly_from(byte_chars(encode_utf8(input@)), 0),
{
    let mut lexer = Lexer::new(String::from_str(input));
    let ghost s = lexer.source();
    loop
        invariant
            lexer.wf(),
            lexer.source() == s,
            s == byte_chars(encode_utf8(input@)),
            lexer.position <= s.len() + 1,
            lexes_cleanly_from(s, 0) == lexes_cleanly_from(s, lexer.position as int),
        decreases s.len() + 2 - lexer.position,
    {
        let ghost before = lexer.position as int;
        proof {
            lemma_lex_step_progress(s, before);
        }
        if !lexer.slices_cleanly_here() {
            return false;
        }
        let t = lexer.next_token();
        if t.token_type == TokenType::EOF {
            return true;
        }
    }
}

} // verus!
