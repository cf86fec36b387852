use vstd::prelude::*;

use crate::error::{ParseError, ParseErrorType};
use crate::text::{push_char, same_text};

verus! {

/// The Unicode `White_Space` property, which `char::is_whitespace` tests: tab through carriage
/// return, space, next line, no-break space, ogham space mark, the spaces from en quad to hair
/// space, line and paragraph separators, narrow no-break space, medium mathematical space and
/// ideographic space.
pub open spec fn whitespace_char(c: char) -> bool {
    let u = c as u32;
    (0x9 <= u <= 0xD) || u == 0x20 || u == 0x85 || u == 0xA0 || u == 0x1680 || (0x2000 <= u <= 0x200A)
        || u == 0x2028 || u == 0x2029 || u == 0x202F || u == 0x205F || u == 0x3000
}

/// Whether `c` is whitespace.
fn is_whitespace(c: char) -> (r: bool)
    ensures
        r == whitespace_char(c),
{
    let u = c as u32;
    (0x9 <= u && u <= 0xD) || u == 0x20 || u == 0x85 || u == 0xA0 || u == 0x1680 || (0x2000 <= u && u
        <= 0x200A) || u == 0x2028 || u == 0x2029 || u == 0x202F || u == 0x205F || u == 0x3000
}

/// Relies on `str::chars`: the characters of the text, in order.
#[verifier::external_body]
fn chars_of(s: &str) -> (r: Vec<char>)
    ensures
        r@ == s@,
{
    s.chars().collect()
}

/// Anything that carries a token, and perhaps where in the source it began.
pub trait LexToken {
    spec fn token_view(&self) -> Token;

    spec fn source_view(&self) -> Option<usize>;

    fn token(&self) -> (r: &Token)
        ensures
            *r == self.token_view(),
    ;

    fn source(&self) -> (r: Option<usize>)
        ensures
            r == self.source_view(),
    ;
}

#[derive(Debug, PartialEq, Eq, Structural, Clone, Copy)]
pub enum Keyword {
    Lambda,
    Let,
    Def,
    Cond,
}

/// A lexical unit.
#[derive(Debug, PartialEq)]
pub enum Token {
    Identifier(String),
    String(String),
    Keyword(Keyword),
    Integer(i64),
    OpenParen,
    CloseParen,
    OpenBrace,
    CloseBrace,
    Comma,
    Semicolon,
    Equals,
    Arrow,
    EOF,
    Error,
}

/// The mathematical model of a token.
pub enum TokV {
    Ident(Seq<char>),
    Str(Seq<char>),
    Kw(Keyword),
    Int(i64),
    OpenParen,
    CloseParen,
    OpenBrace,
    CloseBrace,
    Comma,
    Semicolon,
    Equals,
    Arrow,
    EOF,
    Error,
}

impl View for Token {
    type V = TokV;

    open spec fn view(&self) -> TokV {
        match self {
            Token::Identifier(s) => TokV::Ident(s@),
            Token::String(s) => TokV::Str(s@),
            Token::Keyword(k) => TokV::Kw(*k),
            Token::Integer(n) => TokV::Int(*n),
            Token::OpenParen => TokV::OpenParen,
            Token::CloseParen => TokV::CloseParen,
            Token::OpenBrace => TokV::OpenBrace,
            Token::CloseBrace => TokV::CloseBrace,
            Token::Comma => TokV::Comma,
            Token::Semicolon => TokV::Semicolon,
            Token::Equals => TokV::Equals,
            Token::Arrow => TokV::Arrow,
            Token::EOF => TokV::EOF,
            Token::Error => TokV::Error,
        }
    }
}

impl LexToken for Token {
    open spec fn token_view(&self) -> Token {
        *self
    }

    open spec fn source_view(&self) -> Option<usize> {
        None
    }

    fn token(&self) -> (r: &Token) {
        self
    }

    fn source(&self) -> (r: Option<usize>) {
        None
    }
}

/// A token and the byte offset in the source where it began.
#[derive(Debug)]
pub struct TokenContainer {
    pub token: Token,
    pub source: usize,
}

impl LexToken for TokenContainer {
    open spec fn token_view(&self) -> Token {
        self.token
    }

    open spec fn source_view(&self) -> Option<usize> {
        Some(self.source)
    }

    fn token(&self) -> (r: &Token) {
        &self.token
    }

    fn source(&self) -> (r: Option<usize>) {
        Some(self.source)
    }
}

pub open spec fn spec_is_delimiter(c: char) -> bool {
    c == ' ' || c == '\t' || c == '\n' || c == '"' || c == '(' || c == ')' || c == '{' || c == '}'
        || c == ',' || c == ';'
}

pub open spec fn spec_is_id_char(c: char) -> bool {
    !whitespace_char(c) && !spec_is_delimiter(c)
}

pub open spec fn spec_is_digit(c: char) -> bool {
    '0' <= c <= '9'
}

pub open spec fn spec_is_id_start(c: char) -> bool {
    spec_is_id_char(c) && !spec_is_digit(c) && c != '+' && c != '-'
}

/// Whether `c` separates tokens: space, tab, newline, double quote, a bracket, comma or
/// semicolon.
fn is_delimiter(c: &char) -> (r: bool)
    ensures
        r == spec_is_delimiter(*c),
{
    let c = *c;
    c == ' ' || c == '\t' || c == '\n' || c == '"' || c == '(' || c == ')' || c == '{' || c == '}'
        || c == ',' || c == ';'
}

/// Whether `c` may continue an identifier: anything but whitespace and delimiters.
fn is_id_char(c: &char) -> (r: bool)
    ensures
        r == spec_is_id_char(*c),
{
    !(is_whitespace(*c) || is_delimiter(c))
}

/// Whether `c` may begin an identifier: an identifier character that is not a digit, `+` or `-`.
fn is_id_start(c: &char) -> (r: bool)
    ensures
        r == spec_is_id_start(*c),
{
    is_id_char(c) && !(('0' <= *c && *c <= '9') || *c == '+' || *c == '-')
}

/// The number of bytes of `c` in UTF-8.
pub open spec fn utf8_width(c: char) -> nat {
    if (c as u32) < 0x80 {
        1
    } else if (c as u32) < 0x800 {
        2
    } else if (c as u32) < 0x10000 {
        3
    } else {
        4
    }
}

/// The byte offset of character `n` of `cs`.
pub open spec fn byte_offset(cs: Seq<char>, n: int) -> nat
    decreases n,
{
    if n <= 0 || n > cs.len() {
        0
    } else {
        byte_offset(cs, n - 1) + utf8_width(cs[n - 1])
    }
}

/// The first position at or after `i` that holds neither whitespace nor part of a `//`
/// comment; `in_comment` says that `i` is inside a comment.
pub open spec fn skip_blank(cs: Seq<char>, i: int, in_comment: bool) -> int
    decreases cs.len() - i,
{
    if i < 0 || i >= cs.len() {
        i
    } else if in_comment {
        skip_blank(cs, i + 1, cs[i] != '\n')
    } else if whitespace_char(cs[i]) {
        skip_blank(cs, i + 1, false)
    } else if cs[i] == '/' && i + 1 < cs.len() && cs[i + 1] == '/' {
        skip_blank(cs, i + 1, true)
    } else {
        i
    }
}

/// The end of the run of identifier characters that starts at `i`.
pub open spec fn id_end(cs: Seq<char>, i: int) -> int
    decreases cs.len() - i,
{
    if i < 0 || i >= cs.len() || !spec_is_id_char(cs[i]) {
        i
    } else {
        id_end(cs, i + 1)
    }
}

/// The end of the run of decimal digits that starts at `i`.
pub open spec fn digits_end(cs: Seq<char>, i: int) -> int
    decreases cs.len() - i,
{
    if i < 0 || i >= cs.len() || !spec_is_digit(cs[i]) {
        i
    } else {
        digits_end(cs, i + 1)
    }
}

/// The value of the decimal digits `cs[i..j]`.
pub open spec fn digits_value(cs: Seq<char>, i: int, j: int) -> int
    decreases j - i,
{
    if j <= i {
        0
    } else {
        digits_value(cs, i, j - 1) * 10 + (cs[j - 1] as u32 - '0' as u32)
    }
}

/// The token that a word of identifier characters makes: a keyword or an identifier.
pub open spec fn word_token(w: Seq<char>) -> TokV {
    if w == "lambda"@ || w == "λ"@ {
        TokV::Kw(Keyword::Lambda)
    } else if w == "let"@ {
        TokV::Kw(Keyword::Let)
    } else if w == "def"@ {
        TokV::Kw(Keyword::Def)
    } else if w == "cond"@ {
        TokV::Kw(Keyword::Cond)
    } else {
        TokV::Ident(w)
    }
}

/// The character that the escape `\e` stands for, if it is one of `\\`, `\"`, `\t`, `\n`, `\r`.
pub open spec fn unescape(e: char) -> Option<char> {
    if e == '\\' {
        Some('\\')
    } else if e == '"' {
        Some('"')
    } else if e == 't' {
        Some('\t')
    } else if e == 'n' {
        Some('\n')
    } else if e == 'r' {
        Some('\r')
    } else {
        None
    }
}

/// Scans the body of a string literal from `j`, after `acc` has been read and with `ok` false
/// once a bad escape was seen: the contents, the position after the closing quote (or the end),
/// and whether all escapes were good.
pub open spec fn scan_string(cs: Seq<char>, j: int, acc: Seq<char>, ok: bool) -> (Seq<char>, int, bool)
    decreases cs.len() - j,
{
    if j < 0 || j >= cs.len() {
        (acc, j, ok)
    } else if cs[j] == '"' {
        (acc, j + 1, ok)
    } else if cs[j] == '\\' {
        if j + 1 >= cs.len() {
            (acc, j + 1, ok)
        } else {
            match unescape(cs[j + 1]) {
                Some(u) => scan_string(cs, j + 2, acc.push(u), ok),
                None => scan_string(cs, j + 2, acc, false),
            }
        }
    } else {
        scan_string(cs, j + 1, acc.push(cs[j]), ok)
    }
}

/// The token that starts at position `i` (where no blank is), and the position after it.
pub open spec fn token_at(cs: Seq<char>, i: int) -> (TokV, int) {
    if i < 0 || i >= cs.len() {
        (TokV::EOF, i)
    } else {
        let c = cs[i];
        if c == '"' {
            let (s, end, ok) = scan_string(cs, i + 1, Seq::empty(), true);
            (if ok { TokV::Str(s) } else { TokV::Error }, end)
        } else if c == '(' {
            (TokV::OpenParen, i + 1)
        } else if c == ')' {
            (TokV::CloseParen, i + 1)
        } else if c == '{' {
            (TokV::OpenBrace, i + 1)
        } else if c == '}' {
            (TokV::CloseBrace, i + 1)
        } else if c == ',' {
            (TokV::Comma, i + 1)
        } else if c == ';' {
            (TokV::Semicolon, i + 1)
        } else if c == '=' {
            if i + 1 < cs.len() && cs[i + 1] == '>' {
                (TokV::Arrow, i + 2)
            } else {
                (TokV::Equals, i + 1)
            }
        } else if spec_is_id_start(c) {
            (word_token(cs.subrange(i, id_end(cs, i))), id_end(cs, i))
        } else if spec_is_digit(c) || c == '+' || c == '-' {
            let s = if c == '+' || c == '-' { i + 1 } else { i };
            let e = digits_end(cs, s);
            let v = if c == '-' { -digits_value(cs, s, e) } else { digits_value(cs, s, e) };
            if e > s && i64::MIN <= v <= i64::MAX {
                (TokV::Int(v as i64), e)
            } else {
                (TokV::Error, e)
            }
        } else {
            (TokV::Error, i + 1)
        }
    }
}

pub proof fn lemma_skip_blank_stops(cs: Seq<char>, i: int, in_comment: bool)
    requires
        0 <= i,
    ensures
        skip_blank(cs, skip_blank(cs, i, in_comment), false) == skip_blank(cs, i, in_comment),
    decreases cs.len() - i,
{
    if i < cs.len() {
        if in_comment {
            lemma_skip_blank_stops(cs, i + 1, cs[i] != '\n');
        } else if whitespace_char(cs[i]) {
            lemma_skip_blank_stops(cs, i + 1, false);
        } else if cs[i] == '/' && i + 1 < cs.len() && cs[i + 1] == '/' {
            lemma_skip_blank_stops(cs, i + 1, true);
        }
    }
}

pub proof fn lemma_byte_offset_bound(cs: Seq<char>, n: int)
    requires
        0 <= n <= cs.len(),
    ensures
        byte_offset(cs, n) <= 4 * n,
    decreases n,
{
    if n > 0 {
        lemma_byte_offset_bound(cs, n - 1);
    }
}

fn char_width(c: char) -> (r: usize)
    ensures
        r == utf8_width(c),
{
    let u = c as u32;
    if u < 0x80 {
        1
    } else if u < 0x800 {
        2
    } else if u < 0x10000 {
        3
    } else {
        4
    }
}

/// Turns source text into tokens, one at a time.
#[derive(Debug)]
pub struct Lexer {
    pub source_name: String,
    pub source: String,
    /// The characters of the source.
    pub chars: Vec<char>,
    /// The position of the next character to read.
    pub current: usize,
    /// The byte offset of that position.
    pub offset: usize,
    /// The diagnostics for characters that begin no token.
    pub errors: Vec<ParseError>,
}

impl Lexer {
    pub open spec fn chars_view(&self) -> Seq<char> {
        self.chars@
    }

    pub open spec fn position(&self) -> int {
        self.current as int
    }

    pub open spec fn wf(&self) -> bool {
        &&& self.current <= self.chars@.len()
        &&& self.chars@.len() <= usize::MAX / 4
        &&& self.offset == byte_offset(self.chars@, self.current as int)
    }

    /// A lexer at the start of `source`.
    pub fn new(source_name: &str, source: &str) -> (r: Lexer)
        requires
            source@.len() <= usize::MAX / 4,
        ensures
            r.wf(),
            r.chars_view() == source@,
            r.position() == 0,
            r.errors@.len() == 0,
    {
        Lexer {
            source_name: source_name.to_string(),
            source: source.to_string(),
            chars: chars_of(source),
            current: 0,
            offset: 0,
            errors: Vec::new(),
        }
    }

    /// The byte offset of the current position.
    pub fn offset(&self) -> (r: usize)
        requires
            self.wf(),
        ensures
            r == byte_offset(self.chars@, self.current as int),
    {
        self.offset
    }

    fn next_char(&mut self)
        requires
            old(self).wf(),
            old(self).current < old(self).chars@.len(),
        ensures
            final(self).wf(),
            final(self).chars == old(self).chars,
            final(self).current == old(self).current + 1,
            final(self).errors == old(self).errors,
    {
        proof {
            lemma_byte_offset_bound(self.chars@, self.current + 1);
        }
        self.offset = self.offset + char_width(self.chars[self.current]);
        self.current = self.current + 1;
    }

    fn peek_char(&self) -> (r: Option<char>)
        ensures
            r == (if self.current < self.chars@.len() { Some(self.chars@[self.current as int]) } else { None::<char> }),
    {
        if self.current < self.chars.len() {
            Some(self.chars[self.current])
        } else {
            None
        }
    }

    /// Records a lexical error at byte offset `offset`.
    fn report(&mut self, offset: usize, label: &str)
        requires
            old(self).wf(),
        ensures
            final(self).wf(),
            final(self).chars == old(self).chars,
            final(self).current == old(self).current,
            final(self).errors@.len() == old(self).errors@.len() + 1,
            final(self).errors@.subrange(0, old(self).errors@.len() as int) == old(self).errors@,
            final(self).errors@.last().error_type == ParseErrorType::UNEXPECTED,
            final(self).errors@.last().label@ == label@,
            final(self).errors@.last().main_span == (offset, 1usize),
    {
        let error = ParseError::new(
            ParseErrorType::UNEXPECTED,
            self.source_name.as_str(),
            self.source.as_str(),
            (offset, 1),
            label,
        );
        let ghost before = self.errors@;
        self.errors.push(error);
        assert(self.errors@.subrange(0, before.len() as int) =~= before);
    }

    /// Skips whitespace and `//` comments.
    fn skip_whitespace_and_comments(&mut self)
        requires
            old(self).wf(),
        ensures
            final(self).wf(),
            final(self).chars == old(self).chars,
            final(self).errors == old(self).errors,
            final(self).current as int == skip_blank(old(self).chars@, old(self).current as int, false),
    {
        let mut in_comment = false;
        while self.current < self.chars.len()
            invariant
                self.wf(),
                self.chars == old(self).chars,
                self.errors == old(self).errors,
                skip_blank(self.chars@, self.current as int, in_comment) == skip_blank(
                    old(self).chars@,
                    old(self).current as int,
                    false,
                ),
            decreases self.chars.len() - self.current,
        {
            let c = self.chars[self.current];
            if in_comment {
                in_comment = c != '\n';
                self.next_char();
            } else if is_whitespace(c) {
                self.next_char();
            } else if c == '/' && self.current + 1 < self.chars.len() && self.chars[self.current + 1] == '/' {
                in_comment = true;
                self.next_char();
            } else {
                return;
            }
        }
    }

    /// Lexes the next token.
    pub fn next_token(&mut self) -> (r: Token)
        requires
            old(self).wf(),
        ensures
            final(self).wf(),
            final(self).chars == old(self).chars,
            ({
                let (t, end) = token_at(
                    old(self).chars@,
                    skip_blank(old(self).chars@, old(self).current as int, false),
                );
                r@ == t && final(self).current == end
            }),
            records(old(self).errors@, final(self).errors@, r@),
    {
        self.skip_whitespace_and_comments();
        match self.peek_char() {
            None => Token::EOF,
            Some(c) => {
                if c == '"' {
                    self.lex_string()
                } else if c == '(' {
                    self.next_char();
                    Token::OpenParen
                } else if c == ')' {
                    self.next_char();
                    Token::CloseParen
                } else if c == '{' {
                    self.next_char();
                    Token::OpenBrace
                } else if c == '}' {
                    self.next_char();
                    Token::CloseBrace
                } else if c == ',' {
                    self.next_char();
                    Token::Comma
                } else if c == ';' {
                    self.next_char();
                    Token::Semicolon
                } else if c == '=' {
                    self.next_char();
                    if self.peek_char() == Some('>') {
                        self.next_char();
                        Token::Arrow
                    } else {
                        Token::Equals
                    }
                } else if is_id_start(&c) {
                    self.lex_identifier_or_keyword()
                } else if ('0' <= c && c <= '9') || c == '+' || c == '-' {
                    self.lex_integer()
                } else {
                    let at = self.offset;
                    self.report(at, "Unexpected character");
                    self.next_char();
                    Token::Error
                }
            },
        }
    }

    /// The next token, with the byte offset where it begins.
    pub fn next_token_container(&mut self) -> (r: TokenContainer)
        requires
            old(self).wf(),
        ensures
            final(self).wf(),
            final(self).chars == old(self).chars,
            ({
                let start = skip_blank(old(self).chars@, old(self).current as int, false);
                let (t, end) = token_at(old(self).chars@, start);
                r.token@ == t && final(self).current == end && r.source == byte_offset(old(self).chars@, start)
            }),
            records(old(self).errors@, final(self).errors@, r.token@),
    {
        self.skip_whitespace_and_comments();
        proof {
            lemma_skip_blank_stops(old(self).chars@, old(self).current as int, false);
        }
        let source = self.offset;
        let token = self.next_token();
        TokenContainer { token, source }
    }

    fn lex_identifier_or_keyword(&mut self) -> (r: Token)
        requires
            old(self).wf(),
            old(self).current < old(self).chars@.len(),
            spec_is_id_start(old(self).chars@[old(self).current as int]),
        ensures
            final(self).wf(),
            final(self).chars == old(self).chars,
            final(self).errors == old(self).errors,
            final(self).current == id_end(old(self).chars@, old(self).current as int),
            r@ == word_token(old(self).chars@.subrange(old(self).current as int, id_end(old(self).chars@, old(self).current as int))),
    {
        let ghost start = self.current as int;
        let mut word = String::new();
        while self.current < self.chars.len() && is_id_char(&self.chars[self.current])
            invariant
                self.wf(),
                self.chars == old(self).chars,
                self.errors == old(self).errors,
                0 <= start <= self.current,
                start == old(self).current,
                id_end(self.chars@, self.current as int) == id_end(self.chars@, start),
                word@ == self.chars@.subrange(start, self.current as int),
            decreases self.chars.len() - self.current,
        {
            let ghost before = word@;
            let ghost cur = self.current as int;
            let ch = self.chars[self.current];
            push_char(&mut word, ch);
            self.next_char();
            assert(before == self.chars@.subrange(start, cur));
            assert(word@ == before.push(self.chars@[cur]));
            assert(word@ =~= self.chars@.subrange(start, cur + 1));
        }
        let w = word.as_str();
        if same_text(w, "lambda") || same_text(w, "λ") {
            Token::Keyword(Keyword::Lambda)
        } else if same_text(w, "let") {
            Token::Keyword(Keyword::Let)
        } else if same_text(w, "def") {
            Token::Keyword(Keyword::Def)
        } else if same_text(w, "cond") {
            Token::Keyword(Keyword::Cond)
        } else {
            Token::Identifier(word)
        }
    }

    fn lex_integer(&mut self) -> (r: Token)
        requires
            old(self).wf(),
            old(self).current < old(self).chars@.len(),
            ({
                let c = old(self).chars@[old(self).current as int];
                spec_is_digit(c) || c == '+' || c == '-'
            }),
            !spec_is_id_start(old(self).chars@[old(self).current as int]) || spec_is_digit(old(self).chars@[old(self).current as int]),
        ensures
            final(self).wf(),
            final(self).chars == old(self).chars,
            records(old(self).errors@, final(self).errors@, r@),
            (r@, final(self).current as int) == token_at(old(self).chars@, old(self).current as int),
    {
        let start = self.offset;
        let ghost cs = self.chars@;
        let ghost i = self.current as int;
        let c = self.chars[self.current];
        let negative = c == '-';
        if c == '+' || c == '-' {
            self.next_char();
        }
        let ghost s = self.current as int;
        let digits_start = self.current;
        let mut acc: u64 = 0;
        let mut big = false;
        while self.current < self.chars.len() && '0' <= self.chars[self.current] && self.chars[self.current] <= '9'
            invariant
                self.wf(),
                self.chars == old(self).chars,
                self.errors == old(self).errors,
                cs == self.chars@,
                s <= self.current,
                s == digits_start,
                digits_end(cs, self.current as int) == digits_end(cs, s),
                !big ==> acc == digits_value(cs, s, self.current as int),
                !big ==> acc <= 9223372036854775808u64,
                big ==> digits_value(cs, s, self.current as int) > 9223372036854775808,
                digits_value(cs, s, self.current as int) >= 0,
            decreases self.chars.len() - self.current,
        {
            let d = (self.chars[self.current] as u32 - '0' as u32) as u64;
            let ghost prev = digits_value(cs, s, self.current as int);
            assert(digits_value(cs, s, self.current + 1) == prev * 10 + d);
            if !big {
                if acc <= 922337203685477580u64 {
                    let next = acc * 10 + d;
                    if next > 9223372036854775808u64 {
                        big = true;
                    } else {
                        acc = next;
                    }
                } else {
                    big = true;
                    assert(prev * 10 + d > 9223372036854775808) by (nonlinear_arith)
                        requires
                            prev >= 922337203685477581,
                            d >= 0,
                    ;
                }
            } else {
                assert(prev * 10 + d > 9223372036854775808) by (nonlinear_arith)
                    requires
                        prev > 9223372036854775808,
                        d >= 0,
                ;
            }
            self.next_char();
        }
        let ghost e = self.current as int;
        if self.current == digits_start {
            self.report(start, "Expected digits after the sign");
            return Token::Error;
        }
        if big {
            self.report(start, "Integer does not fit in 64 bits");
            return Token::Error;
        }
        if negative {
            if acc == 9223372036854775808u64 {
                Token::Integer(i64::MIN)
            } else {
                Token::Integer(-(acc as i64))
            }
        } else {
            if acc == 9223372036854775808u64 {
                self.report(start, "Integer does not fit in 64 bits");
                Token::Error
            } else {
                Token::Integer(acc as i64)
            }
        }
    }

    fn lex_string(&mut self) -> (r: Token)
        requires
            old(self).wf(),
            old(self).current < old(self).chars@.len(),
            old(self).chars@[old(self).current as int] == '"',
        ensures
            final(self).wf(),
            final(self).chars == old(self).chars,
            records(old(self).errors@, final(self).errors@, r@),
            (r@, final(self).current as int) == token_at(old(self).chars@, old(self).current as int),
    {
        let ghost cs = self.chars@;
        self.next_char();
        let mut content = String::new();
        let mut ok = true;
        let mut bad_at: usize = 0;
        let mut done = false;
        while !done && self.current < self.chars.len()
            invariant
                self.wf(),
                self.chars == old(self).chars,
                self.errors == old(self).errors,
                cs == self.chars@,
                (if done {
                    (content@, self.current as int, ok)
                } else {
                    scan_string(cs, self.current as int, content@, ok)
                }) == scan_string(cs, old(self).current + 1, Seq::empty(), true),
            decreases self.chars.len() - self.current + (if done { 0int } else { 1int }),
        {
            let c = self.chars[self.current];
            if c == '"' {
                self.next_char();
                done = true;
            } else if c == '\\' {
                let escape_at = self.offset;
                self.next_char();
                if self.current < self.chars.len() {
                    let e = self.chars[self.current];
                    if e == '\\' {
                        push_char(&mut content, '\\');
                    } else if e == '"' {
                        push_char(&mut content, '"');
                    } else if e == 't' {
                        push_char(&mut content, '\t');
                    } else if e == 'n' {
                        push_char(&mut content, '\n');
                    } else if e == 'r' {
                        push_char(&mut content, '\r');
                    } else {
                        if ok {
                            bad_at = escape_at;
                        }
                        ok = false;
                    }
                    self.next_char();
                }
            } else {
                push_char(&mut content, c);
                self.next_char();
            }
        }
        if ok {
            Token::String(content)
        } else {
            self.report(bad_at, "Invalid escape sequence");
            Token::Error
        }
    }
}

/// The diagnostics after lexing a token whose model is `t`: one more, of an unexpected input,
/// when the token is the error token; the same ones otherwise.
pub open spec fn records(before: Seq<ParseError>, after: Seq<ParseError>, t: TokV) -> bool {
    if t == TokV::Error {
        &&& after.len() == before.len() + 1
        &&& after.subrange(0, before.len() as int) == before
        &&& after.last().error_type == ParseErrorType::UNEXPECTED
    } else {
        after == before
    }
}

pub proof fn lemma_skip_blank_ge(cs: Seq<char>, i: int, in_comment: bool)
    requires
        0 <= i,
    ensures
        skip_blank(cs, i, in_comment) >= i,
        i <= cs.len() ==> skip_blank(cs, i, in_comment) <= cs.len(),
    decreases cs.len() - i,
{
    if i < cs.len() {
        if in_comment {
            lemma_skip_blank_ge(cs, i + 1, cs[i] != '\n');
        } else if whitespace_char(cs[i]) {
            lemma_skip_blank_ge(cs, i + 1, false);
        } else if cs[i] == '/' && i + 1 < cs.len() && cs[i + 1] == '/' {
            lemma_skip_blank_ge(cs, i + 1, true);
        }
    }
}

proof fn lemma_id_end(cs: Seq<char>, i: int)
    requires
        0 <= i <= cs.len(),
    ensures
        i <= id_end(cs, i) <= cs.len(),
        i < cs.len() && spec_is_id_char(cs[i]) ==> id_end(cs, i) > i,
    decreases cs.len() - i,
{
    if i < cs.len() && spec_is_id_char(cs[i]) {
        lemma_id_end(cs, i + 1);
    }
}

proof fn lemma_digits_end(cs: Seq<char>, i: int)
    requires
        0 <= i <= cs.len(),
    ensures
        i <= digits_end(cs, i) <= cs.len(),
    decreases cs.len() - i,
{
    if i < cs.len() && spec_is_digit(cs[i]) {
        lemma_digits_end(cs, i + 1);
    }
}

proof fn lemma_scan_string_end(cs: Seq<char>, j: int, acc: Seq<char>, ok: bool)
    requires
        0 <= j <= cs.len(),
    ensures
        j <= scan_string(cs, j, acc, ok).1 <= cs.len(),
    decreases cs.len() - j,
{
    if j < cs.len() && cs[j] != '"' {
        if cs[j] == '\\' {
            if j + 1 < cs.len() {
                match unescape(cs[j + 1]) {
                    Some(u) => lemma_scan_string_end(cs, j + 2, acc.push(u), ok),
                    None => lemma_scan_string_end(cs, j + 2, acc, false),
                }
            }
        } else {
            lemma_scan_string_end(cs, j + 1, acc.push(cs[j]), ok);
        }
    }
}

/// Every token but the end of input consumes at least one character, and none reads past
/// the end.
pub proof fn lemma_token_progress(cs: Seq<char>, i: int)
    requires
        0 <= i <= cs.len(),
    ensures
        token_at(cs, i).1 <= cs.len(),
        token_at(cs, i).0 != TokV::EOF ==> token_at(cs, i).1 > i,
        token_at(cs, i).0 == TokV::EOF ==> i == cs.len(),
{
    if i < cs.len() {
        let c = cs[i];
        if c == '"' {
            lemma_scan_string_end(cs, i + 1, Seq::empty(), true);
        } else if spec_is_id_start(c) {
            lemma_id_end(cs, i);
        } else if spec_is_digit(c) || c == '+' || c == '-' {
            let s = if c == '+' || c == '-' { i + 1 } else { i };
            lemma_digits_end(cs, s);
            if s == i {
                lemma_digits_end(cs, i + 1);
            }
        }
    }
}

/// The byte offsets where the tokens of `lex_all(cs, i)` begin.
pub open spec fn lex_offsets(cs: Seq<char>, i: int) -> Seq<int>
    decreases cs.len() - i,
{
    let s = skip_blank(cs, i, false);
    let (t, e) = token_at(cs, s);
    let here = byte_offset(cs, s) as int;
    if t == TokV::EOF || !(i < e <= cs.len()) || i < 0 {
        seq![here]
    } else {
        seq![here] + lex_offsets(cs, e)
    }
}

/// The tokens of `cs` from position `i` on, up to and including the end-of-input token.
pub open spec fn lex_all(cs: Seq<char>, i: int) -> Seq<TokV>
    decreases cs.len() - i,
{
    let s = skip_blank(cs, i, false);
    let (t, e) = token_at(cs, s);
    if t == TokV::EOF || !(i < e <= cs.len()) || i < 0 {
        seq![t]
    } else {
        seq![t] + lex_all(cs, e)
    }
}

} // verus!
