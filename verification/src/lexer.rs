//! The tokenizer of the circuit language.
use vstd::prelude::*;

use crate::ast::{inclusion_keyword, inclusion_keyword_chars};
use crate::error::{CompileError, CompileResult};
use crate::eval::eq_str;
use crate::span::Span;
use crate::text::{chars_of, push_char, push_str, to_owned};

verus! {

#[derive(Debug, Clone, PartialEq, Eq)]
pub struct Token {
    pub kind: TokenKind,
    pub span: Span,
}

#[derive(Debug, Clone, PartialEq, Eq)]
pub enum TokenKind {
    Circuit,
    Public,
    Private,
    Let,
    Constrain,
    Expose,
    As,
    Field,
    Bool,
    Fn,
    If,
    Else,
    True,
    False,
    Include,
    Import,
    Ident(String),
    Number(i128),
    String(String),
    LBrace,
    RBrace,
    LParen,
    RParen,
    Colon,
    ColonColon,
    Comma,
    Semicolon,
    Arrow,
    Equal,
    EqualEqual,
    Plus,
    Minus,
    Star,
    Eof,
}

/// The characters that count as white space: Unicode's `White_Space` property.
pub open spec fn is_whitespace(c: char) -> bool {
    ||| '\t' <= c <= '\r'
    ||| c == ' '
    ||| c == '\u{85}'
    ||| c == '\u{a0}'
    ||| c == '\u{1680}'
    ||| '\u{2000}' <= c <= '\u{200a}'
    ||| c == '\u{2028}'
    ||| c == '\u{2029}'
    ||| c == '\u{202f}'
    ||| c == '\u{205f}'
    ||| c == '\u{3000}'
}

pub open spec fn is_digit(c: char) -> bool {
    '0' <= c <= '9'
}

pub open spec fn is_ident_start(c: char) -> bool {
    ('a' <= c <= 'z') || ('A' <= c <= 'Z') || c == '_'
}

pub open spec fn is_ident_continue(c: char) -> bool {
    is_ident_start(c) || is_digit(c)
}

/// The keyword spelled `text`, if it is one.
pub open spec fn keyword(text: Seq<char>) -> Option<TokenKind> {
    if text == "circuit"@ {
        Some(TokenKind::Circuit)
    } else if text == "public"@ {
        Some(TokenKind::Public)
    } else if text == "private"@ {
        Some(TokenKind::Private)
    } else if text == "let"@ {
        Some(TokenKind::Let)
    } else if text == "constrain"@ {
        Some(TokenKind::Constrain)
    } else if text == "expose"@ {
        Some(TokenKind::Expose)
    } else if text == "as"@ {
        Some(TokenKind::As)
    } else if text == "field"@ {
        Some(TokenKind::Field)
    } else if text == "bool"@ {
        Some(TokenKind::Bool)
    } else if text == "fn"@ {
        Some(TokenKind::Fn)
    } else if text == "if"@ {
        Some(TokenKind::If)
    } else if text == "else"@ {
        Some(TokenKind::Else)
    } else if text == "true"@ {
        Some(TokenKind::True)
    } else if text == "false"@ {
        Some(TokenKind::False)
    } else if text == inclusion_keyword_chars() {
        Some(TokenKind::Include)
    } else if text == "import"@ {
        Some(TokenKind::Import)
    } else {
        None
    }
}

/// An identifier: a letter or `_` followed by letters, digits and `_`.
pub open spec fn ident_text(text: Seq<char>) -> bool {
    &&& text.len() > 0
    &&& is_ident_start(text[0])
    &&& forall|i: int| 0 <= i < text.len() ==> is_ident_continue(#[trigger] text[i])
}

/// The value of a run of decimal digits.
pub open spec fn digits_value(digits: Seq<char>) -> nat
    decreases digits.len(),
{
    if digits.len() == 0 {
        0
    } else {
        digits_value(digits.drop_last()) * 10 + ((digits.last() as nat) - ('0' as nat)) as nat
    }
}

/// What a token of the stream is allowed to be: identifiers are identifier text that is no
/// keyword, and string literals hold neither a quote nor a line break.
pub open spec fn token_kind_wf(kind: TokenKind) -> bool {
    match kind {
        TokenKind::Ident(name) => ident_text(name@) && keyword(name@) is None,
        TokenKind::String(text) => forall|i: int| 0 <= i < text@.len() ==> #[trigger] text@[i] != '"' && text@[i] != '\n',
        TokenKind::Number(value) => value >= 0,
        _ => true,
    }
}

/// A token stream: at least one token, the last and only the last is the end marker, and every
/// token is well formed.
pub open spec fn tokens_wf(tokens: Seq<Token>) -> bool {
    &&& tokens.len() > 0
    &&& tokens.last().kind is Eof
    &&& forall|i: int| 0 <= i < tokens.len() - 1 ==> !(#[trigger] tokens[i].kind is Eof)
    &&& forall|i: int| 0 <= i < tokens.len() ==> token_kind_wf(#[trigger] tokens[i].kind)
}

/// One more, saturating at the largest `usize`.
pub open spec fn bump(x: usize) -> usize {
    if x < usize::MAX {
        (x + 1) as usize
    } else {
        x
    }
}

/// The line and column of position `i` of `s`, both one-based: the line counts the line breaks
/// before `i`, the column the characters since the last of them (both saturating).
pub open spec fn position_at(s: Seq<char>, i: int) -> (usize, usize)
    decreases i,
{
    if i <= 0 {
        (1, 1)
    } else {
        let (line, column) = position_at(s, i - 1);
        if s[i - 1] == '\n' {
            (bump(line), 1)
        } else {
            (line, bump(column))
        }
    }
}

/// The span of position `i` of `s`.
pub open spec fn span_at(s: Seq<char>, i: int) -> Span {
    Span { line: position_at(s, i).0, column: position_at(s, i).1 }
}

/// A comment starts at `i`: `#`, or `//`.
pub open spec fn starts_comment(s: Seq<char>, i: int) -> bool {
    &&& 0 <= i < s.len()
    &&& s[i] == '#' || (s[i] == '/' && i + 1 < s.len() && s[i + 1] == '/')
}

/// The first position from `i` on that white space and comments do not cover; `in_comment`
/// says that `i` lies inside a comment, which runs through the next line break.
pub open spec fn skip_from(s: Seq<char>, i: int, in_comment: bool) -> int
    decreases s.len() - i,
{
    if i < 0 || i >= s.len() {
        s.len() as int
    } else if in_comment {
        skip_from(s, i + 1, s[i] != '\n')
    } else if is_whitespace(s[i]) {
        skip_from(s, i + 1, false)
    } else if starts_comment(s, i) {
        skip_from(s, i + 1, true)
    } else {
        i
    }
}

/// Skipping is done once: from where it stops, it stops at once.
proof fn lemma_skip_settled(s: Seq<char>, i: int, in_comment: bool)
    requires
        0 <= i,
    ensures
        i <= skip_from(s, i, in_comment) <= s.len() || (i > s.len() && skip_from(s, i, in_comment) == s.len()),
        skip_from(s, skip_from(s, i, in_comment), false) == skip_from(s, i, in_comment),
    decreases s.len() - i,
{
    if i < s.len() {
        if in_comment {
            lemma_skip_settled(s, i + 1, s[i] != '\n');
        } else if is_whitespace(s[i]) {
            lemma_skip_settled(s, i + 1, false);
        } else if starts_comment(s, i) {
            lemma_skip_settled(s, i + 1, true);
        }
    }
}

/// The end of the run of identifier characters from `i`.
pub open spec fn ident_end(s: Seq<char>, i: int) -> int
    decreases s.len() - i,
{
    if 0 <= i < s.len() && is_ident_continue(s[i]) {
        ident_end(s, i + 1)
    } else {
        i
    }
}

/// The end of the run of digits from `i`.
pub open spec fn digits_end(s: Seq<char>, i: int) -> int
    decreases s.len() - i,
{
    if 0 <= i < s.len() && is_digit(s[i]) {
        digits_end(s, i + 1)
    } else {
        i
    }
}

/// The first quote or line break from `i` on, or the end of the text.
pub open spec fn string_end(s: Seq<char>, i: int) -> int
    decreases s.len() - i,
{
    if 0 <= i < s.len() && s[i] != '"' && s[i] != '\n' {
        string_end(s, i + 1)
    } else {
        i
    }
}

proof fn lemma_string_end_bounds(s: Seq<char>, i: int)
    requires
        0 <= i <= s.len(),
    ensures
        i <= string_end(s, i) <= s.len(),
    decreases s.len() - i,
{
    if i < s.len() && s[i] != '"' && s[i] != '\n' {
        lemma_string_end_bounds(s, i + 1);
    }
}

/// The punctuation token spelled `text`, if it is one.
pub open spec fn punctuation(text: Seq<char>) -> Option<TokenKind> {
    if text.len() == 1 {
        let c = text[0];
        if c == '{' {
            Some(TokenKind::LBrace)
        } else if c == '}' {
            Some(TokenKind::RBrace)
        } else if c == '(' {
            Some(TokenKind::LParen)
        } else if c == ')' {
            Some(TokenKind::RParen)
        } else if c == ',' {
            Some(TokenKind::Comma)
        } else if c == ';' {
            Some(TokenKind::Semicolon)
        } else if c == '+' {
            Some(TokenKind::Plus)
        } else if c == '*' {
            Some(TokenKind::Star)
        } else if c == ':' {
            Some(TokenKind::Colon)
        } else if c == '-' {
            Some(TokenKind::Minus)
        } else if c == '=' {
            Some(TokenKind::Equal)
        } else {
            None
        }
    } else if text.len() == 2 && text[0] == ':' && text[1] == ':' {
        Some(TokenKind::ColonColon)
    } else if text.len() == 2 && text[0] == '-' && text[1] == '>' {
        Some(TokenKind::Arrow)
    } else if text.len() == 2 && text[0] == '=' && text[1] == '=' {
        Some(TokenKind::EqualEqual)
    } else {
        None
    }
}

/// `kind` is the token spelled by the source text `text`: a punctuation mark, a string literal
/// (its text between the quotes), a keyword or identifier, or a decimal literal.
pub open spec fn spells(kind: TokenKind, text: Seq<char>) -> bool {
    match punctuation(text) {
        Some(p) => kind == p,
        None => if text.len() >= 2 && text[0] == '"' {
            kind matches TokenKind::String(body) && body@ == text.subrange(1, text.len() - 1)
        } else if text.len() > 0 && is_ident_start(text[0]) {
            match keyword(text) {
                Some(k) => kind == k,
                None => kind matches TokenKind::Ident(name) && name@ == text,
            }
        } else if text.len() > 0 && is_digit(text[0]) {
            kind == TokenKind::Number(digits_value(text) as i128)
        } else {
            false
        },
    }
}

/// Where the token that starts at `j` ends, or the failure for the text there.
pub open spec fn token_end(s: Seq<char>, j: int) -> Result<int, Seq<char>> {
    let c = s[j];
    if c == ':' || c == '-' || c == '=' {
        let second = if c == ':' {
            ':'
        } else if c == '-' {
            '>'
        } else {
            '='
        };
        if j + 1 < s.len() && s[j + 1] == second {
            Ok(j + 2)
        } else {
            Ok(j + 1)
        }
    } else if c == '{' || c == '}' || c == '(' || c == ')' || c == ',' || c == ';' || c == '+' || c == '*' {
        Ok(j + 1)
    } else if c == '"' {
        let k = string_end(s, j + 1);
        if k < s.len() && s[k] == '"' {
            Ok(k + 1)
        } else {
            Err("unterminated string literal"@)
        }
    } else if is_ident_start(c) {
        Ok(ident_end(s, j))
    } else if is_digit(c) {
        let e = digits_end(s, j);
        if digits_value(s.subrange(j, e)) <= i128::MAX {
            Ok(e)
        } else {
            Err("invalid integer literal `"@ + s.subrange(j, e) + "`: number too large to fit in target type"@)
        }
    } else {
        Err("unexpected character `"@ + seq![c] + "`"@)
    }
}

/// The tokens of `s` from position `i` on, each as the range of text it spans, and the failure
/// that stops the scan with its position, if one does.
pub open spec fn scan(s: Seq<char>, i: int) -> (Seq<(int, int)>, Option<(int, Seq<char>)>)
    decreases s.len() - i,
{
    let j = skip_from(s, i, false);
    if j < i || j >= s.len() {
        (Seq::empty(), None)
    } else {
        match token_end(s, j) {
            Err(message) => (Seq::empty(), Some((j, message))),
            Ok(e) => if j < e <= s.len() {
                let rest = scan(s, e);
                (seq![(j, e)] + rest.0, rest.1)
            } else {
                (Seq::empty(), None)
            },
        }
    }
}

/// `ts` is the token stream of `s` from position `i` on, when the scan from there fails
/// nowhere: each scanned token of the kind its text spells and with the span of its first
/// character, followed by the end marker with the span of the end.
pub open spec fn lexes_to(s: Seq<char>, i: int, ts: Seq<Token>) -> bool {
    let (ranges, failure) = scan(s, i);
    &&& failure is None
    &&& tokens_wf(ts)
    &&& ts.len() == ranges.len() + 1
    &&& forall|k: int| 0 <= k < ranges.len() ==> {
        &&& spells(#[trigger] ts[k].kind, s.subrange(ranges[k].0, ranges[k].1))
        &&& ts[k].span == span_at(s, ranges[k].0)
    }
    &&& ts.last().span == span_at(s, s.len() as int)
}

/// `r` is the outcome of lexing `s` from position `i`: the failure that stops the scan, with
/// its message and span, or the token stream.
pub open spec fn lexed(s: Seq<char>, i: int, r: CompileResult<Vec<Token>>) -> bool {
    let failure = scan(s, i).1;
    &&& r is Ok <==> failure is None
    &&& r matches Err(e) ==> failure matches Some(f) && e.message@ == f.1 && e.span == span_at(s, f.0)
    &&& r matches Ok(tokens) ==> lexes_to(s, i, tokens@)
}

/// Splits `source` into tokens, ending with the end marker.
///
/// White space and line comments (`#` or `//` to the end of the line) separate tokens. Fails
/// on a character that starts no token, on an unterminated string literal, and on an integer
/// literal too large for `i128`.
pub fn lex(source: &str) -> (r: CompileResult<Vec<Token>>)
    ensures
        lexed(source@, 0, r),
{
    let mut lexer = Lexer::new(source);
    lexer.tokenize()
}

fn is_whitespace_char(c: char) -> (r: bool)
    ensures
        r == is_whitespace(c),
{
    ('\t' <= c && c <= '\r') || c == ' ' || c == '\u{85}' || c == '\u{a0}' || c == '\u{1680}'
        || ('\u{2000}' <= c && c <= '\u{200a}') || c == '\u{2028}' || c == '\u{2029}'
        || c == '\u{202f}' || c == '\u{205f}' || c == '\u{3000}'
}

fn is_digit_char(c: char) -> (r: bool)
    ensures
        r == is_digit(c),
{
    '0' <= c && c <= '9'
}

fn is_ident_start_char(c: char) -> (r: bool)
    ensures
        r == is_ident_start(c),
{
    ('a' <= c && c <= 'z') || ('A' <= c && c <= 'Z') || c == '_'
}

fn is_ident_continue_char(c: char) -> (r: bool)
    ensures
        r == is_ident_continue(c),
{
    is_ident_start_char(c) || is_digit_char(c)
}

/// The token for the word `text`: its keyword, or an identifier.
fn classify_word(text: String) -> (r: TokenKind)
    ensures
        keyword(text@) matches Some(k) ==> r == k,
        keyword(text@) is None ==> (r matches TokenKind::Ident(name) && name@ == text@),
{
    let word = text.as_str();
    if eq_str(word, "circuit") {
        TokenKind::Circuit
    } else if eq_str(word, "public") {
        TokenKind::Public
    } else if eq_str(word, "private") {
        TokenKind::Private
    } else if eq_str(word, "let") {
        TokenKind::Let
    } else if eq_str(word, "constrain") {
        TokenKind::Constrain
    } else if eq_str(word, "expose") {
        TokenKind::Expose
    } else if eq_str(word, "as") {
        TokenKind::As
    } else if eq_str(word, "field") {
        TokenKind::Field
    } else if eq_str(word, "bool") {
        TokenKind::Bool
    } else if eq_str(word, "fn") {
        TokenKind::Fn
    } else if eq_str(word, "if") {
        TokenKind::If
    } else if eq_str(word, "else") {
        TokenKind::Else
    } else if eq_str(word, "true") {
        TokenKind::True
    } else if eq_str(word, "false") {
        TokenKind::False
    } else if eq_str(word, inclusion_keyword().as_str()) {
        TokenKind::Include
    } else if eq_str(word, "import") {
        TokenKind::Import
    } else {
        TokenKind::Ident(text)
    }
}

struct Lexer {
    chars: Vec<char>,
    index: usize,
    line: usize,
    column: usize,
}

impl Lexer {
    spec fn inv(&self) -> bool {
        &&& self.index <= self.chars@.len()
        &&& (self.line, self.column) == position_at(self.chars@, self.index as int)
    }

    fn new(source: &str) -> (l: Lexer)
        ensures
            l.inv(),
            l.index == 0,
            l.chars@ == source@,
    {
        Lexer { chars: chars_of(source), index: 0, line: 1, column: 1 }
    }

    fn peek(&self) -> (r: Option<char>)
        requires
            self.inv(),
        ensures
            r == (if self.index < self.chars@.len() { Some(self.chars@[self.index as int]) } else { None }),
    {
        if self.index < self.chars.len() {
            Some(self.chars[self.index])
        } else {
            None
        }
    }

    fn peek_next(&self) -> (r: Option<char>)
        requires
            self.inv(),
        ensures
            r == (if self.index + 1 < self.chars@.len() { Some(self.chars@[self.index + 1]) } else { None }),
    {
        if self.index < self.chars.len() && self.index + 1 < self.chars.len() {
            Some(self.chars[self.index + 1])
        } else {
            None
        }
    }

    fn advance(&mut self)
        requires
            old(self).inv(),
            old(self).index < old(self).chars@.len(),
        ensures
            final(self).inv(),
            final(self).chars@ == old(self).chars@,
            final(self).index == old(self).index + 1,
    {
        let ch = self.chars[self.index];
        assert(self.index < self.chars.len());
        self.index = self.index + 1;
        assert(ch == self.chars@[self.index - 1]);
        if ch == '\n' {
            self.line = self.line.saturating_add(1);
            self.column = 1;
        } else {
            self.column = self.column.saturating_add(1);
        }
    }

    fn current_span(&self) -> (r: Span)
        requires
            self.inv(),
        ensures
            r == span_at(self.chars@, self.index as int),
    {
        Span::new(self.line, self.column)
    }

    /// Skips to just past the next line break, or to the end.
    fn skip_comment(&mut self)
        requires
            old(self).inv(),
        ensures
            final(self).inv(),
            final(self).chars@ == old(self).chars@,
            final(self).index >= old(self).index,
            old(self).index < old(self).chars@.len() ==> final(self).index > old(self).index,
            skip_from(final(self).chars@, final(self).index as int, false) == skip_from(old(self).chars@, old(self).index as int, true),
    {
        while self.index < self.chars.len()
            invariant
                self.inv(),
                self.chars@ == old(self).chars@,
                self.index >= old(self).index,
                old(self).index < self.index || self.index == old(self).index,
                skip_from(self.chars@, self.index as int, true) == skip_from(old(self).chars@, old(self).index as int, true),
            decreases self.chars@.len() - self.index,
        {
            let ch = self.chars[self.index];
            self.advance();
            if ch == '\n' {
                return;
            }
        }
    }

    /// Skips white space and comments.
    fn skip_ignored(&mut self)
        requires
            old(self).inv(),
        ensures
            final(self).inv(),
            final(self).chars@ == old(self).chars@,
            final(self).index >= old(self).index,
            final(self).index == skip_from(old(self).chars@, old(self).index as int, false),
    {
        let mut progress = true;
        while progress
            invariant
                self.inv(),
                self.chars@ == old(self).chars@,
                self.index >= old(self).index,
                skip_from(self.chars@, self.index as int, false) == skip_from(old(self).chars@, old(self).index as int, false),
                !progress ==> skip_from(self.chars@, self.index as int, false) == self.index,
            decreases self.chars@.len() - self.index + (if progress { 1int } else { 0int }),
        {
            progress = false;
            let ghost round_start = self.index;
            while self.index < self.chars.len() && is_whitespace_char(self.chars[self.index])
                invariant
                    self.inv(),
                    self.chars@ == old(self).chars@,
                    self.index >= old(self).index,
                    self.index >= round_start,
                    skip_from(self.chars@, self.index as int, false) == skip_from(old(self).chars@, old(self).index as int, false),
                decreases self.chars@.len() - self.index,
            {
                self.advance();
            }
            let ch = self.peek();
            if ch == Some('#') || (ch == Some('/') && self.peek_next() == Some('/')) {
                self.skip_comment();
                progress = true;
            }
        }
    }

    /// Lexes an identifier or keyword starting at the current character.
    fn lex_identifier(&mut self) -> (r: TokenKind)
        requires
            old(self).inv(),
            old(self).index < old(self).chars@.len(),
            is_ident_start(old(self).chars@[old(self).index as int]),
        ensures
            final(self).inv(),
            final(self).chars@ == old(self).chars@,
            final(self).index > old(self).index,
            final(self).index == ident_end(old(self).chars@, old(self).index as int),
            spells(r, old(self).chars@.subrange(old(self).index as int, final(self).index as int)),
            token_kind_wf(r),
            !(r is Eof),
    {
        let start = self.index;
        let mut ident = String::new();
        while self.index < self.chars.len() && is_ident_continue_char(self.chars[self.index])
            invariant
                self.inv(),
                self.chars@ == old(self).chars@,
                start == old(self).index,
                start <= self.index,
                ident@ == self.chars@.subrange(start as int, self.index as int),
                forall|i: int| start <= i < self.index ==> is_ident_continue(#[trigger] self.chars@[i]),
                ident_end(self.chars@, self.index as int) == ident_end(self.chars@, start as int),
            decreases self.chars@.len() - self.index,
        {
            push_char(&mut ident, self.chars[self.index]);
            self.advance();
            assert(ident@ =~= self.chars@.subrange(start as int, self.index as int));
        }
        assert(ident_text(ident@)) by {
            assert(ident@[0] == self.chars@[start as int]);
            assert forall|i: int| 0 <= i < ident@.len() implies is_ident_continue(#[trigger] ident@[i]) by {
                assert(ident@[i] == self.chars@[start + i]);
            }
        }
        proof {
            if keyword(ident@) is Some {
                reveal_strlit("circuit");
                reveal_strlit("public");
            }
            assert(ident@.len() > 0 && is_ident_start(ident@[0]));
            assert(punctuation(ident@) is None);
        }
        classify_word(ident)
    }

    /// Lexes a run of digits as a non-negative `i128`.
    fn lex_number(&mut self, span: Span) -> (r: CompileResult<TokenKind>)
        requires
            old(self).inv(),
            old(self).index < old(self).chars@.len(),
            is_digit(old(self).chars@[old(self).index as int]),
        ensures
            final(self).inv(),
            final(self).chars@ == old(self).chars@,
            final(self).index > old(self).index,
            final(self).index == digits_end(old(self).chars@, old(self).index as int),
            r is Ok <==> digits_value(old(self).chars@.subrange(old(self).index as int, final(self).index as int)) <= i128::MAX,
            r matches Ok(k) ==> token_kind_wf(k) && !(k is Eof) && k == TokenKind::Number(
                digits_value(old(self).chars@.subrange(old(self).index as int, final(self).index as int)) as i128,
            ),
            r matches Err(e) ==> e.span == span && e.message@ == "invalid integer literal `"@ + old(self).chars@.subrange(
                old(self).index as int,
                final(self).index as int,
            ) + "`: number too large to fit in target type"@,
    {
        let start = self.index;
        let mut literal = String::new();
        let mut value: i128 = 0;
        let mut overflow = false;
        while self.index < self.chars.len() && is_digit_char(self.chars[self.index])
            invariant
                self.inv(),
                self.chars@ == old(self).chars@,
                start == old(self).index,
                start <= self.index,
                literal@ == self.chars@.subrange(start as int, self.index as int),
                !overflow ==> value == digits_value(literal@),
                overflow <==> digits_value(literal@) > i128::MAX,
                value >= 0,
                forall|i: int| start <= i < self.index ==> is_digit(#[trigger] self.chars@[i]),
                digits_end(self.chars@, self.index as int) == digits_end(self.chars@, start as int),
            decreases self.chars@.len() - self.index,
        {
            let ch = self.chars[self.index];
            let d: i128 = (ch as u32 - '0' as u32) as i128;
            if !overflow {
                match value.checked_mul(10) {
                    Some(scaled) => match scaled.checked_add(d) {
                        Some(next) => {
                            value = next;
                        },
                        None => {
                            overflow = true;
                        },
                    },
                    None => {
                        overflow = true;
                    },
                }
            }
            push_char(&mut literal, ch);
            self.advance();
            proof {
                let prev = self.chars@.subrange(start as int, self.index - 1);
                assert(literal@ =~= self.chars@.subrange(start as int, self.index as int));
                assert(literal@.drop_last() =~= prev);
                assert(literal@.last() == ch);
            }
        }
        proof {
            if start == self.index {
                assert(false);
            }
        }
        if overflow {
            let mut message = to_owned("invalid integer literal `");
            push_str(&mut message, literal.as_str());
            push_str(&mut message, "`: number too large to fit in target type");
            return Err(CompileError::new(span, message));
        }
        Ok(TokenKind::Number(value))
    }

    /// Lexes a string literal starting at the opening quote.
    fn lex_string(&mut self, span: Span) -> (r: CompileResult<TokenKind>)
        requires
            old(self).inv(),
            old(self).index < old(self).chars@.len(),
        ensures
            final(self).inv(),
            final(self).chars@ == old(self).chars@,
            final(self).index > old(self).index,
            ({
                let k = string_end(old(self).chars@, old(self).index + 1);
                &&& r is Ok <==> (k < old(self).chars@.len() && old(self).chars@[k] == '"')
                &&& r matches Ok(t) ==> final(self).index == k + 1 && (t matches TokenKind::String(body) && body@
                    == old(self).chars@.subrange(old(self).index + 1, k))
                &&& r matches Err(e) ==> e.span == span && e.message@ == "unterminated string literal"@
            }),
            r matches Ok(k) ==> token_kind_wf(k) && !(k is Eof),
    {
        self.advance();
        let mut text = String::new();
        while self.index < self.chars.len() && self.chars[self.index] != '"' && self.chars[self.index] != '\n'
            invariant
                self.inv(),
                self.chars@ == old(self).chars@,
                self.index > old(self).index,
                forall|i: int| 0 <= i < text@.len() ==> #[trigger] text@[i] != '"' && text@[i] != '\n',
                text@ == self.chars@.subrange(old(self).index + 1, self.index as int),
                string_end(self.chars@, self.index as int) == string_end(self.chars@, old(self).index + 1),
            decreases self.chars@.len() - self.index,
        {
            push_char(&mut text, self.chars[self.index]);
            self.advance();
            assert(text@ =~= self.chars@.subrange(old(self).index + 1, self.index as int));
        }
        if self.index < self.chars.len() && self.chars[self.index] == '"' {
            self.advance();
            Ok(TokenKind::String(text))
        } else {
            Err(CompileError::new(span, to_owned("unterminated string literal")))
        }
    }

    /// Consumes one character and yields `kind`.
    fn single(&mut self, kind: TokenKind) -> (r: TokenKind)
        requires
            old(self).inv(),
            old(self).index < old(self).chars@.len(),
        ensures
            final(self).inv(),
            final(self).chars@ == old(self).chars@,
            final(self).index == old(self).index + 1,
            r == kind,
    {
        self.advance();
        kind
    }

    fn tokenize(&mut self) -> (r: CompileResult<Vec<Token>>)
        requires
            old(self).inv(),
        ensures
            lexed(old(self).chars@, old(self).index as int, r),
    {
        let ghost text = self.chars@;
        let ghost first = self.index as int;
        let ghost ranges: Seq<(int, int)> = Seq::empty();
        let mut tokens: Vec<Token> = Vec::new();
        let mut done = false;
        while !done
            invariant
                self.inv(),
                self.chars@ == text,
                text == old(self).chars@,
                first == old(self).index,
                0 <= first <= self.index,
                forall|i: int| 0 <= i < tokens@.len() ==> token_kind_wf(#[trigger] tokens@[i].kind),
                !done ==> forall|i: int| 0 <= i < tokens@.len() ==> !(#[trigger] tokens@[i].kind is Eof),
                done ==> tokens_wf(tokens@),
                !done ==> tokens@.len() == ranges.len(),
                done ==> tokens@.len() == ranges.len() + 1 && tokens@.last().span == span_at(text, text.len() as int),
                !done ==> scan(text, first) == (ranges + scan(text, self.index as int).0, scan(text, self.index as int).1),
                done ==> scan(text, first) == (ranges, None::<(int, Seq<char>)>),
                forall|k: int| 0 <= k < ranges.len() ==> {
                    &&& 0 <= (#[trigger] ranges[k]).0 < ranges[k].1 <= text.len()
                    &&& spells(tokens@[k].kind, text.subrange(ranges[k].0, ranges[k].1))
                    &&& tokens@[k].span == span_at(text, ranges[k].0)
                },
            decreases self.chars@.len() - self.index + (if done { 0int } else { 1int }),
        {
            let ghost before = self.index as int;
            self.skip_ignored();
            let ghost j = self.index as int;
            proof {
                lemma_skip_settled(text, before, false);
            }
            let span = self.current_span();
            match self.peek() {
                None => {
                    assert(scan(text, before) == (Seq::<(int, int)>::empty(), None::<(int, Seq<char>)>));
                    assert(ranges + Seq::<(int, int)>::empty() =~= ranges);
                    tokens.push(Token { kind: TokenKind::Eof, span });
                    done = true;
                },
                Some(ch) => {
                    let kind = if ch == '{' {
                        self.single(TokenKind::LBrace)
                    } else if ch == '}' {
                        self.single(TokenKind::RBrace)
                    } else if ch == '(' {
                        self.single(TokenKind::LParen)
                    } else if ch == ')' {
                        self.single(TokenKind::RParen)
                    } else if ch == ',' {
                        self.single(TokenKind::Comma)
                    } else if ch == ';' {
                        self.single(TokenKind::Semicolon)
                    } else if ch == '+' {
                        self.single(TokenKind::Plus)
                    } else if ch == '*' {
                        self.single(TokenKind::Star)
                    } else if ch == ':' {
                        self.advance();
                        if self.peek() == Some(':') {
                            self.single(TokenKind::ColonColon)
                        } else {
                            TokenKind::Colon
                        }
                    } else if ch == '-' {
                        self.advance();
                        if self.peek() == Some('>') {
                            self.single(TokenKind::Arrow)
                        } else {
                            TokenKind::Minus
                        }
                    } else if ch == '=' {
                        self.advance();
                        if self.peek() == Some('=') {
                            self.single(TokenKind::EqualEqual)
                        } else {
                            TokenKind::Equal
                        }
                    } else if ch == '"' {
                        let lexed_string = self.lex_string(span);
                        match lexed_string {
                            Ok(k) => {
                                proof {
                                    let e = self.index as int;
                                    lemma_string_end_bounds(text, j + 1);
                                    let word = text.subrange(j, e);
                                    assert(word.subrange(1, word.len() - 1) =~= text.subrange(j + 1, e - 1));
                                    assert(word[0] == '"');
                                    assert(spells(k, word));
                                }
                                k
                            },
                            Err(e) => {
                                assert(scan(text, before).1 == Some((j, "unterminated string literal"@)));
                                assert(scan(text, first).1 == Some((j, "unterminated string literal"@)));
                                assert(lexed(text, first, Err::<Vec<Token>, CompileError>(e)));
                                return Err(e);
                            },
                        }
                    } else if is_ident_start_char(ch) {
                        self.lex_identifier()
                    } else if is_digit_char(ch) {
                        let lexed_number = self.lex_number(span);
                        match lexed_number {
                            Ok(k) => k,
                            Err(e) => {
                                assert(scan(text, before).1 == Some((j, e.message@)));
                                assert(scan(text, first).1 == Some((j, e.message@)));
                                assert(e.span == span_at(text, j));
                                assert(lexed(text, first, Err::<Vec<Token>, CompileError>(e)));
                                return Err(e);
                            },
                        }
                    } else {
                        let mut message = to_owned("unexpected character `");
                        push_char(&mut message, ch);
                        push_str(&mut message, "`");
                        assert(scan(text, before).1 == Some((j, message@)));
                        assert(scan(text, first).1 == Some((j, message@)));
                        let failure = CompileError::new(span, message);
                        assert(lexed(text, first, Err::<Vec<Token>, CompileError>(failure)));
                        return Err(failure);
                    };
                    proof {
                        let e = self.index as int;
                        let word = text.subrange(j, e);
                        assert(word.len() > 0 && word[0] == ch);
                        if word.len() == 2 {
                            assert(word[1] == text[j + 1]);
                        }
                        assert(token_end(text, j) == Ok::<int, Seq<char>>(e));
                        assert(spells(kind, word));
                        assert(scan(text, before) == (seq![(j, e)] + scan(text, e).0, scan(text, e).1));
                        assert(ranges.push((j, e)) + scan(text, e).0 =~= ranges + (seq![(j, e)] + scan(text, e).0));
                        ranges = ranges.push((j, e));
                    }
                    tokens.push(Token { kind, span });
                },
            }
        }
        Ok(tokens)
    }
}

/// A lexed token stream ends with the end-of-file marker, and no other token is one.
pub proof fn lemma_lexed_stream_ends_once(s: Seq<char>, i: int, ts: Seq<Token>)
    requires
        lexes_to(s, i, ts),
    ensures
        ts.len() > 0,
        ts.last().kind is Eof,
        forall|k: int| 0 <= k < ts.len() - 1 ==> !(#[trigger] ts[k].kind is Eof),
{
}

/// The words `true` and `false` are the boolean literal keywords, and neither is punctuation.
proof fn lemma_boolean_words()
    ensures
        keyword("true"@) == Some(TokenKind::True),
        keyword("false"@) == Some(TokenKind::False),
        punctuation("true"@) is None,
        punctuation("false"@) is None,
        is_ident_start("true"@[0]) && "true"@[0] != '"',
        is_ident_start("false"@[0]) && "false"@[0] != '"',
{
    reveal_strlit("circuit");
    reveal_strlit("public");
    reveal_strlit("private");
    reveal_strlit("let");
    reveal_strlit("constrain");
    reveal_strlit("expose");
    reveal_strlit("as");
    reveal_strlit("field");
    reveal_strlit("bool");
    reveal_strlit("fn");
    reveal_strlit("if");
    reveal_strlit("else");
    reveal_strlit("true");
    reveal_strlit("false");
    assert("true"@ != "circuit"@);
    assert("true"@ != "public"@);
    assert("true"@ != "private"@);
    assert("true"@ != "let"@);
    assert("true"@ != "constrain"@);
    assert("true"@ != "expose"@);
    assert("true"@ != "as"@);
    assert("true"@ != "field"@);
    assert("true"@[0] != "bool"@[0]);
    assert("true"@ != "bool"@);
    assert("true"@ != "fn"@);
    assert("true"@ != "if"@);
    assert("true"@[0] != "else"@[0]);
    assert("true"@ != "else"@);
    assert("false"@ != "circuit"@);
    assert("false"@ != "public"@);
    assert("false"@ != "private"@);
    assert("false"@ != "let"@);
    assert("false"@ != "constrain"@);
    assert("false"@ != "expose"@);
    assert("false"@ != "as"@);
    assert("false"@[1] != "field"@[1]);
    assert("false"@ != "field"@);
    assert("false"@ != "bool"@);
    assert("false"@ != "fn"@);
    assert("false"@ != "if"@);
    assert("false"@ != "else"@);
    assert("false"@ != "true"@);
}

/// In every lexed token stream, a token whose source text is `true` is the `true` literal and one
/// whose source text is `false` is the `false` literal.
pub proof fn lemma_boolean_literals_lex(s: Seq<char>, i: int, ts: Seq<Token>, k: int)
    requires
        lexes_to(s, i, ts),
        0 <= k < scan(s, i).0.len(),
    ensures
        s.subrange(scan(s, i).0[k].0, scan(s, i).0[k].1) == "true"@ ==> ts[k].kind is True,
        s.subrange(scan(s, i).0[k].0, scan(s, i).0[k].1) == "false"@ ==> ts[k].kind is False,
{
    lemma_boolean_words();
    let text = s.subrange(scan(s, i).0[k].0, scan(s, i).0[k].1);
    assert(spells(ts[k].kind, text));
}

/// The words that name types and visibilities: `field` and `bool` are keywords, the unsigned
/// type names are plain identifiers, and `public` and `private` are their own keywords.
pub proof fn lemma_type_and_visibility_words()
    ensures
        keyword("field"@) == Some(TokenKind::Field),
        keyword("bool"@) == Some(TokenKind::Bool),
        keyword("u8"@) is None,
        keyword("u16"@) is None,
        keyword("u32"@) is None,
        keyword("public"@) == Some(TokenKind::Public),
        keyword("private"@) == Some(TokenKind::Private),
        forall|w: Seq<char>| w == "field"@ || w == "bool"@ || w == "u8"@ || w == "u16"@ || w == "u32"@ || w == "public"@ || w == "private"@
            ==> #[trigger] punctuation(w) is None && is_ident_start(w[0]) && w[0] != '"',
{
    reveal_strlit("circuit");
    reveal_strlit("public");
    reveal_strlit("private");
    reveal_strlit("let");
    reveal_strlit("constrain");
    reveal_strlit("expose");
    reveal_strlit("as");
    reveal_strlit("field");
    reveal_strlit("bool");
    reveal_strlit("fn");
    reveal_strlit("if");
    reveal_strlit("else");
    reveal_strlit("true");
    reveal_strlit("false");
    reveal_strlit("import");
    reveal_strlit("u8");
    reveal_strlit("u16");
    reveal_strlit("u32");
    assert("public"@[1] != "private"@[1]);
    assert("field"@[0] != "false"@[0] || "field"@[1] != "false"@[1]);
    assert("bool"@[0] != "true"@[0]);
    assert("bool"@[0] != "else"@[0]);
    assert("u8"@[0] != "as"@[0]);
    assert("u8"@[0] != "fn"@[0]);
    assert("u8"@[0] != "if"@[0]);
    assert("u16"@[0] != "let"@[0]);
    assert("u32"@[0] != "let"@[0]);
    assert("u8"@ != inclusion_keyword_chars());
    assert("u16"@ != inclusion_keyword_chars());
    assert("u32"@ != inclusion_keyword_chars());
    assert("public"@[0] != "import"@[0]);
    assert("public"@ != "circuit"@);
    assert("private"@ != "circuit"@);
    assert("field"@.len() == 5 && "circuit"@.len() == 7);
    assert("field"@ != "circuit"@);
    assert("field"@ != "public"@);
    assert("field"@ != "private"@);
    assert("field"@ != "let"@);
    assert("field"@ != "constrain"@);
    assert("field"@ != "expose"@);
    assert("field"@ != "as"@);
    assert("bool"@ != "circuit"@);
    assert("bool"@ != "public"@);
    assert("bool"@ != "private"@);
    assert("bool"@ != "let"@);
    assert("bool"@ != "constrain"@);
    assert("bool"@ != "expose"@);
    assert("bool"@ != "as"@);
    assert("bool"@ != "field"@);
}

/// In every lexed token stream, a token whose source text is `field` is the `field` keyword, one
/// spelled `bool` the `bool` keyword, one spelled `u8`, `u16` or `u32` an identifier of that name,
/// one spelled `public` the `public` keyword and one spelled `private` the `private` keyword.
pub proof fn lemma_type_and_visibility_words_lex(s: Seq<char>, i: int, ts: Seq<Token>, k: int)
    requires
        lexes_to(s, i, ts),
        0 <= k < scan(s, i).0.len(),
    ensures
        s.subrange(scan(s, i).0[k].0, scan(s, i).0[k].1) == "field"@ ==> ts[k].kind is Field,
        s.subrange(scan(s, i).0[k].0, scan(s, i).0[k].1) == "bool"@ ==> ts[k].kind is Bool,
        s.subrange(scan(s, i).0[k].0, scan(s, i).0[k].1) == "u8"@ ==> ts[k].kind == TokenKind::Ident(ts[k].kind->Ident_0)
            && ts[k].kind->Ident_0@ == "u8"@,
        s.subrange(scan(s, i).0[k].0, scan(s, i).0[k].1) == "u16"@ ==> ts[k].kind == TokenKind::Ident(ts[k].kind->Ident_0)
            && ts[k].kind->Ident_0@ == "u16"@,
        s.subrange(scan(s, i).0[k].0, scan(s, i).0[k].1) == "u32"@ ==> ts[k].kind == TokenKind::Ident(ts[k].kind->Ident_0)
            && ts[k].kind->Ident_0@ == "u32"@,
        s.subrange(scan(s, i).0[k].0, scan(s, i).0[k].1) == "public"@ ==> ts[k].kind is Public,
        s.subrange(scan(s, i).0[k].0, scan(s, i).0[k].1) == "private"@ ==> ts[k].kind is Private,
{
    lemma_type_and_visibility_words();
    let text = s.subrange(scan(s, i).0[k].0, scan(s, i).0[k].1);
    assert(spells(ts[k].kind, text));
    assert(punctuation(text) is None && is_ident_start(text[0]) && text[0] != '"' || !(text == "field"@ || text == "bool"@
        || text == "u8"@ || text == "u16"@ || text == "u32"@ || text == "public"@ || text == "private"@));
}

} // verus!
