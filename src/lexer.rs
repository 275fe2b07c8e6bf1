use vstd::prelude::*;
use crate::token::{Token, TokenKind};

verus! {

/// A character that no token rule accepts, with its position (in characters).
#[derive(Debug, Clone, Copy, PartialEq, Eq, Structural)]
pub struct LexError {
    pub position: usize,
    pub character: char,
}

/// A token as positions into the source: `start..end` is its text.
pub struct Lexeme {
    pub kind: TokenKind,
    pub start: int,
    pub end: int,
}

pub open spec fn is_space(c: char) -> bool {
    c == ' ' || c == '\n' || c == '\r' || c == '\t'
}

pub open spec fn is_digit(c: char) -> bool {
    '0' <= c && c <= '9'
}

pub open spec fn is_alpha(c: char) -> bool {
    ('a' <= c && c <= 'z') || ('A' <= c && c <= 'Z')
}

pub open spec fn is_ident_char(c: char) -> bool {
    is_alpha(c) || is_digit(c) || c == '_'
}

/// First position at or after `i` that is not whitespace.
pub open spec fn skip_spaces(s: Seq<char>, i: int) -> int
    decreases s.len() - i,
{
    if 0 <= i < s.len() && is_space(s[i]) {
        skip_spaces(s, i + 1)
    } else {
        i
    }
}

/// First position at or after `i` that is not a digit.
pub open spec fn digits_end(s: Seq<char>, i: int) -> int
    decreases s.len() - i,
{
    if 0 <= i < s.len() && is_digit(s[i]) {
        digits_end(s, i + 1)
    } else {
        i
    }
}

/// First position at or after `i` that cannot continue an identifier.
pub open spec fn ident_end(s: Seq<char>, i: int) -> int
    decreases s.len() - i,
{
    if 0 <= i < s.len() && is_ident_char(s[i]) {
        ident_end(s, i + 1)
    } else {
        i
    }
}

/// End of a number literal starting at `i`: digits, then optionally `.` and one
/// or more digits. A `.` with no digit after it is not part of the number.
pub open spec fn number_end(s: Seq<char>, i: int) -> int {
    let j = digits_end(s, i);
    if 0 <= j && j + 1 < s.len() && s[j] == '.' && is_digit(s[j + 1]) {
        digits_end(s, j + 1)
    } else {
        j
    }
}

pub open spec fn is_boolean_word(w: Seq<char>) -> bool {
    w == seq!['t', 'r', 'u', 'e'] || w == seq!['f', 'a', 'l', 's', 'e']
}

/// An operator that is `long` when `second` follows `s[i]`, and `short` otherwise.
pub open spec fn either(s: Seq<char>, i: int, second: char, long: TokenKind, short: TokenKind) -> (
    TokenKind,
    int,
) {
    if i + 1 < s.len() && s[i + 1] == second {
        (long, i + 2)
    } else {
        (short, i + 1)
    }
}

pub open spec fn single_kind(c: char) -> Option<TokenKind> {
    if c == ',' {
        Some(TokenKind::Comma)
    } else if c == '+' {
        Some(TokenKind::Plus)
    } else if c == '-' {
        Some(TokenKind::Minus)
    } else if c == '*' {
        Some(TokenKind::Star)
    } else if c == '/' {
        Some(TokenKind::Slash)
    } else if c == '%' {
        Some(TokenKind::Percent)
    } else if c == '(' {
        Some(TokenKind::LeftParen)
    } else if c == ')' {
        Some(TokenKind::RightParen)
    } else {
        None
    }
}

/// The token that starts at `i` (a non-space position inside `s`), as kind and end;
/// `None` when no rule accepts the character there.
pub open spec fn scan_token(s: Seq<char>, i: int) -> Option<(TokenKind, int)> {
    let c = s[i];
    if is_digit(c) {
        Some((TokenKind::Number, number_end(s, i)))
    } else if is_alpha(c) {
        let e = ident_end(s, i);
        if is_boolean_word(s.subrange(i, e)) {
            Some((TokenKind::Boolean, e))
        } else {
            Some((TokenKind::Identifier, e))
        }
    } else if c == '>' {
        Some(either(s, i, '=', TokenKind::GreaterEqual, TokenKind::Greater))
    } else if c == '<' {
        Some(either(s, i, '=', TokenKind::LessEqual, TokenKind::Less))
    } else if c == '!' {
        Some(either(s, i, '=', TokenKind::BangEqual, TokenKind::Bang))
    } else if c == '&' {
        Some(either(s, i, '&', TokenKind::AmpAmp, TokenKind::Amp))
    } else if c == '|' {
        Some(either(s, i, '|', TokenKind::PipePipe, TokenKind::Pipe))
    } else if c == '=' {
        if i + 1 < s.len() && s[i + 1] == '=' {
            Some((TokenKind::EqualEqual, i + 2))
        } else {
            None
        }
    } else {
        match single_kind(c) {
            Some(k) => Some((k, i + 1)),
            None => None,
        }
    }
}

pub open spec fn prefixed(p: Seq<Lexeme>, r: Result<Seq<Lexeme>, LexError>) -> Result<
    Seq<Lexeme>,
    LexError,
> {
    match r {
        Ok(t) => Ok(p + t),
        Err(e) => Err(e),
    }
}

/// The tokens of `s` from position `i` on, ending in one `Eof`, or the first error.
pub open spec fn lex_from(s: Seq<char>, i: int) -> Result<Seq<Lexeme>, LexError>
    decreases s.len() - i,
    via lex_from_decreases
{
    let j = skip_spaces(s, i);
    if j < 0 || j >= s.len() {
        Ok(seq![Lexeme { kind: TokenKind::Eof, start: j, end: j }])
    } else {
        match scan_token(s, j) {
            None => Err(LexError { position: j as usize, character: s[j] }),
            Some((k, e)) => prefixed(seq![Lexeme { kind: k, start: j, end: e }], lex_from(s, e)),
        }
    }
}

#[via_fn]
proof fn lex_from_decreases(s: Seq<char>, i: int) {
    let j = skip_spaces(s, i);
    lemma_skip_spaces(s, i);
    if 0 <= j < s.len() {
        lemma_scan_token(s, j);
    }
}

/// The tokens of the whole text `s`.
pub open spec fn lex_spec(s: Seq<char>) -> Result<Seq<Lexeme>, LexError> {
    lex_from(s, 0)
}

/// `toks` are the lexemes `lx` of `s`, with their text.
pub open spec fn tokens_match(s: Seq<char>, lx: Seq<Lexeme>, toks: Seq<Token>) -> bool {
    &&& toks.len() == lx.len()
    &&& forall|k: int|
        0 <= k < lx.len() ==> {
            &&& (#[trigger] toks[k]).kind == lx[k].kind
            &&& toks[k].slice@ == s.subrange(lx[k].start, lx[k].end)
        }
}

pub proof fn lemma_skip_spaces(s: Seq<char>, i: int)
    ensures
        i <= skip_spaces(s, i),
        0 <= i <= s.len() ==> skip_spaces(s, i) <= s.len(),
        0 <= i ==> forall|k: int| i <= k < skip_spaces(s, i) ==> is_space(#[trigger] s[k]),
        0 <= i ==> skip_spaces(s, i) >= s.len() || !is_space(s[skip_spaces(s, i)]),
    decreases s.len() - i,
{
    if 0 <= i < s.len() && is_space(s[i]) {
        lemma_skip_spaces(s, i + 1);
    }
}

pub proof fn lemma_digits_end(s: Seq<char>, i: int)
    ensures
        i <= digits_end(s, i),
        0 <= i <= s.len() ==> digits_end(s, i) <= s.len(),
        0 <= i ==> forall|k: int| i <= k < digits_end(s, i) ==> is_digit(#[trigger] s[k]),
    decreases s.len() - i,
{
    if 0 <= i < s.len() && is_digit(s[i]) {
        lemma_digits_end(s, i + 1);
    }
}

pub proof fn lemma_ident_end(s: Seq<char>, i: int)
    ensures
        i <= ident_end(s, i),
        0 <= i <= s.len() ==> ident_end(s, i) <= s.len(),
        0 <= i ==> forall|k: int| i <= k < ident_end(s, i) ==> is_ident_char(#[trigger] s[k]),
    decreases s.len() - i,
{
    if 0 <= i < s.len() && is_ident_char(s[i]) {
        lemma_ident_end(s, i + 1);
    }
}

/// A token that is found covers at least its first character and stays inside `s`,
/// and holds no whitespace.
pub proof fn lemma_scan_token(s: Seq<char>, i: int)
    requires
        0 <= i < s.len(),
        !is_space(s[i]),
    ensures
        scan_token(s, i) is Some ==> i < scan_token(s, i)->Some_0.1 <= s.len(),
        scan_token(s, i) is Some ==> scan_token(s, i)->Some_0.0 != TokenKind::Eof,
        scan_token(s, i) is Some ==> forall|m: int|
            i <= m < scan_token(s, i)->Some_0.1 ==> !is_space(#[trigger] s[m]),
{
    lemma_digits_end(s, i);
    lemma_ident_end(s, i);
    lemma_digits_end(s, i + 1);
    lemma_ident_end(s, i + 1);
    let j = digits_end(s, i);
    if 0 <= j && j + 1 < s.len() && s[j] == '.' && is_digit(s[j + 1]) {
        lemma_digits_end(s, j + 1);
    }
    if is_digit(s[i]) {
        assert(i < j);
        assert forall|m: int| i <= m < number_end(s, i) implies !is_space(#[trigger] s[m]) by {
            if m >= j && m > j {
                assert(is_digit(s[m]));
            }
        }
    }
}

/// The test that keeps a character of the source in the text of the tokens.
pub open spec fn non_space() -> spec_fn(char) -> bool {
    |c: char| !is_space(c)
}

/// The text of the lexemes `lx` of `s`, one after another.
pub open spec fn text_of(s: Seq<char>, lx: Seq<Lexeme>) -> Seq<char>
    decreases lx.len(),
{
    if lx.len() == 0 {
        Seq::empty()
    } else {
        s.subrange(lx[0].start, lx[0].end) + text_of(s, lx.drop_first())
    }
}

proof fn lemma_filter_keeps(x: Seq<char>)
    requires
        forall|k: int| 0 <= k < x.len() ==> !is_space(#[trigger] x[k]),
    ensures
        x.filter(non_space()) == x,
    decreases x.len(),
{
    reveal(Seq::filter);
    if x.len() > 0 {
        lemma_filter_keeps(x.drop_last());
        assert(x.drop_last().push(x.last()) =~= x);
    }
}

proof fn lemma_filter_drops(x: Seq<char>)
    requires
        forall|k: int| 0 <= k < x.len() ==> is_space(#[trigger] x[k]),
    ensures
        x.filter(non_space()) == Seq::<char>::empty(),
    decreases x.len(),
{
    reveal(Seq::filter);
    if x.len() > 0 {
        lemma_filter_drops(x.drop_last());
    }
}

proof fn lemma_lex_from_covers(s: Seq<char>, i: int)
    requires
        0 <= i <= s.len(),
        lex_from(s, i) is Ok,
    ensures
        text_of(s, lex_from(s, i)->Ok_0) == s.subrange(i, s.len() as int).filter(non_space()),
    decreases s.len() - i,
{
    let n = s.len() as int;
    let j = skip_spaces(s, i);
    lemma_skip_spaces(s, i);
    assert(s.subrange(i, n) =~= s.subrange(i, j) + s.subrange(j, n));
    Seq::filter_distributes_over_add(s.subrange(i, j), s.subrange(j, n), non_space());
    lemma_filter_drops(s.subrange(i, j));
    if j >= n {
        let lx = lex_from(s, i)->Ok_0;
        assert(lx == seq![Lexeme { kind: TokenKind::Eof, start: j, end: j }]);
        assert(lx.drop_first() =~= Seq::<Lexeme>::empty());
        lemma_filter_drops(s.subrange(j, n));
        assert(text_of(s, lx) == s.subrange(j, j) + text_of(s, lx.drop_first()));
        assert(s.subrange(j, j) =~= Seq::<char>::empty());
        assert(Seq::<char>::empty() + Seq::<char>::empty() =~= Seq::<char>::empty());
    } else {
        lemma_scan_token(s, j);
        let e = scan_token(s, j)->Some_0.1;
        let k = scan_token(s, j)->Some_0.0;
        lemma_lex_from_covers(s, e);
        let rest = lex_from(s, e)->Ok_0;
        let lx = seq![Lexeme { kind: k, start: j, end: e }] + rest;
        assert(lex_from(s, i)->Ok_0 == lx);
        assert(lx.drop_first() =~= rest);
        assert(text_of(s, lx) == s.subrange(j, e) + text_of(s, rest));
        assert(s.subrange(j, n) =~= s.subrange(j, e) + s.subrange(e, n));
        Seq::filter_distributes_over_add(s.subrange(j, e), s.subrange(e, n), non_space());
        lemma_filter_keeps(s.subrange(j, e));
        assert(Seq::<char>::empty() + s.subrange(j, n).filter(non_space()) =~= s.subrange(
            j,
            n,
        ).filter(non_space()));
    }
}

/// Whenever the text lexes, the texts of its tokens, one after another, are the
/// text without its whitespace: no character is lost, none is read twice.
pub proof fn lemma_lex_covers_input(s: Seq<char>)
    requires
        lex_spec(s) is Ok,
    ensures
        text_of(s, lex_spec(s)->Ok_0) == s.filter(non_space()),
{
    lemma_lex_from_covers(s, 0);
    assert(s.subrange(0, s.len() as int) =~= s);
}

fn is_whitespace(c: char) -> (r: bool)
    ensures
        r == is_space(c),
{
    c == ' ' || c == '\n' || c == '\r' || c == '\t'
}

fn is_digit_char(c: char) -> (r: bool)
    ensures
        r == is_digit(c),
{
    '0' <= c && c <= '9'
}

fn is_alpha_char(c: char) -> (r: bool)
    ensures
        r == is_alpha(c),
{
    ('a' <= c && c <= 'z') || ('A' <= c && c <= 'Z')
}

fn is_ident_continue(c: char) -> (r: bool)
    ensures
        r == is_ident_char(c),
{
    is_alpha_char(c) || is_digit_char(c) || c == '_'
}

fn single_token_kind(c: char) -> (r: Option<TokenKind>)
    ensures
        r == single_kind(c),
{
    match c {
        ',' => Some(TokenKind::Comma),
        '+' => Some(TokenKind::Plus),
        '-' => Some(TokenKind::Minus),
        '*' => Some(TokenKind::Star),
        '/' => Some(TokenKind::Slash),
        '%' => Some(TokenKind::Percent),
        '(' => Some(TokenKind::LeftParen),
        ')' => Some(TokenKind::RightParen),
        _ => None,
    }
}

/// Reads source text and splits it into tokens.
pub struct Lexer<'a> {
    input: &'a str,
    /// The characters of `input`: positions count characters, not bytes.
    chars: Vec<char>,
    curr: usize,
}

impl<'a> Lexer<'a> {
    /// The characters of the input.
    pub closed spec fn source(&self) -> Seq<char> {
        self.input@
    }

    /// The position from which the next token is read.
    pub closed spec fn position(&self) -> int {
        self.curr as int
    }

    pub closed spec fn wf(&self) -> bool {
        &&& self.chars@ == self.input@
        &&& self.curr <= self.chars.len()
    }

    pub fn new(input: &'a str) -> (r: Self)
        ensures
            r.wf(),
            r.source() == input@,
            r.position() == 0,
    {
        let n = input.unicode_len();
        let mut chars: Vec<char> = Vec::new();
        let mut i: usize = 0;
        while i < n
            invariant
                n == input@.len(),
                i <= n,
                chars@ == input@.subrange(0, i as int),
            decreases n - i,
        {
            chars.push(input.get_char(i));
            i = i + 1;
        }
        assert(chars@ =~= input@);
        Lexer { input, chars, curr: 0 }
    }

    fn is_at_end(&self) -> (r: bool)
        requires
            self.wf(),
        ensures
            r == (self.curr >= self.chars.len()),
    {
        self.curr >= self.chars.len()
    }

    /// The character at the current position, or `'\0'` past the end.
    fn peek(&self) -> (c: char)
        requires
            self.wf(),
        ensures
            self.curr < self.chars.len() ==> c == self.chars@[self.curr as int],
            self.curr >= self.chars.len() ==> c == '\0',
    {
        if self.is_at_end() {
            '\0'
        } else {
            self.chars[self.curr]
        }
    }

    /// The character after the current one, or `'\0'` past the end.
    fn next_peek(&self) -> (c: char)
        requires
            self.wf(),
        ensures
            self.curr + 1 < self.chars.len() ==> c == self.chars@[self.curr + 1],
            self.curr + 1 >= self.chars.len() ==> c == '\0',
    {
        if self.chars.len() - self.curr <= 1 {
            '\0'
        } else {
            self.chars[self.curr + 1]
        }
    }

    fn advance(&mut self) -> (c: char)
        requires
            old(self).wf(),
            old(self).curr < old(self).chars.len(),
        ensures
            final(self).wf(),
            final(self).input == old(self).input,
            final(self).chars == old(self).chars,
            final(self).curr == old(self).curr + 1,
            c == old(self).chars@[old(self).curr as int],
    {
        let c = self.peek();
        self.curr = self.curr + 1;
        c
    }

    fn skip_whitespace(&mut self)
        requires
            old(self).wf(),
        ensures
            final(self).wf(),
            final(self).input == old(self).input,
            final(self).chars == old(self).chars,
            final(self).curr == skip_spaces(old(self).chars@, old(self).curr as int),
    {
        let ghost s = self.chars@;
        let ghost start = self.curr as int;
        while !self.is_at_end() && is_whitespace(self.peek())
            invariant
                self.wf(),
                self.input == old(self).input,
                self.chars == old(self).chars,
                s == self.chars@,
                skip_spaces(s, start) == skip_spaces(s, self.curr as int),
            decreases self.chars.len() - self.curr,
        {
            self.advance();
        }
    }

    /// Advances over digits; ends at `digits_end`.
    fn skip_digits(&mut self)
        requires
            old(self).wf(),
        ensures
            final(self).wf(),
            final(self).input == old(self).input,
            final(self).chars == old(self).chars,
            final(self).curr == digits_end(old(self).chars@, old(self).curr as int),
    {
        let ghost s = self.chars@;
        let ghost start = self.curr as int;
        while !self.is_at_end() && is_digit_char(self.peek())
            invariant
                self.wf(),
                self.input == old(self).input,
                self.chars == old(self).chars,
                s == self.chars@,
                digits_end(s, start) == digits_end(s, self.curr as int),
            decreases self.chars.len() - self.curr,
        {
            self.advance();
        }
    }

    fn slice(&self, start: usize, end: usize) -> (r: &'a str)
        requires
            self.wf(),
            start <= end <= self.chars.len(),
        ensures
            r@ == self.chars@.subrange(start as int, end as int),
    {
        self.input.substring_char(start, end)
    }

    fn read_number(&mut self) -> (t: Token<'a>)
        requires
            old(self).wf(),
        ensures
            final(self).wf(),
            final(self).input == old(self).input,
            final(self).chars == old(self).chars,
            final(self).curr == number_end(old(self).chars@, old(self).curr as int),
            t.kind == TokenKind::Number,
            t.slice@ == old(self).chars@.subrange(old(self).curr as int, final(self).curr as int),
    {
        let start = self.curr;
        self.skip_digits();
        proof {
            lemma_digits_end(self.chars@, start as int);
        }
        if !self.is_at_end() && self.peek() == '.' && is_digit_char(self.next_peek()) {
            self.advance();
            proof {
                lemma_digits_end(self.chars@, self.curr as int);
            }
            self.skip_digits();
        }
        let slice = self.slice(start, self.curr);
        Token::new(TokenKind::Number, slice)
    }

    fn read_identifier(&mut self) -> (t: Token<'a>)
        requires
            old(self).wf(),
        ensures
            final(self).wf(),
            final(self).input == old(self).input,
            final(self).chars == old(self).chars,
            final(self).curr == ident_end(old(self).chars@, old(self).curr as int),
            t.slice@ == old(self).chars@.subrange(old(self).curr as int, final(self).curr as int),
            t.kind == (if is_boolean_word(t.slice@) {
                TokenKind::Boolean
            } else {
                TokenKind::Identifier
            }),
    {
        let ghost s = self.chars@;
        let start = self.curr;
        while !self.is_at_end() && is_ident_continue(self.peek())
            invariant
                self.wf(),
                self.input == old(self).input,
                self.chars == old(self).chars,
                s == self.chars@,
                start <= self.curr,
                ident_end(s, start as int) == ident_end(s, self.curr as int),
            decreases self.chars.len() - self.curr,
        {
            self.advance();
        }
        proof {
            lemma_ident_end(s, start as int);
        }
        let slice = self.slice(start, self.curr);
        proof {
            reveal_strlit("true");
            reveal_strlit("false");
            assert("true"@ =~= seq!['t', 'r', 'u', 'e']);
            assert("false"@ =~= seq!['f', 'a', 'l', 's', 'e']);
        }
        let kind = if self.is_word(start, "true") || self.is_word(start, "false") {
            TokenKind::Boolean
        } else {
            TokenKind::Identifier
        };
        Token::new(kind, slice)
    }

    /// Reads `long` when `second` follows the current character, else `short`.
    fn either(&mut self, second: char, long: TokenKind, short: TokenKind) -> (k: TokenKind)
        requires
            old(self).wf(),
            old(self).curr < old(self).chars.len(),
        ensures
            final(self).wf(),
            final(self).input == old(self).input,
            final(self).chars == old(self).chars,
            (k, final(self).curr as int) == either(
                old(self).chars@,
                old(self).curr as int,
                second,
                long,
                short,
            ),
    {
        if self.next_peek() == second && self.chars.len() - self.curr > 1 {
            self.advance();
            self.advance();
            long
        } else {
            self.advance();
            short
        }
    }

    /// Reads the next token after any whitespace: `Eof` at the end of the input.
    fn token(&mut self) -> (r: Result<Token<'a>, LexError>)
        requires
            old(self).wf(),
        ensures
            final(self).wf(),
            final(self).input == old(self).input,
            final(self).chars == old(self).chars,
            ({
                let s = old(self).chars@;
                let j = skip_spaces(s, old(self).curr as int);
                if j >= s.len() {
                    &&& r matches Ok(t)
                    &&& t.kind == TokenKind::Eof
                    &&& t.slice@ == s.subrange(j, j)
                    &&& final(self).curr == j
                } else {
                    match scan_token(s, j) {
                        None => r == Err::<Token<'a>, LexError>(
                            LexError { position: j as usize, character: s[j] },
                        ),
                        Some((k, e)) => {
                            &&& r matches Ok(t)
                            &&& t.kind == k
                            &&& t.slice@ == s.subrange(j, e)
                            &&& final(self).curr == e
                        },
                    }
                }
            }),
    {
        proof {
            lemma_skip_spaces(self.chars@, self.curr as int);
        }
        self.skip_whitespace();
        let start = self.curr;
        if self.is_at_end() {
            return Ok(Token::new(TokenKind::Eof, self.slice(start, start)));
        }
        let c = self.peek();
        if is_digit_char(c) {
            return Ok(self.read_number());
        }
        if is_alpha_char(c) {
            return Ok(self.read_identifier());
        }
        let kind = match c {
            '>' => self.either('=', TokenKind::GreaterEqual, TokenKind::Greater),
            '<' => self.either('=', TokenKind::LessEqual, TokenKind::Less),
            '!' => self.either('=', TokenKind::BangEqual, TokenKind::Bang),
            '&' => self.either('&', TokenKind::AmpAmp, TokenKind::Amp),
            '|' => self.either('|', TokenKind::PipePipe, TokenKind::Pipe),
            '=' => {
                if self.next_peek() == '=' && self.chars.len() - self.curr > 1 {
                    self.advance();
                    self.advance();
                    TokenKind::EqualEqual
                } else {
                    return Err(LexError { position: start, character: c });
                }
            },
            _ => match single_token_kind(c) {
                Some(k) => {
                    self.advance();
                    k
                },
                None => {
                    return Err(LexError { position: start, character: c });
                },
            },
        };
        Ok(Token::new(kind, self.slice(start, self.curr)))
    }

    /// Splits the rest of the input into tokens, ending in one `Eof` token, or
    /// reports the first character that no token rule accepts.
    pub fn lex(&mut self) -> (r: Result<Vec<Token<'a>>, LexError>)
        requires
            old(self).wf(),
        ensures
            final(self).wf(),
            final(self).source() == old(self).source(),
            match lex_from(old(self).source(), old(self).position()) {
                Ok(lx) => r matches Ok(toks) && tokens_match(old(self).source(), lx, toks@),
                Err(e) => r == Err::<Vec<Token<'a>>, LexError>(e),
            },
    {
        let ghost s = self.chars@;
        let ghost c0 = self.curr as int;
        let ghost mut done: Seq<Lexeme> = Seq::empty();
        let mut tokens: Vec<Token<'a>> = Vec::new();
        assert(prefixed(done, lex_from(s, c0)) == lex_from(s, c0)) by {
            match lex_from(s, c0) {
                Ok(t) => {
                    assert(done + t =~= t);
                },
                Err(_) => {},
            }
        }
        loop
            invariant
                self.wf(),
                self.input == old(self).input,
                s == self.chars@,
                s == self.input@,
                c0 == old(self).position(),
                tokens_match(s, done, tokens@),
                lex_from(s, c0) == prefixed(done, lex_from(s, self.curr as int)),
            decreases self.chars.len() - self.curr,
        {
            let ghost before = self.curr as int;
            proof {
                lemma_skip_spaces(s, before);
                let j = skip_spaces(s, before);
                if j < s.len() {
                    lemma_scan_token(s, j);
                }
            }
            let token = self.token();
            match token {
                Err(e) => {
                    assert(lex_from(s, before) == Err::<Seq<Lexeme>, LexError>(e));
                    assert(lex_from(s, c0) == Err::<Seq<Lexeme>, LexError>(e));
                    return Err(e);
                },
                Ok(t) => {
                    let ghost j = skip_spaces(s, before);
                    let ghost lx = Lexeme { kind: t.kind, start: j, end: self.curr as int };
                    proof {
                        if j >= s.len() {
                            assert(lex_from(s, before) == Ok::<Seq<Lexeme>, LexError>(seq![lx]));
                            assert(done + seq![lx] =~= done.push(lx));
                        } else {
                            assert(lex_from(s, before) == prefixed(
                                seq![lx],
                                lex_from(s, self.curr as int),
                            ));
                        }
                    }
                    let is_eof = t.kind == TokenKind::Eof;
                    tokens.push(t);
                    proof {
                        let rest = lex_from(s, self.curr as int);
                        match rest {
                            Ok(t) => {
                                assert(done + (seq![lx] + t) =~= done.push(lx) + t);
                            },
                            Err(_) => {},
                        }
                        done = done.push(lx);
                    }
                    if is_eof {
                        assert(lex_from(s, c0) == Ok::<Seq<Lexeme>, LexError>(done));
                        return Ok(tokens);
                    }
                },
            }
        }
    }

    /// Whether the characters from `start` to the current position spell `w`.
    fn is_word(&self, start: usize, word: &str) -> (r: bool)
        requires
            self.wf(),
            start <= self.curr,
        ensures
            r == (self.chars@.subrange(start as int, self.curr as int) == word@),
    {
        let ghost w = word@;
        if self.curr - start != word.unicode_len() {
            proof {
                assert(self.chars@.subrange(start as int, self.curr as int).len() != w.len());
            }
            return false;
        }
        let mut k: usize = 0;
        while k < word.unicode_len()
            invariant
                self.wf(),
                start <= self.curr,
                word@ == w,
                self.curr - start == w.len(),
                k <= w.len(),
                forall|m: int| 0 <= m < k ==> self.chars@[start + m] == w[m],
            decreases w.len() - k,
        {
            if self.chars[start + k] != word.get_char(k) {
                assert(self.chars@.subrange(start as int, self.curr as int)[k as int] != w[k as int]);
                return false;
            }
            k = k + 1;
        }
        assert(self.chars@.subrange(start as int, self.curr as int) =~= w);
        true
    }
}

} // verus!
