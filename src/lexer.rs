use vstd::prelude::*;
use vstd::string::StrSliceExecFns;

use crate::text::chars_of;

verus! {

broadcast use vstd::string::group_string_axioms;

/// One token of the source language.
#[derive(Debug, Clone)]
pub enum Token {
    Int(i64),
    Str(String),
    Ident(String),
    Plus,
    Minus,
    Star,
    Slash,
    Percent,
    LParen,
    RParen,
    LBrace,
    RBrace,
    Comma,
    LBracket,
    RBracket,
    Colon,
    Let,
    Func,
    Return,
    Import,
    From,
    Use,
    Print,
    If,
    Else,
    Then,
    While,
    For,
    In,
    Range,
    SetKw,
    Struct,
    Eq,
    Lt,
    Gt,
    LtEq,
    GtEq,
    EqEq,
    NotEq,
    Hash,
    Semicolon,
    EOF,
}

/// The mathematical value of a token: text payloads as character sequences.
pub enum TokenView {
    Int(i64),
    Str(Seq<char>),
    Ident(Seq<char>),
    Plus,
    Minus,
    Star,
    Slash,
    Percent,
    LParen,
    RParen,
    LBrace,
    RBrace,
    Comma,
    LBracket,
    RBracket,
    Colon,
    Let,
    Func,
    Return,
    Import,
    From,
    Use,
    Print,
    If,
    Else,
    Then,
    While,
    For,
    In,
    Range,
    SetKw,
    Struct,
    Eq,
    Lt,
    Gt,
    LtEq,
    GtEq,
    EqEq,
    NotEq,
    Hash,
    Semicolon,
    EOF,
}

impl View for Token {
    type V = TokenView;

    open spec fn view(&self) -> TokenView {
        match self {
            Token::Int(v) => TokenView::Int(*v),
            Token::Str(s) => TokenView::Str(s@),
            Token::Ident(s) => TokenView::Ident(s@),
            Token::Plus => TokenView::Plus,
            Token::Minus => TokenView::Minus,
            Token::Star => TokenView::Star,
            Token::Slash => TokenView::Slash,
            Token::Percent => TokenView::Percent,
            Token::LParen => TokenView::LParen,
            Token::RParen => TokenView::RParen,
            Token::LBrace => TokenView::LBrace,
            Token::RBrace => TokenView::RBrace,
            Token::Comma => TokenView::Comma,
            Token::LBracket => TokenView::LBracket,
            Token::RBracket => TokenView::RBracket,
            Token::Colon => TokenView::Colon,
            Token::Let => TokenView::Let,
            Token::Func => TokenView::Func,
            Token::Return => TokenView::Return,
            Token::Import => TokenView::Import,
            Token::From => TokenView::From,
            Token::Use => TokenView::Use,
            Token::Print => TokenView::Print,
            Token::If => TokenView::If,
            Token::Else => TokenView::Else,
            Token::Then => TokenView::Then,
            Token::While => TokenView::While,
            Token::For => TokenView::For,
            Token::In => TokenView::In,
            Token::Range => TokenView::Range,
            Token::SetKw => TokenView::SetKw,
            Token::Struct => TokenView::Struct,
            Token::Eq => TokenView::Eq,
            Token::Lt => TokenView::Lt,
            Token::Gt => TokenView::Gt,
            Token::LtEq => TokenView::LtEq,
            Token::GtEq => TokenView::GtEq,
            Token::EqEq => TokenView::EqEq,
            Token::NotEq => TokenView::NotEq,
            Token::Hash => TokenView::Hash,
            Token::Semicolon => TokenView::Semicolon,
            Token::EOF => TokenView::EOF,
        }
    }
}

pub open spec fn is_digit(c: char) -> bool {
    '0' <= c <= '9'
}

pub open spec fn is_word_start(c: char) -> bool {
    ('a' <= c <= 'z') || ('A' <= c <= 'Z') || c == '_'
}

pub open spec fn is_word_char(c: char) -> bool {
    is_word_start(c) || is_digit(c)
}

/// End of the maximal run of digits that starts at `i`.
pub open spec fn digit_end(s: Seq<char>, i: int) -> int
    decreases s.len() - i,
{
    if 0 <= i < s.len() && is_digit(s[i]) {
        digit_end(s, i + 1)
    } else {
        i
    }
}

/// End of the maximal run of word characters that starts at `i`.
pub open spec fn word_end(s: Seq<char>, i: int) -> int
    decreases s.len() - i,
{
    if 0 <= i < s.len() && is_word_char(s[i]) {
        word_end(s, i + 1)
    } else {
        i
    }
}

/// Position of the first double quote at or after `i`, or the end of input.
pub open spec fn quote_end(s: Seq<char>, i: int) -> int
    decreases s.len() - i,
{
    if 0 <= i < s.len() && s[i] != '"' {
        quote_end(s, i + 1)
    } else {
        i
    }
}

/// The number that a run of decimal digits denotes.
pub open spec fn decimal_value(d: Seq<char>) -> nat
    decreases d.len(),
{
    if d.len() == 0 {
        0
    } else {
        decimal_value(d.drop_last()) * 10 + ((d.last() as u32 - '0' as u32) as nat)
    }
}

/// A run of digits denotes its value when that fits in an `i64`, and zero
/// otherwise.
pub open spec fn int_literal(d: Seq<char>) -> i64 {
    if decimal_value(d) <= i64::MAX {
        decimal_value(d) as i64
    } else {
        0
    }
}

/// A word is a keyword of the table or else an identifier.
pub open spec fn word_token(w: Seq<char>) -> TokenView {
    if w == "let"@ {
        TokenView::Let
    } else if w == "func"@ {
        TokenView::Func
    } else if w == "return"@ {
        TokenView::Return
    } else if w == "import"@ {
        TokenView::Import
    } else if w == "from"@ {
        TokenView::From
    } else if w == "use"@ {
        TokenView::Use
    } else if w == "in"@ {
        TokenView::In
    } else if w == "range"@ {
        TokenView::Range
    } else if w == "set"@ {
        TokenView::SetKw
    } else if w == "struct"@ {
        TokenView::Struct
    } else if w == "print"@ {
        TokenView::Print
    } else if w == "if"@ {
        TokenView::If
    } else if w == "else"@ {
        TokenView::Else
    } else if w == "then"@ {
        TokenView::Then
    } else if w == "while"@ {
        TokenView::While
    } else if w == "for"@ {
        TokenView::For
    } else {
        TokenView::Ident(w)
    }
}

/// The token of one character that stands alone, if `c` is one.
pub open spec fn single_token(c: char) -> Option<TokenView> {
    if c == '+' {
        Some(TokenView::Plus)
    } else if c == '-' {
        Some(TokenView::Minus)
    } else if c == '*' {
        Some(TokenView::Star)
    } else if c == '/' {
        Some(TokenView::Slash)
    } else if c == '(' {
        Some(TokenView::LParen)
    } else if c == ')' {
        Some(TokenView::RParen)
    } else if c == '{' {
        Some(TokenView::LBrace)
    } else if c == '}' {
        Some(TokenView::RBrace)
    } else if c == '[' {
        Some(TokenView::LBracket)
    } else if c == ']' {
        Some(TokenView::RBracket)
    } else if c == ',' {
        Some(TokenView::Comma)
    } else if c == ':' {
        Some(TokenView::Colon)
    } else if c == '%' {
        Some(TokenView::Percent)
    } else if c == '#' {
        Some(TokenView::Hash)
    } else if c == ';' {
        Some(TokenView::Semicolon)
    } else {
        None
    }
}

/// For `=`, `<`, `>` and `!`: the token alone, and the token when `=` follows.
pub open spec fn pair_tokens(c: char) -> Option<(TokenView, TokenView)> {
    if c == '=' {
        Some((TokenView::Eq, TokenView::EqEq))
    } else if c == '<' {
        Some((TokenView::Lt, TokenView::LtEq))
    } else if c == '>' {
        Some((TokenView::Gt, TokenView::GtEq))
    } else if c == '!' {
        Some((TokenView::Ident("!"@), TokenView::NotEq))
    } else {
        None
    }
}

/// The token that starts at or after position `i` of `s`, and the position
/// right after it. Characters that start no token are skipped; at the end of
/// input the token is `EOF` and the position stays at the end.
pub open spec fn scan(s: Seq<char>, i: int) -> (TokenView, int)
    decreases s.len() - i,
{
    if i < 0 || i >= s.len() {
        (TokenView::EOF, i)
    } else if is_digit(s[i]) {
        let j = digit_end(s, i);
        (TokenView::Int(int_literal(s.subrange(i, j))), j)
    } else if is_word_start(s[i]) {
        let j = word_end(s, i);
        (word_token(s.subrange(i, j)), j)
    } else if s[i] == '"' {
        let j = quote_end(s, i + 1);
        (TokenView::Str(s.subrange(i + 1, j)), if j < s.len() { j + 1 } else { j })
    } else if single_token(s[i]) is Some {
        (single_token(s[i])->0, i + 1)
    } else if pair_tokens(s[i]) is Some {
        let pair = pair_tokens(s[i]).unwrap();
        if i + 1 < s.len() && s[i + 1] == '=' {
            (pair.1, i + 2)
        } else {
            (pair.0, i + 1)
        }
    } else {
        scan(s, i + 1)
    }
}

proof fn lemma_digit_end(s: Seq<char>, i: int)
    requires
        0 <= i <= s.len(),
    ensures
        i <= digit_end(s, i) <= s.len(),
        forall|k: int| i <= k < digit_end(s, i) ==> is_digit(#[trigger] s[k]),
        digit_end(s, i) < s.len() ==> !is_digit(s[digit_end(s, i)]),
    decreases s.len() - i,
{
    if i < s.len() && is_digit(s[i]) {
        lemma_digit_end(s, i + 1);
    }
}

proof fn lemma_word_end(s: Seq<char>, i: int)
    requires
        0 <= i <= s.len(),
    ensures
        i <= word_end(s, i) <= s.len(),
        word_end(s, i) < s.len() ==> !is_word_char(s[word_end(s, i)]),
    decreases s.len() - i,
{
    if i < s.len() && is_word_char(s[i]) {
        lemma_word_end(s, i + 1);
    }
}

proof fn lemma_quote_end(s: Seq<char>, i: int)
    requires
        0 <= i <= s.len(),
    ensures
        i <= quote_end(s, i) <= s.len(),
        quote_end(s, i) < s.len() ==> s[quote_end(s, i)] == '"',
    decreases s.len() - i,
{
    if i < s.len() && s[i] != '"' {
        lemma_quote_end(s, i + 1);
    }
}

/// The position that `scan` reaches never lies before where it started, nor
/// past the end.
pub proof fn lemma_scan_bounds(s: Seq<char>, i: int)
    requires
        0 <= i <= s.len(),
    ensures
        i <= scan(s, i).1 <= s.len(),
        scan(s, i).0 is EOF ==> scan(s, i).1 == s.len(),
        !(scan(s, i).0 is EOF) ==> i < scan(s, i).1,
    decreases s.len() - i,
{
    if i < s.len() {
        let c = s[i];
        if is_digit(c) {
            lemma_digit_end(s, i);
            assert(is_digit(s[i]));
        } else if is_word_start(c) {
            lemma_word_end(s, i);
            assert(word_end(s, i) == word_end(s, i + 1));
            lemma_word_end(s, i + 1);
        } else if c == '"' {
            lemma_quote_end(s, i + 1);
        } else if single_token(c) is Some {
        } else if pair_tokens(c) is Some {
        } else {
            lemma_scan_bounds(s, i + 1);
        }
    }
}


proof fn lemma_digit_end_is(s: Seq<char>, i: int, j: int)
    requires
        0 <= i <= j <= s.len(),
        forall|k: int| i <= k < j ==> is_digit(#[trigger] s[k]),
        j == s.len() || !is_digit(s[j]),
    ensures
        digit_end(s, i) == j,
    decreases j - i,
{
    if i < j {
        lemma_digit_end_is(s, i + 1, j);
    }
}

proof fn lemma_word_end_is(s: Seq<char>, i: int, j: int)
    requires
        0 <= i <= j <= s.len(),
        forall|k: int| i <= k < j ==> is_word_char(#[trigger] s[k]),
        j == s.len() || !is_word_char(s[j]),
    ensures
        word_end(s, i) == j,
    decreases j - i,
{
    if i < j {
        lemma_word_end_is(s, i + 1, j);
    }
}

proof fn lemma_quote_end_is(s: Seq<char>, i: int, j: int)
    requires
        0 <= i <= j <= s.len(),
        forall|k: int| i <= k < j ==> #[trigger] s[k] != '"',
        j == s.len() || s[j] == '"',
    ensures
        quote_end(s, i) == j,
    decreases j - i,
{
    if i < j {
        lemma_quote_end_is(s, i + 1, j);
    }
}

fn char_is_digit(c: char) -> (r: bool)
    ensures
        r == is_digit(c),
{
    '0' <= c && c <= '9'
}

fn char_is_word_start(c: char) -> (r: bool)
    ensures
        r == is_word_start(c),
{
    ('a' <= c && c <= 'z') || ('A' <= c && c <= 'Z') || c == '_'
}

fn char_is_word_char(c: char) -> (r: bool)
    ensures
        r == is_word_char(c),
{
    char_is_word_start(c) || char_is_digit(c)
}

/// A cursor over the characters of a source text.
pub struct Lexer {
    text: String,
    chars: Vec<char>,
    pos: usize,
}

impl Lexer {
    /// The source text.
    pub closed spec fn input(&self) -> Seq<char> {
        self.chars@
    }

    /// The position of the cursor, counted in characters.
    pub closed spec fn position(&self) -> int {
        self.pos as int
    }

    pub closed spec fn wf(&self) -> bool {
        &&& self.text@ == self.chars@
        &&& self.pos <= self.chars@.len()
    }

    /// A lexer at the start of `src`.
    pub fn new(src: &str) -> (r: Lexer)
        ensures
            r.wf(),
            r.input() == src@,
            r.position() == 0,
            0 <= r.position() <= r.input().len(),
    {
        Lexer { text: src.to_owned(), chars: chars_of(src), pos: 0 }
    }

    fn peek(&self) -> (r: Option<char>)
        requires
            self.wf(),
        ensures
            self.pos < self.chars@.len() ==> r == Some(self.chars@[self.pos as int]),
            self.pos >= self.chars@.len() ==> r is None,
    {
        if self.pos < self.chars.len() {
            Some(self.chars[self.pos])
        } else {
            None
        }
    }

    fn bump(&mut self)
        requires
            old(self).wf(),
        ensures
            final(self).wf(),
            final(self).text == old(self).text,
            final(self).chars == old(self).chars,
            final(self).pos == if old(self).pos < old(self).chars@.len() {
                old(self).pos + 1
            } else {
                old(self).pos as int
            },
    {
        if self.pos < self.chars.len() {
            self.pos = self.pos + 1;
        }
    }

    /// Whether the characters in `[start, end)` spell `kw`.
    fn spells(&self, start: usize, end: usize, kw: &str) -> (r: bool)
        requires
            start <= end <= self.chars@.len(),
        ensures
            r == (self.chars@.subrange(start as int, end as int) == kw@),
    {
        let n = kw.unicode_len();
        if end - start != n {
            return false;
        }
        let mut i: usize = 0;
        while i < n
            invariant
                start <= end <= self.chars@.len(),
                end - start == n,
                n == kw@.len(),
                i <= n,
                forall|k: int| 0 <= k < i ==> self.chars@[start + k] == kw@[k],
            decreases n - i,
        {
            if self.chars[start + i] != kw.get_char(i) {
                proof {
                    assert(self.chars@.subrange(start as int, end as int)[i as int] != kw@[i as int]);
                }
                return false;
            }
            i = i + 1;
        }
        proof {
            assert(self.chars@.subrange(start as int, end as int) =~= kw@);
        }
        true
    }

    /// The text in `[start, end)` as a string.
    fn text_between(&self, start: usize, end: usize) -> (r: String)
        requires
            self.wf(),
            start <= end <= self.chars@.len(),
        ensures
            r@ == self.chars@.subrange(start as int, end as int),
    {
        self.text.as_str().substring_char(start, end).to_owned()
    }

    fn word_token(&self, start: usize, end: usize) -> (t: Token)
        requires
            self.wf(),
            start <= end <= self.chars@.len(),
        ensures
            t@ == word_token(self.chars@.subrange(start as int, end as int)),
    {
        if self.spells(start, end, "let") {
            Token::Let
        } else if self.spells(start, end, "func") {
            Token::Func
        } else if self.spells(start, end, "return") {
            Token::Return
        } else if self.spells(start, end, "import") {
            Token::Import
        } else if self.spells(start, end, "from") {
            Token::From
        } else if self.spells(start, end, "use") {
            Token::Use
        } else if self.spells(start, end, "in") {
            Token::In
        } else if self.spells(start, end, "range") {
            Token::Range
        } else if self.spells(start, end, "set") {
            Token::SetKw
        } else if self.spells(start, end, "struct") {
            Token::Struct
        } else if self.spells(start, end, "print") {
            Token::Print
        } else if self.spells(start, end, "if") {
            Token::If
        } else if self.spells(start, end, "else") {
            Token::Else
        } else if self.spells(start, end, "then") {
            Token::Then
        } else if self.spells(start, end, "while") {
            Token::While
        } else if self.spells(start, end, "for") {
            Token::For
        } else {
            Token::Ident(self.text_between(start, end))
        }
    }

    /// The next token, read from the cursor on; the cursor moves past it.
    /// At the end of input this is `EOF`, on every further call too.
    pub fn next_token(&mut self) -> (t: Token)
        requires
            old(self).wf(),
        ensures
            final(self).wf(),
            final(self).input() == old(self).input(),
            (t@, final(self).position()) == scan(old(self).input(), old(self).position()),
            0 <= final(self).position() <= final(self).input().len(),
            old(self).wf() ==> 0 <= old(self).position() <= old(self).input().len(),
    {
        let ghost s = self.chars@;
        let ghost start_pos = self.pos as int;
        while self.pos < self.chars.len()
            invariant
                self.wf(),
                self.chars@ == s,
                s == old(self).chars@,
                start_pos == old(self).pos,
                scan(s, self.pos as int) == scan(s, start_pos),
            decreases s.len() - self.pos,
        {
            let c = self.chars[self.pos];
            if char_is_digit(c) {
                return self.lex_number();
            }
            if char_is_word_start(c) {
                let start = self.pos;
                while self.pos < self.chars.len() && char_is_word_char(self.chars[self.pos])
                    invariant
                        self.wf(),
                        self.chars@ == s,
                        start <= self.pos <= s.len(),
                        forall|k: int| start <= k < self.pos ==> is_word_char(#[trigger] s[k]),
                    decreases s.len() - self.pos,
                {
                    self.pos = self.pos + 1;
                }
                proof {
                    lemma_word_end_is(s, start as int, self.pos as int);
                }
                return self.word_token(start, self.pos);
            }
            if c == '"' {
                self.bump();
                let start = self.pos;
                while self.pos < self.chars.len() && self.chars[self.pos] != '"'
                    invariant
                        self.wf(),
                        self.chars@ == s,
                        start <= self.pos <= s.len(),
                        forall|k: int| start <= k < self.pos ==> #[trigger] s[k] != '"',
                    decreases s.len() - self.pos,
                {
                    self.pos = self.pos + 1;
                }
                proof {
                    lemma_quote_end_is(s, start as int, self.pos as int);
                }
                let text = self.text_between(start, self.pos);
                self.bump();
                return Token::Str(text);
            }
            let single = match c {
                '+' => Some(Token::Plus),
                '-' => Some(Token::Minus),
                '*' => Some(Token::Star),
                '/' => Some(Token::Slash),
                '(' => Some(Token::LParen),
                ')' => Some(Token::RParen),
                '{' => Some(Token::LBrace),
                '}' => Some(Token::RBrace),
                '[' => Some(Token::LBracket),
                ']' => Some(Token::RBracket),
                ',' => Some(Token::Comma),
                ':' => Some(Token::Colon),
                '%' => Some(Token::Percent),
                '#' => Some(Token::Hash),
                ';' => Some(Token::Semicolon),
                _ => None,
            };
            if let Some(t) = single {
                self.bump();
                return t;
            }
            if c == '=' || c == '<' || c == '>' || c == '!' {
                self.bump();
                let followed = self.pos < self.chars.len() && self.chars[self.pos] == '=';
                if followed {
                    self.bump();
                }
                return match c {
                    '=' => if followed { Token::EqEq } else { Token::Eq },
                    '<' => if followed { Token::LtEq } else { Token::Lt },
                    '>' => if followed { Token::GtEq } else { Token::Gt },
                    _ => if followed { Token::NotEq } else { Token::Ident("!".to_owned()) },
                };
            }
            self.bump();
        }
        Token::EOF
    }

    /// Reads the run of digits under the cursor as a decimal `i64`; one
    /// that does not fit reads as zero.
    fn lex_number(&mut self) -> (t: Token)
        requires
            old(self).wf(),
            old(self).pos < old(self).chars@.len(),
            is_digit(old(self).chars@[old(self).pos as int]),
        ensures
            final(self).wf(),
            final(self).text == old(self).text,
            final(self).chars == old(self).chars,
            (t@, final(self).position()) == scan(old(self).input(), old(self).position()),
    {
        let ghost s = self.chars@;
        let ghost text0 = self.text;
        let ghost chars0 = self.chars;
        let start = self.pos;
        let mut acc: u64 = 0;
        let mut too_big = false;
        while self.pos < self.chars.len() && char_is_digit(self.chars[self.pos])
            invariant
                self.wf(),
                self.chars@ == s,
                self.text == text0,
                self.chars == chars0,
                start <= self.pos <= s.len(),
                forall|k: int| start <= k < self.pos ==> is_digit(#[trigger] s[k]),
                !too_big ==> acc == decimal_value(s.subrange(start as int, self.pos as int)),
                !too_big ==> acc <= i64::MAX,
                too_big ==> decimal_value(s.subrange(start as int, self.pos as int)) > i64::MAX,
            decreases s.len() - self.pos,
        {
            let c = self.chars[self.pos];
            let d: u64 = (c as u32 - '0' as u32) as u64;
            let ghost before = s.subrange(start as int, self.pos as int);
            let ghost after = s.subrange(start as int, self.pos + 1);
            proof {
                assert(after.drop_last() =~= before);
                assert(decimal_value(after) == decimal_value(before) * 10 + d);
            }
            if !too_big && acc <= (9223372036854775807u64 - d) / 10 {
                proof {
                    assert(acc * 10 + d <= 9223372036854775807u64) by (nonlinear_arith)
                        requires
                            acc <= (9223372036854775807u64 - d) / 10,
                            d <= 9,
                    ;
                }
                acc = acc * 10 + d;
            } else {
                proof {
                    if !too_big {
                        assert(acc * 10 + d > 9223372036854775807u64) by (nonlinear_arith)
                            requires
                                acc > (9223372036854775807u64 - d) / 10,
                                d <= 9,
                        ;
                    } else {
                        assert(decimal_value(before) * 10 + d > 9223372036854775807int) by (nonlinear_arith)
                            requires
                                decimal_value(before) > 9223372036854775807int,
                        ;
                    }
                }
                too_big = true;
            }
            self.pos = self.pos + 1;
        }
        proof {
            lemma_digit_end_is(s, start as int, self.pos as int);
        }
        if too_big {
            Token::Int(0)
        } else {
            Token::Int(acc as i64)
        }
    }
}

} // verus!
