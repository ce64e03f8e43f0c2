use vstd::prelude::*;
use crate::error::CompileError;
use crate::text::{decimal_i64, int_decimal, push_char};

verus! {

#[derive(Clone, Copy, Debug, PartialEq, Eq, Structural)]
pub enum Symbol {
    Add,            // +
    Sub,            // -
    Div,            // /
    Eq,             // ==
    Ne,             // !=
    Lt,             // <
    Le,             // <=
    Gt,             // >
    Ge,             // >=
    Assign,         // =
    Ampersand,      // &
    Asterisk,       // *
    Comma,          // ,
    Semicolon,      // ;
    OpeningParen,   // (
    ClosingParen,   // )
    OpeningBrace,   // {
    ClosingBrace,   // }
}

#[derive(Clone, Copy, Debug, PartialEq, Eq, Structural)]
pub enum Keyword {
    Int,
    If,
    Else,
    For,
    While,
    Return,
}

#[derive(Debug)]
pub enum TokenKind {
    Keyword(Keyword),
    Symbol(Symbol),
    Ident(String),
    Num(i64),
    Eof,
}

#[derive(Debug)]
pub struct Token {
    pub kind: TokenKind,
}

/// Mathematical model of a [`Token`].
pub enum Tok {
    Keyword(Keyword),
    Symbol(Symbol),
    Ident(Seq<char>),
    Num(i64),
    Eof,
}

impl Token {
    pub open spec fn view(&self) -> Tok {
        match self.kind {
            TokenKind::Keyword(k) => Tok::Keyword(k),
            TokenKind::Symbol(s) => Tok::Symbol(s),
            TokenKind::Ident(s) => Tok::Ident(s@),
            TokenKind::Num(n) => Tok::Num(n),
            TokenKind::Eof => Tok::Eof,
        }
    }
}

pub open spec fn tokens_view(s: Seq<Token>) -> Seq<Tok> {
    s.map_values(|t: Token| t.view())
}

// ----- character classes -----

pub open spec fn spec_is_digit(c: char) -> bool {
    '0' <= c <= '9'
}

pub open spec fn spec_is_alpha(c: char) -> bool {
    ('a' <= c <= 'z') || ('A' <= c <= 'Z') || c == '_'
}

pub open spec fn spec_is_alnum(c: char) -> bool {
    spec_is_alpha(c) || spec_is_digit(c)
}

/// The characters with the Unicode `White_Space` property.
pub open spec fn spec_is_space(c: char) -> bool {
    ('\t' <= c <= '\r') || c == ' ' || c == '\u{85}' || c == '\u{a0}' || c == '\u{1680}'
        || ('\u{2000}' <= c <= '\u{200a}') || c == '\u{2028}' || c == '\u{2029}'
        || c == '\u{202f}' || c == '\u{205f}' || c == '\u{3000}'
}

/// The symbol spelled by one character.
pub open spec fn spec_symbol1(c: char) -> Option<Symbol> {
    if c == '+' { Some(Symbol::Add) }
    else if c == '-' { Some(Symbol::Sub) }
    else if c == '*' { Some(Symbol::Asterisk) }
    else if c == '/' { Some(Symbol::Div) }
    else if c == '<' { Some(Symbol::Lt) }
    else if c == '>' { Some(Symbol::Gt) }
    else if c == '=' { Some(Symbol::Assign) }
    else if c == '&' { Some(Symbol::Ampersand) }
    else if c == ',' { Some(Symbol::Comma) }
    else if c == ';' { Some(Symbol::Semicolon) }
    else if c == '(' { Some(Symbol::OpeningParen) }
    else if c == ')' { Some(Symbol::ClosingParen) }
    else if c == '{' { Some(Symbol::OpeningBrace) }
    else if c == '}' { Some(Symbol::ClosingBrace) }
    else { None }
}

/// The symbol spelled by two characters.
pub open spec fn spec_symbol2(a: char, b: char) -> Option<Symbol> {
    if b != '=' { None }
    else if a == '=' { Some(Symbol::Eq) }
    else if a == '!' { Some(Symbol::Ne) }
    else if a == '<' { Some(Symbol::Le) }
    else if a == '>' { Some(Symbol::Ge) }
    else { None }
}

/// The keyword spelled by a word.
pub open spec fn spec_keyword(w: Seq<char>) -> Option<Keyword> {
    if w == seq!['i', 'n', 't'] { Some(Keyword::Int) }
    else if w == seq!['i', 'f'] { Some(Keyword::If) }
    else if w == seq!['e', 'l', 's', 'e'] { Some(Keyword::Else) }
    else if w == seq!['f', 'o', 'r'] { Some(Keyword::For) }
    else if w == seq!['w', 'h', 'i', 'l', 'e'] { Some(Keyword::While) }
    else if w == seq!['r', 'e', 't', 'u', 'r', 'n'] { Some(Keyword::Return) }
    else { None }
}

/// Number of digits in the run that starts at `i`.
pub open spec fn digit_run(code: Seq<char>, i: int) -> nat
    decreases code.len() - i,
{
    if 0 <= i < code.len() && spec_is_digit(code[i]) {
        1 + digit_run(code, i + 1)
    } else {
        0
    }
}

/// Number of letters, digits and underscores in the run that starts at `i`.
pub open spec fn word_run(code: Seq<char>, i: int) -> nat
    decreases code.len() - i,
{
    if 0 <= i < code.len() && spec_is_alnum(code[i]) {
        1 + word_run(code, i + 1)
    } else {
        0
    }
}

/// The value of a sequence of decimal digits.
pub open spec fn digits_value(s: Seq<char>) -> int
    decreases s.len(),
{
    if s.len() == 0 {
        0
    } else {
        digits_value(s.drop_last()) * 10 + (s.last() as int - '0' as int)
    }
}

/// A run never reaches past the end of the text.
pub proof fn lemma_runs_bounded(code: Seq<char>, i: int)
    requires
        0 <= i <= code.len(),
    ensures
        i + digit_run(code, i) <= code.len(),
        i + word_run(code, i) <= code.len(),
    decreases code.len() - i,
{
    if i < code.len() {
        lemma_runs_bounded(code, i + 1);
    }
}

pub open spec fn cons(t: Tok, r: Result<Seq<Tok>, CompileError>) -> Result<Seq<Tok>, CompileError> {
    match r {
        Ok(s) => Ok(seq![t] + s),
        Err(e) => Err(e),
    }
}

/// The tokens of `code` from character index `i` on: whitespace separates
/// tokens; a run of digits is a number; a word is a keyword or an identifier;
/// two-character symbols win over one-character ones; `Eof` ends the list.
pub open spec fn lex_from(code: Seq<char>, i: int) -> Result<Seq<Tok>, CompileError>
    decreases code.len() - i,
{
    if i < 0 || i >= code.len() {
        Ok(seq![Tok::Eof])
    } else {
        let c = code[i];
        proof {
            lemma_runs_bounded(code, i + 1);
        }
        if spec_is_space(c) {
            lex_from(code, i + 1)
        } else if spec_is_digit(c) {
            let end = i + 1 + digit_run(code, i + 1);
            let v = digits_value(code.subrange(i, end));
            if v > i64::MAX {
                Err(CompileError::LexicalError(i as usize))
            } else {
                cons(Tok::Num(v as i64), lex_from(code, end))
            }
        } else if spec_is_alpha(c) {
            let end = i + 1 + word_run(code, i + 1);
            let w = code.subrange(i, end);
            let t = match spec_keyword(w) {
                Some(k) => Tok::Keyword(k),
                None => Tok::Ident(w),
            };
            cons(t, lex_from(code, end))
        } else if i + 1 < code.len() && spec_symbol2(c, code[i + 1]) is Some {
            cons(Tok::Symbol(spec_symbol2(c, code[i + 1])->0), lex_from(code, i + 2))
        } else if spec_symbol1(c) is Some {
            cons(Tok::Symbol(spec_symbol1(c)->0), lex_from(code, i + 1))
        } else {
            Err(CompileError::LexicalError(i as usize))
        }
    }
}

pub open spec fn prefixed(p: Seq<Tok>, r: Result<Seq<Tok>, CompileError>) -> Result<Seq<Tok>, CompileError> {
    match r {
        Ok(s) => Ok(p + s),
        Err(e) => Err(e),
    }
}

proof fn lemma_prefixed_cons(p: Seq<Tok>, t: Tok, r: Result<Seq<Tok>, CompileError>)
    ensures
        prefixed(p, cons(t, r)) == prefixed(p.push(t), r),
{
    if let Ok(s) = r {
        assert(p + (seq![t] + s) =~= p.push(t) + s);
    }
}

proof fn lemma_tokens_view_push(s: Seq<Token>, t: Token)
    ensures
        tokens_view(s.push(t)) == tokens_view(s).push(t.view()),
{
    assert(tokens_view(s.push(t)) =~= tokens_view(s).push(t.view()));
}

fn is_digit(c: char) -> (r: bool)
    ensures
        r == spec_is_digit(c),
{
    '0' <= c && c <= '9'
}

fn is_alpha(c: char) -> (r: bool)
    ensures
        r == spec_is_alpha(c),
{
    ('a' <= c && c <= 'z') || ('A' <= c && c <= 'Z') || c == '_'
}

fn is_alnum(c: char) -> (r: bool)
    ensures
        r == spec_is_alnum(c),
{
    is_alpha(c) || is_digit(c)
}

fn is_space(c: char) -> (r: bool)
    ensures
        r == spec_is_space(c),
{
    ('\t' <= c && c <= '\r') || c == ' ' || c == '\u{85}' || c == '\u{a0}' || c == '\u{1680}'
        || ('\u{2000}' <= c && c <= '\u{200a}') || c == '\u{2028}' || c == '\u{2029}'
        || c == '\u{202f}' || c == '\u{205f}' || c == '\u{3000}'
}

fn symbol1_of(c: char) -> (r: Option<Symbol>)
    ensures
        r == spec_symbol1(c),
{
    if c == '+' { Some(Symbol::Add) }
    else if c == '-' { Some(Symbol::Sub) }
    else if c == '*' { Some(Symbol::Asterisk) }
    else if c == '/' { Some(Symbol::Div) }
    else if c == '<' { Some(Symbol::Lt) }
    else if c == '>' { Some(Symbol::Gt) }
    else if c == '=' { Some(Symbol::Assign) }
    else if c == '&' { Some(Symbol::Ampersand) }
    else if c == ',' { Some(Symbol::Comma) }
    else if c == ';' { Some(Symbol::Semicolon) }
    else if c == '(' { Some(Symbol::OpeningParen) }
    else if c == ')' { Some(Symbol::ClosingParen) }
    else if c == '{' { Some(Symbol::OpeningBrace) }
    else if c == '}' { Some(Symbol::ClosingBrace) }
    else { None }
}

fn symbol2_of(a: char, b: char) -> (r: Option<Symbol>)
    ensures
        r == spec_symbol2(a, b),
{
    if b != '=' { None }
    else if a == '=' { Some(Symbol::Eq) }
    else if a == '!' { Some(Symbol::Ne) }
    else if a == '<' { Some(Symbol::Le) }
    else if a == '>' { Some(Symbol::Ge) }
    else { None }
}

fn keyword_of(w: &Vec<char>) -> (r: Option<Keyword>)
    ensures
        r == spec_keyword(w@),
{
    let n = w.len();
    if n == 3 && w[0] == 'i' && w[1] == 'n' && w[2] == 't' {
        assert(w@ =~= seq!['i', 'n', 't']);
        Some(Keyword::Int)
    } else if n == 2 && w[0] == 'i' && w[1] == 'f' {
        assert(w@ =~= seq!['i', 'f']);
        Some(Keyword::If)
    } else if n == 4 && w[0] == 'e' && w[1] == 'l' && w[2] == 's' && w[3] == 'e' {
        assert(w@ =~= seq!['e', 'l', 's', 'e']);
        Some(Keyword::Else)
    } else if n == 3 && w[0] == 'f' && w[1] == 'o' && w[2] == 'r' {
        assert(w@ =~= seq!['f', 'o', 'r']);
        Some(Keyword::For)
    } else if n == 5 && w[0] == 'w' && w[1] == 'h' && w[2] == 'i' && w[3] == 'l' && w[4] == 'e' {
        assert(w@ =~= seq!['w', 'h', 'i', 'l', 'e']);
        Some(Keyword::While)
    } else if n == 6 && w[0] == 'r' && w[1] == 'e' && w[2] == 't' && w[3] == 'u' && w[4] == 'r'
        && w[5] == 'n' {
        assert(w@ =~= seq!['r', 'e', 't', 'u', 'r', 'n']);
        Some(Keyword::Return)
    } else {
        None
    }
}

/// How a symbol is written.
pub open spec fn symbol_text(s: Symbol) -> Seq<char> {
    match s {
        Symbol::Add => "+"@,
        Symbol::Sub => "-"@,
        Symbol::Div => "/"@,
        Symbol::Eq => "=="@,
        Symbol::Ne => "!="@,
        Symbol::Lt => "<"@,
        Symbol::Le => "<="@,
        Symbol::Gt => ">"@,
        Symbol::Ge => ">="@,
        Symbol::Assign => "="@,
        Symbol::Ampersand => "&"@,
        Symbol::Asterisk => "*"@,
        Symbol::Comma => ","@,
        Symbol::Semicolon => ";"@,
        Symbol::OpeningParen => "("@,
        Symbol::ClosingParen => ")"@,
        Symbol::OpeningBrace => "{"@,
        Symbol::ClosingBrace => "}"@,
    }
}

/// How a keyword is written.
pub open spec fn keyword_text(k: Keyword) -> Seq<char> {
    match k {
        Keyword::Int => "int"@,
        Keyword::If => "if"@,
        Keyword::Else => "else"@,
        Keyword::For => "for"@,
        Keyword::While => "while"@,
        Keyword::Return => "return"@,
    }
}

/// What a diagnostic calls a token that is neither an identifier nor a number.
pub open spec fn token_description(t: Tok) -> Seq<char> {
    match t {
        Tok::Keyword(k) => "keyword "@ + keyword_text(k),
        Tok::Symbol(s) => "symbol "@ + symbol_text(s),
        _ => "end of input"@,
    }
}

fn symbol_str(s: Symbol) -> (r: &'static str)
    ensures
        r@ == symbol_text(s),
{
    match s {
        Symbol::Add => "+",
        Symbol::Sub => "-",
        Symbol::Div => "/",
        Symbol::Eq => "==",
        Symbol::Ne => "!=",
        Symbol::Lt => "<",
        Symbol::Le => "<=",
        Symbol::Gt => ">",
        Symbol::Ge => ">=",
        Symbol::Assign => "=",
        Symbol::Ampersand => "&",
        Symbol::Asterisk => "*",
        Symbol::Comma => ",",
        Symbol::Semicolon => ";",
        Symbol::OpeningParen => "(",
        Symbol::ClosingParen => ")",
        Symbol::OpeningBrace => "{",
        Symbol::ClosingBrace => "}",
    }
}

fn keyword_str(k: Keyword) -> (r: &'static str)
    ensures
        r@ == keyword_text(k),
{
    match k {
        Keyword::Int => "int",
        Keyword::If => "if",
        Keyword::Else => "else",
        Keyword::For => "for",
        Keyword::While => "while",
        Keyword::Return => "return",
    }
}

impl Token {
    fn new(kind: TokenKind) -> (r: Self)
        ensures
            r.kind == kind,
    {
        Self { kind }
    }

    /// The text of an identifier or a number token; for any other token, a
    /// diagnostic `error:` followed by a description of the token.
    pub fn get_string(&self) -> (r: String)
        ensures
            self.kind is Ident ==> r@ == self.kind->Ident_0@,
            self.kind is Num ==> r@ == int_decimal(self.kind->Num_0 as int),
            !(self.kind is Ident || self.kind is Num) ==> {
                &&& r@ == "error:"@ + token_description(self.view())
                &&& r@.len() > 6
                &&& r@.subrange(0, 6) == seq!['e', 'r', 'r', 'o', 'r', ':']
            },
    {
        proof {
            reveal_strlit("error:");
            reveal_strlit("keyword ");
            reveal_strlit("symbol ");
            reveal_strlit("end of input");
        }
        match &self.kind {
            TokenKind::Ident(s) => s.clone(),
            TokenKind::Num(n) => decimal_i64(*n),
            TokenKind::Keyword(k) => {
                let mut d = String::from_str("error:");
                d.append("keyword ");
                d.append(keyword_str(*k));
                assert(d@ =~= "error:"@ + ("keyword "@ + keyword_text(*k)));
                assert(d@.subrange(0, 6) =~= seq!['e', 'r', 'r', 'o', 'r', ':']);
                d
            },
            TokenKind::Symbol(sym) => {
                let mut d = String::from_str("error:");
                d.append("symbol ");
                d.append(symbol_str(*sym));
                assert(d@ =~= "error:"@ + ("symbol "@ + symbol_text(*sym)));
                assert(d@.subrange(0, 6) =~= seq!['e', 'r', 'r', 'o', 'r', ':']);
                d
            },
            TokenKind::Eof => {
                let mut d = String::from_str("error:");
                d.append("end of input");
                assert(d@.subrange(0, 6) =~= seq!['e', 'r', 'r', 'o', 'r', ':']);
                d
            },
        }
    }

    pub fn get_num(&self) -> (r: i64)
        requires
            self.kind is Num,
        ensures
            r == self.kind->Num_0,
    {
        match self.kind {
            TokenKind::Num(n) => n,
            _ => {
                proof { assert(false); }
                0
            }
        }
    }
}

impl TokenKind {
    pub fn is_identifier(&self) -> (r: bool)
        ensures
            r == (self is Ident),
    {
        matches!(self, TokenKind::Ident(_))
    }

    pub fn is_keyword(&self) -> (r: bool)
        ensures
            r == (self is Keyword),
    {
        matches!(self, TokenKind::Keyword(_))
    }

    pub fn is_num(&self) -> (r: bool)
        ensures
            r == (self is Num),
    {
        matches!(self, TokenKind::Num(_))
    }
}

/// Source text under a reading cursor.
#[derive(Debug)]
pub struct Lexer {
    code: Vec<char>,
    pos: usize,
}

impl Lexer {
    /// The characters of the source text.
    pub closed spec fn source(&self) -> Seq<char> {
        self.code@
    }

    /// The index of the next character to read.
    pub closed spec fn cursor(&self) -> int {
        self.pos as int
    }

    pub closed spec fn wf(&self) -> bool {
        self.pos <= self.code.len()
    }

    pub fn new(args: &String) -> (r: Lexer)
        ensures
            r.wf(),
            r.source() == args@,
            r.cursor() == 0,
    {
        let s = args.as_str();
        let n = s.unicode_len();
        let mut code: Vec<char> = Vec::new();
        let mut i: usize = 0;
        while i < n
            invariant
                n == s@.len(),
                i <= n,
                code@ == s@.take(i as int),
            decreases n - i,
        {
            code.push(s.get_char(i));
            assert(s@.take(i + 1) =~= s@.take(i as int).push(s@[i as int]));
            i = i + 1;
        }
        assert(s@.take(n as int) =~= s@);
        Lexer { code, pos: 0 }
    }

    fn getc(&self) -> (c: char)
        requires
            self.pos < self.code.len(),
        ensures
            c == self.code@[self.pos as int],
    {
        self.code[self.pos]
    }

    fn next_pos(&mut self, n: usize)
        requires
            old(self).pos + n <= old(self).code.len(),
        ensures
            final(self).code@ == old(self).code@,
            final(self).pos == old(self).pos + n,
    {
        self.pos = self.pos + n;
    }

    fn is_last(&self) -> (r: bool)
        requires
            self.wf(),
        ensures
            r == (self.pos == self.code.len()),
    {
        self.code.len() == self.pos
    }

    /// Reads the run of digits at the cursor as a number.
    fn strtol(&mut self) -> (r: Result<i64, CompileError>)
        requires
            old(self).pos < old(self).code.len(),
            spec_is_digit(old(self).code@[old(self).pos as int]),
        ensures
            final(self).code@ == old(self).code@,
            final(self).pos == old(self).pos + digit_run(old(self).code@, old(self).pos as int),
            ({
                let v = digits_value(
                    old(self).code@.subrange(old(self).pos as int, final(self).pos as int),
                );
                if v > i64::MAX {
                    r == Err::<i64, CompileError>(CompileError::LexicalError(old(self).pos))
                } else {
                    r == Ok::<i64, CompileError>(v as i64)
                }
            }),
    {
        let start = self.pos;
        let ghost code = self.code@;
        let mut v: i64 = 0;
        let mut overflow = false;
        proof {
            lemma_runs_bounded(code, start as int);
        }
        while self.pos < self.code.len() && is_digit(self.code[self.pos])
            invariant
                self.code@ == code,
                start <= self.pos <= code.len(),
                start + digit_run(code, start as int) <= code.len(),
                digit_run(code, start as int) == (self.pos - start) + digit_run(code, self.pos as int),
                forall|k: int| start <= k < self.pos ==> spec_is_digit(#[trigger] code[k]),
                !overflow ==> v as int == digits_value(code.subrange(start as int, self.pos as int)),
                overflow ==> digits_value(code.subrange(start as int, self.pos as int)) > i64::MAX,
                digits_value(code.subrange(start as int, self.pos as int)) >= 0,
            decreases code.len() - self.pos,
        {
            let c = self.code[self.pos];
            let d: i64 = if c == '0' { 0 } else if c == '1' { 1 } else if c == '2' { 2 }
                else if c == '3' { 3 } else if c == '4' { 4 } else if c == '5' { 5 }
                else if c == '6' { 6 } else if c == '7' { 7 } else if c == '8' { 8 } else { 9 };
            assert(d == c as int - '0' as int);
            let ghost prev = code.subrange(start as int, self.pos as int);
            assert(code.subrange(start as int, self.pos + 1).drop_last() =~= prev);
            if !overflow {
                match v.checked_mul(10) {
                    Some(m) => match m.checked_add(d) {
                        Some(a) => { v = a; }
                        None => { overflow = true; }
                    },
                    None => { overflow = true; }
                }
            }
            self.pos = self.pos + 1;
        }
        if overflow {
            Err(CompileError::LexicalError(start))
        } else {
            Ok(v)
        }
    }

    /// Reads the word at the cursor.
    fn word(&mut self) -> (r: (Vec<char>, String))
        requires
            old(self).pos < old(self).code.len(),
        ensures
            final(self).code@ == old(self).code@,
            final(self).pos == old(self).pos + 1 + word_run(old(self).code@, old(self).pos + 1),
            r.0@ == old(self).code@.subrange(old(self).pos as int, final(self).pos as int),
            r.1@ == r.0@,
    {
        let start = self.pos;
        let ghost code = self.code@;
        proof {
            lemma_runs_bounded(code, start + 1);
        }
        let mut w: Vec<char> = Vec::new();
        let mut s = String::new();
        let c = self.code[self.pos];
        w.push(c);
        push_char(&mut s, c);
        self.pos = self.pos + 1;
        while self.pos < self.code.len() && is_alnum(self.code[self.pos])
            invariant
                self.code@ == code,
                start < self.pos <= code.len(),
                start + 1 + word_run(code, start + 1) <= code.len(),
                word_run(code, start + 1) == (self.pos - start - 1) + word_run(code, self.pos as int),
                w@ == code.subrange(start as int, self.pos as int),
                s@ == w@,
            decreases code.len() - self.pos,
        {
            let c = self.code[self.pos];
            w.push(c);
            push_char(&mut s, c);
            assert(code.subrange(start as int, self.pos + 1) =~= code.subrange(start as int, self.pos as int).push(c));
            self.pos = self.pos + 1;
        }
        (w, s)
    }

    /// Splits the source text into tokens, ending with `Eof`.
    pub fn tokenize(self) -> (r: Result<Vec<Token>, CompileError>)
        requires
            self.wf(),
        ensures
            match lex_from(self.source(), self.cursor()) {
                Ok(ts) => r is Ok && tokens_view(r->Ok_0@) == ts,
                Err(e) => r == Err::<Vec<Token>, CompileError>(e),
            },
    {
        let ghost code = self.code@;
        let ghost start = self.pos as int;
        let mut lx = Lexer { code: self.code, pos: self.pos };
        let mut tokens: Vec<Token> = Vec::new();
        assert(tokens_view(tokens@) =~= Seq::<Tok>::empty());
        assert(lex_from(code, start) == prefixed(tokens_view(tokens@), lex_from(code, start))) by {
            match lex_from(code, start) {
                Ok(s) => { assert(Seq::<Tok>::empty() + s =~= s); }
                Err(_) => {}
            }
        }
        while !lx.is_last()
            invariant
                lx.wf(),
                lx.code@ == code,
                code == self.source(),
                start == self.cursor(),
                lex_from(code, start) == prefixed(tokens_view(tokens@), lex_from(code, lx.pos as int)),
            decreases code.len() - lx.pos,
        {
            let ghost p = lx.pos as int;
            let c = lx.getc();
            proof {
                lemma_runs_bounded(code, p + 1);
            }
            if is_space(c) {
                lx.next_pos(1);
                continue;
            }
            if is_digit(c) {
                assert(digit_run(code, p) == 1 + digit_run(code, p + 1));
                match lx.strtol() {
                    Ok(v) => {
                        let t = Token::new(TokenKind::Num(v));
                        proof {
                            lemma_prefixed_cons(tokens_view(tokens@), t.view(), lex_from(code, lx.pos as int));
                            lemma_tokens_view_push(tokens@, t);
                        }
                        tokens.push(t);
                    }
                    Err(e) => {
                        return Err(e);
                    }
                }
                continue;
            }
            if is_alpha(c) {
                let (w, s) = lx.word();
                let t = match keyword_of(&w) {
                    Some(k) => Token::new(TokenKind::Keyword(k)),
                    None => Token::new(TokenKind::Ident(s)),
                };
                proof {
                    lemma_prefixed_cons(tokens_view(tokens@), t.view(), lex_from(code, lx.pos as int));
                    lemma_tokens_view_push(tokens@, t);
                }
                tokens.push(t);
                continue;
            }
            if lx.pos + 1 < lx.code.len() {
                if let Some(sym) = symbol2_of(c, lx.code[lx.pos + 1]) {
                    let t = Token::new(TokenKind::Symbol(sym));
                    lx.next_pos(2);
                    proof {
                        lemma_prefixed_cons(tokens_view(tokens@), t.view(), lex_from(code, lx.pos as int));
                        lemma_tokens_view_push(tokens@, t);
                    }
                    tokens.push(t);
                    continue;
                }
            }
            if let Some(sym) = symbol1_of(c) {
                let t = Token::new(TokenKind::Symbol(sym));
                lx.next_pos(1);
                proof {
                    lemma_prefixed_cons(tokens_view(tokens@), t.view(), lex_from(code, lx.pos as int));
                    lemma_tokens_view_push(tokens@, t);
                }
                tokens.push(t);
                continue;
            }
            assert(lex_from(code, p) == Err::<Seq<Tok>, CompileError>(CompileError::LexicalError(lx.pos)));
            return Err(CompileError::LexicalError(lx.pos));
        }
        let t = Token::new(TokenKind::Eof);
        proof {
            lemma_tokens_view_push(tokens@, t);
            assert(tokens_view(tokens@) + seq![Tok::Eof] =~= tokens_view(tokens@).push(Tok::Eof));
        }
        tokens.push(t);
        Ok(tokens)
    }
}

} // verus!
