//! The lexer: source text to tokens with their line and column.
use vstd::prelude::*;
use crate::vm::{Value, ValueM, value_m, clone_value};
use crate::util::{str_eq, push_char, chars_of};

verus! {

/// A lexical token.
#[derive(Debug, PartialEq)]
pub enum Token {
    Danda, // ।
    DoubleDanda, // ॥
    FuncDeclKW, // कार्य
    VarDeclKW, // मान
    StructKW, // वस्तु_विन्यासः
    TraitKW, // गुणधर्म
    ImplKW, // अनुष्ठान
    EnumKW, // रूपभेदः
    MatchKW, // समीक्षा
    Import, // आयात
    If, // यदि
    Tarhi, // तर्हि
    Anyatha, // अन्यथा
    Yavat, // यावत्
    Tavat, // तावत्
    Pratiphala, // प्रतिफल (return)
    AsyncKW, // असमकाल
    AwaitKW, // प्रतीक्षस्व
    Spawn, // सहप्रक्रिया
    Delay, // विलम्बः
    Foreign, // वैदेशिक
    ForeignKW, // विदेशीय
    Reference, // सन्दर्भः
    Mutable, // परिवर्त्य
    UdAtta, // उदात्त (public)
    AnudAtta, // अनुदात्त (private)
    Svarita, // स्वरित (protected)
    Cha, // च (and)
    Va, // वा (or)
    LessThan,
    GreaterThan,
    LessEqual,
    GreaterEqual,
    EqualEqual,
    NotEqual,
    Samana, // समान (==)
    Una, // ऊन (<)
    Agra, // अग्र (>)
    UnaSamana, // ऊनसमान (<=)
    AgraSamana, // अग्रसमान (>=)
    Asamana, // असमान (!=)
    Colon,
    Comma,
    Dot,
    LeftParen,
    RightParen,
    LeftBrace,
    RightBrace,
    AtSign,
    Arrow,
    FatArrow,
    Assign,
    Plus,
    Minus,
    Star,
    Slash,
    Percent,
    Identifier(String),
    Literal(Value),
    IntLiteral(i64),
    /// A number written with a decimal point, as written (digits in ASCII).
    FloatLiteral(String),
}

/// The model of a token: a token without data stands for itself; names and
/// literals carry their text or value.
pub enum TokenM {
    Kw(Token),
    Identifier(Seq<char>),
    Literal(ValueM),
    IntLiteral(i64),
    FloatLiteral(Seq<char>),
}

impl View for Token {
    type V = TokenM;

    open spec fn view(&self) -> TokenM {
        match self {
            Token::Identifier(s) => TokenM::Identifier(s@),
            Token::Literal(v) => TokenM::Literal(value_m(*v)),
            Token::IntLiteral(n) => TokenM::IntLiteral(*n),
            Token::FloatLiteral(s) => TokenM::FloatLiteral(s@),
            _ => TokenM::Kw(*self),
        }
    }
}

/// A copy of a token.
pub fn clone_token(t: &Token) -> (r: Token)
    ensures
        r@ == t@,
{
    match t {
        Token::Danda => Token::Danda,
        Token::DoubleDanda => Token::DoubleDanda,
        Token::FuncDeclKW => Token::FuncDeclKW,
        Token::VarDeclKW => Token::VarDeclKW,
        Token::StructKW => Token::StructKW,
        Token::TraitKW => Token::TraitKW,
        Token::ImplKW => Token::ImplKW,
        Token::EnumKW => Token::EnumKW,
        Token::MatchKW => Token::MatchKW,
        Token::Import => Token::Import,
        Token::If => Token::If,
        Token::Tarhi => Token::Tarhi,
        Token::Anyatha => Token::Anyatha,
        Token::Yavat => Token::Yavat,
        Token::Tavat => Token::Tavat,
        Token::Pratiphala => Token::Pratiphala,
        Token::AsyncKW => Token::AsyncKW,
        Token::AwaitKW => Token::AwaitKW,
        Token::Spawn => Token::Spawn,
        Token::Delay => Token::Delay,
        Token::Foreign => Token::Foreign,
        Token::ForeignKW => Token::ForeignKW,
        Token::Reference => Token::Reference,
        Token::Mutable => Token::Mutable,
        Token::UdAtta => Token::UdAtta,
        Token::AnudAtta => Token::AnudAtta,
        Token::Svarita => Token::Svarita,
        Token::Cha => Token::Cha,
        Token::Va => Token::Va,
        Token::LessThan => Token::LessThan,
        Token::GreaterThan => Token::GreaterThan,
        Token::LessEqual => Token::LessEqual,
        Token::GreaterEqual => Token::GreaterEqual,
        Token::EqualEqual => Token::EqualEqual,
        Token::NotEqual => Token::NotEqual,
        Token::Samana => Token::Samana,
        Token::Una => Token::Una,
        Token::Agra => Token::Agra,
        Token::UnaSamana => Token::UnaSamana,
        Token::AgraSamana => Token::AgraSamana,
        Token::Asamana => Token::Asamana,
        Token::Colon => Token::Colon,
        Token::Comma => Token::Comma,
        Token::Dot => Token::Dot,
        Token::LeftParen => Token::LeftParen,
        Token::RightParen => Token::RightParen,
        Token::LeftBrace => Token::LeftBrace,
        Token::RightBrace => Token::RightBrace,
        Token::AtSign => Token::AtSign,
        Token::Arrow => Token::Arrow,
        Token::FatArrow => Token::FatArrow,
        Token::Assign => Token::Assign,
        Token::Plus => Token::Plus,
        Token::Minus => Token::Minus,
        Token::Star => Token::Star,
        Token::Slash => Token::Slash,
        Token::Percent => Token::Percent,
        Token::Identifier(s) => Token::Identifier(s.clone()),
        Token::Literal(v) => Token::Literal(clone_value(v)),
        Token::IntLiteral(n) => Token::IntLiteral(*n),
        Token::FloatLiteral(s) => Token::FloatLiteral(s.clone()),
    }
}

impl Clone for Token {
    fn clone(&self) -> (r: Self)
        ensures
            r@ == self@,
    {
        clone_token(self)
    }
}

/// A token with the line and column it was read at.
#[derive(Debug)]
pub struct SpannedToken {
    pub token: Token,
    pub line: usize,
    pub col: usize,
}

/// The model of a token with its place.
pub struct SpannedTokenM {
    pub token: TokenM,
    pub line: int,
    pub col: int,
}

impl View for SpannedToken {
    type V = SpannedTokenM;

    open spec fn view(&self) -> SpannedTokenM {
        SpannedTokenM { token: self.token@, line: self.line as int, col: self.col as int }
    }
}

impl Clone for SpannedToken {
    fn clone(&self) -> (r: Self)
        ensures
            r@ == self@,
    {
        SpannedToken { token: clone_token(&self.token), line: self.line, col: self.col }
    }
}

pub open spec fn tokens_m(s: Seq<SpannedToken>) -> Seq<SpannedTokenM> {
    s.map_values(|t: SpannedToken| t@)
}

/// A place in the source: the index of the next character, and its line and
/// column (both counted from 1).
pub struct Cursor {
    pub pos: int,
    pub line: int,
    pub col: int,
}

/// Whether `c` has the Unicode White_Space property.
pub open spec fn is_white_space(c: char) -> bool {
    ('\u{9}' <= c && c <= '\u{d}') || c == ' ' || c == '\u{85}' || c == '\u{a0}' || c == '\u{1680}'
        || ('\u{2000}' <= c && c <= '\u{200a}') || c == '\u{2028}' || c == '\u{2029}' || c == '\u{202f}'
        || c == '\u{205f}' || c == '\u{3000}'
}

pub open spec fn is_ascii_digit(c: char) -> bool {
    '0' <= c && c <= '9'
}

/// The Devanagari digits ० … ९.
pub open spec fn is_devanagari_digit(c: char) -> bool {
    '\u{966}' <= c && c <= '\u{96f}'
}

/// The Devanagari block, U+0900 … U+097F.
pub open spec fn is_devanagari(c: char) -> bool {
    '\u{900}' <= c && c <= '\u{97f}'
}

/// Whether `c` has the Unicode Alphabetic property (`char::is_alphabetic`).
pub uninterp spec fn unicode_alphabetic(c: char) -> bool;

/// Whether `c` is alphabetic or numeric in Unicode (`char::is_alphanumeric`).
pub uninterp spec fn unicode_alphanumeric(c: char) -> bool;

/// An ASCII letter.
pub open spec fn is_ascii_letter(c: char) -> bool {
    ('a' <= c && c <= 'z') || ('A' <= c && c <= 'Z')
}

/// Whether `c` is alphabetic: for ASCII exactly the letters, beyond ASCII
/// the Unicode Alphabetic property.
pub open spec fn alphabetic(c: char) -> bool {
    if (c as u32) < 0x80 { is_ascii_letter(c) } else { unicode_alphabetic(c) }
}

/// Whether `c` is alphanumeric: for ASCII exactly the letters and digits,
/// beyond ASCII alphabetic or numeric in Unicode.
pub open spec fn alphanumeric(c: char) -> bool {
    if (c as u32) < 0x80 { is_ascii_letter(c) || is_ascii_digit(c) } else { unicode_alphanumeric(c) }
}

/// `char::is_alphabetic`: whether the character has the Unicode Alphabetic
/// property.  The result is named; of ASCII characters its documentation
/// makes the letters, and only they, alphabetic.
#[verifier::external_body]
fn char_is_alphabetic(c: char) -> (r: bool)
    ensures
        r == unicode_alphabetic(c),
        (c as u32) < 0x80 ==> (r <==> is_ascii_letter(c)),
{
    c.is_alphabetic()
}

/// `char::is_alphanumeric`: alphabetic or numeric in Unicode; by its
/// documentation every alphabetic character is alphanumeric, and of ASCII
/// characters exactly the letters and digits are.
#[verifier::external_body]
fn char_is_alphanumeric(c: char) -> (r: bool)
    ensures
        r == unicode_alphanumeric(c),
        unicode_alphabetic(c) ==> r,
        (c as u32) < 0x80 ==> (r <==> (is_ascii_letter(c) || is_ascii_digit(c))),
{
    c.is_alphanumeric()
}

/// A character that begins a name.
pub open spec fn starts_word(c: char) -> bool {
    alphabetic(c) || c == '_' || is_devanagari(c)
}

/// A character that continues a name.
pub open spec fn in_word(c: char) -> bool {
    alphanumeric(c) || c == '_' || is_devanagari(c)
}

/// A character that continues a number.
pub open spec fn in_number(c: char) -> bool {
    is_ascii_digit(c) || is_devanagari_digit(c) || c == '.'
}

/// One character consumed.
pub open spec fn step(s: Seq<char>, c: Cursor) -> Cursor {
    if 0 <= c.pos < s.len() {
        if s[c.pos] == '\n' {
            Cursor { pos: c.pos + 1, line: c.line + 1, col: 1 }
        } else {
            Cursor { pos: c.pos + 1, line: c.line, col: c.col + 1 }
        }
    } else {
        c
    }
}

/// Characters consumed up to index `q`.
pub open spec fn advance_to(s: Seq<char>, c: Cursor, q: int) -> Cursor
    decreases q - c.pos,
{
    if 0 <= c.pos && c.pos < q && c.pos < s.len() {
        advance_to(s, step(s, c), q)
    } else {
        c
    }
}

/// The end of the run of characters satisfying `in_number` from `p`.
pub open spec fn number_end(s: Seq<char>, p: int) -> int
    decreases s.len() - p,
{
    if 0 <= p < s.len() && in_number(s[p]) {
        number_end(s, p + 1)
    } else {
        p
    }
}

/// The end of a name that begins at `p`: its first character, then the run
/// of characters satisfying `in_word`.
pub open spec fn word_run(s: Seq<char>, p: int) -> int
    decreases s.len() - p,
{
    if 0 <= p < s.len() && in_word(s[p]) {
        word_run(s, p + 1)
    } else {
        p
    }
}

/// The index of the line break that ends the line holding `p` (or the end).
pub open spec fn line_end(s: Seq<char>, p: int) -> int
    decreases s.len() - p,
{
    if 0 <= p < s.len() && s[p] != '\n' {
        line_end(s, p + 1)
    } else {
        p
    }
}

/// Where a block comment whose body starts at `p` ends: after the first
/// `*/`, or at the end of the source.
pub open spec fn block_end(s: Seq<char>, p: int) -> int
    decreases s.len() - p,
{
    if 0 <= p < s.len() {
        if s[p] == '*' && p + 1 < s.len() && s[p + 1] == '/' {
            p + 2
        } else {
            block_end(s, p + 1)
        }
    } else {
        p
    }
}

/// A string literal whose body starts at `p`: its text after escapes, and
/// where scanning resumes (after the closing quote, or at the end).
pub open spec fn string_body(s: Seq<char>, p: int) -> (Seq<char>, int)
    decreases s.len() - p,
{
    if p < 0 || p >= s.len() {
        (Seq::empty(), p)
    } else if s[p] == '"' {
        (Seq::empty(), p + 1)
    } else if s[p] == '\\' {
        if p + 1 >= s.len() {
            (seq!['\\'], p + 1)
        } else {
            let c = s[p + 1];
            let e = if c == 'n' {
                seq!['\n']
            } else if c == 't' {
                seq!['\t']
            } else if c == 'r' {
                seq!['\r']
            } else if c == '\\' {
                seq!['\\']
            } else if c == '"' {
                seq!['"']
            } else {
                seq!['\\', c]
            };
            let r = string_body(s, p + 2);
            (e + r.0, r.1)
        }
    } else {
        let r = string_body(s, p + 1);
        (seq![s[p]] + r.0, r.1)
    }
}

/// A digit with Devanagari digits written as ASCII ones.
pub open spec fn ascii_digit_of(c: char) -> char {
    if is_devanagari_digit(c) {
        ((c as int) - 0x966 + 0x30) as char
    } else {
        c
    }
}

/// The decimal value of a string of ASCII digits.
pub open spec fn digits_value(t: Seq<char>) -> int
    decreases t.len(),
{
    if t.len() == 0 {
        0
    } else {
        digits_value(t.drop_last()) * 10 + ((t.last() as int) - 0x30)
    }
}

/// The token of a number as written: with a point, its text; else its
/// value, or 0 where the value does not fit in 64 bits.
pub open spec fn number_token(raw: Seq<char>) -> TokenM {
    let t = raw.map_values(|c: char| ascii_digit_of(c));
    if raw.contains('.') {
        TokenM::FloatLiteral(t)
    } else if digits_value(t) <= i64::MAX {
        TokenM::IntLiteral(digits_value(t) as i64)
    } else {
        TokenM::IntLiteral(0)
    }
}

/// The token of a word: a keyword, a boolean literal or an identifier.
pub open spec fn word_token(w: Seq<char>) -> TokenM {
    if w == "कार्य"@ {
        TokenM::Kw(Token::FuncDeclKW)
    } else if w == "मान"@ {
        TokenM::Kw(Token::VarDeclKW)
    } else if w == "वस्तु_विन्यासः"@ {
        TokenM::Kw(Token::StructKW)
    } else if w == "गुणधर्म"@ {
        TokenM::Kw(Token::TraitKW)
    } else if w == "अनुष्ठान"@ {
        TokenM::Kw(Token::ImplKW)
    } else if w == "रूपभेदः"@ {
        TokenM::Kw(Token::EnumKW)
    } else if w == "समीक्षा"@ {
        TokenM::Kw(Token::MatchKW)
    } else if w == "आयात"@ {
        TokenM::Kw(Token::Import)
    } else if w == "उदात्त"@ {
        TokenM::Kw(Token::UdAtta)
    } else if w == "अनुदात्त"@ {
        TokenM::Kw(Token::AnudAtta)
    } else if w == "स्वरित"@ {
        TokenM::Kw(Token::Svarita)
    } else if w == "यदि"@ {
        TokenM::Kw(Token::If)
    } else if w == "तर्हि"@ {
        TokenM::Kw(Token::Tarhi)
    } else if w == "अन्यथा"@ {
        TokenM::Kw(Token::Anyatha)
    } else if w == "यावत्"@ {
        TokenM::Kw(Token::Yavat)
    } else if w == "तावत्"@ {
        TokenM::Kw(Token::Tavat)
    } else if w == "प्रतिफल"@ {
        TokenM::Kw(Token::Pratiphala)
    } else if w == "असमकाल"@ {
        TokenM::Kw(Token::AsyncKW)
    } else if w == "प्रतीक्षस्व"@ {
        TokenM::Kw(Token::AwaitKW)
    } else if w == "सहप्रक्रिया"@ {
        TokenM::Kw(Token::Spawn)
    } else if w == "विलम्बः"@ {
        TokenM::Kw(Token::Delay)
    } else if w == "वैदेशिक"@ {
        TokenM::Kw(Token::Foreign)
    } else if w == "विदेशीय"@ {
        TokenM::Kw(Token::ForeignKW)
    } else if w == "सन्दर्भः"@ {
        TokenM::Kw(Token::Reference)
    } else if w == "परिवर्त्य"@ {
        TokenM::Kw(Token::Mutable)
    } else if w == "सत"@ {
        TokenM::Literal(ValueM::Bool(true))
    } else if w == "असत"@ {
        TokenM::Literal(ValueM::Bool(false))
    } else if w == "च"@ {
        TokenM::Kw(Token::Cha)
    } else if w == "वा"@ {
        TokenM::Kw(Token::Va)
    } else if w == "समान"@ {
        TokenM::Kw(Token::Samana)
    } else if w == "ऊन"@ {
        TokenM::Kw(Token::Una)
    } else if w == "अग्र"@ {
        TokenM::Kw(Token::Agra)
    } else if w == "ऊनसमान"@ {
        TokenM::Kw(Token::UnaSamana)
    } else if w == "अग्रसमान"@ {
        TokenM::Kw(Token::AgraSamana)
    } else if w == "असमान"@ {
        TokenM::Kw(Token::Asamana)
    } else {
        TokenM::Identifier(w)
    }
}

pub open spec fn next_is(s: Seq<char>, c: Cursor, x: char) -> bool {
    0 <= c.pos < s.len() && s[c.pos] == x
}

pub open spec fn kw(t: Token) -> Option<TokenM> {
    Some(TokenM::Kw(t))
}

/// What a character that begins neither a name nor a number yields, given
/// the place just after it: a token or nothing (comments, a lone `!`, any
/// other character), and where scanning resumes.
pub open spec fn punct(s: Seq<char>, ch: char, c1: Cursor) -> (Option<TokenM>, Cursor) {
    if ch == ':' {
        (kw(Token::Colon), c1)
    } else if ch == ',' {
        (kw(Token::Comma), c1)
    } else if ch == '.' {
        (kw(Token::Dot), c1)
    } else if ch == '(' {
        (kw(Token::LeftParen), c1)
    } else if ch == ')' {
        (kw(Token::RightParen), c1)
    } else if ch == '{' {
        (kw(Token::LeftBrace), c1)
    } else if ch == '}' {
        (kw(Token::RightBrace), c1)
    } else if ch == '+' {
        (kw(Token::Plus), c1)
    } else if ch == '-' {
        if next_is(s, c1, '>') { (kw(Token::Arrow), step(s, c1)) } else { (kw(Token::Minus), c1) }
    } else if ch == '*' {
        (kw(Token::Star), c1)
    } else if ch == '/' {
        if next_is(s, c1, '/') {
            (None, advance_to(s, c1, line_end(s, c1.pos)))
        } else if next_is(s, c1, '*') {
            let c2 = step(s, c1);
            (None, advance_to(s, c2, block_end(s, c2.pos)))
        } else {
            (kw(Token::Slash), c1)
        }
    } else if ch == '%' {
        (kw(Token::Percent), c1)
    } else if ch == '@' {
        (kw(Token::AtSign), c1)
    } else if ch == '<' {
        if next_is(s, c1, '=') { (kw(Token::LessEqual), step(s, c1)) } else { (kw(Token::LessThan), c1) }
    } else if ch == '>' {
        if next_is(s, c1, '=') { (kw(Token::GreaterEqual), step(s, c1)) } else { (kw(Token::GreaterThan), c1) }
    } else if ch == '!' {
        if next_is(s, c1, '=') { (kw(Token::NotEqual), step(s, c1)) } else { (None, c1) }
    } else if ch == '=' {
        if next_is(s, c1, '>') {
            (kw(Token::FatArrow), step(s, c1))
        } else if next_is(s, c1, '=') {
            (kw(Token::EqualEqual), step(s, c1))
        } else {
            (kw(Token::Assign), c1)
        }
    } else if ch == '"' {
        let r = string_body(s, c1.pos);
        (Some(TokenM::Literal(ValueM::Str(r.0))), advance_to(s, c1, r.1))
    } else {
        (None, c1)
    }
}

pub open spec fn at(t: TokenM, c: Cursor) -> SpannedTokenM {
    SpannedTokenM { token: t, line: c.line, col: c.col }
}

/// The tokens of the source `s` from the place `c` on.  Blanks are skipped;
/// a danda and the other punctuation are placed just after their first
/// character; numbers and names at their first character.
pub open spec fn lex_from(s: Seq<char>, c: Cursor) -> Seq<SpannedTokenM>
    decreases s.len() - c.pos,
{
    if c.pos < 0 || c.pos >= s.len() {
        Seq::empty()
    } else {
        let ch = s[c.pos];
        let c1 = step(s, c);
        if is_white_space(ch) {
            lex_from(s, c1)
        } else if ch == '\u{964}' {
            seq![at(TokenM::Kw(Token::Danda), c1)] + lex_from(s, c1)
        } else if ch == '\u{965}' {
            seq![at(TokenM::Kw(Token::DoubleDanda), c1)] + lex_from(s, c1)
        } else if is_ascii_digit(ch) || is_devanagari_digit(ch) {
            let q = number_end(s, c.pos);
            proof {
                lemma_number_end(s, c.pos + 1);
                lemma_advance_to(s, c, q);
            }
            seq![at(number_token(s.subrange(c.pos, q)), c)] + lex_from(s, advance_to(s, c, q))
        } else if starts_word(ch) {
            let q = word_run(s, c.pos + 1);
            proof {
                lemma_word_run(s, c.pos + 1);
                lemma_advance_to(s, c, q);
            }
            seq![at(word_token(s.subrange(c.pos, q)), c)] + lex_from(s, advance_to(s, c, q))
        } else {
            let r = punct(s, ch, c1);
            proof {
                lemma_punct(s, ch, c1);
            }
            match r.0 {
                Some(t) => seq![at(t, c1)] + lex_from(s, r.1),
                None => lex_from(s, r.1),
            }
        }
    }
}

/// The tokens of a whole source.
pub open spec fn lex(s: Seq<char>) -> Seq<SpannedTokenM> {
    lex_from(s, Cursor { pos: 0, line: 1, col: 1 })
}

pub proof fn lemma_advance_to(s: Seq<char>, c: Cursor, q: int)
    ensures
        advance_to(s, c, q).pos >= c.pos,
        0 <= c.pos <= q <= s.len() ==> advance_to(s, c, q).pos == q,
    decreases q - c.pos,
{
    if 0 <= c.pos && c.pos < q && c.pos < s.len() {
        lemma_advance_to(s, step(s, c), q);
    }
}

pub proof fn lemma_number_end(s: Seq<char>, p: int)
    ensures
        number_end(s, p) >= p,
        0 <= p <= s.len() ==> number_end(s, p) <= s.len(),
    decreases s.len() - p,
{
    if 0 <= p < s.len() && in_number(s[p]) {
        lemma_number_end(s, p + 1);
    }
}

pub proof fn lemma_word_run(s: Seq<char>, p: int)
    ensures
        word_run(s, p) >= p,
        0 <= p <= s.len() ==> word_run(s, p) <= s.len(),
    decreases s.len() - p,
{
    if 0 <= p < s.len() && in_word(s[p]) {
        lemma_word_run(s, p + 1);
    }
}

pub proof fn lemma_line_end(s: Seq<char>, p: int)
    ensures
        line_end(s, p) >= p,
        0 <= p <= s.len() ==> line_end(s, p) <= s.len(),
    decreases s.len() - p,
{
    if 0 <= p < s.len() && s[p] != '\n' {
        lemma_line_end(s, p + 1);
    }
}

pub proof fn lemma_block_end(s: Seq<char>, p: int)
    ensures
        block_end(s, p) >= p,
        0 <= p <= s.len() ==> block_end(s, p) <= s.len(),
    decreases s.len() - p,
{
    if 0 <= p < s.len() && !(s[p] == '*' && p + 1 < s.len() && s[p + 1] == '/') {
        lemma_block_end(s, p + 1);
    }
}

pub proof fn lemma_string_body(s: Seq<char>, p: int)
    ensures
        string_body(s, p).1 >= p,
        0 <= p <= s.len() ==> string_body(s, p).1 <= s.len(),
    decreases s.len() - p,
{
    if 0 <= p < s.len() && s[p] != '"' {
        if s[p] == '\\' {
            if p + 1 < s.len() {
                lemma_string_body(s, p + 2);
            }
        } else {
            lemma_string_body(s, p + 1);
        }
    }
}

pub proof fn lemma_punct(s: Seq<char>, ch: char, c1: Cursor)
    ensures
        punct(s, ch, c1).1.pos >= c1.pos,
        0 <= c1.pos <= s.len() ==> punct(s, ch, c1).1.pos <= s.len(),
{
    lemma_line_end(s, c1.pos);
    lemma_advance_to(s, c1, line_end(s, c1.pos));
    let c2 = step(s, c1);
    lemma_block_end(s, c2.pos);
    lemma_advance_to(s, c2, block_end(s, c2.pos));
    lemma_string_body(s, c1.pos);
    lemma_advance_to(s, c1, string_body(s, c1.pos).1);
}

/// Whether the place (`al`, `ac`) comes no later than (`bl`, `bc`) in the
/// text: an earlier line, or the same line and no later column.
pub open spec fn pos_le(al: int, ac: int, bl: int, bc: int) -> bool {
    al < bl || (al == bl && ac <= bc)
}

pub open spec fn cursor_le(a: Cursor, b: Cursor) -> bool {
    pos_le(a.line, a.col, b.line, b.col)
}

pub open spec fn placed(c: Cursor) -> bool {
    c.line >= 1 && c.col >= 1
}

proof fn lemma_step_order(s: Seq<char>, c: Cursor)
    requires
        placed(c),
    ensures
        placed(step(s, c)),
        cursor_le(c, step(s, c)),
{
}

proof fn lemma_advance_order(s: Seq<char>, c: Cursor, q: int)
    requires
        placed(c),
    ensures
        placed(advance_to(s, c, q)),
        cursor_le(c, advance_to(s, c, q)),
    decreases q - c.pos,
{
    if 0 <= c.pos && c.pos < q && c.pos < s.len() {
        lemma_step_order(s, c);
        lemma_advance_order(s, step(s, c), q);
    }
}

proof fn lemma_punct_order(s: Seq<char>, ch: char, c1: Cursor)
    requires
        placed(c1),
    ensures
        placed(punct(s, ch, c1).1),
        cursor_le(c1, punct(s, ch, c1).1),
{
    lemma_step_order(s, c1);
    let c2 = step(s, c1);
    lemma_advance_order(s, c1, line_end(s, c1.pos));
    lemma_advance_order(s, c2, block_end(s, c2.pos));
    lemma_advance_order(s, c1, string_body(s, c1.pos).1);
}

proof fn lemma_lex_order(s: Seq<char>, c: Cursor)
    requires
        placed(c),
    ensures
        forall|i: int| 0 <= i < lex_from(s, c).len() ==> #[trigger] lex_from(s, c)[i].line >= 1
            && lex_from(s, c)[i].col >= 1
            && pos_le(c.line, c.col, lex_from(s, c)[i].line, lex_from(s, c)[i].col),
        forall|i: int, j: int| 0 <= i <= j < lex_from(s, c).len()
            ==> pos_le(#[trigger] lex_from(s, c)[i].line, lex_from(s, c)[i].col, #[trigger] lex_from(s, c)[j].line, lex_from(s, c)[j].col),
    decreases s.len() - c.pos,
{
    if 0 <= c.pos < s.len() {
        let ch = s[c.pos];
        let c1 = step(s, c);
        lemma_step_order(s, c);
        let ts = lex_from(s, c);
        if is_white_space(ch) {
            lemma_lex_order(s, c1);
        } else if ch == '\u{964}' || ch == '\u{965}' {
            lemma_lex_order(s, c1);
            let rest = lex_from(s, c1);
            assert forall|i: int| 0 <= i < ts.len() implies #[trigger] ts[i].line >= 1 && ts[i].col >= 1
                && pos_le(c.line, c.col, ts[i].line, ts[i].col) by {
                if i > 0 {
                    assert(ts[i] == rest[i - 1]);
                }
            }
            assert forall|i: int, j: int| 0 <= i <= j < ts.len() implies pos_le(#[trigger] ts[i].line, ts[i].col, #[trigger] ts[j].line, ts[j].col) by {
                if i > 0 {
                    assert(ts[i] == rest[i - 1] && ts[j] == rest[j - 1]);
                } else if j > 0 {
                    assert(ts[j] == rest[j - 1]);
                }
            }
        } else if is_ascii_digit(ch) || is_devanagari_digit(ch) {
            let q = number_end(s, c.pos);
            lemma_number_end(s, c.pos + 1);
            lemma_advance_to(s, c, q);
            let c2 = advance_to(s, c, q);
            lemma_advance_order(s, c, q);
            lemma_lex_order(s, c2);
            let rest = lex_from(s, c2);
            assert forall|i: int| 0 <= i < ts.len() implies #[trigger] ts[i].line >= 1 && ts[i].col >= 1
                && pos_le(c.line, c.col, ts[i].line, ts[i].col) by {
                if i > 0 {
                    assert(ts[i] == rest[i - 1]);
                }
            }
            assert forall|i: int, j: int| 0 <= i <= j < ts.len() implies pos_le(#[trigger] ts[i].line, ts[i].col, #[trigger] ts[j].line, ts[j].col) by {
                if i > 0 {
                    assert(ts[i] == rest[i - 1] && ts[j] == rest[j - 1]);
                } else if j > 0 {
                    assert(ts[j] == rest[j - 1]);
                }
            }
        } else if starts_word(ch) {
            let q = word_run(s, c.pos + 1);
            lemma_word_run(s, c.pos + 1);
            lemma_advance_to(s, c, q);
            let c2 = advance_to(s, c, q);
            lemma_advance_order(s, c, q);
            lemma_lex_order(s, c2);
            let rest = lex_from(s, c2);
            assert forall|i: int| 0 <= i < ts.len() implies #[trigger] ts[i].line >= 1 && ts[i].col >= 1
                && pos_le(c.line, c.col, ts[i].line, ts[i].col) by {
                if i > 0 {
                    assert(ts[i] == rest[i - 1]);
                }
            }
            assert forall|i: int, j: int| 0 <= i <= j < ts.len() implies pos_le(#[trigger] ts[i].line, ts[i].col, #[trigger] ts[j].line, ts[j].col) by {
                if i > 0 {
                    assert(ts[i] == rest[i - 1] && ts[j] == rest[j - 1]);
                } else if j > 0 {
                    assert(ts[j] == rest[j - 1]);
                }
            }
        } else {
            let r = punct(s, ch, c1);
            lemma_punct(s, ch, c1);
            lemma_punct_order(s, ch, c1);
            lemma_lex_order(s, r.1);
            let rest = lex_from(s, r.1);
            match r.0 {
                Some(t) => {
                    assert forall|i: int| 0 <= i < ts.len() implies #[trigger] ts[i].line >= 1 && ts[i].col >= 1
                        && pos_le(c.line, c.col, ts[i].line, ts[i].col) by {
                        if i > 0 {
                            assert(ts[i] == rest[i - 1]);
                        }
                    }
                    assert forall|i: int, j: int| 0 <= i <= j < ts.len() implies pos_le(#[trigger] ts[i].line, ts[i].col, #[trigger] ts[j].line, ts[j].col) by {
                        if i > 0 {
                            assert(ts[i] == rest[i - 1] && ts[j] == rest[j - 1]);
                        } else if j > 0 {
                            assert(ts[j] == rest[j - 1]);
                        }
                    }
                },
                None => {},
            }
        }
    }
}

/// The tokens of a source come in source order, each placed at a line and
/// a column counted from 1.
pub proof fn law_tokens_in_source_order(s: Seq<char>)
    ensures
        forall|i: int| 0 <= i < lex(s).len() ==> #[trigger] lex(s)[i].line >= 1 && lex(s)[i].col >= 1,
        forall|i: int, j: int| 0 <= i <= j < lex(s).len()
            ==> pos_le(#[trigger] lex(s)[i].line, lex(s)[i].col, #[trigger] lex(s)[j].line, lex(s)[j].col),
{
    lemma_lex_order(s, Cursor { pos: 0, line: 1, col: 1 });
}

/// The token of a scanned word.
fn word_to_token(w: String) -> (r: Token)
    ensures
        r@ == word_token(w@),
{
    if str_eq(w.as_str(), "कार्य") {
        Token::FuncDeclKW
    } else if str_eq(w.as_str(), "मान") {
        Token::VarDeclKW
    } else if str_eq(w.as_str(), "वस्तु_विन्यासः") {
        Token::StructKW
    } else if str_eq(w.as_str(), "गुणधर्म") {
        Token::TraitKW
    } else if str_eq(w.as_str(), "अनुष्ठान") {
        Token::ImplKW
    } else if str_eq(w.as_str(), "रूपभेदः") {
        Token::EnumKW
    } else if str_eq(w.as_str(), "समीक्षा") {
        Token::MatchKW
    } else if str_eq(w.as_str(), "आयात") {
        Token::Import
    } else if str_eq(w.as_str(), "उदात्त") {
        Token::UdAtta
    } else if str_eq(w.as_str(), "अनुदात्त") {
        Token::AnudAtta
    } else if str_eq(w.as_str(), "स्वरित") {
        Token::Svarita
    } else if str_eq(w.as_str(), "यदि") {
        Token::If
    } else if str_eq(w.as_str(), "तर्हि") {
        Token::Tarhi
    } else if str_eq(w.as_str(), "अन्यथा") {
        Token::Anyatha
    } else if str_eq(w.as_str(), "यावत्") {
        Token::Yavat
    } else if str_eq(w.as_str(), "तावत्") {
        Token::Tavat
    } else if str_eq(w.as_str(), "प्रतिफल") {
        Token::Pratiphala
    } else if str_eq(w.as_str(), "असमकाल") {
        Token::AsyncKW
    } else if str_eq(w.as_str(), "प्रतीक्षस्व") {
        Token::AwaitKW
    } else if str_eq(w.as_str(), "सहप्रक्रिया") {
        Token::Spawn
    } else if str_eq(w.as_str(), "विलम्बः") {
        Token::Delay
    } else if str_eq(w.as_str(), "वैदेशिक") {
        Token::Foreign
    } else if str_eq(w.as_str(), "विदेशीय") {
        Token::ForeignKW
    } else if str_eq(w.as_str(), "सन्दर्भः") {
        Token::Reference
    } else if str_eq(w.as_str(), "परिवर्त्य") {
        Token::Mutable
    } else if str_eq(w.as_str(), "सत") {
        Token::Literal(Value::Bool(true))
    } else if str_eq(w.as_str(), "असत") {
        Token::Literal(Value::Bool(false))
    } else if str_eq(w.as_str(), "च") {
        Token::Cha
    } else if str_eq(w.as_str(), "वा") {
        Token::Va
    } else if str_eq(w.as_str(), "समान") {
        Token::Samana
    } else if str_eq(w.as_str(), "ऊन") {
        Token::Una
    } else if str_eq(w.as_str(), "अग्र") {
        Token::Agra
    } else if str_eq(w.as_str(), "ऊनसमान") {
        Token::UnaSamana
    } else if str_eq(w.as_str(), "अग्रसमान") {
        Token::AgraSamana
    } else if str_eq(w.as_str(), "असमान") {
        Token::Asamana
    } else {
        Token::Identifier(w)
    }
}

/// The lexer: the source's characters and the place of the next one.
pub struct Lexer {
    input: Vec<char>,
    position: usize,
    line: usize,
    col: usize,
}

impl Lexer {
    /// The source being read.
    pub closed spec fn source(&self) -> Seq<char> {
        self.input@
    }

    /// Where reading resumes.
    pub closed spec fn cursor(&self) -> Cursor {
        Cursor { pos: self.position as int, line: self.line as int, col: self.col as int }
    }

    /// The lexer's invariant: the place lies within the source and its line
    /// and column are positive and bounded by the characters read.
    pub closed spec fn wf(&self) -> bool {
        &&& self.input@.len() < usize::MAX
        &&& self.position <= self.input@.len()
        &&& 1 <= self.line <= self.position + 1
        &&& 1 <= self.col <= self.position + 1
    }

    pub fn new(source: &str) -> (r: Self)
        requires
            source@.len() < usize::MAX,
        ensures
            r.wf(),
            r.source() == source@,
            r.cursor() == (Cursor { pos: 0, line: 1, col: 1 }),
    {
        Lexer { input: chars_of(source), position: 0, line: 1, col: 1 }
    }

    fn peek_at(&self, i: usize) -> (r: Option<char>)
        ensures
            r == (if i < self.input@.len() { Some(self.input@[i as int]) } else { None::<char> }),
    {
        if i < self.input.len() {
            Some(self.input[i])
        } else {
            None
        }
    }

    fn advance(&mut self)
        requires
            old(self).wf(),
            old(self).position < old(self).input@.len(),
        ensures
            final(self).wf(),
            final(self).input@ == old(self).input@,
            final(self).cursor() == step(old(self).source(), old(self).cursor()),
    {
        let ch = self.input[self.position];
        self.position = self.position + 1;
        if ch == '\n' {
            self.line = self.line + 1;
            self.col = 1;
        } else {
            self.col = self.col + 1;
        }
    }

    /// Reads on up to index `q`.
    fn advance_until(&mut self, q: usize)
        requires
            old(self).wf(),
            old(self).position <= q <= old(self).input@.len(),
        ensures
            final(self).wf(),
            final(self).input@ == old(self).input@,
            final(self).cursor() == advance_to(old(self).source(), old(self).cursor(), q as int),
    {
        let ghost s = self.input@;
        let ghost c0 = self.cursor();
        while self.position < q
            invariant
                self.wf(),
                self.input@ == s,
                self.position <= q <= s.len(),
                advance_to(s, c0, q as int) == advance_to(s, self.cursor(), q as int),
            decreases q - self.position,
        {
            self.advance();
        }
    }

    fn scan_number_end(&self, p: usize) -> (q: usize)
        requires
            p <= self.input@.len(),
        ensures
            q == number_end(self.input@, p as int),
    {
        let mut i = p;
        while i < self.input.len()
            invariant
                p <= i <= self.input@.len(),
                number_end(self.input@, p as int) == number_end(self.input@, i as int),
            decreases self.input@.len() - i,
        {
            let c = self.input[i];
            if !(('0' <= c && c <= '9') || ('\u{966}' <= c && c <= '\u{96f}') || c == '.') {
                return i;
            }
            i = i + 1;
        }
        i
    }

    fn scan_word_run(&self, p: usize) -> (q: usize)
        requires
            p <= self.input@.len(),
        ensures
            q == word_run(self.input@, p as int),
    {
        let mut i = p;
        while i < self.input.len()
            invariant
                p <= i <= self.input@.len(),
                word_run(self.input@, p as int) == word_run(self.input@, i as int),
            decreases self.input@.len() - i,
        {
            let c = self.input[i];
            if !(char_is_alphanumeric(c) || c == '_' || ('\u{900}' <= c && c <= '\u{97f}')) {
                return i;
            }
            i = i + 1;
        }
        i
    }

    fn scan_line_end(&self, p: usize) -> (q: usize)
        requires
            p <= self.input@.len(),
        ensures
            q == line_end(self.input@, p as int),
    {
        let mut i = p;
        while i < self.input.len()
            invariant
                p <= i <= self.input@.len(),
                line_end(self.input@, p as int) == line_end(self.input@, i as int),
            decreases self.input@.len() - i,
        {
            if self.input[i] == '\n' {
                return i;
            }
            i = i + 1;
        }
        i
    }

    fn scan_block_end(&self, p: usize) -> (q: usize)
        requires
            p <= self.input@.len(),
            self.input@.len() < usize::MAX,
        ensures
            q == block_end(self.input@, p as int),
    {
        let mut i = p;
        while i < self.input.len()
            invariant
                p <= i <= self.input@.len(),
                self.input@.len() < usize::MAX,
                block_end(self.input@, p as int) == block_end(self.input@, i as int),
            decreases self.input@.len() - i,
        {
            if self.input[i] == '*' && i + 1 < self.input.len() && self.input[i + 1] == '/' {
                return i + 2;
            }
            i = i + 1;
        }
        i
    }

    /// Reads a string literal whose body starts at `p`; returns its text and
    /// where scanning resumes.
    fn read_string_literal(&self, p: usize) -> (r: (String, usize))
        requires
            p <= self.input@.len(),
            self.input@.len() < usize::MAX,
        ensures
            r.0@ == string_body(self.input@, p as int).0,
            r.1 == string_body(self.input@, p as int).1,
    {
        let ghost s = self.input@;
        let mut text = String::new();
        let mut i = p;
        while i < self.input.len()
            invariant
                s == self.input@,
                s.len() < usize::MAX,
                p <= i <= s.len(),
                string_body(s, p as int) == (text@ + string_body(s, i as int).0, string_body(s, i as int).1),
            decreases s.len() - i,
        {
            let ch = self.input[i];
            if ch == '"' {
                assert(string_body(s, i as int) == (Seq::<char>::empty(), i + 1));
                assert(text@ + Seq::<char>::empty() =~= text@);
                return (text, i + 1);
            }
            if ch == '\\' {
                if i + 1 >= self.input.len() {
                    let ghost t0 = text@;
                    push_char(&mut text, '\\');
                    assert(string_body(s, (i + 1) as int) == (Seq::<char>::empty(), (i + 1) as int));
                    assert(t0 + seq!['\\'] =~= text@ + Seq::<char>::empty());
                    i = i + 1;
                } else {
                    let c = self.input[i + 1];
                    let ghost t0 = text@;
                    if c == 'n' {
                        push_char(&mut text, '\n');
                    } else if c == 't' {
                        push_char(&mut text, '\t');
                    } else if c == 'r' {
                        push_char(&mut text, '\r');
                    } else if c == '\\' {
                        push_char(&mut text, '\\');
                    } else if c == '"' {
                        push_char(&mut text, '"');
                    } else {
                        push_char(&mut text, '\\');
                        push_char(&mut text, c);
                    }
                    proof {
                        let r = string_body(s, i + 2);
                        let e = text@.subrange(t0.len() as int, text@.len() as int);
                        assert(text@ =~= t0 + e);
                        assert(t0 + (e + r.0) =~= text@ + r.0);
                    }
                    i = i + 2;
                }
            } else {
                let ghost t0 = text@;
                push_char(&mut text, ch);
                proof {
                    let r = string_body(s, i + 1);
                    assert(t0 + (seq![ch] + r.0) =~= text@ + r.0);
                }
                i = i + 1;
            }
        }
        assert(string_body(s, i as int) == (Seq::<char>::empty(), i as int));
        assert(text@ + Seq::<char>::empty() =~= text@);
        (text, i)
    }

    /// The token of the number written at `p..q`.
    fn number_at(&self, p: usize, q: usize) -> (t: Token)
        requires
            p <= q <= self.input@.len(),
            forall|k: int| p <= k < q ==> #[trigger] in_number(self.input@[k]),
        ensures
            t@ == number_token(self.input@.subrange(p as int, q as int)),
    {
        let ghost s = self.input@;
        let mut text = String::new();
        let mut has_dot = false;
        let mut overflow = false;
        let mut val: i64 = 0;
        let mut i = p;
        while i < q
            invariant
                s == self.input@,
                p <= i <= q <= s.len(),
                forall|k: int| p <= k < q ==> #[trigger] in_number(s[k]),
                text@ == s.subrange(p as int, i as int).map_values(|c: char| ascii_digit_of(c)),
                has_dot == s.subrange(p as int, i as int).contains('.'),
                !has_dot ==> forall|k: int| 0 <= k < text@.len() ==> #[trigger] is_ascii_digit(text@[k]),
                !has_dot ==> digits_value(text@) >= 0,
                !has_dot && !overflow ==> val == digits_value(text@),
                !has_dot && overflow ==> digits_value(text@) > i64::MAX,
            decreases q - i,
        {
            let c = self.input[i];
            let ghost t0 = text@;
            let ghost sub0 = s.subrange(p as int, i as int);
            assert(s.subrange(p as int, i + 1) =~= sub0.push(c));
            assert(in_number(s[i as int]));
            let d: char = if '\u{966}' <= c && c <= '\u{96f}' {
                let k = (c as u32) - 0x966;
                proof {
                    assert(k < 10);
                }
                ((k as u8) + 0x30u8) as char
            } else {
                c
            };
            assert(d == ascii_digit_of(c));
            push_char(&mut text, d);
            assert(text@ =~= s.subrange(p as int, i + 1).map_values(|c: char| ascii_digit_of(c)));
            if c == '.' {
                has_dot = true;
                assert(sub0.push(c).contains('.')) by {
                    assert(sub0.push(c)[sub0.len() as int] == '.');
                }
            } else {
                assert(!sub0.push(c).contains('.') == !sub0.contains('.')) by {
                    if sub0.push(c).contains('.') {
                        let k = choose|k: int| 0 <= k < sub0.push(c).len() && sub0.push(c)[k] == '.';
                        assert(k < sub0.len());
                        assert(sub0[k] == '.');
                    }
                    if sub0.contains('.') {
                        let k = choose|k: int| 0 <= k < sub0.len() && sub0[k] == '.';
                        assert(sub0.push(c)[k] == '.');
                    }
                }
                if !has_dot {
                    proof {
                        assert(text@.drop_last() =~= t0);
                        assert(is_ascii_digit(d));
                    }
                    let dv = ((d as u32) - 0x30) as i64;
                    if !overflow {
                        match val.checked_mul(10) {
                            Some(v10) => match v10.checked_add(dv) {
                                Some(v) => {
                                    val = v;
                                },
                                None => {
                                    overflow = true;
                                },
                            },
                            None => {
                                overflow = true;
                            },
                        }
                    }
                }
            }
            i = i + 1;
        }
        if has_dot {
            Token::FloatLiteral(text)
        } else if overflow {
            Token::IntLiteral(0)
        } else {
            Token::IntLiteral(val)
        }
    }

    /// Reads a number at the current place.
    fn read_numeric_literal(&mut self) -> (t: SpannedToken)
        requires
            old(self).wf(),
            old(self).position < old(self).input@.len(),
            is_ascii_digit(old(self).input@[old(self).position as int]) || is_devanagari_digit(old(self).input@[old(self).position as int]),
        ensures
            final(self).wf(),
            final(self).input@ == old(self).input@,
            t@ == at(number_token(old(self).source().subrange(old(self).position as int, number_end(old(self).source(), old(self).position as int))), old(self).cursor()),
            final(self).cursor() == advance_to(old(self).source(), old(self).cursor(), number_end(old(self).source(), old(self).position as int)),
            final(self).position > old(self).position,
    {
        let ghost s = self.input@;
        let ghost c = self.cursor();
        let p = self.position;
        let q = self.scan_number_end(p);
        proof {
            lemma_number_end(s, p + 1);
            assert forall|k: int| p <= k < q implies #[trigger] in_number(s[k]) by {
                lemma_number_run(s, p as int, k);
            }
        }
        let tok = self.number_at(p, q);
        let (line, col) = (self.line, self.col);
        self.advance_until(q);
        proof {
            lemma_advance_to(s, c, q as int);
        }
        SpannedToken { token: tok, line, col }
    }

    /// Reads a name or keyword at the current place.
    fn read_identifier_or_keyword(&mut self) -> (t: SpannedToken)
        requires
            old(self).wf(),
            old(self).position < old(self).input@.len(),
        ensures
            final(self).wf(),
            final(self).input@ == old(self).input@,
            t@ == at(word_token(old(self).source().subrange(old(self).position as int, word_run(old(self).source(), old(self).position + 1))), old(self).cursor()),
            final(self).cursor() == advance_to(old(self).source(), old(self).cursor(), word_run(old(self).source(), old(self).position + 1)),
            final(self).position > old(self).position,
    {
        let ghost s = self.input@;
        let ghost c = self.cursor();
        let p = self.position;
        let q = self.scan_word_run(p + 1);
        proof {
            lemma_word_run(s, p + 1);
        }
        let mut word = String::new();
        let mut k = p;
        while k < q
            invariant
                s == self.input@,
                p <= k <= q <= s.len(),
                word@ == s.subrange(p as int, k as int),
            decreases q - k,
        {
            push_char(&mut word, self.input[k]);
            k = k + 1;
            assert(word@ =~= s.subrange(p as int, k as int));
        }
        let tok = word_to_token(word);
        let (line, col) = (self.line, self.col);
        self.advance_until(q);
        proof {
            lemma_advance_to(s, c, q as int);
        }
        SpannedToken { token: tok, line, col }
    }

    /// Reads what follows a character `ch` that begins neither a name nor a
    /// number (already consumed): an operator's second character, a comment
    /// or a string.
    fn read_punct(&mut self, ch: char) -> (r: Option<Token>)
        requires
            old(self).wf(),
        ensures
            final(self).wf(),
            final(self).input@ == old(self).input@,
            match r {
                Some(t) => punct(old(self).source(), ch, old(self).cursor()).0 == Some(t@),
                None => punct(old(self).source(), ch, old(self).cursor()).0 is None,
            },
            final(self).cursor() == punct(old(self).source(), ch, old(self).cursor()).1,
    {
        let ghost s = self.input@;
        let nx = self.peek_at(self.position);
        if ch == ':' {
            Some(Token::Colon)
        } else if ch == ',' {
            Some(Token::Comma)
        } else if ch == '.' {
            Some(Token::Dot)
        } else if ch == '(' {
            Some(Token::LeftParen)
        } else if ch == ')' {
            Some(Token::RightParen)
        } else if ch == '{' {
            Some(Token::LeftBrace)
        } else if ch == '}' {
            Some(Token::RightBrace)
        } else if ch == '+' {
            Some(Token::Plus)
        } else if ch == '-' {
            if nx == Some('>') {
                self.advance();
                Some(Token::Arrow)
            } else {
                Some(Token::Minus)
            }
        } else if ch == '*' {
            Some(Token::Star)
        } else if ch == '/' {
            if nx == Some('/') {
                let q = self.scan_line_end(self.position);
                proof {
                    lemma_line_end(s, self.position as int);
                }
                self.advance_until(q);
                None
            } else if nx == Some('*') {
                self.advance();
                let q = self.scan_block_end(self.position);
                proof {
                    lemma_block_end(s, self.position as int);
                }
                self.advance_until(q);
                None
            } else {
                Some(Token::Slash)
            }
        } else if ch == '%' {
            Some(Token::Percent)
        } else if ch == '@' {
            Some(Token::AtSign)
        } else if ch == '<' {
            if nx == Some('=') {
                self.advance();
                Some(Token::LessEqual)
            } else {
                Some(Token::LessThan)
            }
        } else if ch == '>' {
            if nx == Some('=') {
                self.advance();
                Some(Token::GreaterEqual)
            } else {
                Some(Token::GreaterThan)
            }
        } else if ch == '!' {
            if nx == Some('=') {
                self.advance();
                Some(Token::NotEqual)
            } else {
                None
            }
        } else if ch == '=' {
            if nx == Some('>') {
                self.advance();
                Some(Token::FatArrow)
            } else if nx == Some('=') {
                self.advance();
                Some(Token::EqualEqual)
            } else {
                Some(Token::Assign)
            }
        } else if ch == '"' {
            let (text, q) = self.read_string_literal(self.position);
            proof {
                lemma_string_body(s, self.position as int);
            }
            self.advance_until(q);
            Some(Token::Literal(Value::Str(text)))
        } else {
            None
        }
    }

    /// Reads the rest of the source into tokens.
    pub fn tokenize(&mut self) -> (r: Vec<SpannedToken>)
        requires
            old(self).wf(),
        ensures
            final(self).wf(),
            final(self).source() == old(self).source(),
            final(self).cursor().pos == old(self).source().len(),
            tokens_m(r@) == lex_from(old(self).source(), old(self).cursor()),
    {
        let ghost s = self.input@;
        let ghost c0 = self.cursor();
        let mut tokens: Vec<SpannedToken> = Vec::new();
        assert(tokens_m(tokens@) + lex_from(s, c0) =~= lex_from(s, c0));
        while self.position < self.input.len()
            invariant
                self.wf(),
                self.input@ == s,
                lex_from(s, c0) == tokens_m(tokens@) + lex_from(s, self.cursor()),
            decreases s.len() - self.position,
        {
            let ghost c = self.cursor();
            let ghost before = tokens_m(tokens@);
            let ch = self.input[self.position];
            if is_whitespace_char(ch) {
                self.advance();
            } else if ch == '\u{964}' || ch == '\u{965}' {
                self.advance();
                let tok = if ch == '\u{964}' { Token::Danda } else { Token::DoubleDanda };
                let ghost tm = tok@;
                tokens.push(SpannedToken { token: tok, line: self.line, col: self.col });
                assert(tokens_m(tokens@) =~= before.push(at(tm, self.cursor())));
                assert(before + lex_from(s, c) =~= tokens_m(tokens@) + lex_from(s, self.cursor()));
            } else if ('0' <= ch && ch <= '9') || ('\u{966}' <= ch && ch <= '\u{96f}') {
                let t = self.read_numeric_literal();
                let ghost tm = t@;
                tokens.push(t);
                assert(tokens_m(tokens@) =~= before.push(tm));
                assert(before + lex_from(s, c) =~= tokens_m(tokens@) + lex_from(s, self.cursor()));
            } else if char_is_alphabetic(ch) || ch == '_' || ('\u{900}' <= ch && ch <= '\u{97f}') {
                let t = self.read_identifier_or_keyword();
                let ghost tm = t@;
                tokens.push(t);
                assert(tokens_m(tokens@) =~= before.push(tm));
                assert(before + lex_from(s, c) =~= tokens_m(tokens@) + lex_from(s, self.cursor()));
            } else {
                self.advance();
                let ghost c1 = self.cursor();
                let (line, col) = (self.line, self.col);
                let tok = self.read_punct(ch);
                proof {
                    lemma_punct(s, ch, c1);
                }
                match tok {
                    Some(t) => {
                        let ghost tm = t@;
                        tokens.push(SpannedToken { token: t, line, col });
                        assert(tokens_m(tokens@) =~= before.push(at(tm, c1)));
                        assert(before + lex_from(s, c) =~= tokens_m(tokens@) + lex_from(s, self.cursor()));
                    },
                    None => {},
                }
            }
        }
        tokens
    }
}

/// `char::is_whitespace`, written out over the White_Space property's
/// characters.
pub fn is_whitespace_char(c: char) -> (r: bool)
    ensures
        r == is_white_space(c),
{
    ('\u{9}' <= c && c <= '\u{d}') || c == ' ' || c == '\u{85}' || c == '\u{a0}' || c == '\u{1680}'
        || ('\u{2000}' <= c && c <= '\u{200a}') || c == '\u{2028}' || c == '\u{2029}' || c == '\u{202f}'
        || c == '\u{205f}' || c == '\u{3000}'
}

/// A source of `n` characters has at most `n` tokens from any place on.
pub proof fn lemma_lex_len(s: Seq<char>, c: Cursor)
    requires
        0 <= c.pos <= s.len(),
    ensures
        lex_from(s, c).len() <= s.len() - c.pos,
    decreases s.len() - c.pos,
{
    if c.pos < s.len() {
        let ch = s[c.pos];
        let c1 = step(s, c);
        if is_white_space(ch) || ch == '\u{964}' || ch == '\u{965}' {
            lemma_lex_len(s, c1);
        } else if is_ascii_digit(ch) || is_devanagari_digit(ch) {
            let q = number_end(s, c.pos);
            lemma_number_end(s, c.pos + 1);
            lemma_advance_to(s, c, q);
            lemma_lex_len(s, advance_to(s, c, q));
        } else if starts_word(ch) {
            let q = word_run(s, c.pos + 1);
            lemma_word_run(s, c.pos + 1);
            lemma_advance_to(s, c, q);
            lemma_lex_len(s, advance_to(s, c, q));
        } else {
            lemma_punct(s, ch, c1);
            lemma_lex_len(s, punct(s, ch, c1).1);
        }
    }
}

/// Every character before the end of a number's run continues the number.
pub proof fn lemma_number_run(s: Seq<char>, p: int, k: int)
    requires
        0 <= p <= k < number_end(s, p),
    ensures
        in_number(s[k]),
    decreases k - p,
{
    if p < k {
        lemma_number_run(s, p + 1, k);
    }
}

} // verus!
