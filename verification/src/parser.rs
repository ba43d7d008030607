//! The parser: tokens to the syntax tree, by recursive descent with
//! precedence climbing for binary operators.
use vstd::prelude::*;
use crate::lexer::{Token, TokenM, SpannedToken, SpannedTokenM, tokens_m, clone_token};
use crate::ast::{ASTNode, AccessModifier, Expression, ExprM, NodeM, expr_m, exprs_m, node_m, nodes_m, strs_m, pairs_m,
    variants_m, sigs_m, arms_m, lemma_exprs_m_push, lemma_nodes_m_push};
use crate::vm::{Value, ValueM, clone_value};
use crate::util::{decimal, int_text, usize_text, i64_text, debug_of_str, str_debug, owned, push_str, push_char, str_eq, chars_of};

verus! {

/// The name of a token without data, as `{:?}` writes it.
pub open spec fn kw_name(t: Token) -> Seq<char> {
    match t {
        Token::Danda => "Danda"@,
        Token::DoubleDanda => "DoubleDanda"@,
        Token::FuncDeclKW => "FuncDeclKW"@,
        Token::VarDeclKW => "VarDeclKW"@,
        Token::StructKW => "StructKW"@,
        Token::TraitKW => "TraitKW"@,
        Token::ImplKW => "ImplKW"@,
        Token::EnumKW => "EnumKW"@,
        Token::MatchKW => "MatchKW"@,
        Token::Import => "Import"@,
        Token::If => "If"@,
        Token::Tarhi => "Tarhi"@,
        Token::Anyatha => "Anyatha"@,
        Token::Yavat => "Yavat"@,
        Token::Tavat => "Tavat"@,
        Token::Pratiphala => "Pratiphala"@,
        Token::AsyncKW => "AsyncKW"@,
        Token::AwaitKW => "AwaitKW"@,
        Token::Spawn => "Spawn"@,
        Token::Delay => "Delay"@,
        Token::Foreign => "Foreign"@,
        Token::ForeignKW => "ForeignKW"@,
        Token::Reference => "Reference"@,
        Token::Mutable => "Mutable"@,
        Token::UdAtta => "UdAtta"@,
        Token::AnudAtta => "AnudAtta"@,
        Token::Svarita => "Svarita"@,
        Token::Cha => "Cha"@,
        Token::Va => "Va"@,
        Token::LessThan => "LessThan"@,
        Token::GreaterThan => "GreaterThan"@,
        Token::LessEqual => "LessEqual"@,
        Token::GreaterEqual => "GreaterEqual"@,
        Token::EqualEqual => "EqualEqual"@,
        Token::NotEqual => "NotEqual"@,
        Token::Samana => "Samana"@,
        Token::Una => "Una"@,
        Token::Agra => "Agra"@,
        Token::UnaSamana => "UnaSamana"@,
        Token::AgraSamana => "AgraSamana"@,
        Token::Asamana => "Asamana"@,
        Token::Colon => "Colon"@,
        Token::Comma => "Comma"@,
        Token::Dot => "Dot"@,
        Token::LeftParen => "LeftParen"@,
        Token::RightParen => "RightParen"@,
        Token::LeftBrace => "LeftBrace"@,
        Token::RightBrace => "RightBrace"@,
        Token::AtSign => "AtSign"@,
        Token::Arrow => "Arrow"@,
        Token::FatArrow => "FatArrow"@,
        Token::Assign => "Assign"@,
        Token::Plus => "Plus"@,
        Token::Minus => "Minus"@,
        Token::Star => "Star"@,
        Token::Slash => "Slash"@,
        Token::Percent => "Percent"@,
        _ => ""@,
    }
}

fn kw_name_str(t: &Token) -> (r: &'static str)
    ensures
        r@ == kw_name(*t),
{
    match t {
        Token::Danda => "Danda",
        Token::DoubleDanda => "DoubleDanda",
        Token::FuncDeclKW => "FuncDeclKW",
        Token::VarDeclKW => "VarDeclKW",
        Token::StructKW => "StructKW",
        Token::TraitKW => "TraitKW",
        Token::ImplKW => "ImplKW",
        Token::EnumKW => "EnumKW",
        Token::MatchKW => "MatchKW",
        Token::Import => "Import",
        Token::If => "If",
        Token::Tarhi => "Tarhi",
        Token::Anyatha => "Anyatha",
        Token::Yavat => "Yavat",
        Token::Tavat => "Tavat",
        Token::Pratiphala => "Pratiphala",
        Token::AsyncKW => "AsyncKW",
        Token::AwaitKW => "AwaitKW",
        Token::Spawn => "Spawn",
        Token::Delay => "Delay",
        Token::Foreign => "Foreign",
        Token::ForeignKW => "ForeignKW",
        Token::Reference => "Reference",
        Token::Mutable => "Mutable",
        Token::UdAtta => "UdAtta",
        Token::AnudAtta => "AnudAtta",
        Token::Svarita => "Svarita",
        Token::Cha => "Cha",
        Token::Va => "Va",
        Token::LessThan => "LessThan",
        Token::GreaterThan => "GreaterThan",
        Token::LessEqual => "LessEqual",
        Token::GreaterEqual => "GreaterEqual",
        Token::EqualEqual => "EqualEqual",
        Token::NotEqual => "NotEqual",
        Token::Samana => "Samana",
        Token::Una => "Una",
        Token::Agra => "Agra",
        Token::UnaSamana => "UnaSamana",
        Token::AgraSamana => "AgraSamana",
        Token::Asamana => "Asamana",
        Token::Colon => "Colon",
        Token::Comma => "Comma",
        Token::Dot => "Dot",
        Token::LeftParen => "LeftParen",
        Token::RightParen => "RightParen",
        Token::LeftBrace => "LeftBrace",
        Token::RightBrace => "RightBrace",
        Token::AtSign => "AtSign",
        Token::Arrow => "Arrow",
        Token::FatArrow => "FatArrow",
        Token::Assign => "Assign",
        Token::Plus => "Plus",
        Token::Minus => "Minus",
        Token::Star => "Star",
        Token::Slash => "Slash",
        Token::Percent => "Percent",
        _ => "",
    }
}

/// A value as `{:?}` writes it, for the values a token can carry.  A
/// floating-point number is shown by its bit pattern.
pub open spec fn value_debug(v: ValueM) -> Seq<char> {
    match v {
        ValueM::Null => "Null"@,
        ValueM::Int(n) => "Int("@ + int_text(n as int) + ")"@,
        ValueM::Float(b) => "Float("@ + decimal(b as nat) + ")"@,
        ValueM::Bool(b) => if b { "Bool(true)"@ } else { "Bool(false)"@ },
        ValueM::Str(s) => "Str("@ + debug_of_str(s) + ")"@,
        ValueM::Func(a) => "Func("@ + decimal(a as nat) + ")"@,
        _ => "Value"@,
    }
}

/// A token as `{:?}` writes it.
pub open spec fn token_debug(t: TokenM) -> Seq<char> {
    match t {
        TokenM::Kw(k) => kw_name(k),
        TokenM::Identifier(s) => "Identifier("@ + debug_of_str(s) + ")"@,
        TokenM::Literal(v) => "Literal("@ + value_debug(v) + ")"@,
        TokenM::IntLiteral(n) => "IntLiteral("@ + int_text(n as int) + ")"@,
        TokenM::FloatLiteral(s) => "FloatLiteral("@ + debug_of_str(s) + ")"@,
    }
}

fn value_debug_text(v: &Value) -> (r: String)
    ensures
        r@ == value_debug(crate::vm::value_m(*v)),
{
    match v {
        Value::Null => owned("Null"),
        Value::Int(n) => {
            let mut r = owned("Int(");
            push_str(&mut r, i64_text(*n).as_str());
            push_str(&mut r, ")");
            r
        },
        Value::Float(b) => {
            let mut r = owned("Float(");
            let mut d = String::new();
            crate::util::push_decimal(&mut d, *b);
            push_str(&mut r, d.as_str());
            push_str(&mut r, ")");
            r
        },
        Value::Bool(b) => if *b { owned("Bool(true)") } else { owned("Bool(false)") },
        Value::Str(s) => {
            let mut r = owned("Str(");
            push_str(&mut r, str_debug(s.as_str()).as_str());
            push_str(&mut r, ")");
            r
        },
        Value::Func(a) => {
            let mut r = owned("Func(");
            let mut d = String::new();
            crate::util::push_decimal(&mut d, *a as u64);
            push_str(&mut r, d.as_str());
            push_str(&mut r, ")");
            r
        },
        _ => owned("Value"),
    }
}

fn token_debug_text(t: &Token) -> (r: String)
    ensures
        r@ == token_debug(t@),
{
    match t {
        Token::Identifier(s) => {
            let mut r = owned("Identifier(");
            push_str(&mut r, str_debug(s.as_str()).as_str());
            push_str(&mut r, ")");
            r
        },
        Token::Literal(v) => {
            let mut r = owned("Literal(");
            push_str(&mut r, value_debug_text(v).as_str());
            push_str(&mut r, ")");
            r
        },
        Token::IntLiteral(n) => {
            let mut r = owned("IntLiteral(");
            push_str(&mut r, i64_text(*n).as_str());
            push_str(&mut r, ")");
            r
        },
        Token::FloatLiteral(s) => {
            let mut r = owned("FloatLiteral(");
            push_str(&mut r, str_debug(s.as_str()).as_str());
            push_str(&mut r, ")");
            r
        },
        _ => owned(kw_name_str(t)),
    }
}

/// The outcome of parsing a piece: the piece and where parsing resumes, or
/// the message of the first error.
pub type PR<T> = Result<(T, int), Seq<char>>;

/// The token at `p`, if any.
pub open spec fn tok_at(ts: Seq<SpannedTokenM>, p: int) -> Option<TokenM> {
    if 0 <= p < ts.len() { Some(ts[p].token) } else { None }
}

/// Whether the token at `p` is `t`.
pub open spec fn is_at(ts: Seq<SpannedTokenM>, p: int, t: Token) -> bool {
    tok_at(ts, p) == Some(TokenM::Kw(t))
}

/// A message placed at a token: `error at LINE:COL: ...`.
pub open spec fn err_at(t: SpannedTokenM, msg: Seq<char>) -> Seq<char> {
    "error at "@ + decimal(t.line as nat) + ":"@ + decimal(t.col as nat) + ": "@ + msg
}

/// The message of a parser that failed to move on (never produced: every
/// piece consumes a token).
pub open spec fn stuck() -> Seq<char> {
    "parser made no progress"@
}

/// The message of a list cut off by the end of the input.
pub open spec fn cut_off() -> Seq<char> {
    "unexpected end of input"@
}

/// Consuming the token `t`, written `shown` in messages.
pub open spec fn expect_spec(ts: Seq<SpannedTokenM>, p: int, t: Token, shown: Seq<char>) -> Result<int, Seq<char>> {
    if 0 <= p < ts.len() {
        if ts[p].token == TokenM::Kw(t) {
            Ok(p + 1)
        } else {
            Err(err_at(ts[p], "expected '"@ + shown + "', got '"@ + token_debug(ts[p].token) + "'"@))
        }
    } else {
        Err("error: expected '"@ + shown + "', got end of input"@)
    }
}

/// Consuming a name, described as `what` in messages.
pub open spec fn ident_spec(ts: Seq<SpannedTokenM>, p: int, what: Seq<char>) -> PR<Seq<char>> {
    if 0 <= p < ts.len() {
        match ts[p].token {
            TokenM::Identifier(id) => Ok((id, p + 1)),
            _ => Err(err_at(ts[p], "expected "@ + what)),
        }
    } else {
        Err("expected "@ + what)
    }
}

/// Consuming a string literal, described as `what` in messages.
pub open spec fn string_spec(ts: Seq<SpannedTokenM>, p: int, what: Seq<char>) -> PR<Seq<char>> {
    if 0 <= p < ts.len() {
        match ts[p].token {
            TokenM::Literal(ValueM::Str(s)) => Ok((s, p + 1)),
            _ => Err(err_at(ts[p], "expected "@ + what)),
        }
    } else {
        Err("expected "@ + what)
    }
}

/// Consuming one token (if any) and keeping it when it is a name.
pub open spec fn opt_ident(ts: Seq<SpannedTokenM>, p: int) -> (Option<Seq<char>>, int) {
    if 0 <= p < ts.len() {
        match ts[p].token {
            TokenM::Identifier(id) => (Some(id), p + 1),
            _ => (None, p + 1),
        }
    } else {
        (None, p)
    }
}

/// Skipping one comma.
pub open spec fn skip_comma(ts: Seq<SpannedTokenM>, p: int) -> int {
    if is_at(ts, p, Token::Comma) { p + 1 } else { p }
}

/// Consuming one token, if any.
pub open spec fn next(ts: Seq<SpannedTokenM>, p: int) -> int {
    if 0 <= p < ts.len() { p + 1 } else { p }
}

/// A list of names up to the token `close` (consumed): each token is
/// consumed and kept if it is a name; commas between are skipped.
pub open spec fn names_until(ts: Seq<SpannedTokenM>, p: int, close: Token, acc: Seq<Seq<char>>) -> PR<Seq<Seq<char>>>
    decreases ts.len() - p,
{
    if p < 0 || p >= ts.len() {
        Err(cut_off())
    } else if is_at(ts, p, close) {
        Ok((acc, p + 1))
    } else {
        let (x, p1) = opt_ident(ts, p);
        let acc1 = match x {
            Some(n) => acc.push(n),
            None => acc,
        };
        names_until(ts, skip_comma(ts, p1), close, acc1)
    }
}

/// A list of parameters `name : type` up to `)` (consumed); a parameter
/// without a type gets `default`.
pub open spec fn params_until(ts: Seq<SpannedTokenM>, p: int, default: Seq<char>, acc: Seq<(Seq<char>, Seq<char>)>) -> PR<Seq<(Seq<char>, Seq<char>)>>
    decreases ts.len() - p,
{
    if p < 0 || p >= ts.len() {
        Err(cut_off())
    } else if is_at(ts, p, Token::RightParen) {
        Ok((acc, p + 1))
    } else {
        let (x, p1) = opt_ident(ts, p);
        match x {
            Some(n) => {
                let (ty, p2) = if is_at(ts, p1, Token::Colon) {
                    let (t, q) = opt_ident(ts, p1 + 1);
                    (match t { Some(tn) => tn, None => default }, q)
                } else {
                    (default, p1)
                };
                params_until(ts, skip_comma(ts, p2), default, acc.push((n, ty)))
            },
            None => params_until(ts, skip_comma(ts, p1), default, acc),
        }
    }
}

/// The fields of a struct up to `}` (consumed).
pub open spec fn fields_until(ts: Seq<SpannedTokenM>, p: int, acc: Seq<(Seq<char>, Seq<char>)>) -> PR<Seq<(Seq<char>, Seq<char>)>>
    decreases ts.len() - p,
{
    if p < 0 || p >= ts.len() {
        Err(cut_off())
    } else if is_at(ts, p, Token::RightBrace) {
        Ok((acc, p + 1))
    } else {
        let (x, p1) = opt_ident(ts, p);
        match x {
            Some(f) => match expect_spec(ts, p1, Token::Colon, ":"@) {
                Err(e) => Err(e),
                Ok(p2) => {
                    let (t, p3) = opt_ident(ts, p2);
                    let acc1 = match t {
                        Some(ft) => acc.push((f, ft)),
                        None => acc,
                    };
                    fields_until(ts, skip_comma(ts, p3), acc1)
                },
            },
            None => fields_until(ts, skip_comma(ts, p1), acc),
        }
    }
}

/// The variants of an enum up to `}` (consumed), each with an optional
/// list of payload types.
pub open spec fn variants_until(ts: Seq<SpannedTokenM>, p: int, acc: Seq<(Seq<char>, Option<Seq<Seq<char>>>)>) -> PR<Seq<(Seq<char>, Option<Seq<Seq<char>>>)>>
    decreases ts.len() - p,
{
    if p < 0 || p >= ts.len() {
        Err(cut_off())
    } else if is_at(ts, p, Token::RightBrace) {
        Ok((acc, p + 1))
    } else {
        let (x, p1) = opt_ident(ts, p);
        match x {
            Some(v) => {
                if is_at(ts, p1, Token::LeftParen) {
                    match names_until(ts, p1 + 1, Token::RightParen, Seq::empty()) {
                        Err(e) => Err(e),
                        Ok((types, p2)) => if p2 <= p || p2 > ts.len() {
                            Err(stuck())
                        } else {
                            variants_until(ts, skip_comma(ts, p2), acc.push((v, Some(types))))
                        },
                    }
                } else {
                    variants_until(ts, skip_comma(ts, p1), acc.push((v, None)))
                }
            },
            None => variants_until(ts, skip_comma(ts, p1), acc),
        }
    }
}

/// The method signatures of a trait up to `}` (consumed); tokens other than
/// `कार्य` are skipped.
pub open spec fn sigs_until(ts: Seq<SpannedTokenM>, p: int, acc: Seq<(Seq<char>, Seq<(Seq<char>, Seq<char>)>, Seq<char>)>) -> PR<Seq<(Seq<char>, Seq<(Seq<char>, Seq<char>)>, Seq<char>)>>
    decreases ts.len() - p,
{
    if p < 0 || p >= ts.len() {
        Err(cut_off())
    } else if is_at(ts, p, Token::RightBrace) {
        Ok((acc, p + 1))
    } else if is_at(ts, p, Token::FuncDeclKW) {
        let (x, p1) = opt_ident(ts, p + 1);
        match x {
            Some(m) => match expect_spec(ts, p1, Token::LeftParen, "("@) {
                Err(e) => Err(e),
                Ok(p2) => match params_until(ts, p2, "विविध"@, Seq::empty()) {
                    Err(e) => Err(e),
                    Ok((params, p3)) => {
                        let (rt, p4) = if is_at(ts, p3, Token::Arrow) {
                            let (t, q) = opt_ident(ts, p3 + 1);
                            (match t { Some(r) => r, None => "शून्य"@ }, q)
                        } else {
                            ("शून्य"@, p3)
                        };
                        match expect_spec(ts, p4, Token::Danda, "।"@) {
                            Err(e) => Err(e),
                            Ok(p5) => if p5 <= p || p5 > ts.len() {
                                Err(stuck())
                            } else {
                                sigs_until(ts, p5, acc.push((m, params, rt)))
                            },
                        }
                    },
                },
            },
            None => sigs_until(ts, p1, acc),
        }
    } else {
        sigs_until(ts, p + 1, acc)
    }
}

/// The binding precedence of a token after an operand.
pub open spec fn precedence(t: TokenM) -> u8 {
    match t {
        TokenM::Kw(Token::Dot) | TokenM::Kw(Token::LeftParen) => 8,
        TokenM::Kw(Token::Star) | TokenM::Kw(Token::Slash) | TokenM::Kw(Token::Percent) => 6,
        TokenM::Kw(Token::Plus) | TokenM::Kw(Token::Minus) => 5,
        TokenM::Kw(Token::LessThan) | TokenM::Kw(Token::GreaterThan) | TokenM::Kw(Token::LessEqual)
        | TokenM::Kw(Token::GreaterEqual) | TokenM::Kw(Token::EqualEqual) | TokenM::Kw(Token::NotEqual)
        | TokenM::Kw(Token::Samana) | TokenM::Kw(Token::Una) | TokenM::Kw(Token::Agra) | TokenM::Kw(Token::UnaSamana)
        | TokenM::Kw(Token::AgraSamana) | TokenM::Kw(Token::Asamana) => 4,
        TokenM::Kw(Token::Cha) => 3,
        TokenM::Kw(Token::Va) => 2,
        TokenM::Kw(Token::Assign) => 1,
        _ => 0,
    }
}

/// The operator a binary-operator token stands for.
pub open spec fn binary_op(t: TokenM) -> Option<Seq<char>> {
    match t {
        TokenM::Kw(Token::Plus) => Some("+"@),
        TokenM::Kw(Token::Minus) => Some("-"@),
        TokenM::Kw(Token::Star) => Some("*"@),
        TokenM::Kw(Token::Slash) => Some("/"@),
        TokenM::Kw(Token::Percent) => Some("%"@),
        TokenM::Kw(Token::EqualEqual) | TokenM::Kw(Token::Samana) => Some("=="@),
        TokenM::Kw(Token::NotEqual) | TokenM::Kw(Token::Asamana) => Some("!="@),
        TokenM::Kw(Token::LessThan) | TokenM::Kw(Token::Una) => Some("<"@),
        TokenM::Kw(Token::GreaterThan) | TokenM::Kw(Token::Agra) => Some(">"@),
        TokenM::Kw(Token::LessEqual) | TokenM::Kw(Token::UnaSamana) => Some("<="@),
        TokenM::Kw(Token::GreaterEqual) | TokenM::Kw(Token::AgraSamana) => Some(">="@),
        TokenM::Kw(Token::Cha) => Some("च"@),
        TokenM::Kw(Token::Va) => Some("वा"@),
        _ => None,
    }
}

/// Where parsing may go on from a piece that ended at `q` and began at `p`.
pub open spec fn moved(ts: Seq<SpannedTokenM>, p: int, q: int) -> bool {
    p < q <= ts.len()
}

/// A minus sign directly before a non-negative integer literal: together
/// they are a negative number.
pub open spec fn negative_literal_at(ts: Seq<SpannedTokenM>, p: int) -> bool {
    &&& 0 <= p
    &&& p + 1 < ts.len()
    &&& ts[p].token == TokenM::Kw(Token::Minus)
    &&& ts[p + 1].token matches TokenM::IntLiteral(n) && n >= 0
}

/// Parsing an expression whose operators bind tighter than `prec`.
pub open spec fn expr_spec(ts: Seq<SpannedTokenM>, p: int, prec: u8) -> PR<ExprM>
    decreases ts.len() - p, 4nat,
{
    if p < 0 || p > ts.len() {
        Err(stuck())
    } else if p == ts.len() {
        Err("unexpected end of input in expression"@)
    } else {
        let t = ts[p];
        let p1 = p + 1;
        let prim: PR<ExprM> = if negative_literal_at(ts, p) {
            Ok((ExprM::IntLiteral((-(ts[p1].token->IntLiteral_0)) as i64), p1 + 1))
        } else { match t.token {
            TokenM::Literal(v) => Ok((ExprM::Literal(v), p1)),
            TokenM::IntLiteral(n) => Ok((ExprM::IntLiteral(n), p1)),
            TokenM::Kw(Token::LeftParen) => match expr_spec(ts, p1, 0) {
                Ok((e, p2)) => match expect_spec(ts, p2, Token::RightParen, ")"@) {
                    Ok(p3) => Ok((e, p3)),
                    Err(m) => Err(m),
                },
                Err(m) => Err(m),
            },
            TokenM::Identifier(id) => name_expr_spec(ts, p1, id),
            TokenM::Kw(Token::MatchKW) => match expr_spec(ts, p1, 0) {
                Ok((target, p2)) => if !moved(ts, p, p2) {
                    Err(stuck())
                } else {
                    match expect_spec(ts, p2, Token::LeftBrace, "{"@) {
                        Ok(p3) => match arms_until(ts, p3, Seq::empty()) {
                            Ok((arms, p4)) => Ok((ExprM::MatchExpr { eval_target: Box::new(target), arms: arms }, p4)),
                            Err(m) => Err(m),
                        },
                        Err(m) => Err(m),
                    }
                },
                Err(m) => Err(m),
            },
            TokenM::Kw(Token::AwaitKW) => match expr_spec(ts, p1, 7) {
                Ok((e, p2)) => Ok((ExprM::AwaitExpr { target_future: Box::new(e) }, p2)),
                Err(m) => Err(m),
            },
            TokenM::Kw(Token::Reference) => {
                let is_mut = is_at(ts, p1, Token::Mutable);
                let p2 = if is_mut { p1 + 1 } else { p1 };
                match ident_spec(ts, p2, "variable name after ref"@) {
                    Ok((target, p3)) => Ok((ExprM::BorrowExpr { target: target, is_mutable: is_mut }, p3)),
                    Err(m) => Err(m),
                }
            },
            _ => Err(err_at(t, "unexpected token "@ + token_debug(t.token))),
        } };
        match prim {
            Ok((left, q)) => if !moved(ts, p, q) {
                Err(stuck())
            } else {
                binary_loop(ts, q, prec, left)
            },
            Err(m) => Err(m),
        }
    }
}

/// What follows a name in an expression: a generic call, a call, or
/// nothing (a variable).
pub open spec fn name_expr_spec(ts: Seq<SpannedTokenM>, p: int, id: Seq<char>) -> PR<ExprM>
    decreases ts.len() - p, 6nat,
{
    if p < 0 || p > ts.len() {
        Err(stuck())
    } else if is_at(ts, p, Token::LessThan) {
        match names_until(ts, p + 1, Token::GreaterThan, Seq::empty()) {
            Ok((types, p2)) => if !moved(ts, p, p2) {
                Err(stuck())
            } else {
                match args_until(ts, next(ts, p2), Seq::empty()) {
                    Ok((args, p3)) => Ok((ExprM::GenericCall { name: id, concrete_types: types, args: args }, p3)),
                    Err(m) => Err(m),
                }
            },
            Err(m) => Err(m),
        }
    } else if is_at(ts, p, Token::LeftParen) {
        match args_until(ts, p + 1, Seq::empty()) {
            Ok((args, p2)) => Ok((ExprM::Call { name: id, args: args }, p2)),
            Err(m) => Err(m),
        }
    } else {
        Ok((ExprM::Variable(id), p))
    }
}

/// Operators and member accesses after an operand, while they bind
/// tighter than `prec`.  A token of higher precedence that is neither is
/// consumed and ends the expression.
pub open spec fn binary_loop(ts: Seq<SpannedTokenM>, p: int, prec: u8, left: ExprM) -> PR<ExprM>
    decreases ts.len() - p, 3nat,
{
    if p < 0 || p > ts.len() {
        Err(stuck())
    } else if p == ts.len() {
        Ok((left, p))
    } else {
        let t = ts[p].token;
        let np = precedence(t);
        if prec >= np {
            Ok((left, p))
        } else {
            match binary_op(t) {
                Some(op) => match expr_spec(ts, p + 1, np) {
                    Ok((right, p2)) => if !moved(ts, p, p2) {
                        Err(stuck())
                    } else {
                        binary_loop(ts, p2, prec, ExprM::Binary { left: Box::new(left), op: op, right: Box::new(right) })
                    },
                    Err(m) => Err(m),
                },
                None => if t == TokenM::Kw(Token::Dot) {
                    match ident_spec(ts, p + 1, "field name after ."@) {
                        Ok((field, p2)) => if is_at(ts, p2, Token::LeftParen) {
                            match args_until(ts, p2 + 1, Seq::empty()) {
                                Ok((args, p3)) => if !moved(ts, p, p3) {
                                    Err(stuck())
                                } else {
                                    binary_loop(ts, p3, prec, ExprM::MethodCall { instance: Box::new(left), method_name: field, args: args })
                                },
                                Err(m) => Err(m),
                            }
                        } else {
                            binary_loop(ts, p2, prec, ExprM::FieldAccess { object: Box::new(left), field: field })
                        },
                        Err(m) => Err(m),
                    }
                } else {
                    Ok((left, p + 1))
                },
            }
        }
    }
}

/// Call arguments up to `)` (consumed), separated by optional commas.
pub open spec fn args_until(ts: Seq<SpannedTokenM>, p: int, acc: Seq<ExprM>) -> PR<Seq<ExprM>>
    decreases ts.len() - p, 5nat,
{
    if p < 0 || p > ts.len() {
        Err(stuck())
    } else if is_at(ts, p, Token::RightParen) {
        Ok((acc, p + 1))
    } else {
        match expr_spec(ts, p, 0) {
            Ok((a, p2)) => if !moved(ts, p, p2) {
                Err(stuck())
            } else {
                args_until(ts, skip_comma(ts, p2), acc.push(a))
            },
            Err(m) => Err(m),
        }
    }
}

/// The arms of a match up to `}` (consumed): `Variant(binds) => expr`.
pub open spec fn arms_until(ts: Seq<SpannedTokenM>, p: int, acc: Seq<(Seq<char>, Seq<Seq<char>>, ExprM)>) -> PR<Seq<(Seq<char>, Seq<Seq<char>>, ExprM)>>
    decreases ts.len() - p, 2nat,
{
    if p < 0 || p > ts.len() {
        Err(stuck())
    } else if is_at(ts, p, Token::RightBrace) {
        Ok((acc, p + 1))
    } else {
        match ident_spec(ts, p, "variant pattern"@) {
            Err(m) => Err(m),
            Ok((pat, p1)) => {
                let binds: PR<Seq<Seq<char>>> = if is_at(ts, p1, Token::LeftParen) {
                    names_until(ts, p1 + 1, Token::RightParen, Seq::empty())
                } else {
                    Ok((Seq::empty(), p1))
                };
                match binds {
                    Err(m) => Err(m),
                    Ok((bs, p2)) => match expect_spec(ts, p2, Token::FatArrow, "=>"@) {
                        Err(m) => Err(m),
                        Ok(p3) => if !moved(ts, p, p3) {
                            Err(stuck())
                        } else {
                            match expr_spec(ts, p3, 0) {
                                Err(m) => Err(m),
                                Ok((e, p4)) => if !moved(ts, p, p4) {
                                    Err(stuck())
                                } else {
                                    arms_until(ts, skip_comma(ts, p4), acc.push((pat, bs, e)))
                                },
                            }
                        },
                    },
                }
            },
        }
    }
}

/// A string with every occurrence of `pat` (scanning left to right)
/// removed.
pub open spec fn without(s: Seq<char>, pat: Seq<char>) -> Seq<char>
    decreases s.len(),
{
    if s.len() == 0 {
        Seq::empty()
    } else if pat.len() > 0 && pat.len() <= s.len() && s.subrange(0, pat.len() as int) == pat {
        without(s.subrange(pat.len() as int, s.len() as int), pat)
    } else {
        seq![s[0]] + without(s.drop_first(), pat)
    }
}

/// An access modifier in front of a statement (private when absent).
pub open spec fn access_spec(ts: Seq<SpannedTokenM>, p: int) -> (AccessModifier, int) {
    if is_at(ts, p, Token::UdAtta) {
        (AccessModifier::Public, p + 1)
    } else if is_at(ts, p, Token::AnudAtta) {
        (AccessModifier::Private, p + 1)
    } else if is_at(ts, p, Token::Svarita) {
        (AccessModifier::Protected, p + 1)
    } else {
        (AccessModifier::Private, p)
    }
}

/// A keyword followed by an expression and a danda.
pub open spec fn keyword_expr_spec(ts: Seq<SpannedTokenM>, p: int) -> PR<ExprM> {
    match expr_spec(ts, p + 1, 0) {
        Ok((e, p2)) => match expect_spec(ts, p2, Token::Danda, "।"@) {
            Ok(p3) => Ok((e, p3)),
            Err(m) => Err(m),
        },
        Err(m) => Err(m),
    }
}

/// `मान name [: type] = expr ।`
pub open spec fn var_decl_spec(ts: Seq<SpannedTokenM>, p: int, access: AccessModifier) -> PR<NodeM> {
    match ident_spec(ts, p + 1, "identifier for variable name"@) {
        Err(m) => Err(m),
        Ok((name, p1)) => {
            let (data_type, p2) = if is_at(ts, p1, Token::Colon) {
                opt_ident(ts, p1 + 1)
            } else {
                (None, p1)
            };
            match expect_spec(ts, p2, Token::Assign, "="@) {
                Err(m) => Err(m),
                Ok(p3) => match expr_spec(ts, p3, 0) {
                    Err(m) => Err(m),
                    Ok((value, p4)) => match expect_spec(ts, p4, Token::Danda, "।"@) {
                        Err(m) => Err(m),
                        Ok(p5) => Ok((NodeM::VarDecl { name: name, data_type: data_type, value: value, access_level: access }, p5)),
                    },
                },
            }
        },
    }
}

/// `आयात "path" ।`; the namespace is the path without `.vya`.
pub open spec fn import_spec(ts: Seq<SpannedTokenM>, p: int) -> PR<NodeM> {
    match string_spec(ts, p + 1, "string path for import"@) {
        Err(m) => Err(m),
        Ok((path, p1)) => match expect_spec(ts, p1, Token::Danda, "।"@) {
            Err(m) => Err(m),
            Ok(p2) => Ok((NodeM::ImportDecl { file_path: path, namespace_alias: without(path, ".vya"@) }, p2)),
        },
    }
}

/// A return type after `->` read with `opt_ident`, else `शून्य`.
pub open spec fn loose_return_type(ts: Seq<SpannedTokenM>, p: int) -> (Seq<char>, int) {
    if is_at(ts, p, Token::Arrow) {
        let (t, q) = opt_ident(ts, p + 1);
        (match t { Some(r) => r, None => "शून्य"@ }, q)
    } else {
        ("शून्य"@, p)
    }
}

/// `विदेशीय "lib" symbol(params) [-> type] ।`
pub open spec fn ffi_spec(ts: Seq<SpannedTokenM>, p: int, access: AccessModifier) -> PR<NodeM> {
    match string_spec(ts, p + 1, "string for library path"@) {
        Err(m) => Err(m),
        Ok((lib, p1)) => match ident_spec(ts, p1, "function symbol name"@) {
            Err(m) => Err(m),
            Ok((sym, p2)) => match expect_spec(ts, p2, Token::LeftParen, "("@) {
                Err(m) => Err(m),
                Ok(p3) => match params_until(ts, p3, "अङ्क"@, Seq::empty()) {
                    Err(m) => Err(m),
                    Ok((params, p4)) => {
                        let (rt, p5) = loose_return_type(ts, p4);
                        match expect_spec(ts, p5, Token::Danda, "।"@) {
                            Err(m) => Err(m),
                            Ok(p6) => Ok((NodeM::FFIDecl { library_path: lib, symbol_name: sym, parameters: params, return_type: rt, access_level: access }, p6)),
                        }
                    },
                },
            },
        },
    }
}

/// `रूपभेदः Name { Variant(types), ... }`
pub open spec fn enum_spec(ts: Seq<SpannedTokenM>, p: int, access: AccessModifier) -> PR<NodeM> {
    match ident_spec(ts, p + 1, "enum name"@) {
        Err(m) => Err(m),
        Ok((name, p1)) => match expect_spec(ts, p1, Token::LeftBrace, "{"@) {
            Err(m) => Err(m),
            Ok(p2) => match variants_until(ts, p2, Seq::empty()) {
                Err(m) => Err(m),
                Ok((vs, p3)) => Ok((NodeM::EnumDecl { name: name, variants: vs, access_level: access }, p3)),
            },
        },
    }
}

/// `गुणधर्म Name { कार्य m(params) [-> type] । ... }`
pub open spec fn trait_spec(ts: Seq<SpannedTokenM>, p: int, access: AccessModifier) -> PR<NodeM> {
    match ident_spec(ts, p + 1, "trait name"@) {
        Err(m) => Err(m),
        Ok((name, p1)) => match expect_spec(ts, p1, Token::LeftBrace, "{"@) {
            Err(m) => Err(m),
            Ok(p2) => match sigs_until(ts, p2, Seq::empty()) {
                Err(m) => Err(m),
                Ok((sigs, p3)) => Ok((NodeM::TraitDecl { name: name, method_signatures: sigs, access_level: access }, p3)),
            },
        },
    }
}

/// The fields of a struct: `{ name : type, ... }`.
pub open spec fn struct_fields_spec(ts: Seq<SpannedTokenM>, p: int) -> PR<Seq<(Seq<char>, Seq<char>)>> {
    match expect_spec(ts, p, Token::LeftBrace, "{"@) {
        Err(m) => Err(m),
        Ok(p1) => fields_until(ts, p1, Seq::empty()),
    }
}

/// `@attr वस्तु_विन्यासः Name { fields }`
pub open spec fn attr_struct_spec(ts: Seq<SpannedTokenM>, p: int, access: AccessModifier) -> PR<NodeM> {
    match ident_spec(ts, p + 1, "attribute name"@) {
        Err(m) => Err(m),
        Ok((attr, p1)) => match expect_spec(ts, p1, Token::StructKW, "वस्तु_विन्यासः"@) {
            Err(m) => Err(m),
            Ok(p2) => match ident_spec(ts, p2, "struct name"@) {
                Err(m) => Err(m),
                Ok((name, p3)) => match struct_fields_spec(ts, p3) {
                    Err(m) => Err(m),
                    Ok((fields, p4)) => Ok((NodeM::StructDecl { name: name, attributes: seq![attr], fields: fields, access_level: access }, p4)),
                },
            },
        },
    }
}

/// `वस्तु_विन्यासः Name { fields }`
pub open spec fn struct_spec(ts: Seq<SpannedTokenM>, p: int, access: AccessModifier) -> PR<NodeM> {
    match ident_spec(ts, p + 1, "struct name"@) {
        Err(m) => Err(m),
        Ok((name, p1)) => match struct_fields_spec(ts, p1) {
            Err(m) => Err(m),
            Ok((fields, p2)) => Ok((NodeM::StructDecl { name: name, attributes: Seq::empty(), fields: fields, access_level: access }, p2)),
        },
    }
}

/// A statement.
pub open spec fn stmt_spec(ts: Seq<SpannedTokenM>, p: int) -> PR<NodeM>
    decreases ts.len() - p, 7nat,
{
    if p < 0 || p > ts.len() {
        Err(stuck())
    } else {
        let (access, p1) = access_spec(ts, p);
        match tok_at(ts, p1) {
            Some(TokenM::Kw(Token::VarDeclKW)) => var_decl_spec(ts, p1, access),
            Some(TokenM::Kw(Token::FuncDeclKW)) | Some(TokenM::Kw(Token::AsyncKW)) => func_spec(ts, p1, access),
            Some(TokenM::Kw(Token::If)) => if_spec(ts, p1),
            Some(TokenM::Kw(Token::Yavat)) => while_spec(ts, p1),
            Some(TokenM::Kw(Token::Import)) => import_spec(ts, p1),
            Some(TokenM::Kw(Token::Spawn)) => match keyword_expr_spec(ts, p1) {
                Ok((e, q)) => Ok((NodeM::SpawnStmt(e), q)),
                Err(m) => Err(m),
            },
            Some(TokenM::Kw(Token::Delay)) => match keyword_expr_spec(ts, p1) {
                Ok((e, q)) => Ok((NodeM::DelayStmt(e), q)),
                Err(m) => Err(m),
            },
            Some(TokenM::Kw(Token::ForeignKW)) => ffi_spec(ts, p1, access),
            Some(TokenM::Kw(Token::EnumKW)) => enum_spec(ts, p1, access),
            Some(TokenM::Kw(Token::TraitKW)) => trait_spec(ts, p1, access),
            Some(TokenM::Kw(Token::ImplKW)) => impl_spec(ts, p1),
            Some(TokenM::Kw(Token::AtSign)) => attr_struct_spec(ts, p1, access),
            Some(TokenM::Kw(Token::StructKW)) => struct_spec(ts, p1, access),
            Some(TokenM::Kw(Token::Pratiphala)) => match keyword_expr_spec(ts, p1) {
                Ok((e, q)) => Ok((NodeM::ReturnStmt(e), q)),
                Err(m) => Err(m),
            },
            Some(TokenM::Kw(Token::Danda)) | Some(TokenM::Kw(Token::DoubleDanda)) => Ok((NodeM::NoOp, p1 + 1)),
            _ => match expr_spec(ts, p1, 0) {
                Ok((e, p2)) => match expect_spec(ts, p2, Token::Danda, "।"@) {
                    Ok(p3) => Ok((NodeM::StatementExpr(e), p3)),
                    Err(m) => Err(m),
                },
                Err(m) => Err(m),
            },
        }
    }
}

/// Statements up to `}` (consumed).
pub open spec fn body_until(ts: Seq<SpannedTokenM>, p: int, acc: Seq<NodeM>) -> PR<Seq<NodeM>>
    decreases ts.len() - p, 8nat,
{
    if p < 0 || p > ts.len() {
        Err(stuck())
    } else if is_at(ts, p, Token::RightBrace) {
        Ok((acc, p + 1))
    } else {
        match stmt_spec(ts, p) {
            Ok((st, p2)) => if !moved(ts, p, p2) {
                Err(stuck())
            } else {
                body_until(ts, p2, acc.push(st))
            },
            Err(m) => Err(m),
        }
    }
}

/// A block: `{ statements }`.
pub open spec fn block_spec(ts: Seq<SpannedTokenM>, p: int) -> PR<Seq<NodeM>>
    decreases ts.len() - p, 6nat,
{
    if p < 0 || p > ts.len() {
        Err(stuck())
    } else {
        match expect_spec(ts, p, Token::LeftBrace, "{"@) {
            Ok(p1) => body_until(ts, p1, Seq::empty()),
            Err(m) => Err(m),
        }
    }
}

/// A function: `[असमकाल] कार्य name[<T, ...>](params) [-> type] { body }`.
pub open spec fn func_spec(ts: Seq<SpannedTokenM>, p: int, access: AccessModifier) -> PR<NodeM>
    decreases ts.len() - p, 6nat,
{
    if p < 0 || p > ts.len() {
        Err(stuck())
    } else {
        let is_async = is_at(ts, p, Token::AsyncKW);
        let p1 = if is_async { p + 1 } else { p };
        match expect_spec(ts, p1, Token::FuncDeclKW, "कार्य"@) {
            Err(m) => Err(m),
            Ok(p2) => match ident_spec(ts, p2, "function name"@) {
                Err(m) => Err(m),
                Ok((name, p3)) => {
                    let tps: PR<Seq<Seq<char>>> = if is_at(ts, p3, Token::LessThan) {
                        names_until(ts, p3 + 1, Token::GreaterThan, Seq::empty())
                    } else {
                        Ok((Seq::empty(), p3))
                    };
                    match tps {
                        Err(m) => Err(m),
                        Ok((type_params, p4)) => match expect_spec(ts, p4, Token::LeftParen, "("@) {
                            Err(m) => Err(m),
                            Ok(p5) => match params_until(ts, p5, "विविध"@, Seq::empty()) {
                                Err(m) => Err(m),
                                Ok((params, p6)) => {
                                    let rt: PR<Seq<char>> = if is_at(ts, p6, Token::Arrow) {
                                        ident_spec(ts, p6 + 1, "return type after ->"@)
                                    } else {
                                        Ok(("शून्य"@, p6))
                                    };
                                    match rt {
                                        Err(m) => Err(m),
                                        Ok((return_type, p7)) => match expect_spec(ts, p7, Token::LeftBrace, "{"@) {
                                            Err(m) => Err(m),
                                            Ok(p8) => if !moved(ts, p, p8) {
                                                Err(stuck())
                                            } else {
                                                match body_until(ts, p8, Seq::empty()) {
                                                    Err(m) => Err(m),
                                                    Ok((body, p9)) => Ok((
                                                        if is_async {
                                                            NodeM::AsyncFuncDecl { name: name, parameters: params, return_type: return_type, body: body, access_level: access }
                                                        } else if type_params.len() > 0 {
                                                            NodeM::GenericFuncDecl { name: name, type_params: type_params, parameters: params, return_type: return_type, body: body, access_level: access }
                                                        } else {
                                                            NodeM::FuncDecl { name: name, parameters: params, return_type: return_type, body: body, access_level: access }
                                                        },
                                                        p9,
                                                    )),
                                                }
                                            },
                                        },
                                    }
                                },
                            },
                        },
                    }
                },
            },
        }
    }
}

/// `यदि cond तर्हि { ... } [अन्यथा { ... }]`
pub open spec fn if_spec(ts: Seq<SpannedTokenM>, p: int) -> PR<NodeM>
    decreases ts.len() - p, 6nat,
{
    if p < 0 || p > ts.len() {
        Err(stuck())
    } else {
        match expr_spec(ts, p + 1, 0) {
            Err(m) => Err(m),
            Ok((cond, p2)) => match expect_spec(ts, p2, Token::Tarhi, "तर्हि"@) {
                Err(m) => Err(m),
                Ok(p3) => if !moved(ts, p, p3) {
                    Err(stuck())
                } else {
                    match block_spec(ts, p3) {
                        Err(m) => Err(m),
                        Ok((then_branch, p4)) => if !moved(ts, p, p4) {
                            Err(stuck())
                        } else if is_at(ts, p4, Token::Anyatha) {
                            match block_spec(ts, p4 + 1) {
                                Err(m) => Err(m),
                                Ok((else_branch, p5)) => Ok((NodeM::IfStmt { condition: cond, then_branch: then_branch, else_branch: Some(else_branch) }, p5)),
                            }
                        } else {
                            Ok((NodeM::IfStmt { condition: cond, then_branch: then_branch, else_branch: None }, p4))
                        },
                    }
                },
            },
        }
    }
}

/// `यावत् cond तावत् { ... }`
pub open spec fn while_spec(ts: Seq<SpannedTokenM>, p: int) -> PR<NodeM>
    decreases ts.len() - p, 6nat,
{
    if p < 0 || p > ts.len() {
        Err(stuck())
    } else {
        match expr_spec(ts, p + 1, 0) {
            Err(m) => Err(m),
            Ok((cond, p2)) => match expect_spec(ts, p2, Token::Tavat, "तावत्"@) {
                Err(m) => Err(m),
                Ok(p3) => if !moved(ts, p, p3) {
                    Err(stuck())
                } else {
                    match block_spec(ts, p3) {
                        Err(m) => Err(m),
                        Ok((body, p4)) => Ok((NodeM::WhileStmt { condition: cond, body: body }, p4)),
                    }
                },
            },
        }
    }
}

/// `अनुष्ठान Trait <any token> Type { statements }`
pub open spec fn impl_spec(ts: Seq<SpannedTokenM>, p: int) -> PR<NodeM>
    decreases ts.len() - p, 6nat,
{
    if p < 0 || p > ts.len() {
        Err(stuck())
    } else {
        match ident_spec(ts, p + 1, "trait name"@) {
            Err(m) => Err(m),
            Ok((trait_name, p1)) => match ident_spec(ts, next(ts, p1), "type name"@) {
                Err(m) => Err(m),
                Ok((target_name, p2)) => match expect_spec(ts, p2, Token::LeftBrace, "{"@) {
                    Err(m) => Err(m),
                    Ok(p3) => if !moved(ts, p, p3) {
                        Err(stuck())
                    } else {
                        match body_until(ts, p3, Seq::empty()) {
                            Err(m) => Err(m),
                            Ok((methods, p4)) => Ok((NodeM::ImplBlock { trait_name: trait_name, target_type: target_name, methods: methods }, p4)),
                        }
                    },
                },
            },
        }
    }
}

/// A program: statements until the end, with stray dandas skipped.
pub open spec fn program_spec(ts: Seq<SpannedTokenM>, p: int, acc: Seq<NodeM>) -> Result<Seq<NodeM>, Seq<char>>
    decreases ts.len() - p,
{
    if p < 0 || p > ts.len() {
        Err(stuck())
    } else if p == ts.len() {
        Ok(acc)
    } else if is_at(ts, p, Token::DoubleDanda) || is_at(ts, p, Token::Danda) {
        program_spec(ts, p + 1, acc)
    } else {
        match stmt_spec(ts, p) {
            Ok((st, p2)) => if !moved(ts, p, p2) {
                Err(stuck())
            } else {
                program_spec(ts, p2, acc.push(st))
            },
            Err(m) => Err(m),
        }
    }
}

/// Whether `a` is the token without data `b`.
fn unit_eq(a: &Token, b: &Token) -> (r: bool)
    requires
        b@ is Kw,
    ensures
        r == (a@ == b@),
{
    match (a, b) {
        (Token::Danda, Token::Danda) => true,
        (Token::DoubleDanda, Token::DoubleDanda) => true,
        (Token::FuncDeclKW, Token::FuncDeclKW) => true,
        (Token::VarDeclKW, Token::VarDeclKW) => true,
        (Token::StructKW, Token::StructKW) => true,
        (Token::TraitKW, Token::TraitKW) => true,
        (Token::ImplKW, Token::ImplKW) => true,
        (Token::EnumKW, Token::EnumKW) => true,
        (Token::MatchKW, Token::MatchKW) => true,
        (Token::Import, Token::Import) => true,
        (Token::If, Token::If) => true,
        (Token::Tarhi, Token::Tarhi) => true,
        (Token::Anyatha, Token::Anyatha) => true,
        (Token::Yavat, Token::Yavat) => true,
        (Token::Tavat, Token::Tavat) => true,
        (Token::Pratiphala, Token::Pratiphala) => true,
        (Token::AsyncKW, Token::AsyncKW) => true,
        (Token::AwaitKW, Token::AwaitKW) => true,
        (Token::Spawn, Token::Spawn) => true,
        (Token::Delay, Token::Delay) => true,
        (Token::Foreign, Token::Foreign) => true,
        (Token::ForeignKW, Token::ForeignKW) => true,
        (Token::Reference, Token::Reference) => true,
        (Token::Mutable, Token::Mutable) => true,
        (Token::UdAtta, Token::UdAtta) => true,
        (Token::AnudAtta, Token::AnudAtta) => true,
        (Token::Svarita, Token::Svarita) => true,
        (Token::Cha, Token::Cha) => true,
        (Token::Va, Token::Va) => true,
        (Token::LessThan, Token::LessThan) => true,
        (Token::GreaterThan, Token::GreaterThan) => true,
        (Token::LessEqual, Token::LessEqual) => true,
        (Token::GreaterEqual, Token::GreaterEqual) => true,
        (Token::EqualEqual, Token::EqualEqual) => true,
        (Token::NotEqual, Token::NotEqual) => true,
        (Token::Samana, Token::Samana) => true,
        (Token::Una, Token::Una) => true,
        (Token::Agra, Token::Agra) => true,
        (Token::UnaSamana, Token::UnaSamana) => true,
        (Token::AgraSamana, Token::AgraSamana) => true,
        (Token::Asamana, Token::Asamana) => true,
        (Token::Colon, Token::Colon) => true,
        (Token::Comma, Token::Comma) => true,
        (Token::Dot, Token::Dot) => true,
        (Token::LeftParen, Token::LeftParen) => true,
        (Token::RightParen, Token::RightParen) => true,
        (Token::LeftBrace, Token::LeftBrace) => true,
        (Token::RightBrace, Token::RightBrace) => true,
        (Token::AtSign, Token::AtSign) => true,
        (Token::Arrow, Token::Arrow) => true,
        (Token::FatArrow, Token::FatArrow) => true,
        (Token::Assign, Token::Assign) => true,
        (Token::Plus, Token::Plus) => true,
        (Token::Minus, Token::Minus) => true,
        (Token::Star, Token::Star) => true,
        (Token::Slash, Token::Slash) => true,
        (Token::Percent, Token::Percent) => true,
        _ => false,
    }
}


pub open spec fn pr_str(r: Result<(String, usize), String>) -> PR<Seq<char>> {
    match r {
        Ok((x, p)) => Ok((x@, p as int)),
        Err(m) => Err(m@),
    }
}

pub open spec fn pr_strs(r: Result<(Vec<String>, usize), String>) -> PR<Seq<Seq<char>>> {
    match r {
        Ok((x, p)) => Ok((strs_m(x@), p as int)),
        Err(m) => Err(m@),
    }
}

pub open spec fn pr_pairs(r: Result<(Vec<(String, String)>, usize), String>) -> PR<Seq<(Seq<char>, Seq<char>)>> {
    match r {
        Ok((x, p)) => Ok((pairs_m(x@), p as int)),
        Err(m) => Err(m@),
    }
}

pub open spec fn pr_variants(r: Result<(Vec<(String, Option<Vec<String>>)>, usize), String>) -> PR<Seq<(Seq<char>, Option<Seq<Seq<char>>>)>> {
    match r {
        Ok((x, p)) => Ok((variants_m(x@), p as int)),
        Err(m) => Err(m@),
    }
}

pub open spec fn pr_sigs(r: Result<(Vec<(String, Vec<(String, String)>, String)>, usize), String>) -> PR<Seq<(Seq<char>, Seq<(Seq<char>, Seq<char>)>, Seq<char>)>> {
    match r {
        Ok((x, p)) => Ok((sigs_m(x@), p as int)),
        Err(m) => Err(m@),
    }
}

pub open spec fn pr_expr(r: Result<(Expression, usize), String>) -> PR<ExprM> {
    match r {
        Ok((x, p)) => Ok((x@, p as int)),
        Err(m) => Err(m@),
    }
}

pub open spec fn pr_exprs(r: Result<(Vec<Expression>, usize), String>) -> PR<Seq<ExprM>> {
    match r {
        Ok((x, p)) => Ok((exprs_m(x@), p as int)),
        Err(m) => Err(m@),
    }
}

pub open spec fn pr_arms(r: Result<(Vec<(String, Vec<String>, Expression)>, usize), String>) -> PR<Seq<(Seq<char>, Seq<Seq<char>>, ExprM)>> {
    match r {
        Ok((x, p)) => Ok((arms_m(x@), p as int)),
        Err(m) => Err(m@),
    }
}

pub open spec fn pr_node(r: Result<(ASTNode, usize), String>) -> PR<NodeM> {
    match r {
        Ok((x, p)) => Ok((x@, p as int)),
        Err(m) => Err(m@),
    }
}

pub open spec fn pr_nodes(r: Result<(Vec<ASTNode>, usize), String>) -> PR<Seq<NodeM>> {
    match r {
        Ok((x, p)) => Ok((nodes_m(x@), p as int)),
        Err(m) => Err(m@),
    }
}

/// The parser: the tokens and the place of the next one.
pub struct Parser {
    tokens: Vec<SpannedToken>,
    position: usize,
}

impl Parser {
    /// The tokens being parsed.
    pub closed spec fn token_model(&self) -> Seq<SpannedTokenM> {
        tokens_m(self.tokens@)
    }

    /// Where parsing resumes.
    pub closed spec fn pos(&self) -> int {
        self.position as int
    }

    /// The parser's invariant: the tokens can be counted past their end.
    pub closed spec fn wf(&self) -> bool {
        self.tokens@.len() < usize::MAX
    }

    pub fn new(tokens: Vec<SpannedToken>) -> (r: Self)
        requires
            tokens@.len() < usize::MAX,
        ensures
            r.token_model() == tokens_m(tokens@),
            r.pos() == 0,
            r.wf(),
    {
        Parser { tokens, position: 0 }
    }

    fn at(&self, p: usize, t: &Token) -> (r: bool)
        requires
            t@ is Kw,
        ensures
            r == is_at(self.token_model(), p as int, *t),
            r ==> p < self.tokens@.len(),
            self.token_model().len() == self.tokens@.len(),
    {
        p < self.tokens.len() && unit_eq(&self.tokens[p].token, t)
    }

    fn err_at(&self, p: usize, msg: &str) -> (r: String)
        requires
            p < self.tokens@.len(),
        ensures
            r@ == err_at(self.token_model()[p as int], msg@),
    {
        let mut r = owned("error at ");
        push_str(&mut r, usize_text(self.tokens[p].line).as_str());
        push_str(&mut r, ":");
        push_str(&mut r, usize_text(self.tokens[p].col).as_str());
        push_str(&mut r, ": ");
        push_str(&mut r, msg);
        r
    }

    fn expect_advance(&self, p: usize, t: Token, shown: &str) -> (r: Result<usize, String>)
        requires
            self.wf(),
            t@ is Kw,
        ensures
            match expect_spec(self.token_model(), p as int, t, shown@) {
                Ok(q) => r == Ok::<usize, String>(q as usize) && q == p + 1,
                Err(m) => r matches Err(x) && x@ == m,
            },
    {
        if p < self.tokens.len() {
            if unit_eq(&self.tokens[p].token, &t) {
                Ok(p + 1)
            } else {
                let mut m = owned("expected '");
                push_str(&mut m, shown);
                push_str(&mut m, "', got '");
                push_str(&mut m, token_debug_text(&self.tokens[p].token).as_str());
                push_str(&mut m, "'");
                Err(self.err_at(p, m.as_str()))
            }
        } else {
            let mut m = owned("error: expected '");
            push_str(&mut m, shown);
            push_str(&mut m, "', got end of input");
            Err(m)
        }
    }

    fn ident(&self, p: usize, what: &str) -> (r: Result<(String, usize), String>)
        requires
            self.wf(),
        ensures
            pr_str(r) == ident_spec(self.token_model(), p as int, what@),
            r matches Ok((_, q)) ==> q == p + 1,
    {
        if p < self.tokens.len() {
            match &self.tokens[p].token {
                Token::Identifier(id) => Ok((id.clone(), p + 1)),
                _ => {
                    let mut m = owned("expected ");
                    push_str(&mut m, what);
                    Err(self.err_at(p, m.as_str()))
                },
            }
        } else {
            let mut m = owned("expected ");
            push_str(&mut m, what);
            Err(m)
        }
    }

    fn string_lit(&self, p: usize, what: &str) -> (r: Result<(String, usize), String>)
        requires
            self.wf(),
        ensures
            pr_str(r) == string_spec(self.token_model(), p as int, what@),
            r matches Ok((_, q)) ==> q == p + 1,
    {
        if p < self.tokens.len() {
            match &self.tokens[p].token {
                Token::Literal(Value::Str(s)) => Ok((s.clone(), p + 1)),
                _ => {
                    let mut m = owned("expected ");
                    push_str(&mut m, what);
                    Err(self.err_at(p, m.as_str()))
                },
            }
        } else {
            let mut m = owned("expected ");
            push_str(&mut m, what);
            Err(m)
        }
    }

    fn opt_ident(&self, p: usize) -> (r: (Option<String>, usize))
        requires
            self.wf(),
        ensures
            (match r.0 { Some(x) => Some(x@), None => None::<Seq<char>> }, r.1 as int) == opt_ident(self.token_model(), p as int),
            r.1 <= p + 1,
    {
        if p < self.tokens.len() {
            match &self.tokens[p].token {
                Token::Identifier(id) => (Some(id.clone()), p + 1),
                _ => (None, p + 1),
            }
        } else {
            (None, p)
        }
    }

    fn skip_comma(&self, p: usize) -> (r: usize)
        requires
            self.wf(),
            p <= self.tokens@.len(),
        ensures
            r == skip_comma(self.token_model(), p as int),
            r <= self.tokens@.len(),
    {
        if self.at(p, &Token::Comma) { p + 1 } else { p }
    }

    fn next(&self, p: usize) -> (r: usize)
        requires
            self.wf(),
            p <= self.tokens@.len(),
        ensures
            r == next(self.token_model(), p as int),
            r <= self.tokens@.len(),
    {
        if p < self.tokens.len() { p + 1 } else { p }
    }
}

impl Parser {
    fn names_until(&self, p: usize, close: &Token) -> (r: Result<(Vec<String>, usize), String>)
        requires
            self.wf(),
            close@ is Kw,
            p <= self.tokens@.len(),
        ensures
            pr_strs(r) == names_until(self.token_model(), p as int, *close, Seq::empty()),
            r matches Ok((_, q)) ==> p < q <= self.tokens@.len(),
    {
        let ghost ts = self.token_model();
        let mut acc: Vec<String> = Vec::new();
        let mut i = p;
        assert(strs_m(acc@) =~= Seq::<Seq<char>>::empty());
        loop
            invariant
                self.wf(),
                p <= i <= self.tokens@.len(),
                close@ is Kw,
                ts == self.token_model(),
                ts.len() == self.tokens@.len(),
                names_until(ts, p as int, *close, Seq::empty()) == names_until(ts, i as int, *close, strs_m(acc@)),
            decreases self.tokens@.len() - i,
        {
            if i >= self.tokens.len() {
                return Err(owned("unexpected end of input"));
            }
            if self.at(i, close) {
                return Ok((acc, i + 1));
            }
            let (x, i1) = self.opt_ident(i);
            match x {
                Some(n) => {
                    let ghost before = strs_m(acc@);
                    acc.push(n);
                    assert(strs_m(acc@) =~= before.push(n@));
                },
                None => {},
            }
            i = self.skip_comma(i1);
        }
    }

    fn params_until(&self, p: usize, default: &str) -> (r: Result<(Vec<(String, String)>, usize), String>)
        requires
            self.wf(),
            p <= self.tokens@.len(),
        ensures
            pr_pairs(r) == params_until(self.token_model(), p as int, default@, Seq::empty()),
            r matches Ok((_, q)) ==> p < q <= self.tokens@.len(),
    {
        let ghost ts = self.token_model();
        let mut acc: Vec<(String, String)> = Vec::new();
        let mut i = p;
        assert(pairs_m(acc@) =~= Seq::<(Seq<char>, Seq<char>)>::empty());
        loop
            invariant
                self.wf(),
                p <= i <= self.tokens@.len(),
                ts == self.token_model(),
                ts.len() == self.tokens@.len(),
                params_until(ts, p as int, default@, Seq::empty()) == params_until(ts, i as int, default@, pairs_m(acc@)),
            decreases self.tokens@.len() - i,
        {
            if i >= self.tokens.len() {
                return Err(owned("unexpected end of input"));
            }
            if self.at(i, &Token::RightParen) {
                return Ok((acc, i + 1));
            }
            let (x, i1) = self.opt_ident(i);
            match x {
                Some(n) => {
                    let (ty, i2) = if self.at(i1, &Token::Colon) {
                        let (t, q) = self.opt_ident(i1 + 1);
                        (match t {
                            Some(tn) => tn,
                            None => owned(default),
                        }, q)
                    } else {
                        (owned(default), i1)
                    };
                    let ghost before = pairs_m(acc@);
                    let ghost entry = (n@, ty@);
                    acc.push((n, ty));
                    assert(pairs_m(acc@) =~= before.push(entry));
                    i = self.skip_comma(i2);
                },
                None => {
                    i = self.skip_comma(i1);
                },
            }
        }
    }

    fn fields_until(&self, p: usize) -> (r: Result<(Vec<(String, String)>, usize), String>)
        requires
            self.wf(),
            p <= self.tokens@.len(),
        ensures
            pr_pairs(r) == fields_until(self.token_model(), p as int, Seq::empty()),
            r matches Ok((_, q)) ==> p < q <= self.tokens@.len(),
    {
        let ghost ts = self.token_model();
        let mut acc: Vec<(String, String)> = Vec::new();
        let mut i = p;
        assert(pairs_m(acc@) =~= Seq::<(Seq<char>, Seq<char>)>::empty());
        loop
            invariant
                self.wf(),
                p <= i <= self.tokens@.len(),
                ts == self.token_model(),
                ts.len() == self.tokens@.len(),
                fields_until(ts, p as int, Seq::empty()) == fields_until(ts, i as int, pairs_m(acc@)),
            decreases self.tokens@.len() - i,
        {
            if i >= self.tokens.len() {
                return Err(owned("unexpected end of input"));
            }
            if self.at(i, &Token::RightBrace) {
                return Ok((acc, i + 1));
            }
            let (x, i1) = self.opt_ident(i);
            match x {
                Some(f) => {
                    let i2 = match self.expect_advance(i1, Token::Colon, ":") {
                        Ok(q) => q,
                        Err(m) => {
                            return Err(m);
                        },
                    };
                    let (t, i3) = self.opt_ident(i2);
                    match t {
                        Some(ft) => {
                            let ghost before = pairs_m(acc@);
                            let ghost entry = (f@, ft@);
                            acc.push((f, ft));
                            assert(pairs_m(acc@) =~= before.push(entry));
                        },
                        None => {},
                    }
                    i = self.skip_comma(i3);
                },
                None => {
                    i = self.skip_comma(i1);
                },
            }
        }
    }

    fn variants_until(&self, p: usize) -> (r: Result<(Vec<(String, Option<Vec<String>>)>, usize), String>)
        requires
            self.wf(),
            p <= self.tokens@.len(),
        ensures
            pr_variants(r) == variants_until(self.token_model(), p as int, Seq::empty()),
            r matches Ok((_, q)) ==> p < q <= self.tokens@.len(),
    {
        let ghost ts = self.token_model();
        let mut acc: Vec<(String, Option<Vec<String>>)> = Vec::new();
        let mut i = p;
        assert(variants_m(acc@) =~= Seq::<(Seq<char>, Option<Seq<Seq<char>>>)>::empty());
        loop
            invariant
                self.wf(),
                p <= i <= self.tokens@.len(),
                ts == self.token_model(),
                ts.len() == self.tokens@.len(),
                variants_until(ts, p as int, Seq::empty()) == variants_until(ts, i as int, variants_m(acc@)),
            decreases self.tokens@.len() - i,
        {
            if i >= self.tokens.len() {
                return Err(owned("unexpected end of input"));
            }
            if self.at(i, &Token::RightBrace) {
                return Ok((acc, i + 1));
            }
            let (x, i1) = self.opt_ident(i);
            match x {
                Some(v) => {
                    if self.at(i1, &Token::LeftParen) {
                        let (types, i2) = match self.names_until(i1 + 1, &Token::RightParen) {
                            Ok(r) => r,
                            Err(m) => {
                                return Err(m);
                            },
                        };
                        if !(i < i2 && i2 <= self.tokens.len()) {
                            return Err(owned("parser made no progress"));
                        }
                        let ghost before = variants_m(acc@);
                        let ghost entry = (v@, Some(strs_m(types@)));
                        acc.push((v, Some(types)));
                        assert(variants_m(acc@) =~= before.push(entry));
                        i = self.skip_comma(i2);
                    } else {
                        let ghost before = variants_m(acc@);
                        let ghost entry = (v@, None::<Seq<Seq<char>>>);
                        acc.push((v, None));
                        assert(variants_m(acc@) =~= before.push(entry));
                        i = self.skip_comma(i1);
                    }
                },
                None => {
                    i = self.skip_comma(i1);
                },
            }
        }
    }

    fn sigs_until(&self, p: usize) -> (r: Result<(Vec<(String, Vec<(String, String)>, String)>, usize), String>)
        requires
            self.wf(),
            p <= self.tokens@.len(),
        ensures
            pr_sigs(r) == sigs_until(self.token_model(), p as int, Seq::empty()),
            r matches Ok((_, q)) ==> p < q <= self.tokens@.len(),
    {
        let ghost ts = self.token_model();
        let mut acc: Vec<(String, Vec<(String, String)>, String)> = Vec::new();
        let mut i = p;
        assert(sigs_m(acc@) =~= Seq::<(Seq<char>, Seq<(Seq<char>, Seq<char>)>, Seq<char>)>::empty());
        loop
            invariant
                self.wf(),
                p <= i <= self.tokens@.len(),
                ts == self.token_model(),
                ts.len() == self.tokens@.len(),
                sigs_until(ts, p as int, Seq::empty()) == sigs_until(ts, i as int, sigs_m(acc@)),
            decreases self.tokens@.len() - i,
        {
            if i >= self.tokens.len() {
                return Err(owned("unexpected end of input"));
            }
            if self.at(i, &Token::RightBrace) {
                return Ok((acc, i + 1));
            }
            if self.at(i, &Token::FuncDeclKW) {
                let (x, i1) = self.opt_ident(i + 1);
                match x {
                    Some(m) => {
                        let i2 = match self.expect_advance(i1, Token::LeftParen, "(") {
                            Ok(q) => q,
                            Err(e) => {
                                return Err(e);
                            },
                        };
                        let (params, i3) = match self.params_until(i2, "विविध") {
                            Ok(r) => r,
                            Err(e) => {
                                return Err(e);
                            },
                        };
                        let (rt, i4) = if self.at(i3, &Token::Arrow) {
                            let (t, q) = self.opt_ident(i3 + 1);
                            (match t {
                                Some(r) => r,
                                None => owned("शून्य"),
                            }, q)
                        } else {
                            (owned("शून्य"), i3)
                        };
                        let i5 = match self.expect_advance(i4, Token::Danda, "।") {
                            Ok(q) => q,
                            Err(e) => {
                                return Err(e);
                            },
                        };
                        if !(i < i5 && i5 <= self.tokens.len()) {
                            return Err(owned("parser made no progress"));
                        }
                        let ghost before = sigs_m(acc@);
                        let ghost entry = (m@, pairs_m(params@), rt@);
                        acc.push((m, params, rt));
                        assert(sigs_m(acc@) =~= before.push(entry));
                        i = i5;
                    },
                    None => {
                        i = i1;
                    },
                }
            } else {
                i = i + 1;
            }
        }
    }
}

impl Parser {
    fn stuck_err() -> (r: String)
        ensures
            r@ == stuck(),
    {
        owned("parser made no progress")
    }

    fn parse_expression(&self, p: usize, prec: u8) -> (r: Result<(Expression, usize), String>)
        requires
            self.wf(),
            p <= self.tokens@.len(),
        ensures
            pr_expr(r) == expr_spec(self.token_model(), p as int, prec),
            r matches Ok((_, q)) ==> q <= self.tokens@.len(),
        decreases self.tokens@.len() - p, 4nat,
    {
        let ghost ts = self.token_model();
        assert(ts.len() == self.tokens@.len());
        if p >= self.tokens.len() {
            return Err(owned("unexpected end of input in expression"));
        }
        assert(ts[p as int] == self.tokens@[p as int]@);
        let p1 = p + 1;
        let negative: Option<i64> = if p1 < self.tokens.len() {
            match (&self.tokens[p].token, &self.tokens[p1].token) {
                (Token::Minus, Token::IntLiteral(n)) => if *n >= 0 { Some(-*n) } else { None },
                _ => None,
            }
        } else {
            None
        };
        proof {
            if p1 < self.tokens@.len() {
                assert(ts[p1 as int] == self.tokens@[p1 as int]@);
            }
        }
        let prim: Result<(Expression, usize), String> = if let Some(v) = negative {
            Ok((Expression::IntLiteral(v), p1 + 1))
        } else { match &self.tokens[p].token {
            Token::Literal(v) => Ok((Expression::Literal(clone_value(v)), p1)),
            Token::IntLiteral(n) => Ok((Expression::IntLiteral(*n), p1)),
            Token::LeftParen => match self.parse_expression(p1, 0) {
                Ok((e, p2)) => match self.expect_advance(p2, Token::RightParen, ")") {
                    Ok(p3) => Ok((e, p3)),
                    Err(m) => Err(m),
                },
                Err(m) => Err(m),
            },
            Token::Identifier(id) => self.name_expr(p1, id.clone()),
            Token::MatchKW => match self.parse_expression(p1, 0) {
                Ok((target, p2)) => if !(p < p2 && p2 <= self.tokens.len()) {
                    Err(Self::stuck_err())
                } else {
                    match self.expect_advance(p2, Token::LeftBrace, "{") {
                        Ok(p3) => match self.arms_until(p3) {
                            Ok((arms, p4)) => Ok((Expression::MatchExpr { eval_target: Box::new(target), arms }, p4)),
                            Err(m) => Err(m),
                        },
                        Err(m) => Err(m),
                    }
                },
                Err(m) => Err(m),
            },
            Token::AwaitKW => match self.parse_expression(p1, 7) {
                Ok((e, p2)) => Ok((Expression::AwaitExpr { target_future: Box::new(e) }, p2)),
                Err(m) => Err(m),
            },
            Token::Reference => {
                let is_mut = self.at(p1, &Token::Mutable);
                let p2 = if is_mut { p1 + 1 } else { p1 };
                match self.ident(p2, "variable name after ref") {
                    Ok((target, p3)) => Ok((Expression::BorrowExpr { target, is_mutable: is_mut }, p3)),
                    Err(m) => Err(m),
                }
            },
            _ => {
                let mut m = owned("unexpected token ");
                push_str(&mut m, token_debug_text(&self.tokens[p].token).as_str());
                Err(self.err_at(p, m.as_str()))
            },
        } };
        match prim {
            Ok((left, q)) => if !(p < q && q <= self.tokens.len()) {
                Err(Self::stuck_err())
            } else {
                self.binary_loop(q, prec, left)
            },
            Err(m) => Err(m),
        }
    }

    fn name_expr(&self, p: usize, id: String) -> (r: Result<(Expression, usize), String>)
        requires
            self.wf(),
            p <= self.tokens@.len(),
        ensures
            pr_expr(r) == name_expr_spec(self.token_model(), p as int, id@),
            r matches Ok((_, q)) ==> q <= self.tokens@.len(),
        decreases self.tokens@.len() - p, 6nat,
    {
        if self.at(p, &Token::LessThan) {
            match self.names_until(p + 1, &Token::GreaterThan) {
                Ok((types, p2)) => if !(p < p2 && p2 <= self.tokens.len()) {
                    Err(Self::stuck_err())
                } else {
                    let p3 = self.next(p2);
                    match self.args_until(p3) {
                        Ok((args, p4)) => Ok((Expression::GenericCall { name: id, concrete_types: types, args }, p4)),
                        Err(m) => Err(m),
                    }
                },
                Err(m) => Err(m),
            }
        } else if self.at(p, &Token::LeftParen) {
            match self.args_until(p + 1) {
                Ok((args, p2)) => Ok((Expression::Call { name: id, args }, p2)),
                Err(m) => Err(m),
            }
        } else {
            Ok((Expression::Variable(id), p))
        }
    }

    fn binary_loop(&self, p: usize, prec: u8, left: Expression) -> (r: Result<(Expression, usize), String>)
        requires
            self.wf(),
            p <= self.tokens@.len(),
        ensures
            pr_expr(r) == binary_loop(self.token_model(), p as int, prec, left@),
            r matches Ok((_, q)) ==> q <= self.tokens@.len(),
        decreases self.tokens@.len() - p, 3nat,
    {
        let ghost ts = self.token_model();
        let ghost left0 = left@;
        assert(ts.len() == self.tokens@.len());
        let mut i = p;
        let mut acc = left;
        loop
            invariant
                self.wf(),
                p <= i <= self.tokens@.len(),
                ts == self.token_model(),
                ts.len() == self.tokens@.len(),
                binary_loop(ts, p as int, prec, left0) == binary_loop(ts, i as int, prec, acc@),
                left0 == left@,
            decreases self.tokens@.len() - i,
        {
            if i >= self.tokens.len() {
                return Ok((acc, i));
            }
            assert(ts[i as int] == self.tokens@[i as int]@);
            let np = get_precedence(&self.tokens[i].token);
            if prec >= np {
                return Ok((acc, i));
            }
            match token_binary_op(&self.tokens[i].token) {
                Some(op) => {
                    match self.parse_expression(i + 1, np) {
                        Ok((right, p2)) => {
                            if !(i < p2 && p2 <= self.tokens.len()) {
                                return Err(Self::stuck_err());
                            }
                            acc = Expression::Binary { left: Box::new(acc), op: owned(op), right: Box::new(right) };
                            i = p2;
                        },
                        Err(m) => {
                            return Err(m);
                        },
                    }
                },
                None => {
                    if matches!(self.tokens[i].token, Token::Dot) {
                        match self.ident(i + 1, "field name after .") {
                            Ok((field, p2)) => {
                                if self.at(p2, &Token::LeftParen) {
                                    match self.args_until(p2 + 1) {
                                        Ok((args, p3)) => {
                                            if !(i < p3 && p3 <= self.tokens.len()) {
                                                return Err(Self::stuck_err());
                                            }
                                            acc = Expression::MethodCall { instance: Box::new(acc), method_name: field, args };
                                            i = p3;
                                        },
                                        Err(m) => {
                                            return Err(m);
                                        },
                                    }
                                } else {
                                    acc = Expression::FieldAccess { object: Box::new(acc), field };
                                    i = p2;
                                }
                            },
                            Err(m) => {
                                return Err(m);
                            },
                        }
                    } else {
                        return Ok((acc, i + 1));
                    }
                },
            }
        }
    }

    fn args_until(&self, p: usize) -> (r: Result<(Vec<Expression>, usize), String>)
        requires
            self.wf(),
            p <= self.tokens@.len(),
        ensures
            pr_exprs(r) == args_until(self.token_model(), p as int, Seq::empty()),
            r matches Ok((_, q)) ==> p < q <= self.tokens@.len(),
        decreases self.tokens@.len() - p, 5nat,
    {
        let ghost ts = self.token_model();
        let mut acc: Vec<Expression> = Vec::new();
        let mut i = p;
        assert(exprs_m(acc@) =~= Seq::<ExprM>::empty());
        loop
            invariant
                self.wf(),
                p <= i <= self.tokens@.len(),
                ts == self.token_model(),
                ts.len() == self.tokens@.len(),
                args_until(ts, p as int, Seq::empty()) == args_until(ts, i as int, exprs_m(acc@)),
            decreases self.tokens@.len() - i,
        {
            if self.at(i, &Token::RightParen) {
                return Ok((acc, i + 1));
            }
            match self.parse_expression(i, 0) {
                Ok((a, p2)) => {
                    if !(i < p2 && p2 <= self.tokens.len()) {
                        return Err(Self::stuck_err());
                    }
                    proof {
                        lemma_exprs_m_push(acc@, a);
                    }
                    acc.push(a);
                    i = self.skip_comma(p2);
                },
                Err(m) => {
                    return Err(m);
                },
            }
        }
    }

    fn arms_until(&self, p: usize) -> (r: Result<(Vec<(String, Vec<String>, Expression)>, usize), String>)
        requires
            self.wf(),
            p <= self.tokens@.len(),
        ensures
            pr_arms(r) == arms_until(self.token_model(), p as int, Seq::empty()),
            r matches Ok((_, q)) ==> p < q <= self.tokens@.len(),
        decreases self.tokens@.len() - p, 2nat,
    {
        let ghost ts = self.token_model();
        let mut acc: Vec<(String, Vec<String>, Expression)> = Vec::new();
        let mut i = p;
        assert(arms_m(acc@) =~= Seq::<(Seq<char>, Seq<Seq<char>>, ExprM)>::empty());
        loop
            invariant
                self.wf(),
                p <= i <= self.tokens@.len(),
                ts == self.token_model(),
                ts.len() == self.tokens@.len(),
                arms_until(ts, p as int, Seq::empty()) == arms_until(ts, i as int, arms_m(acc@)),
            decreases self.tokens@.len() - i,
        {
            if self.at(i, &Token::RightBrace) {
                return Ok((acc, i + 1));
            }
            let (pat, p1) = match self.ident(i, "variant pattern") {
                Ok(r) => r,
                Err(m) => {
                    return Err(m);
                },
            };
            let (binds, p2) = if self.at(p1, &Token::LeftParen) {
                match self.names_until(p1 + 1, &Token::RightParen) {
                    Ok(r) => r,
                    Err(m) => {
                        return Err(m);
                    },
                }
            } else {
                let e: Vec<String> = Vec::new();
                assert(strs_m(e@) =~= Seq::<Seq<char>>::empty());
                (e, p1)
            };
            let p3 = match self.expect_advance(p2, Token::FatArrow, "=>") {
                Ok(q) => q,
                Err(m) => {
                    return Err(m);
                },
            };
            if !(i < p3 && p3 <= self.tokens.len()) {
                return Err(Self::stuck_err());
            }
            let (e, p4) = match self.parse_expression(p3, 0) {
                Ok(r) => r,
                Err(m) => {
                    return Err(m);
                },
            };
            if !(i < p4 && p4 <= self.tokens.len()) {
                return Err(Self::stuck_err());
            }
            let ghost before = arms_m(acc@);
            let ghost prev = acc@;
            let ghost entry = (pat@, strs_m(binds@), e@);
            acc.push((pat, binds, e));
            proof {
                assert(acc@.drop_last() =~= prev);
                assert(arms_m(acc@) == before.push(entry));
            }
            i = self.skip_comma(p4);
        }
    }
}

/// The binding precedence of a token.
fn get_precedence(t: &Token) -> (r: u8)
    ensures
        r == precedence(t@),
{
    match t {
        Token::Dot | Token::LeftParen => 8,
        Token::Star | Token::Slash | Token::Percent => 6,
        Token::Plus | Token::Minus => 5,
        Token::LessThan | Token::GreaterThan | Token::LessEqual | Token::GreaterEqual | Token::EqualEqual | Token::NotEqual
        | Token::Samana | Token::Una | Token::Agra | Token::UnaSamana | Token::AgraSamana | Token::Asamana => 4,
        Token::Cha => 3,
        Token::Va => 2,
        Token::Assign => 1,
        _ => 0,
    }
}

/// The operator of a binary-operator token.
fn token_binary_op(t: &Token) -> (r: Option<&'static str>)
    ensures
        match r {
            Some(s) => binary_op(t@) == Some(s@),
            None => binary_op(t@) is None,
        },
{
    match t {
        Token::Plus => Some("+"),
        Token::Minus => Some("-"),
        Token::Star => Some("*"),
        Token::Slash => Some("/"),
        Token::Percent => Some("%"),
        Token::EqualEqual | Token::Samana => Some("=="),
        Token::NotEqual | Token::Asamana => Some("!="),
        Token::LessThan | Token::Una => Some("<"),
        Token::GreaterThan | Token::Agra => Some(">"),
        Token::LessEqual | Token::UnaSamana => Some("<="),
        Token::GreaterEqual | Token::AgraSamana => Some(">="),
        Token::Cha => Some("च"),
        Token::Va => Some("वा"),
        _ => None,
    }
}

/// The path of an import without `.vya`.
fn without_vya(path: &String) -> (r: String)
    ensures
        r@ == without(path@, ".vya"@),
{
    proof {
        reveal_strlit(".vya");
    }
    let ghost pat = ".vya"@;
    let cs = chars_of(path.as_str());
    let ghost s = cs@;
    let mut out = String::new();
    let mut i: usize = 0;
    assert(s.subrange(0, s.len() as int) =~= s);
    while i < cs.len()
        invariant
            i <= cs@.len(),
            s == cs@,
            s == path@,
            pat == seq!['.', 'v', 'y', 'a'],
            without(s, pat) == out@ + without(s.subrange(i as int, s.len() as int), pat),
        decreases cs@.len() - i,
    {
        let ghost rest = s.subrange(i as int, s.len() as int);
        if cs.len() - i >= 4 && cs[i] == '.' && cs[i + 1] == 'v' && cs[i + 2] == 'y' && cs[i + 3] == 'a' {
            assert(rest.subrange(0, 4) =~= pat);
            assert(rest.subrange(4, rest.len() as int) =~= s.subrange(i + 4, s.len() as int));
            i = i + 4;
        } else {
            assert(!(4 <= rest.len() && rest.subrange(0, 4) == pat)) by {
                if 4 <= rest.len() && rest.subrange(0, 4) == pat {
                    assert(rest.subrange(0, 4)[0] == rest[0]);
                    assert(rest.subrange(0, 4)[1] == rest[1]);
                    assert(rest.subrange(0, 4)[2] == rest[2]);
                    assert(rest.subrange(0, 4)[3] == rest[3]);
                }
            }
            let ghost o0 = out@;
            push_char(&mut out, cs[i]);
            assert(rest.drop_first() =~= s.subrange(i + 1, s.len() as int));
            assert(o0 + (seq![rest[0]] + without(rest.drop_first(), pat)) =~= out@ + without(rest.drop_first(), pat));
            i = i + 1;
        }
    }
    assert(s.subrange(i as int, s.len() as int) =~= Seq::<char>::empty());
    assert(out@ + Seq::<char>::empty() =~= out@);
    out
}

impl Parser {
    fn parse_access_modifier(&self, p: usize) -> (r: (AccessModifier, usize))
        requires
            self.wf(),
            p <= self.tokens@.len(),
        ensures
            (r.0, r.1 as int) == access_spec(self.token_model(), p as int),
            r.1 <= self.tokens@.len(),
    {
        if self.at(p, &Token::UdAtta) {
            (AccessModifier::Public, p + 1)
        } else if self.at(p, &Token::AnudAtta) {
            (AccessModifier::Private, p + 1)
        } else if self.at(p, &Token::Svarita) {
            (AccessModifier::Protected, p + 1)
        } else {
            (AccessModifier::Private, p)
        }
    }

    fn keyword_expr(&self, p: usize) -> (r: Result<(Expression, usize), String>)
        requires
            self.wf(),
            p < self.tokens@.len(),
        ensures
            pr_expr(r) == keyword_expr_spec(self.token_model(), p as int),
            r matches Ok((_, q)) ==> q <= self.tokens@.len(),
    {
        match self.parse_expression(p + 1, 0) {
            Ok((e, p2)) => match self.expect_advance(p2, Token::Danda, "।") {
                Ok(p3) => Ok((e, p3)),
                Err(m) => Err(m),
            },
            Err(m) => Err(m),
        }
    }

    fn parse_var_declaration(&self, p: usize, access: AccessModifier) -> (r: Result<(ASTNode, usize), String>)
        requires
            self.wf(),
            p < self.tokens@.len(),
        ensures
            pr_node(r) == var_decl_spec(self.token_model(), p as int, access),
            r matches Ok((_, q)) ==> q <= self.tokens@.len(),
    {
        let (name, p1) = match self.ident(p + 1, "identifier for variable name") {
            Ok(r) => r,
            Err(m) => {
                return Err(m);
            },
        };
        let (data_type, p2) = if self.at(p1, &Token::Colon) {
            self.opt_ident(p1 + 1)
        } else {
            (None, p1)
        };
        let p3 = match self.expect_advance(p2, Token::Assign, "=") {
            Ok(q) => q,
            Err(m) => {
                return Err(m);
            },
        };
        let (value, p4) = match self.parse_expression(p3, 0) {
            Ok(r) => r,
            Err(m) => {
                return Err(m);
            },
        };
        let p5 = match self.expect_advance(p4, Token::Danda, "।") {
            Ok(q) => q,
            Err(m) => {
                return Err(m);
            },
        };
        Ok((ASTNode::VarDecl { name, data_type, value, access_level: access }, p5))
    }

    fn parse_import_statement(&self, p: usize) -> (r: Result<(ASTNode, usize), String>)
        requires
            self.wf(),
            p < self.tokens@.len(),
        ensures
            pr_node(r) == import_spec(self.token_model(), p as int),
            r matches Ok((_, q)) ==> q <= self.tokens@.len(),
    {
        let (path, p1) = match self.string_lit(p + 1, "string path for import") {
            Ok(r) => r,
            Err(m) => {
                return Err(m);
            },
        };
        let p2 = match self.expect_advance(p1, Token::Danda, "।") {
            Ok(q) => q,
            Err(m) => {
                return Err(m);
            },
        };
        let alias = without_vya(&path);
        Ok((ASTNode::ImportDecl { file_path: path, namespace_alias: alias }, p2))
    }

    fn parse_ffi_declaration(&self, p: usize, access: AccessModifier) -> (r: Result<(ASTNode, usize), String>)
        requires
            self.wf(),
            p < self.tokens@.len(),
        ensures
            pr_node(r) == ffi_spec(self.token_model(), p as int, access),
            r matches Ok((_, q)) ==> q <= self.tokens@.len(),
    {
        let (lib, p1) = match self.string_lit(p + 1, "string for library path") {
            Ok(r) => r,
            Err(m) => {
                return Err(m);
            },
        };
        let (sym, p2) = match self.ident(p1, "function symbol name") {
            Ok(r) => r,
            Err(m) => {
                return Err(m);
            },
        };
        let p3 = match self.expect_advance(p2, Token::LeftParen, "(") {
            Ok(q) => q,
            Err(m) => {
                return Err(m);
            },
        };
        let (params, p4) = match self.params_until(p3, "अङ्क") {
            Ok(r) => r,
            Err(m) => {
                return Err(m);
            },
        };
        let (rt, p5) = if self.at(p4, &Token::Arrow) {
            let (t, q) = self.opt_ident(p4 + 1);
            (match t {
                Some(x) => x,
                None => owned("शून्य"),
            }, q)
        } else {
            (owned("शून्य"), p4)
        };
        let p6 = match self.expect_advance(p5, Token::Danda, "।") {
            Ok(q) => q,
            Err(m) => {
                return Err(m);
            },
        };
        Ok((ASTNode::FFIDecl { library_path: lib, symbol_name: sym, parameters: params, return_type: rt, access_level: access }, p6))
    }

    fn parse_enum_declaration(&self, p: usize, access: AccessModifier) -> (r: Result<(ASTNode, usize), String>)
        requires
            self.wf(),
            p < self.tokens@.len(),
        ensures
            pr_node(r) == enum_spec(self.token_model(), p as int, access),
            r matches Ok((_, q)) ==> q <= self.tokens@.len(),
    {
        let (name, p1) = match self.ident(p + 1, "enum name") {
            Ok(r) => r,
            Err(m) => {
                return Err(m);
            },
        };
        let p2 = match self.expect_advance(p1, Token::LeftBrace, "{") {
            Ok(q) => q,
            Err(m) => {
                return Err(m);
            },
        };
        match self.variants_until(p2) {
            Ok((variants, p3)) => Ok((ASTNode::EnumDecl { name, variants, access_level: access }, p3)),
            Err(m) => Err(m),
        }
    }

    fn parse_trait_declaration(&self, p: usize, access: AccessModifier) -> (r: Result<(ASTNode, usize), String>)
        requires
            self.wf(),
            p < self.tokens@.len(),
        ensures
            pr_node(r) == trait_spec(self.token_model(), p as int, access),
            r matches Ok((_, q)) ==> q <= self.tokens@.len(),
    {
        let (name, p1) = match self.ident(p + 1, "trait name") {
            Ok(r) => r,
            Err(m) => {
                return Err(m);
            },
        };
        let p2 = match self.expect_advance(p1, Token::LeftBrace, "{") {
            Ok(q) => q,
            Err(m) => {
                return Err(m);
            },
        };
        match self.sigs_until(p2) {
            Ok((sigs, p3)) => Ok((ASTNode::TraitDecl { name, method_signatures: sigs, access_level: access }, p3)),
            Err(m) => Err(m),
        }
    }

    fn parse_struct_fields(&self, p: usize) -> (r: Result<(Vec<(String, String)>, usize), String>)
        requires
            self.wf(),
            p <= self.tokens@.len(),
        ensures
            pr_pairs(r) == struct_fields_spec(self.token_model(), p as int),
            r matches Ok((_, q)) ==> q <= self.tokens@.len(),
    {
        match self.expect_advance(p, Token::LeftBrace, "{") {
            Ok(p1) => self.fields_until(p1),
            Err(m) => Err(m),
        }
    }

    fn parse_attributed_struct(&self, p: usize, access: AccessModifier) -> (r: Result<(ASTNode, usize), String>)
        requires
            self.wf(),
            p < self.tokens@.len(),
        ensures
            pr_node(r) == attr_struct_spec(self.token_model(), p as int, access),
            r matches Ok((_, q)) ==> q <= self.tokens@.len(),
    {
        let (attr, p1) = match self.ident(p + 1, "attribute name") {
            Ok(r) => r,
            Err(m) => {
                return Err(m);
            },
        };
        let p2 = match self.expect_advance(p1, Token::StructKW, "वस्तु_विन्यासः") {
            Ok(q) => q,
            Err(m) => {
                return Err(m);
            },
        };
        let (name, p3) = match self.ident(p2, "struct name") {
            Ok(r) => r,
            Err(m) => {
                return Err(m);
            },
        };
        match self.parse_struct_fields(p3) {
            Ok((fields, p4)) => {
                let attrs = vec![attr];
                assert(strs_m(attrs@) =~= seq![attrs@[0]@]);
                Ok((ASTNode::StructDecl { name, attributes: attrs, fields, access_level: access }, p4))
            },
            Err(m) => Err(m),
        }
    }

    fn parse_standard_struct(&self, p: usize, access: AccessModifier) -> (r: Result<(ASTNode, usize), String>)
        requires
            self.wf(),
            p < self.tokens@.len(),
        ensures
            pr_node(r) == struct_spec(self.token_model(), p as int, access),
            r matches Ok((_, q)) ==> q <= self.tokens@.len(),
    {
        let (name, p1) = match self.ident(p + 1, "struct name") {
            Ok(r) => r,
            Err(m) => {
                return Err(m);
            },
        };
        match self.parse_struct_fields(p1) {
            Ok((fields, p2)) => {
                let attrs: Vec<String> = Vec::new();
                assert(strs_m(attrs@) =~= Seq::<Seq<char>>::empty());
                Ok((ASTNode::StructDecl { name, attributes: attrs, fields, access_level: access }, p2))
            },
            Err(m) => Err(m),
        }
    }
}

impl Parser {
    fn parse_statement(&self, p: usize) -> (r: Result<(ASTNode, usize), String>)
        requires
            self.wf(),
            p <= self.tokens@.len(),
        ensures
            pr_node(r) == stmt_spec(self.token_model(), p as int),
            r matches Ok((_, q)) ==> q <= self.tokens@.len(),
        decreases self.tokens@.len() - p, 7nat,
    {
        let ghost ts = self.token_model();
        let (access, p1) = self.parse_access_modifier(p);
        if p1 >= self.tokens.len() {
            return match self.parse_expression(p1, 0) {
                Ok((e, p2)) => match self.expect_advance(p2, Token::Danda, "।") {
                    Ok(p3) => Ok((ASTNode::StatementExpr(e), p3)),
                    Err(m) => Err(m),
                },
                Err(m) => Err(m),
            };
        }
        assert(ts[p1 as int] == self.tokens@[p1 as int]@);
        match &self.tokens[p1].token {
            Token::VarDeclKW => self.parse_var_declaration(p1, access),
            Token::FuncDeclKW | Token::AsyncKW => self.parse_func_or_async_declaration(p1, access),
            Token::If => self.parse_if_statement(p1),
            Token::Yavat => self.parse_while_statement(p1),
            Token::Import => self.parse_import_statement(p1),
            Token::Spawn => match self.keyword_expr(p1) {
                Ok((e, q)) => Ok((ASTNode::SpawnStmt(e), q)),
                Err(m) => Err(m),
            },
            Token::Delay => match self.keyword_expr(p1) {
                Ok((e, q)) => Ok((ASTNode::DelayStmt(e), q)),
                Err(m) => Err(m),
            },
            Token::ForeignKW => self.parse_ffi_declaration(p1, access),
            Token::EnumKW => self.parse_enum_declaration(p1, access),
            Token::TraitKW => self.parse_trait_declaration(p1, access),
            Token::ImplKW => self.parse_impl_block(p1),
            Token::AtSign => self.parse_attributed_struct(p1, access),
            Token::StructKW => self.parse_standard_struct(p1, access),
            Token::Pratiphala => match self.keyword_expr(p1) {
                Ok((e, q)) => Ok((ASTNode::ReturnStmt(e), q)),
                Err(m) => Err(m),
            },
            Token::Danda | Token::DoubleDanda => Ok((ASTNode::NoOp, p1 + 1)),
            _ => match self.parse_expression(p1, 0) {
                Ok((e, p2)) => match self.expect_advance(p2, Token::Danda, "।") {
                    Ok(p3) => Ok((ASTNode::StatementExpr(e), p3)),
                    Err(m) => Err(m),
                },
                Err(m) => Err(m),
            },
        }
    }

    fn body_until(&self, p: usize) -> (r: Result<(Vec<ASTNode>, usize), String>)
        requires
            self.wf(),
            p <= self.tokens@.len(),
        ensures
            pr_nodes(r) == body_until(self.token_model(), p as int, Seq::empty()),
            r matches Ok((_, q)) ==> p < q <= self.tokens@.len(),
        decreases self.tokens@.len() - p, 8nat,
    {
        let ghost ts = self.token_model();
        let mut acc: Vec<ASTNode> = Vec::new();
        let mut i = p;
        assert(nodes_m(acc@) =~= Seq::<NodeM>::empty());
        loop
            invariant
                self.wf(),
                p <= i <= self.tokens@.len(),
                ts == self.token_model(),
                ts.len() == self.tokens@.len(),
                body_until(ts, p as int, Seq::empty()) == body_until(ts, i as int, nodes_m(acc@)),
            decreases self.tokens@.len() - i,
        {
            if self.at(i, &Token::RightBrace) {
                return Ok((acc, i + 1));
            }
            match self.parse_statement(i) {
                Ok((st, p2)) => {
                    if !(i < p2 && p2 <= self.tokens.len()) {
                        return Err(Self::stuck_err());
                    }
                    proof {
                        lemma_nodes_m_push(acc@, st);
                    }
                    acc.push(st);
                    i = p2;
                },
                Err(m) => {
                    return Err(m);
                },
            }
        }
    }

    fn parse_block_body(&self, p: usize) -> (r: Result<(Vec<ASTNode>, usize), String>)
        requires
            self.wf(),
            p <= self.tokens@.len(),
        ensures
            pr_nodes(r) == block_spec(self.token_model(), p as int),
            r matches Ok((_, q)) ==> q <= self.tokens@.len(),
        decreases self.tokens@.len() - p, 6nat,
    {
        match self.expect_advance(p, Token::LeftBrace, "{") {
            Ok(p1) => self.body_until(p1),
            Err(m) => Err(m),
        }
    }

    fn parse_func_or_async_declaration(&self, p: usize, access: AccessModifier) -> (r: Result<(ASTNode, usize), String>)
        requires
            self.wf(),
            p < self.tokens@.len(),
        ensures
            pr_node(r) == func_spec(self.token_model(), p as int, access),
            r matches Ok((_, q)) ==> q <= self.tokens@.len(),
        decreases self.tokens@.len() - p, 6nat,
    {
        let is_async = self.at(p, &Token::AsyncKW);
        let p1 = if is_async { p + 1 } else { p };
        let p2 = match self.expect_advance(p1, Token::FuncDeclKW, "कार्य") {
            Ok(q) => q,
            Err(m) => {
                return Err(m);
            },
        };
        let (name, p3) = match self.ident(p2, "function name") {
            Ok(r) => r,
            Err(m) => {
                return Err(m);
            },
        };
        let (type_params, p4) = if self.at(p3, &Token::LessThan) {
            match self.names_until(p3 + 1, &Token::GreaterThan) {
                Ok(r) => r,
                Err(m) => {
                    return Err(m);
                },
            }
        } else {
            let e: Vec<String> = Vec::new();
            assert(strs_m(e@) =~= Seq::<Seq<char>>::empty());
            (e, p3)
        };
        let p5 = match self.expect_advance(p4, Token::LeftParen, "(") {
            Ok(q) => q,
            Err(m) => {
                return Err(m);
            },
        };
        let (params, p6) = match self.params_until(p5, "विविध") {
            Ok(r) => r,
            Err(m) => {
                return Err(m);
            },
        };
        let (return_type, p7) = if self.at(p6, &Token::Arrow) {
            match self.ident(p6 + 1, "return type after ->") {
                Ok(r) => r,
                Err(m) => {
                    return Err(m);
                },
            }
        } else {
            (owned("शून्य"), p6)
        };
        let p8 = match self.expect_advance(p7, Token::LeftBrace, "{") {
            Ok(q) => q,
            Err(m) => {
                return Err(m);
            },
        };
        if !(p < p8 && p8 <= self.tokens.len()) {
            return Err(Self::stuck_err());
        }
        let (body, p9) = match self.body_until(p8) {
            Ok(r) => r,
            Err(m) => {
                return Err(m);
            },
        };
        let node = if is_async {
            ASTNode::AsyncFuncDecl { name, parameters: params, return_type, body, access_level: access }
        } else if type_params.len() > 0 {
            ASTNode::GenericFuncDecl { name, type_params, parameters: params, return_type, body, access_level: access }
        } else {
            ASTNode::FuncDecl { name, parameters: params, return_type, body, access_level: access }
        };
        Ok((node, p9))
    }

    fn parse_if_statement(&self, p: usize) -> (r: Result<(ASTNode, usize), String>)
        requires
            self.wf(),
            p < self.tokens@.len(),
        ensures
            pr_node(r) == if_spec(self.token_model(), p as int),
            r matches Ok((_, q)) ==> q <= self.tokens@.len(),
        decreases self.tokens@.len() - p, 6nat,
    {
        let (cond, p2) = match self.parse_expression(p + 1, 0) {
            Ok(r) => r,
            Err(m) => {
                return Err(m);
            },
        };
        let p3 = match self.expect_advance(p2, Token::Tarhi, "तर्हि") {
            Ok(q) => q,
            Err(m) => {
                return Err(m);
            },
        };
        if !(p < p3 && p3 <= self.tokens.len()) {
            return Err(Self::stuck_err());
        }
        let (then_branch, p4) = match self.parse_block_body(p3) {
            Ok(r) => r,
            Err(m) => {
                return Err(m);
            },
        };
        if !(p < p4 && p4 <= self.tokens.len()) {
            return Err(Self::stuck_err());
        }
        if self.at(p4, &Token::Anyatha) {
            match self.parse_block_body(p4 + 1) {
                Ok((else_branch, p5)) => Ok((ASTNode::IfStmt { condition: cond, then_branch, else_branch: Some(else_branch) }, p5)),
                Err(m) => Err(m),
            }
        } else {
            Ok((ASTNode::IfStmt { condition: cond, then_branch, else_branch: None }, p4))
        }
    }

    fn parse_while_statement(&self, p: usize) -> (r: Result<(ASTNode, usize), String>)
        requires
            self.wf(),
            p < self.tokens@.len(),
        ensures
            pr_node(r) == while_spec(self.token_model(), p as int),
            r matches Ok((_, q)) ==> q <= self.tokens@.len(),
        decreases self.tokens@.len() - p, 6nat,
    {
        let (cond, p2) = match self.parse_expression(p + 1, 0) {
            Ok(r) => r,
            Err(m) => {
                return Err(m);
            },
        };
        let p3 = match self.expect_advance(p2, Token::Tavat, "तावत्") {
            Ok(q) => q,
            Err(m) => {
                return Err(m);
            },
        };
        if !(p < p3 && p3 <= self.tokens.len()) {
            return Err(Self::stuck_err());
        }
        match self.parse_block_body(p3) {
            Ok((body, p4)) => Ok((ASTNode::WhileStmt { condition: cond, body }, p4)),
            Err(m) => Err(m),
        }
    }

    fn parse_impl_block(&self, p: usize) -> (r: Result<(ASTNode, usize), String>)
        requires
            self.wf(),
            p < self.tokens@.len(),
        ensures
            pr_node(r) == impl_spec(self.token_model(), p as int),
            r matches Ok((_, q)) ==> q <= self.tokens@.len(),
        decreases self.tokens@.len() - p, 6nat,
    {
        let (trait_name, p1) = match self.ident(p + 1, "trait name") {
            Ok(r) => r,
            Err(m) => {
                return Err(m);
            },
        };
        let (target, p2) = match self.ident(self.next(p1), "type name") {
            Ok(r) => r,
            Err(m) => {
                return Err(m);
            },
        };
        let p3 = match self.expect_advance(p2, Token::LeftBrace, "{") {
            Ok(q) => q,
            Err(m) => {
                return Err(m);
            },
        };
        if !(p < p3 && p3 <= self.tokens.len()) {
            return Err(Self::stuck_err());
        }
        match self.body_until(p3) {
            Ok((methods, p4)) => Ok((ASTNode::ImplBlock { trait_name, target_type: target, methods }, p4)),
            Err(m) => Err(m),
        }
    }

    /// Parses the rest of the tokens as a program: statements, with stray
    /// dandas between them skipped.
    #[verifier::rlimit(30)]
    pub fn parse_program(&mut self) -> (r: Result<Vec<ASTNode>, String>)
        requires
            old(self).wf(),
            old(self).pos() <= old(self).token_model().len(),
        ensures
            match program_spec(old(self).token_model(), old(self).pos(), Seq::empty()) {
                Ok(ns) => r matches Ok(v) && nodes_m(v@) == ns,
                Err(m) => r matches Err(x) && x@ == m,
            },
            final(self).wf(),
            final(self).token_model() == old(self).token_model(),
    {
        let ghost ts = self.token_model();
        let ghost p0 = self.position as int;
        let mut program: Vec<ASTNode> = Vec::new();
        assert(nodes_m(program@) =~= Seq::<NodeM>::empty());
        assert(ts.len() == self.tokens@.len());
        let mut i = self.position;
        while i < self.tokens.len()
            invariant
                self.wf(),
                ts == self.token_model(),
                ts.len() == self.tokens@.len(),
                i <= self.tokens@.len(),
                p0 == old(self).pos(),
                ts == old(self).token_model(),
                program_spec(ts, p0, Seq::empty()) == program_spec(ts, i as int, nodes_m(program@)),
            decreases self.tokens@.len() - i,
        {
            if self.at(i, &Token::DoubleDanda) || self.at(i, &Token::Danda) {
                i = i + 1;
            } else {
                match self.parse_statement(i) {
                    Ok((st, p2)) => {
                        if !(i < p2 && p2 <= self.tokens.len()) {
                            return Err(Self::stuck_err());
                        }
                        proof {
                            lemma_nodes_m_push(program@, st);
                        }
                        program.push(st);
                        i = p2;
                    },
                    Err(m) => {
                        return Err(m);
                    },
                }
            }
        }
        self.position = i;
        Ok(program)
    }
}

} // verus!
