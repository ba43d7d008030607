//! Reading bytecode back into instructions, as the virtual machine and the
//! disassembler read it.
use vstd::prelude::*;
use crate::bytecode::{OP_PUSH_CONST, OP_LOAD_VAR, OP_STORE_VAR, OP_DUP, OP_DROP, OP_GET_VARIANT, OP_ADD, OP_SUB, OP_MUL, OP_DIV, OP_EQUAL, OP_NOT_EQUAL, OP_LESS_THAN, OP_GREATER_THAN, OP_LESS_EQUAL, OP_GREATER_EQUAL, OP_JUMP, OP_JUMP_IF_FALSE, OP_CALL, OP_RETURN, OP_FADD, OP_FSUB, OP_FMUL, OP_FDIV, OP_CALL_BUILTIN, OP_EXTRACT, OP_MAKE_ENUM, OP_GET_FIELD, OP_SET_FIELD, OP_MAKE_STRUCT, OP_CALL_FOREIGN, OP_JUMP_IF_TRUE, OP_BIND_PARAMS, TAG_INT, TAG_BOOL, TAG_STR, TAG_FLOAT, TAG_ENUM, TAG_STRUCT, from_be16, from_be32, from_be64,
    be16, be32, be64, lemma_be16_roundtrip, lemma_be32_roundtrip, lemma_be64_roundtrip, lemma_i64_bits_roundtrip,
    str_code, str_fits};
use crate::util::utf8_bytes;
use crate::vm::OpCode;

verus! {

/// The text of bytes read as UTF-8, each invalid sequence replaced by
/// U+FFFD, as `String::from_utf8_lossy` computes it.
pub uninterp spec fn lossy_utf8(b: Seq<u8>) -> Seq<char>;

/// The text of bytes: valid UTF-8 decodes to the characters it encodes;
/// other bytes give what `String::from_utf8_lossy` gives.
pub open spec fn utf8_text(b: Seq<u8>) -> Seq<char> {
    if vstd::utf8::valid_utf8(b) { vstd::utf8::decode_utf8(b) } else { lossy_utf8(b) }
}

/// `String::from_utf8_lossy`: the result is named; by its documentation,
/// bytes that are valid UTF-8 come back as the text they encode.
#[verifier::external_body]
fn from_utf8_lossy(b: &[u8]) -> (r: String)
    ensures
        r@ == lossy_utf8(b@),
        vstd::utf8::valid_utf8(b@) ==> r@ == vstd::utf8::decode_utf8(b@),
{
    String::from_utf8_lossy(b).into_owned()
}

/// A constant field value inside a struct constant.
#[derive(Debug, PartialEq)]
pub enum FieldConst {
    Int(i64),
    Bool(bool),
    Str(String),
    Float(u64),
    /// A tag the reader does not know; no value follows it.
    Other(u8),
}

/// A decoded instruction.
#[derive(Debug, PartialEq)]
pub enum Instr {
    PushInt(i64),
    PushBool(bool),
    PushStr(String),
    PushFloat(u64),
    PushEnum(String),
    PushStruct(Vec<(String, FieldConst)>),
    /// A constant with a tag the reader does not know.
    PushUnknown(u8),
    LoadVar(String),
    StoreVar(String),
    Dup,
    Drop,
    GetVariant,
    Add,
    Sub,
    Mul,
    Div,
    Equal,
    NotEqual,
    LessThan,
    GreaterThan,
    LessEqual,
    GreaterEqual,
    FAdd,
    FSub,
    FMul,
    FDiv,
    Jump(u32),
    JumpIfFalse(u32),
    JumpIfTrue(u32),
    Call(u32),
    Return,
    CallBuiltin(String, u8),
    CallForeign(String, String, u8),
    BindParams(Vec<String>),
    Extract,
    MakeEnum,
    GetField(String),
    SetField(String),
    MakeStruct(u8),
    Unknown(u8),
}

pub enum FieldConstM {
    Int(i64),
    Bool(bool),
    Str(Seq<char>),
    Float(u64),
    Other(u8),
}

/// The model of an instruction: texts as character sequences.
pub enum InstrM {
    PushInt(i64),
    PushBool(bool),
    PushStr(Seq<char>),
    PushFloat(u64),
    PushEnum(Seq<char>),
    PushStruct(Seq<(Seq<char>, FieldConstM)>),
    PushUnknown(u8),
    LoadVar(Seq<char>),
    StoreVar(Seq<char>),
    Dup,
    Drop,
    GetVariant,
    Add,
    Sub,
    Mul,
    Div,
    Equal,
    NotEqual,
    LessThan,
    GreaterThan,
    LessEqual,
    GreaterEqual,
    FAdd,
    FSub,
    FMul,
    FDiv,
    Jump(u32),
    JumpIfFalse(u32),
    JumpIfTrue(u32),
    Call(u32),
    Return,
    CallBuiltin(Seq<char>, u8),
    CallForeign(Seq<char>, Seq<char>, u8),
    BindParams(Seq<Seq<char>>),
    Extract,
    MakeEnum,
    GetField(Seq<char>),
    SetField(Seq<char>),
    MakeStruct(u8),
    Unknown(u8),
}

impl View for FieldConst {
    type V = FieldConstM;

    open spec fn view(&self) -> FieldConstM {
        match self {
            FieldConst::Int(n) => FieldConstM::Int(*n),
            FieldConst::Bool(b) => FieldConstM::Bool(*b),
            FieldConst::Str(s) => FieldConstM::Str(s@),
            FieldConst::Float(b) => FieldConstM::Float(*b),
            FieldConst::Other(t) => FieldConstM::Other(*t),
        }
    }
}

pub open spec fn struct_fields_m(v: Seq<(String, FieldConst)>) -> Seq<(Seq<char>, FieldConstM)> {
    v.map_values(|f: (String, FieldConst)| (f.0@, f.1@))
}

impl View for Instr {
    type V = InstrM;

    open spec fn view(&self) -> InstrM {
        match self {
            Instr::PushInt(n) => InstrM::PushInt(*n),
            Instr::PushBool(b) => InstrM::PushBool(*b),
            Instr::PushStr(s) => InstrM::PushStr(s@),
            Instr::PushFloat(b) => InstrM::PushFloat(*b),
            Instr::PushEnum(s) => InstrM::PushEnum(s@),
            Instr::PushStruct(f) => InstrM::PushStruct(struct_fields_m(f@)),
            Instr::PushUnknown(t) => InstrM::PushUnknown(*t),
            Instr::LoadVar(s) => InstrM::LoadVar(s@),
            Instr::StoreVar(s) => InstrM::StoreVar(s@),
            Instr::Dup => InstrM::Dup,
            Instr::Drop => InstrM::Drop,
            Instr::GetVariant => InstrM::GetVariant,
            Instr::Add => InstrM::Add,
            Instr::Sub => InstrM::Sub,
            Instr::Mul => InstrM::Mul,
            Instr::Div => InstrM::Div,
            Instr::Equal => InstrM::Equal,
            Instr::NotEqual => InstrM::NotEqual,
            Instr::LessThan => InstrM::LessThan,
            Instr::GreaterThan => InstrM::GreaterThan,
            Instr::LessEqual => InstrM::LessEqual,
            Instr::GreaterEqual => InstrM::GreaterEqual,
            Instr::FAdd => InstrM::FAdd,
            Instr::FSub => InstrM::FSub,
            Instr::FMul => InstrM::FMul,
            Instr::FDiv => InstrM::FDiv,
            Instr::Jump(a) => InstrM::Jump(*a),
            Instr::JumpIfFalse(a) => InstrM::JumpIfFalse(*a),
            Instr::JumpIfTrue(a) => InstrM::JumpIfTrue(*a),
            Instr::Call(a) => InstrM::Call(*a),
            Instr::Return => InstrM::Return,
            Instr::CallBuiltin(s, n) => InstrM::CallBuiltin(s@, *n),
            Instr::CallForeign(l, s, n) => InstrM::CallForeign(l@, s@, *n),
            Instr::BindParams(v) => InstrM::BindParams(v@.map_values(|s: String| s@)),
            Instr::Extract => InstrM::Extract,
            Instr::MakeEnum => InstrM::MakeEnum,
            Instr::GetField(s) => InstrM::GetField(s@),
            Instr::SetField(s) => InstrM::SetField(s@),
            Instr::MakeStruct(n) => InstrM::MakeStruct(*n),
            Instr::Unknown(b) => InstrM::Unknown(*b),
        }
    }
}

/// The 64-bit big-endian value at `p`.
pub open spec fn u64_at(c: Seq<u8>, p: int) -> u64 {
    from_be64(c[p], c[p + 1], c[p + 2], c[p + 3], c[p + 4], c[p + 5], c[p + 6], c[p + 7])
}

/// The 32-bit big-endian value at `p`.
pub open spec fn u32_at(c: Seq<u8>, p: int) -> u32 {
    from_be32(c[p], c[p + 1], c[p + 2], c[p + 3])
}

/// A string at `p`: its 16-bit length, then its bytes; the text and the
/// place after it.
pub open spec fn string_at(c: Seq<u8>, p: int) -> Option<(Seq<char>, int)> {
    if 0 <= p && p + 2 <= c.len() {
        let n = from_be16(c[p], c[p + 1]) as int;
        if p + 2 + n <= c.len() {
            Some((utf8_text(c.subrange(p + 2, p + 2 + n)), p + 2 + n))
        } else {
            None
        }
    } else {
        None
    }
}

/// The value of a struct field after its tag at `p`.
pub open spec fn field_value_at(c: Seq<u8>, tag: u8, p: int) -> Option<(FieldConstM, int)> {
    if tag == TAG_INT {
        if p + 8 <= c.len() { Some((FieldConstM::Int(u64_at(c, p) as i64), p + 8)) } else { None }
    } else if tag == TAG_BOOL {
        if p + 1 <= c.len() { Some((FieldConstM::Bool(c[p] == 1), p + 1)) } else { None }
    } else if tag == TAG_STR {
        match string_at(c, p) {
            Some(r) => Some((FieldConstM::Str(r.0), r.1)),
            None => None,
        }
    } else if tag == TAG_FLOAT {
        if p + 8 <= c.len() { Some((FieldConstM::Float(u64_at(c, p)), p + 8)) } else { None }
    } else {
        Some((FieldConstM::Other(tag), p))
    }
}

/// `n` struct fields from `p`: each a name, a skipped `PushConst` byte, a
/// tag and a value.
pub open spec fn fields_at(c: Seq<u8>, p: int, n: nat) -> Option<(Seq<(Seq<char>, FieldConstM)>, int)>
    decreases n,
{
    if n == 0 {
        Some((Seq::empty(), p))
    } else {
        match fields_at(c, p, (n - 1) as nat) {
            Some(a) => match string_at(c, a.1) {
                Some(k) => if 0 <= k.1 && k.1 + 2 <= c.len() {
                    match field_value_at(c, c[k.1 + 1], k.1 + 2) {
                        Some(v) => Some((a.0.push((k.0, v.0)), v.1)),
                        None => None,
                    }
                } else {
                    None
                },
                None => None,
            },
            None => None,
        }
    }
}

/// `n` strings from `p`.
pub open spec fn strings_at(c: Seq<u8>, p: int, n: nat) -> Option<(Seq<Seq<char>>, int)>
    decreases n,
{
    if n == 0 {
        Some((Seq::empty(), p))
    } else {
        match strings_at(c, p, (n - 1) as nat) {
            Some(a) => match string_at(c, a.1) {
                Some(s) => Some((a.0.push(s.0), s.1)),
                None => None,
            },
            None => None,
        }
    }
}

/// A constant after `PushConst`, its tag at `p`.
pub open spec fn constant_at(c: Seq<u8>, p: int) -> Option<(InstrM, int)> {
    if p < 0 || p >= c.len() {
        None
    } else {
        let tag = c[p];
        let q = p + 1;
        if tag == TAG_INT {
            if q + 8 <= c.len() { Some((InstrM::PushInt(u64_at(c, q) as i64), q + 8)) } else { None }
        } else if tag == TAG_BOOL {
            if q + 1 <= c.len() { Some((InstrM::PushBool(c[q] == 1), q + 1)) } else { None }
        } else if tag == TAG_STR {
            match string_at(c, q) {
                Some(r) => Some((InstrM::PushStr(r.0), r.1)),
                None => None,
            }
        } else if tag == TAG_FLOAT {
            if q + 8 <= c.len() { Some((InstrM::PushFloat(u64_at(c, q)), q + 8)) } else { None }
        } else if tag == TAG_ENUM {
            match string_at(c, q) {
                Some(r) => Some((InstrM::PushEnum(r.0), r.1)),
                None => None,
            }
        } else if tag == TAG_STRUCT {
            if q + 1 <= c.len() {
                match fields_at(c, q + 1, c[q] as nat) {
                    Some(r) => Some((InstrM::PushStruct(r.0), r.1)),
                    None => None,
                }
            } else {
                None
            }
        } else {
            Some((InstrM::PushUnknown(tag), q))
        }
    }
}

/// An instruction without operands.
pub open spec fn plain_instr(op: u8) -> InstrM {
    if op == OP_DUP { InstrM::Dup }
    else if op == OP_DROP { InstrM::Drop }
    else if op == OP_GET_VARIANT { InstrM::GetVariant }
    else if op == OP_ADD { InstrM::Add }
    else if op == OP_SUB { InstrM::Sub }
    else if op == OP_MUL { InstrM::Mul }
    else if op == OP_DIV { InstrM::Div }
    else if op == OP_EQUAL { InstrM::Equal }
    else if op == OP_NOT_EQUAL { InstrM::NotEqual }
    else if op == OP_LESS_THAN { InstrM::LessThan }
    else if op == OP_GREATER_THAN { InstrM::GreaterThan }
    else if op == OP_LESS_EQUAL { InstrM::LessEqual }
    else if op == OP_GREATER_EQUAL { InstrM::GreaterEqual }
    else if op == OP_FADD { InstrM::FAdd }
    else if op == OP_FSUB { InstrM::FSub }
    else if op == OP_FMUL { InstrM::FMul }
    else if op == OP_FDIV { InstrM::FDiv }
    else if op == OP_RETURN { InstrM::Return }
    else if op == OP_EXTRACT { InstrM::Extract }
    else if op == OP_MAKE_ENUM { InstrM::MakeEnum }
    else { InstrM::Unknown(op) }
}

pub open spec fn is_plain(op: u8) -> bool {
    op == OP_DUP || op == OP_DROP || op == OP_GET_VARIANT || op == OP_ADD || op == OP_SUB || op == OP_MUL
        || op == OP_DIV || op == OP_EQUAL || op == OP_NOT_EQUAL || op == OP_LESS_THAN || op == OP_GREATER_THAN
        || op == OP_LESS_EQUAL || op == OP_GREATER_EQUAL || op == OP_FADD || op == OP_FSUB || op == OP_FMUL
        || op == OP_FDIV || op == OP_RETURN || op == OP_EXTRACT || op == OP_MAKE_ENUM
}

/// The instruction at `pc` and the place after it; `None` where the code
/// ends inside it.
pub open spec fn decode_at(c: Seq<u8>, pc: int) -> Option<(InstrM, int)> {
    if pc < 0 || pc >= c.len() {
        None
    } else {
        let op = c[pc];
        let p = pc + 1;
        if op == OP_PUSH_CONST {
            constant_at(c, p)
        } else if op == OP_LOAD_VAR || op == OP_STORE_VAR || op == OP_GET_FIELD || op == OP_SET_FIELD {
            match string_at(c, p) {
                Some(r) => Some((if op == OP_LOAD_VAR { InstrM::LoadVar(r.0) } else if op == OP_STORE_VAR {
                    InstrM::StoreVar(r.0) } else if op == OP_GET_FIELD { InstrM::GetField(r.0) } else {
                    InstrM::SetField(r.0) }, r.1)),
                None => None,
            }
        } else if op == OP_JUMP || op == OP_JUMP_IF_FALSE || op == OP_JUMP_IF_TRUE || op == OP_CALL {
            if p + 4 <= c.len() {
                let a = u32_at(c, p);
                Some((if op == OP_JUMP { InstrM::Jump(a) } else if op == OP_JUMP_IF_FALSE { InstrM::JumpIfFalse(a) }
                    else if op == OP_JUMP_IF_TRUE { InstrM::JumpIfTrue(a) } else { InstrM::Call(a) }, p + 4))
            } else {
                None
            }
        } else if op == OP_CALL_BUILTIN {
            match string_at(c, p) {
                Some(r) => if r.1 + 1 <= c.len() { Some((InstrM::CallBuiltin(r.0, c[r.1]), r.1 + 1)) } else { None },
                None => None,
            }
        } else if op == OP_CALL_FOREIGN {
            match string_at(c, p) {
                Some(l) => match string_at(c, l.1) {
                    Some(s) => if s.1 + 1 <= c.len() { Some((InstrM::CallForeign(l.0, s.0, c[s.1]), s.1 + 1)) } else { None },
                    None => None,
                },
                None => None,
            }
        } else if op == OP_BIND_PARAMS {
            if p + 1 <= c.len() {
                match strings_at(c, p + 1, c[p] as nat) {
                    Some(r) => Some((InstrM::BindParams(r.0), r.1)),
                    None => None,
                }
            } else {
                None
            }
        } else if op == OP_MAKE_STRUCT {
            if p + 1 <= c.len() { Some((InstrM::MakeStruct(c[p]), p + 1)) } else { None }
        } else {
            Some((plain_instr(op), p))
        }
    }
}

/// A string written as the compiler writes it (its length, then its UTF-8
/// bytes) reads back as that string.
pub proof fn lemma_string_written(c: Seq<u8>, q: int, s: Seq<char>)
    requires
        str_fits(s),
        0 <= q,
        q + 2 + utf8_bytes(s).len() <= c.len(),
        c.subrange(q, q + 2 + utf8_bytes(s).len()) == str_code(s),
    ensures
        string_at(c, q) == Some((s, q + 2 + utf8_bytes(s).len())),
{
    let l = utf8_bytes(s).len();
    let w = c.subrange(q, q + 2 + l);
    lemma_be16_roundtrip(l as u16);
    assert(w[0] == c[q] && w[1] == c[q + 1]);
    assert(w[0] == be16(l as u16)[0] && w[1] == be16(l as u16)[1]);
    assert(from_be16(c[q], c[q + 1]) as int == l);
    assert(c.subrange(q + 2, q + 2 + l) =~= utf8_bytes(s)) by {
        assert forall|k: int| 0 <= k < l implies #[trigger] c.subrange(q + 2, q + 2 + l)[k] == utf8_bytes(s)[k] by {
            assert(w[k + 2] == c[q + 2 + k]);
            assert(str_code(s)[k + 2] == utf8_bytes(s)[k]);
        }
    }
    vstd::utf8::encode_utf8_valid_utf8(s);
    vstd::utf8::encode_utf8_decode_utf8(s);
}

/// Names and strings read back too: a load, a store or a string constant
/// written as the compiler writes it decodes to that name or string.
pub proof fn law_decode_written_text(c: Seq<u8>, p: int, s: Seq<char>)
    requires
        0 <= p,
        str_fits(s),
    ensures
        p + 3 + utf8_bytes(s).len() <= c.len() && c.subrange(p, p + 3 + utf8_bytes(s).len()) == seq![OP_LOAD_VAR] + str_code(s)
            ==> decode_at(c, p) == Some((InstrM::LoadVar(s), p + 3 + utf8_bytes(s).len())),
        p + 3 + utf8_bytes(s).len() <= c.len() && c.subrange(p, p + 3 + utf8_bytes(s).len()) == seq![OP_STORE_VAR] + str_code(s)
            ==> decode_at(c, p) == Some((InstrM::StoreVar(s), p + 3 + utf8_bytes(s).len())),
        p + 4 + utf8_bytes(s).len() <= c.len() && c.subrange(p, p + 4 + utf8_bytes(s).len()) == seq![OP_PUSH_CONST, TAG_STR] + str_code(s)
            ==> decode_at(c, p) == Some((InstrM::PushStr(s), p + 4 + utf8_bytes(s).len())),
{
    let l = utf8_bytes(s).len();
    if p + 3 + l <= c.len() {
        let w = c.subrange(p, p + 3 + l);
        if w == seq![OP_LOAD_VAR] + str_code(s) || w == seq![OP_STORE_VAR] + str_code(s) {
            assert(c.subrange(p + 1, p + 3 + l) =~= str_code(s)) by {
                assert forall|k: int| 0 <= k < 2 + l implies #[trigger] c.subrange(p + 1, p + 3 + l)[k] == str_code(s)[k] by {
                    assert(w[k + 1] == c[p + 1 + k]);
                }
            }
            assert(w[0] == c[p]);
            lemma_string_written(c, p + 1, s);
        }
    }
    if p + 4 + l <= c.len() {
        let w = c.subrange(p, p + 4 + l);
        if w == seq![OP_PUSH_CONST, TAG_STR] + str_code(s) {
            assert(c.subrange(p + 2, p + 4 + l) =~= str_code(s)) by {
                assert forall|k: int| 0 <= k < 2 + l implies #[trigger] c.subrange(p + 2, p + 4 + l)[k] == str_code(s)[k] by {
                    assert(w[k + 2] == c[p + 2 + k]);
                }
            }
            assert(w[0] == c[p] && w[1] == c[p + 1]);
            assert(constant_at(c, p + 1) == Some((InstrM::PushStr(s), p + 4 + l))) by {
                lemma_string_written(c, p + 2, s);
            }
        }
    }
}

/// The decoder reads back what the compiler writes: a jump, a conditional
/// jump or a call with its 32-bit address, and an integer or boolean
/// constant, wherever in the code they stand.
pub proof fn law_decode_written(c: Seq<u8>, p: int, a: u32, n: i64, b: bool)
    requires
        0 <= p,
    ensures
        p + 5 <= c.len() && c.subrange(p, p + 5) == seq![OP_JUMP] + be32(a)
            ==> decode_at(c, p) == Some((InstrM::Jump(a), p + 5)),
        p + 5 <= c.len() && c.subrange(p, p + 5) == seq![OP_JUMP_IF_FALSE] + be32(a)
            ==> decode_at(c, p) == Some((InstrM::JumpIfFalse(a), p + 5)),
        p + 5 <= c.len() && c.subrange(p, p + 5) == seq![OP_CALL] + be32(a)
            ==> decode_at(c, p) == Some((InstrM::Call(a), p + 5)),
        p + 10 <= c.len() && c.subrange(p, p + 10) == seq![OP_PUSH_CONST, TAG_INT] + be64(n as u64)
            ==> decode_at(c, p) == Some((InstrM::PushInt(n), p + 10)),
        p + 3 <= c.len() && c.subrange(p, p + 3) == seq![OP_PUSH_CONST, TAG_BOOL, if b { 1u8 } else { 0u8 }]
            ==> decode_at(c, p) == Some((InstrM::PushBool(b), p + 3)),
{
    lemma_be32_roundtrip(a);
    lemma_be64_roundtrip(n as u64);
    lemma_i64_bits_roundtrip(n);
    if p + 5 <= c.len() {
        let w = c.subrange(p, p + 5);
        assert(forall|k: int| 0 <= k < 5 ==> #[trigger] w[k] == c[p + k]);
        let ops = seq![OP_JUMP, OP_JUMP_IF_FALSE, OP_CALL];
        assert forall|i: int| 0 <= i < 3 && #[trigger] ops[i] == ops[i] && w == seq![ops[i]] + be32(a)
            implies c[p] == ops[i] && u32_at(c, p + 1) == a by {
            assert(w[0] == ops[i]);
            assert(w[1] == be32(a)[0] && w[2] == be32(a)[1] && w[3] == be32(a)[2] && w[4] == be32(a)[3]);
        }
        assert(ops[0] == OP_JUMP && ops[1] == OP_JUMP_IF_FALSE && ops[2] == OP_CALL);
    }
    if p + 10 <= c.len() && c.subrange(p, p + 10) == seq![OP_PUSH_CONST, TAG_INT] + be64(n as u64) {
        let w = c.subrange(p, p + 10);
        let e = be64(n as u64);
        assert(forall|k: int| 0 <= k < 10 ==> #[trigger] w[k] == c[p + k]);
        assert(w[0] == OP_PUSH_CONST && w[1] == TAG_INT);
        assert(w[2] == e[0] && w[3] == e[1] && w[4] == e[2] && w[5] == e[3]);
        assert(w[6] == e[4] && w[7] == e[5] && w[8] == e[6] && w[9] == e[7]);
        assert(u64_at(c, p + 2) == n as u64);
    }
    if p + 3 <= c.len() && c.subrange(p, p + 3) == seq![OP_PUSH_CONST, TAG_BOOL, if b { 1u8 } else { 0u8 }] {
        let w = c.subrange(p, p + 3);
        assert(forall|k: int| 0 <= k < 3 ==> #[trigger] w[k] == c[p + k]);
        assert(w[0] == OP_PUSH_CONST && w[1] == TAG_BOOL);
    }
}

/// Every instruction from `pc` to the end with its place, or `None` where
/// the code ends inside an instruction.
pub open spec fn listing_from(c: Seq<u8>, pc: int) -> Option<Seq<(int, InstrM)>>
    decreases c.len() - pc,
{
    if pc < 0 || pc >= c.len() {
        Some(Seq::empty())
    } else {
        match decode_at(c, pc) {
            Some(d) => if d.1 > pc {
                match listing_from(c, d.1) {
                    Some(rest) => Some(seq![(pc, d.0)] + rest),
                    None => None,
                }
            } else {
                None
            },
            None => None,
        }
    }
}

/// The byte of each operation.
pub fn opcode_byte(op: OpCode) -> (r: u8)
    ensures
        r == match op {
            OpCode::PushConst => OP_PUSH_CONST,
            OpCode::LoadVar => OP_LOAD_VAR,
            OpCode::StoreVar => OP_STORE_VAR,
            OpCode::Dup => OP_DUP,
            OpCode::Drop => OP_DROP,
            OpCode::GetVariant => OP_GET_VARIANT,
            OpCode::Add => OP_ADD,
            OpCode::Sub => OP_SUB,
            OpCode::Mul => OP_MUL,
            OpCode::Div => OP_DIV,
            OpCode::Equal => OP_EQUAL,
            OpCode::NotEqual => OP_NOT_EQUAL,
            OpCode::LessThan => OP_LESS_THAN,
            OpCode::GreaterThan => OP_GREATER_THAN,
            OpCode::LessEqual => OP_LESS_EQUAL,
            OpCode::GreaterEqual => OP_GREATER_EQUAL,
            OpCode::Jump => OP_JUMP,
            OpCode::JumpIfFalse => OP_JUMP_IF_FALSE,
            OpCode::Call => OP_CALL,
            OpCode::Return => OP_RETURN,
            OpCode::FAdd => OP_FADD,
            OpCode::FSub => OP_FSUB,
            OpCode::FMul => OP_FMUL,
            OpCode::FDiv => OP_FDIV,
            OpCode::CallBuiltin => OP_CALL_BUILTIN,
            OpCode::Extract => OP_EXTRACT,
            OpCode::MakeEnum => OP_MAKE_ENUM,
            OpCode::GetField => OP_GET_FIELD,
            OpCode::SetField => OP_SET_FIELD,
            OpCode::MakeStruct => OP_MAKE_STRUCT,
            OpCode::CallForeign => OP_CALL_FOREIGN,
            OpCode::JumpIfTrue => OP_JUMP_IF_TRUE,
            OpCode::BindParams => OP_BIND_PARAMS,
        },
{
    match op {
        OpCode::PushConst => OP_PUSH_CONST,
        OpCode::LoadVar => OP_LOAD_VAR,
        OpCode::StoreVar => OP_STORE_VAR,
        OpCode::Dup => OP_DUP,
        OpCode::Drop => OP_DROP,
        OpCode::GetVariant => OP_GET_VARIANT,
        OpCode::Add => OP_ADD,
        OpCode::Sub => OP_SUB,
        OpCode::Mul => OP_MUL,
        OpCode::Div => OP_DIV,
        OpCode::Equal => OP_EQUAL,
        OpCode::NotEqual => OP_NOT_EQUAL,
        OpCode::LessThan => OP_LESS_THAN,
        OpCode::GreaterThan => OP_GREATER_THAN,
        OpCode::LessEqual => OP_LESS_EQUAL,
        OpCode::GreaterEqual => OP_GREATER_EQUAL,
        OpCode::Jump => OP_JUMP,
        OpCode::JumpIfFalse => OP_JUMP_IF_FALSE,
        OpCode::Call => OP_CALL,
        OpCode::Return => OP_RETURN,
        OpCode::FAdd => OP_FADD,
        OpCode::FSub => OP_FSUB,
        OpCode::FMul => OP_FMUL,
        OpCode::FDiv => OP_FDIV,
        OpCode::CallBuiltin => OP_CALL_BUILTIN,
        OpCode::Extract => OP_EXTRACT,
        OpCode::MakeEnum => OP_MAKE_ENUM,
        OpCode::GetField => OP_GET_FIELD,
        OpCode::SetField => OP_SET_FIELD,
        OpCode::MakeStruct => OP_MAKE_STRUCT,
        OpCode::CallForeign => OP_CALL_FOREIGN,
        OpCode::JumpIfTrue => OP_JUMP_IF_TRUE,
        OpCode::BindParams => OP_BIND_PARAMS,
    }
}

pub(crate) fn read_u16(c: &[u8], p: usize) -> (r: u16)
    requires
        p + 2 <= c@.len(),
    ensures
        r == from_be16(c@[p as int], c@[p + 1]),
{
    ((c[p] as u16) << 8u16) | (c[p + 1] as u16)
}

pub(crate) fn read_u32(c: &[u8], p: usize) -> (r: u32)
    requires
        p + 4 <= c@.len(),
    ensures
        r == u32_at(c@, p as int),
{
    ((c[p] as u32) << 24u32) | ((c[p + 1] as u32) << 16u32) | ((c[p + 2] as u32) << 8u32) | (c[p + 3] as u32)
}

pub(crate) fn read_u64(c: &[u8], p: usize) -> (r: u64)
    requires
        p + 8 <= c@.len(),
    ensures
        r == u64_at(c@, p as int),
{
    ((c[p] as u64) << 56u64) | ((c[p + 1] as u64) << 48u64) | ((c[p + 2] as u64) << 40u64)
        | ((c[p + 3] as u64) << 32u64) | ((c[p + 4] as u64) << 24u64) | ((c[p + 5] as u64) << 16u64)
        | ((c[p + 6] as u64) << 8u64) | (c[p + 7] as u64)
}

/// Whether `k` more bytes follow `p`.
pub(crate) fn room(c: &[u8], p: usize, k: usize) -> (r: bool)
    ensures
        r == (p + k <= c@.len()),
        c@.len() <= usize::MAX,
{
    p <= c.len() && c.len() - p >= k
}

pub(crate) fn read_string(c: &[u8], p: usize) -> (r: Option<(String, usize)>)
    ensures
        match string_at(c@, p as int) {
            Some(x) => r matches Some(y) && y.0@ == x.0 && y.1 == x.1,
            None => r is None,
        },
{
    if !room(c, p, 2) {
        return None;
    }
    let n = read_u16(c, p) as usize;
    if !room(c, p + 2, n) {
        return None;
    }
    let mut bytes: Vec<u8> = Vec::new();
    let mut i: usize = p + 2;
    let end: usize = p + 2 + n;
    while i < end
        invariant
            end == p + 2 + n,
            p + 2 <= i <= p + 2 + n,
            p + 2 + n <= c@.len(),
            bytes@ == c@.subrange(p + 2, i as int),
        decreases end - i,
    {
        bytes.push(c[i]);
        i = i + 1;
        assert(bytes@ =~= c@.subrange(p + 2, i as int));
    }
    Some((from_utf8_lossy(bytes.as_slice()), p + 2 + n))
}

fn read_field_value(c: &[u8], tag: u8, p: usize) -> (r: Option<(FieldConst, usize)>)
    requires
        p <= c@.len(),
    ensures
        match field_value_at(c@, tag, p as int) {
            Some(x) => r matches Some(y) && y.0@ == x.0 && y.1 == x.1,
            None => r is None,
        },
{
    if tag == TAG_INT {
        if room(c, p, 8) { Some((FieldConst::Int(read_u64(c, p) as i64), p + 8)) } else { None }
    } else if tag == TAG_BOOL {
        if room(c, p, 1) { Some((FieldConst::Bool(c[p] == 1), p + 1)) } else { None }
    } else if tag == TAG_STR {
        match read_string(c, p) {
            Some(r) => Some((FieldConst::Str(r.0), r.1)),
            None => None,
        }
    } else if tag == TAG_FLOAT {
        if room(c, p, 8) { Some((FieldConst::Float(read_u64(c, p)), p + 8)) } else { None }
    } else {
        Some((FieldConst::Other(tag), p))
    }
}

fn read_fields(c: &[u8], p: usize, n: u8) -> (r: Option<(Vec<(String, FieldConst)>, usize)>)
    requires
        p <= c@.len(),
    ensures
        match fields_at(c@, p as int, n as nat) {
            Some(x) => r matches Some(y) && struct_fields_m(y.0@) == x.0 && y.1 == x.1,
            None => r is None,
        },
{
    let mut out: Vec<(String, FieldConst)> = Vec::new();
    let mut q: usize = p;
    let mut k: u8 = 0;
    assert(struct_fields_m(out@) =~= Seq::<(Seq<char>, FieldConstM)>::empty());
    while k < n
        invariant
            k <= n,
            q <= c@.len(),
            fields_at(c@, p as int, k as nat) matches Some(a) && struct_fields_m(out@) == a.0 && q == a.1,
        decreases n - k,
    {
        let ghost prev = out@;
        let key = match read_string(c, q) {
            Some(x) => x,
            None => {
                proof {
                    lemma_fields_none(c@, p as int, (k + 1) as nat, n as nat);
                }
                return None;
            },
        };
        if !room(c, key.1, 2) {
            proof {
                lemma_fields_none(c@, p as int, (k + 1) as nat, n as nat);
            }
            return None;
        }
        let tag = c[key.1 + 1];
        let v = match read_field_value(c, tag, key.1 + 2) {
            Some(x) => x,
            None => {
                proof {
                    lemma_fields_none(c@, p as int, (k + 1) as nat, n as nat);
                }
                return None;
            },
        };
        q = v.1;
        out.push((key.0, v.0));
        assert(struct_fields_m(out@) =~= struct_fields_m(prev).push((out@.last().0@, out@.last().1@)));
        k = k + 1;
        proof {
            lemma_field_value_bound(c@, tag, (key.1 + 2) as int);
        }
    }
    Some((out, q))
}

pub proof fn lemma_field_value_bound(c: Seq<u8>, tag: u8, p: int)
    requires
        0 <= p <= c.len(),
    ensures
        field_value_at(c, tag, p) matches Some(v) ==> p <= v.1 <= c.len(),
{
}

/// Reading fewer fields fails when reading them failed earlier.
pub proof fn lemma_fields_none(c: Seq<u8>, p: int, k: nat, n: nat)
    requires
        k <= n,
        fields_at(c, p, k) is None,
    ensures
        fields_at(c, p, n) is None,
    decreases n - k,
{
    if k < n {
        lemma_fields_none(c, p, k + 1, n);
    }
}

/// Reading fewer strings fails when reading them failed earlier.
pub proof fn lemma_strings_none(c: Seq<u8>, p: int, k: nat, n: nat)
    requires
        k <= n,
        strings_at(c, p, k) is None,
    ensures
        strings_at(c, p, n) is None,
    decreases n - k,
{
    if k < n {
        lemma_strings_none(c, p, k + 1, n);
    }
}

pub(crate) fn read_strings(c: &[u8], p: usize, n: u8) -> (r: Option<(Vec<String>, usize)>)
    requires
        p <= c@.len(),
    ensures
        match strings_at(c@, p as int, n as nat) {
            Some(x) => r matches Some(y) && y.0@.map_values(|s: String| s@) == x.0 && y.1 == x.1,
            None => r is None,
        },
{
    let mut out: Vec<String> = Vec::new();
    let mut q: usize = p;
    let mut k: u8 = 0;
    assert(out@.map_values(|s: String| s@) =~= Seq::<Seq<char>>::empty());
    while k < n
        invariant
            k <= n,
            q <= c@.len(),
            strings_at(c@, p as int, k as nat) matches Some(a) && out@.map_values(|s: String| s@) == a.0 && q == a.1,
        decreases n - k,
    {
        let ghost prev = out@;
        let s = match read_string(c, q) {
            Some(x) => x,
            None => {
                proof {
                    lemma_strings_none(c@, p as int, (k + 1) as nat, n as nat);
                }
                return None;
            },
        };
        q = s.1;
        out.push(s.0);
        assert(out@.map_values(|s: String| s@) =~= prev.map_values(|s: String| s@).push(out@.last()@));
        k = k + 1;
    }
    Some((out, q))
}

fn read_constant(c: &[u8], p: usize) -> (r: Option<(Instr, usize)>)
    requires
        p <= c@.len(),
    ensures
        match constant_at(c@, p as int) {
            Some(x) => r matches Some(y) && y.0@ == x.0 && y.1 == x.1,
            None => r is None,
        },
{
    if p >= c.len() {
        return None;
    }
    let tag = c[p];
    let q = p + 1;
    if tag == TAG_INT {
        if room(c, q, 8) { Some((Instr::PushInt(read_u64(c, q) as i64), q + 8)) } else { None }
    } else if tag == TAG_BOOL {
        if room(c, q, 1) { Some((Instr::PushBool(c[q] == 1), q + 1)) } else { None }
    } else if tag == TAG_STR {
        match read_string(c, q) {
            Some(r) => Some((Instr::PushStr(r.0), r.1)),
            None => None,
        }
    } else if tag == TAG_FLOAT {
        if room(c, q, 8) { Some((Instr::PushFloat(read_u64(c, q)), q + 8)) } else { None }
    } else if tag == TAG_ENUM {
        match read_string(c, q) {
            Some(r) => Some((Instr::PushEnum(r.0), r.1)),
            None => None,
        }
    } else if tag == TAG_STRUCT {
        if room(c, q, 1) {
            match read_fields(c, q + 1, c[q]) {
                Some(r) => Some((Instr::PushStruct(r.0), r.1)),
                None => None,
            }
        } else {
            None
        }
    } else {
        Some((Instr::PushUnknown(tag), q))
    }
}

fn plain(op: u8) -> (r: Instr)
    ensures
        r@ == plain_instr(op),
{
    if op == OP_DUP { Instr::Dup }
    else if op == OP_DROP { Instr::Drop }
    else if op == OP_GET_VARIANT { Instr::GetVariant }
    else if op == OP_ADD { Instr::Add }
    else if op == OP_SUB { Instr::Sub }
    else if op == OP_MUL { Instr::Mul }
    else if op == OP_DIV { Instr::Div }
    else if op == OP_EQUAL { Instr::Equal }
    else if op == OP_NOT_EQUAL { Instr::NotEqual }
    else if op == OP_LESS_THAN { Instr::LessThan }
    else if op == OP_GREATER_THAN { Instr::GreaterThan }
    else if op == OP_LESS_EQUAL { Instr::LessEqual }
    else if op == OP_GREATER_EQUAL { Instr::GreaterEqual }
    else if op == OP_FADD { Instr::FAdd }
    else if op == OP_FSUB { Instr::FSub }
    else if op == OP_FMUL { Instr::FMul }
    else if op == OP_FDIV { Instr::FDiv }
    else if op == OP_RETURN { Instr::Return }
    else if op == OP_EXTRACT { Instr::Extract }
    else if op == OP_MAKE_ENUM { Instr::MakeEnum }
    else { Instr::Unknown(op) }
}

/// The instruction at `pc` and the place after it, or `None` where the
/// code ends inside it.
pub fn decode(c: &[u8], pc: usize) -> (r: Option<(Instr, usize)>)
    ensures
        match decode_at(c@, pc as int) {
            Some(x) => r matches Some(y) && y.0@ == x.0 && y.1 == x.1,
            None => r is None,
        },
{
    if pc >= c.len() {
        return None;
    }
    let op = c[pc];
    let p = pc + 1;
    if op == OP_PUSH_CONST {
        read_constant(c, p)
    } else if op == OP_LOAD_VAR || op == OP_STORE_VAR || op == OP_GET_FIELD || op == OP_SET_FIELD {
        match read_string(c, p) {
            Some(r) => {
                let i = if op == OP_LOAD_VAR {
                    Instr::LoadVar(r.0)
                } else if op == OP_STORE_VAR {
                    Instr::StoreVar(r.0)
                } else if op == OP_GET_FIELD {
                    Instr::GetField(r.0)
                } else {
                    Instr::SetField(r.0)
                };
                Some((i, r.1))
            },
            None => None,
        }
    } else if op == OP_JUMP || op == OP_JUMP_IF_FALSE || op == OP_JUMP_IF_TRUE || op == OP_CALL {
        if room(c, p, 4) {
            let a = read_u32(c, p);
            let i = if op == OP_JUMP {
                Instr::Jump(a)
            } else if op == OP_JUMP_IF_FALSE {
                Instr::JumpIfFalse(a)
            } else if op == OP_JUMP_IF_TRUE {
                Instr::JumpIfTrue(a)
            } else {
                Instr::Call(a)
            };
            Some((i, p + 4))
        } else {
            None
        }
    } else if op == OP_CALL_BUILTIN {
        match read_string(c, p) {
            Some(r) => if room(c, r.1, 1) {
                let n = c[r.1];
                Some((Instr::CallBuiltin(r.0, n), r.1 + 1))
            } else {
                None
            },
            None => None,
        }
    } else if op == OP_CALL_FOREIGN {
        match read_string(c, p) {
            Some(l) => match read_string(c, l.1) {
                Some(s) => if room(c, s.1, 1) {
                    let n = c[s.1];
                    Some((Instr::CallForeign(l.0, s.0, n), s.1 + 1))
                } else {
                    None
                },
                None => None,
            },
            None => None,
        }
    } else if op == OP_BIND_PARAMS {
        if room(c, p, 1) {
            match read_strings(c, p + 1, c[p]) {
                Some(r) => Some((Instr::BindParams(r.0), r.1)),
                None => None,
            }
        } else {
            None
        }
    } else if op == OP_MAKE_STRUCT {
        if room(c, p, 1) { Some((Instr::MakeStruct(c[p]), p + 1)) } else { None }
    } else {
        Some((plain(op), p))
    }
}

/// Every instruction of the code with its place, or `None` where the code
/// ends inside an instruction.
pub fn listing(c: &[u8]) -> (r: Option<Vec<(usize, Instr)>>)
    ensures
        match listing_from(c@, 0) {
            Some(x) => r matches Some(y) && y@.len() == x.len()
                && forall|i: int| 0 <= i < x.len() ==> (#[trigger] y@[i]).0 as int == x[i].0 && y@[i].1@ == x[i].1,
            None => r is None,
        },
{
    let mut out: Vec<(usize, Instr)> = Vec::new();
    let mut pc: usize = 0;
    while pc < c.len()
        invariant
            pc <= c@.len(),
            match listing_from(c@, 0) {
                Some(all) => listing_from(c@, pc as int) matches Some(rest) && all.len() == out@.len() + rest.len()
                    && (forall|i: int| 0 <= i < out@.len() ==> (#[trigger] out@[i]).0 as int == all[i].0 && out@[i].1@ == all[i].1)
                    && (forall|i: int| 0 <= i < rest.len() ==> all[out@.len() + i] == #[trigger] rest[i]),
                None => listing_from(c@, pc as int) is None,
            },
        decreases c@.len() - pc,
    {
        match decode(c, pc) {
            Some(d) => {
                if d.1 <= pc {
                    return None;
                }
                let ghost prev = out@;
                out.push((pc, d.0));
                proof {
                    match listing_from(c@, 0) {
                        Some(all) => {
                            let rest = listing_from(c@, pc as int)->0;
                            let rest2 = listing_from(c@, d.1 as int)->0;
                            let dd = decode_at(c@, pc as int)->0;
                            assert(rest == seq![(pc as int, dd.0)] + rest2);
                            assert(all[prev.len() as int] == rest[0]);
                            assert forall|i: int| 0 <= i < rest2.len() implies all[out@.len() + i] == #[trigger] rest2[i] by {
                                assert(rest[i + 1] == rest2[i]);
                            }
                            assert forall|i: int| 0 <= i < out@.len() implies (#[trigger] out@[i]).0 as int == all[i].0 && out@[i].1@ == all[i].1 by {
                                if i < prev.len() {
                                    assert(out@[i] == prev[i]);
                                }
                            }
                        },
                        None => {},
                    }
                }
                pc = d.1;
            },
            None => {
                return None;
            },
        }
    }
    proof {
        match listing_from(c@, 0) {
            Some(all) => {
                assert(listing_from(c@, pc as int) == Some(Seq::<(int, InstrM)>::empty()));
            },
            None => {},
        }
    }
    Some(out)
}

} // verus!
