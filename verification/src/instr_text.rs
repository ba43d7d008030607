//! The text lines of decoded instructions in the disassembler's column
//! layout.  Floating-point constants are written by the
//! host, so an instruction that carries one has no line here.
use vstd::prelude::*;
use crate::decoder::{Instr, InstrM, FieldConst, FieldConstM, struct_fields_m};
use crate::util::{push_char, push_str, owned, decimal, int_text, i64_text, usize_text};

verus! {

/// The character of a hexadecimal digit, upper or lower case.
pub open spec fn hex_char(d: int, upper: bool) -> char {
    if d < 10 {
        (d + 0x30) as char
    } else if upper {
        (d - 10 + 0x41) as char
    } else {
        (d - 10 + 0x61) as char
    }
}

/// The hexadecimal numeral of a natural number, without leading zeros.
pub open spec fn hex(n: nat, upper: bool) -> Seq<char>
    decreases n,
{
    if n < 16 {
        seq![hex_char(n as int, upper)]
    } else {
        hex(n / 16, upper).push(hex_char((n % 16) as int, upper))
    }
}

/// A numeral padded with zeros on the left to at least `w` characters.
pub open spec fn zero_padded(s: Seq<char>, w: nat) -> Seq<char> {
    if s.len() >= w {
        s
    } else {
        Seq::new((w - s.len()) as nat, |i: int| '0') + s
    }
}

/// What `{:0wX}` (or `{:0wx}`) writes for `n`.
pub open spec fn hex_text(n: nat, w: nat, upper: bool) -> Seq<char> {
    zero_padded(hex(n, upper), w)
}

pub open spec fn bool_text(b: bool) -> Seq<char> {
    if b { "true"@ } else { "false"@ }
}

/// Names joined with `, `.
pub open spec fn joined(ns: Seq<Seq<char>>) -> Seq<char>
    decreases ns.len(),
{
    if ns.len() == 0 {
        Seq::empty()
    } else if ns.len() == 1 {
        ns[0]
    } else {
        joined(ns.drop_last()) + ", "@ + ns.last()
    }
}

/// The disassembler's text of one field of a structure constant.
pub open spec fn field_line(k: Seq<char>, v: FieldConstM) -> Option<Seq<char>> {
    match v {
        FieldConstM::Int(n) => Some(k + ":Int("@ + int_text(n as int) + ")"@),
        FieldConstM::Bool(b) => Some(k + ":Bool("@ + bool_text(b) + ")"@),
        FieldConstM::Str(s) => Some(k + ":Str(\""@ + s + "\")"@),
        FieldConstM::Float(_) => None,
        FieldConstM::Other(_) => Some(k + ":?"@),
    }
}

/// The fields of a structure constant joined with `, `.
pub open spec fn fields_line(fs: Seq<(Seq<char>, FieldConstM)>) -> Option<Seq<char>>
    decreases fs.len(),
{
    if fs.len() == 0 {
        Some(Seq::empty())
    } else {
        match (fields_line(fs.drop_last()), field_line(fs.last().0, fs.last().1)) {
            (Some(a), Some(t)) => Some(if fs.len() == 1 { t } else { a + ", "@ + t }),
            _ => None,
        }
    }
}

/// The disassembler's line of an instruction.
pub open spec fn disasm_line(i: InstrM) -> Option<Seq<char>> {
    match i {
        InstrM::PushInt(n) => Some("PUSH_CONST    Int("@ + int_text(n as int) + ")"@),
        InstrM::PushBool(b) => Some("PUSH_CONST    Bool("@ + bool_text(b) + ")"@),
        InstrM::PushStr(s) => Some("PUSH_CONST    Str(\""@ + s + "\")"@),
        InstrM::PushFloat(_) => None,
        InstrM::PushEnum(s) => Some("PUSH_CONST    Enum("@ + s + ")"@),
        InstrM::PushStruct(fs) => match fields_line(fs) {
            Some(t) => Some("PUSH_CONST    Struct("@ + t + ")"@),
            None => None,
        },
        InstrM::PushUnknown(t) => Some("PUSH_CONST    unknown_tag("@ + decimal(t as nat) + ")"@),
        InstrM::LoadVar(s) => Some("LOAD_VAR      \""@ + s + "\""@),
        InstrM::StoreVar(s) => Some("STORE_VAR     \""@ + s + "\""@),
        InstrM::Dup => Some("DUP"@),
        InstrM::Drop => Some("DROP"@),
        InstrM::GetVariant => Some("GET_VARIANT"@),
        InstrM::Add => Some("ADD"@),
        InstrM::Sub => Some("SUB"@),
        InstrM::Mul => Some("MUL"@),
        InstrM::Div => Some("DIV"@),
        InstrM::Equal => Some("EQUAL"@),
        InstrM::NotEqual => Some("NOT_EQUAL"@),
        InstrM::LessThan => Some("LESS_THAN"@),
        InstrM::GreaterThan => Some("GREATER_THAN"@),
        InstrM::LessEqual => Some("LESS_EQUAL"@),
        InstrM::GreaterEqual => Some("GREATER_EQUAL"@),
        InstrM::FAdd => Some("FADD"@),
        InstrM::FSub => Some("FSUB"@),
        InstrM::FMul => Some("FMUL"@),
        InstrM::FDiv => Some("FDIV"@),
        InstrM::Jump(a) => Some("JUMP          "@ + hex_text(a as nat, 4, true)),
        InstrM::JumpIfFalse(a) => Some("JUMP_IF_FALSE "@ + hex_text(a as nat, 4, true)),
        InstrM::JumpIfTrue(a) => Some("JUMP_IF_TRUE  "@ + hex_text(a as nat, 4, true)),
        InstrM::Call(a) => Some("CALL          "@ + hex_text(a as nat, 4, true)),
        InstrM::Return => Some("RETURN"@),
        InstrM::CallBuiltin(n, k) => Some("CALL_BUILTIN  \""@ + n + "\" ("@ + decimal(k as nat) + " args)"@),
        InstrM::CallForeign(l, s, k) => Some("CALL_FOREIGN  \""@ + s + "\" from \""@ + l + "\" ("@ + decimal(k as nat) + " args)"@),
        InstrM::BindParams(ns) => Some("BIND_PARAMS   ("@ + decimal(ns.len()) + ") "@ + joined(ns)),
        InstrM::Extract => Some("EXTRACT"@),
        InstrM::MakeEnum => Some("MAKE_ENUM"@),
        InstrM::GetField(s) => Some("GET_FIELD     \""@ + s + "\""@),
        InstrM::SetField(s) => Some("SET_FIELD     \""@ + s + "\""@),
        InstrM::MakeStruct(n) => Some("MAKE_STRUCT   ("@ + decimal(n as nat) + " fields)"@),
        InstrM::Unknown(op) => Some("UNKNOWN_OPCODE 0x"@ + hex_text(op as nat, 2, true)),
    }
}

fn hex_digit(d: u8, upper: bool) -> (c: char)
    requires
        d < 16,
    ensures
        c == hex_char(d as int, upper),
{
    if d < 10 {
        (d + 0x30u8) as char
    } else if upper {
        (d - 10 + 0x41u8) as char
    } else {
        (d - 10 + 0x61u8) as char
    }
}

/// Appends the hexadecimal numeral of `n`.
fn push_hex(s: &mut String, n: u64, upper: bool)
    ensures
        final(s)@ == old(s)@ + hex(n as nat, upper),
    decreases n,
{
    if n >= 16 {
        push_hex(s, n / 16, upper);
    }
    let d = (n % 16) as u8;
    push_char(s, hex_digit(d, upper));
    assert(final(s)@ =~= old(s)@ + hex(n as nat, upper)) by {
        if n >= 16 {
            assert(hex(n as nat, upper) == hex((n / 16) as nat, upper).push(hex_char((n % 16) as int, upper)));
        }
    }
}

/// Appends `{:0wX}` (or `{:0wx}`) of `n`.
pub fn push_hex_text(s: &mut String, n: u64, w: usize, upper: bool)
    ensures
        final(s)@ == old(s)@ + hex_text(n as nat, w as nat, upper),
{
    let mut digits = String::new();
    push_hex(&mut digits, n, upper);
    assert(digits@ =~= hex(n as nat, upper));
    let len = digits.unicode_len();
    let mut k: usize = len;
    let ghost start = s@;
    while k < w
        invariant
            len == hex(n as nat, upper).len(),
            len <= k <= w || (k == len && len >= w),
            s@ == start + Seq::new((k - len) as nat, |i: int| '0'),
        decreases w - k,
    {
        push_char(s, '0');
        assert(s@ =~= start + Seq::new((k + 1 - len) as nat, |i: int| '0'));
        k = k + 1;
    }
    push_str(s, digits.as_str());
    proof {
        let h = hex(n as nat, upper);
        if h.len() >= w {
            assert(k == len);
            assert(Seq::new(0nat, |i: int| '0') =~= Seq::<char>::empty());
            assert(s@ =~= start + h);
        } else {
            assert(k == w);
            assert(s@ =~= start + (Seq::new((w - h.len()) as nat, |i: int| '0') + h));
        }
    }
}

fn bool_word(b: bool) -> (r: &'static str)
    ensures
        r@ == bool_text(b),
{
    if b { "true" } else { "false" }
}

/// Appends `names` joined with `, `.
fn push_joined(s: &mut String, names: &Vec<String>)
    ensures
        final(s)@ == old(s)@ + joined(names@.map_values(|n: String| n@)),
{
    let ghost ns = names@.map_values(|n: String| n@);
    let ghost start = s@;
    let mut i: usize = 0;
    assert(ns.subrange(0, 0) =~= Seq::<Seq<char>>::empty());
    while i < names.len()
        invariant
            i <= names@.len(),
            ns == names@.map_values(|n: String| n@),
            s@ == start + joined(ns.subrange(0, i as int)),
        decreases names@.len() - i,
    {
        let ghost before = s@;
        if i > 0 {
            push_str(s, ", ");
        }
        push_str(s, names[i].as_str());
        proof {
            let p = ns.subrange(0, i + 1);
            assert(p.drop_last() =~= ns.subrange(0, i as int));
            assert(p.last() == names@[i as int]@);
            if i == 0 {
                assert(s@ =~= start + joined(p));
            } else {
                assert(s@ =~= start + joined(p));
            }
        }
        i = i + 1;
    }
    assert(ns.subrange(0, names@.len() as int) =~= ns);
}

/// Appends the text of one field of a structure constant, where it has one.
fn push_field(s: &mut String, k: &String, v: &FieldConst) -> (ok: bool)
    ensures
        match field_line(k@, v@) {
            Some(t) => ok && final(s)@ == old(s)@ + t,
            None => !ok,
        },
{
    match v {
        FieldConst::Int(n) => {
            push_str(s, k.as_str());
            push_str(s, ":Int(");
            push_str(s, i64_text(*n).as_str());
            push_str(s, ")");
            true
        },
        FieldConst::Bool(b) => {
            push_str(s, k.as_str());
            push_str(s, ":Bool(");
            push_str(s, bool_word(*b));
            push_str(s, ")");
            true
        },
        FieldConst::Str(t) => {
            push_str(s, k.as_str());
            push_str(s, ":Str(\"");
            push_str(s, t.as_str());
            push_str(s, "\")");
            true
        },
        FieldConst::Float(_) => false,
        FieldConst::Other(_) => {
            push_str(s, k.as_str());
            push_str(s, ":?");
            true
        },
    }
}

/// The fields of a structure constant joined with `, `, unless one of them
/// is a floating-point number.
fn fields_text(fs: &Vec<(String, FieldConst)>) -> (r: Option<String>)
    ensures
        match fields_line(struct_fields_m(fs@)) {
            Some(t) => r matches Some(x) && x@ == t,
            None => r is None,
        },
{
    let ghost m = struct_fields_m(fs@);
    let mut out = String::new();
    let mut i: usize = 0;
    assert(m.subrange(0, 0) =~= Seq::<(Seq<char>, FieldConstM)>::empty());
    while i < fs.len()
        invariant
            i <= fs@.len(),
            m == struct_fields_m(fs@),
            m.len() == fs@.len(),
            fields_line(m.subrange(0, i as int)) == Some(out@),
        decreases fs@.len() - i,
    {
        let ghost p = m.subrange(0, i + 1);
        assert(p.drop_last() =~= m.subrange(0, i as int));
        assert(p.last() == m[i as int]);
        assert(m[i as int] == (fs@[i as int].0@, fs@[i as int].1@));
        if i > 0 {
            let mut probe = String::new();
            let ok = push_field(&mut probe, &fs[i].0, &fs[i].1);
            if !ok {
                proof {
                    lemma_fields_none(m, i as int + 1);
                    assert(m.subrange(0, m.len() as int) =~= m);
                }
                return None;
            }
            push_str(&mut out, ", ");
            push_str(&mut out, probe.as_str());
        } else {
            let ok = push_field(&mut out, &fs[i].0, &fs[i].1);
            if !ok {
                proof {
                    lemma_fields_none(m, 1);
                    assert(m.subrange(0, m.len() as int) =~= m);
                }
                return None;
            }
        }
        assert(fields_line(p) == Some(out@));
        i = i + 1;
    }
    assert(m.subrange(0, m.len() as int) =~= m);
    Some(out)
}

/// A field without text makes every longer list of fields textless.
proof fn lemma_fields_none(m: Seq<(Seq<char>, FieldConstM)>, j: int)
    requires
        1 <= j <= m.len(),
        fields_line(m.subrange(0, j)) is None,
    ensures
        fields_line(m) is None,
    decreases m.len() - j,
{
    if j < m.len() {
        assert(m.subrange(0, j + 1).drop_last() =~= m.subrange(0, j));
        lemma_fields_none(m, j + 1);
    } else {
        assert(m.subrange(0, j) =~= m);
    }
}

fn text_of(parts: &str) -> (r: String)
    ensures
        r@ == parts@,
{
    owned(parts)
}

/// The disassembler's line of an instruction; none for one that carries a
/// floating-point number, whose text the host writes.
pub fn disasm_text(i: &Instr) -> (r: Option<String>)
    ensures
        match disasm_line(i@) {
            Some(t) => r matches Some(x) && x@ == t,
            None => r is None,
        },
{
    let mut s = String::new();
    match i {
        Instr::PushInt(n) => { push_str(&mut s, "PUSH_CONST    Int("); push_str(&mut s, i64_text(*n).as_str()); push_str(&mut s, ")"); },
        Instr::PushBool(b) => { push_str(&mut s, "PUSH_CONST    Bool("); push_str(&mut s, bool_word(*b)); push_str(&mut s, ")"); },
        Instr::PushStr(t) => { push_str(&mut s, "PUSH_CONST    Str(\""); push_str(&mut s, t.as_str()); push_str(&mut s, "\")"); },
        Instr::PushFloat(_) => { return None; },
        Instr::PushEnum(t) => { push_str(&mut s, "PUSH_CONST    Enum("); push_str(&mut s, t.as_str()); push_str(&mut s, ")"); },
        Instr::PushStruct(fs) => {
            match fields_text(fs) {
                Some(t) => { push_str(&mut s, "PUSH_CONST    Struct("); push_str(&mut s, t.as_str()); push_str(&mut s, ")"); },
                None => { return None; },
            }
        },
        Instr::PushUnknown(t) => { push_str(&mut s, "PUSH_CONST    unknown_tag("); push_str(&mut s, usize_text(*t as usize).as_str()); push_str(&mut s, ")"); },
        Instr::LoadVar(t) => { push_str(&mut s, "LOAD_VAR      \""); push_str(&mut s, t.as_str()); push_str(&mut s, "\""); },
        Instr::StoreVar(t) => { push_str(&mut s, "STORE_VAR     \""); push_str(&mut s, t.as_str()); push_str(&mut s, "\""); },
        Instr::Dup => { s = text_of("DUP"); },
        Instr::Drop => { s = text_of("DROP"); },
        Instr::GetVariant => { s = text_of("GET_VARIANT"); },
        Instr::Add => { s = text_of("ADD"); },
        Instr::Sub => { s = text_of("SUB"); },
        Instr::Mul => { s = text_of("MUL"); },
        Instr::Div => { s = text_of("DIV"); },
        Instr::Equal => { s = text_of("EQUAL"); },
        Instr::NotEqual => { s = text_of("NOT_EQUAL"); },
        Instr::LessThan => { s = text_of("LESS_THAN"); },
        Instr::GreaterThan => { s = text_of("GREATER_THAN"); },
        Instr::LessEqual => { s = text_of("LESS_EQUAL"); },
        Instr::GreaterEqual => { s = text_of("GREATER_EQUAL"); },
        Instr::FAdd => { s = text_of("FADD"); },
        Instr::FSub => { s = text_of("FSUB"); },
        Instr::FMul => { s = text_of("FMUL"); },
        Instr::FDiv => { s = text_of("FDIV"); },
        Instr::Jump(a) => { push_str(&mut s, "JUMP          "); push_hex_text(&mut s, *a as u64, 4, true); },
        Instr::JumpIfFalse(a) => { push_str(&mut s, "JUMP_IF_FALSE "); push_hex_text(&mut s, *a as u64, 4, true); },
        Instr::JumpIfTrue(a) => { push_str(&mut s, "JUMP_IF_TRUE  "); push_hex_text(&mut s, *a as u64, 4, true); },
        Instr::Call(a) => { push_str(&mut s, "CALL          "); push_hex_text(&mut s, *a as u64, 4, true); },
        Instr::Return => { s = text_of("RETURN"); },
        Instr::CallBuiltin(n, k) => {
            push_str(&mut s, "CALL_BUILTIN  \""); push_str(&mut s, n.as_str()); push_str(&mut s, "\" (");
            push_str(&mut s, usize_text(*k as usize).as_str()); push_str(&mut s, " args)");
        },
        Instr::CallForeign(l, f, k) => {
            push_str(&mut s, "CALL_FOREIGN  \""); push_str(&mut s, f.as_str()); push_str(&mut s, "\" from \"");
            push_str(&mut s, l.as_str()); push_str(&mut s, "\" (");
            push_str(&mut s, usize_text(*k as usize).as_str()); push_str(&mut s, " args)");
        },
        Instr::BindParams(ns) => {
            push_str(&mut s, "BIND_PARAMS   ("); push_str(&mut s, usize_text(ns.len()).as_str()); push_str(&mut s, ") ");
            push_joined(&mut s, ns);
        },
        Instr::Extract => { s = text_of("EXTRACT"); },
        Instr::MakeEnum => { s = text_of("MAKE_ENUM"); },
        Instr::GetField(t) => { push_str(&mut s, "GET_FIELD     \""); push_str(&mut s, t.as_str()); push_str(&mut s, "\""); },
        Instr::SetField(t) => { push_str(&mut s, "SET_FIELD     \""); push_str(&mut s, t.as_str()); push_str(&mut s, "\""); },
        Instr::MakeStruct(n) => { push_str(&mut s, "MAKE_STRUCT   ("); push_str(&mut s, usize_text(*n as usize).as_str()); push_str(&mut s, " fields)"); },
        Instr::Unknown(op) => { push_str(&mut s, "UNKNOWN_OPCODE 0x"); push_hex_text(&mut s, *op as u64, 2, true); },
    }
    Some(s)
}

} // verus!
