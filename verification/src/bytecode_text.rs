//! The editor's text listing of bytecode: a walk over the bytes that writes
//! one line per instruction, `{:04x}` offset, two spaces and a short form.
//! Instructions without a short form are shown one byte at a time as
//! `Unknown`.  Floating-point constants are written by the host: their
//! lines carry the bits, and the host's text is put in at the end.
use vstd::prelude::*;
use crate::bytecode::{OP_PUSH_CONST, OP_LOAD_VAR, OP_STORE_VAR, OP_DUP, OP_DROP, OP_GET_VARIANT, OP_ADD, OP_SUB,
    OP_MUL, OP_DIV, OP_EQUAL, OP_NOT_EQUAL, OP_LESS_THAN, OP_GREATER_THAN, OP_LESS_EQUAL, OP_GREATER_EQUAL, OP_JUMP,
    OP_JUMP_IF_FALSE, OP_CALL, OP_RETURN, OP_FADD, OP_FSUB, OP_FMUL, OP_FDIV, OP_CALL_BUILTIN, OP_BIND_PARAMS};
use crate::decoder::{u64_at, u32_at, string_at, strings_at, read_u32, read_u64, room, read_string, read_strings};
use crate::instr_text::{hex_text, bool_text, joined, push_hex_text};
use crate::text::join_lines;
use crate::util::{push_str, owned, decimal, int_text, i64_text, usize_text};

verus! {

/// One line of the listing: its offset, its text, and the bits of a
/// floating-point constant whose text follows.
pub type LineM = (int, Seq<char>, Option<u64>);

/// The short form of an operand-free instruction.
pub open spec fn simple_name(op: u8) -> Option<Seq<char>> {
    if op == OP_DUP { Some("Dup"@) }
    else if op == OP_DROP { Some("Drop"@) }
    else if op == OP_GET_VARIANT { Some("GetVariant"@) }
    else if op == OP_RETURN { Some("Return"@) }
    else if op == OP_ADD { Some("Add"@) }
    else if op == OP_SUB { Some("Sub"@) }
    else if op == OP_MUL { Some("Mul"@) }
    else if op == OP_DIV { Some("Div"@) }
    else if op == OP_EQUAL { Some("Equal"@) }
    else if op == OP_NOT_EQUAL { Some("NotEqual"@) }
    else if op == OP_LESS_THAN { Some("LessThan"@) }
    else if op == OP_GREATER_THAN { Some("GreaterThan"@) }
    else if op == OP_LESS_EQUAL { Some("LessEqual"@) }
    else if op == OP_GREATER_EQUAL { Some("GreaterEqual"@) }
    else if op == OP_FADD { Some("FAdd"@) }
    else if op == OP_FSUB { Some("FSub"@) }
    else if op == OP_FMUL { Some("FMul"@) }
    else if op == OP_FDIV { Some("FDiv"@) }
    else { None }
}

/// The jump-like instructions and their names.
pub open spec fn jump_name(op: u8) -> Option<Seq<char>> {
    if op == OP_JUMP { Some("Jump"@) }
    else if op == OP_JUMP_IF_FALSE { Some("JumpIfFalse"@) }
    else if op == OP_CALL { Some("Call"@) }
    else { None }
}

/// The line of the constant after `PushConst` at `i`, and where the walk
/// goes on.  Integer and float constants are shown at the offset of their
/// last two value bytes.
pub open spec fn const_line(c: Seq<u8>, i: int) -> Option<(LineM, int)> {
    if i + 2 > c.len() {
        None
    } else {
        let tag = c[i + 1];
        if tag == 0 {
            if i + 10 <= c.len() {
                Some(((i + 8, "PushConst int("@ + int_text((u64_at(c, i + 2) as i64) as int) + ")"@, None), i + 10))
            } else { None }
        } else if tag == 1 {
            if i + 3 <= c.len() {
                Some(((i, "PushConst bool("@ + bool_text(c[i + 2] == 1) + ")"@, None), i + 3))
            } else { None }
        } else if tag == 2 {
            match string_at(c, i + 2) {
                Some(r) => Some(((i, "PushConst str(\""@ + r.0 + "\")"@, None), r.1)),
                None => None,
            }
        } else if tag == 3 {
            if i + 10 <= c.len() {
                Some(((i + 8, "PushConst float("@, Some(u64_at(c, i + 2))), i + 10))
            } else { None }
        } else if tag == 4 {
            match string_at(c, i + 2) {
                Some(r) => Some(((i, "PushConst enum("@ + r.0 + ")"@, None), r.1)),
                None => None,
            }
        } else {
            Some(((i, "PushConst tag="@ + decimal(tag as nat), None), i + 2))
        }
    }
}

/// The line at `i` and where the walk goes on; `None` where the bytes end
/// inside the instruction, or where a variable access at offset 0 would
/// put its line before the start.
pub open spec fn line_at(c: Seq<u8>, i: int) -> Option<(LineM, int)> {
    let op = c[i];
    if op == OP_PUSH_CONST {
        const_line(c, i)
    } else if op == OP_LOAD_VAR || op == OP_STORE_VAR {
        match string_at(c, i + 1) {
            Some(r) => if i == 0 {
                None
            } else {
                Some(((i - 1, (if op == OP_LOAD_VAR { "LoadVar \""@ } else { "StoreVar \""@ }) + r.0 + "\""@, None), r.1))
            },
            None => None,
        }
    } else if jump_name(op) is Some {
        if i + 5 <= c.len() {
            Some(((i, jump_name(op)->0 + " -> 0x"@ + hex_text(u32_at(c, i + 1) as nat, 4, false), None), i + 5))
        } else { None }
    } else if op == OP_CALL_BUILTIN {
        match string_at(c, i + 1) {
            Some(r) => if r.1 < c.len() {
                Some(((i, "CallBuiltin \""@ + r.0 + "\" ("@ + decimal(c[r.1] as nat) + " args)"@, None), r.1 + 1))
            } else { None },
            None => None,
        }
    } else if op == OP_BIND_PARAMS {
        if i + 2 <= c.len() {
            match strings_at(c, i + 2, c[i + 1] as nat) {
                Some(r) => Some(((i, "BindParams ("@ + decimal(c[i + 1] as nat) + ") "@ + joined(r.0), None), r.1)),
                None => None,
            }
        } else { None }
    } else if simple_name(op) is Some {
        Some(((i, simple_name(op)->0, None), i + 1))
    } else {
        Some(((i, "Unknown 0x"@ + hex_text(op as nat, 2, false), None), i + 1))
    }
}

/// The lines from `i` to the end.
pub open spec fn lines_from(c: Seq<u8>, i: int) -> Option<Seq<LineM>>
    decreases c.len() - i,
{
    if i < 0 || i >= c.len() {
        Some(Seq::empty())
    } else {
        match line_at(c, i) {
            Some(r) => if r.1 > i {
                match lines_from(c, r.1) {
                    Some(rest) => Some(seq![r.0] + rest),
                    None => None,
                }
            } else {
                None
            },
            None => None,
        }
    }
}

/// A line as the listing shows it, with `f` as the text of its float.
pub open spec fn shown_line(l: LineM, f: Seq<char>) -> Seq<char> {
    hex_text(l.0 as nat, 4, false) + "  "@ + l.1 + (if l.2 is Some { f + ")"@ } else { Seq::empty() })
}

/// The text of a float on line `j`: the host's text where given.
pub open spec fn float_on(floats: Seq<Seq<char>>, j: int) -> Seq<char> {
    if 0 <= j < floats.len() { floats[j] } else { Seq::empty() }
}

/// The listing: the lines joined with line feeds.
pub open spec fn listing_text(ls: Seq<LineM>, floats: Seq<Seq<char>>) -> Seq<char> {
    join_lines(Seq::new(ls.len(), |j: int| shown_line(ls[j], float_on(floats, j))))
}

/// One line of the listing in memory.
pub struct ListingLine {
    pub offset: usize,
    pub text: String,
    pub float_bits: Option<u64>,
}

pub open spec fn line_m(l: ListingLine) -> LineM {
    (l.offset as int, l.text@, l.float_bits)
}

pub open spec fn lines_m(v: Seq<ListingLine>) -> Seq<LineM> {
    v.map_values(|l: ListingLine| line_m(l))
}

fn simple_text(op: u8) -> (r: Option<&'static str>)
    ensures
        match simple_name(op) {
            Some(t) => r matches Some(x) && x@ == t,
            None => r is None,
        },
{
    if op == OP_DUP { Some("Dup") }
    else if op == OP_DROP { Some("Drop") }
    else if op == OP_GET_VARIANT { Some("GetVariant") }
    else if op == OP_RETURN { Some("Return") }
    else if op == OP_ADD { Some("Add") }
    else if op == OP_SUB { Some("Sub") }
    else if op == OP_MUL { Some("Mul") }
    else if op == OP_DIV { Some("Div") }
    else if op == OP_EQUAL { Some("Equal") }
    else if op == OP_NOT_EQUAL { Some("NotEqual") }
    else if op == OP_LESS_THAN { Some("LessThan") }
    else if op == OP_GREATER_THAN { Some("GreaterThan") }
    else if op == OP_LESS_EQUAL { Some("LessEqual") }
    else if op == OP_GREATER_EQUAL { Some("GreaterEqual") }
    else if op == OP_FADD { Some("FAdd") }
    else if op == OP_FSUB { Some("FSub") }
    else if op == OP_FMUL { Some("FMul") }
    else if op == OP_FDIV { Some("FDiv") }
    else { None }
}

fn jump_text(op: u8) -> (r: Option<&'static str>)
    ensures
        match jump_name(op) {
            Some(t) => r matches Some(x) && x@ == t,
            None => r is None,
        },
{
    if op == OP_JUMP { Some("Jump") }
    else if op == OP_JUMP_IF_FALSE { Some("JumpIfFalse") }
    else if op == OP_CALL { Some("Call") }
    else { None }
}

fn bool_word(b: bool) -> (r: &'static str)
    ensures
        r@ == bool_text(b),
{
    if b { "true" } else { "false" }
}

fn line_of(offset: usize, text: String, float_bits: Option<u64>) -> (r: ListingLine)
    ensures
        line_m(r) == (offset as int, text@, float_bits),
{
    ListingLine { offset, text, float_bits }
}

fn read_const_line(c: &[u8], i: usize) -> (r: Option<(ListingLine, usize)>)
    requires
        i < c@.len(),
    ensures
        match const_line(c@, i as int) {
            Some(x) => r matches Some(y) && line_m(y.0) == x.0 && y.1 == x.1,
            None => r is None,
        },
{
    if !room(c, i, 2) {
        return None;
    }
    let tag = c[i + 1];
    if tag == 0 {
        if room(c, i, 10) {
            let mut t = owned("PushConst int(");
            push_str(&mut t, i64_text(read_u64(c, i + 2) as i64).as_str());
            push_str(&mut t, ")");
            Some((line_of(i + 8, t, None), i + 10))
        } else { None }
    } else if tag == 1 {
        if room(c, i, 3) {
            let mut t = owned("PushConst bool(");
            push_str(&mut t, bool_word(c[i + 2] == 1));
            push_str(&mut t, ")");
            Some((line_of(i, t, None), i + 3))
        } else { None }
    } else if tag == 2 || tag == 4 {
        match read_string(c, i + 2) {
            Some((s, j)) => {
                let mut t = if tag == 2 { owned("PushConst str(\"") } else { owned("PushConst enum(") };
                push_str(&mut t, s.as_str());
                push_str(&mut t, if tag == 2 { "\")" } else { ")" });
                Some((line_of(i, t, None), j))
            },
            None => None,
        }
    } else if tag == 3 {
        if room(c, i, 10) {
            Some((line_of(i + 8, owned("PushConst float("), Some(read_u64(c, i + 2))), i + 10))
        } else { None }
    } else {
        let mut t = owned("PushConst tag=");
        push_str(&mut t, usize_text(tag as usize).as_str());
        Some((line_of(i, t, None), i + 2))
    }
}

fn read_line(c: &[u8], i: usize) -> (r: Option<(ListingLine, usize)>)
    requires
        i < c@.len(),
    ensures
        match line_at(c@, i as int) {
            Some(x) => r matches Some(y) && line_m(y.0) == x.0 && y.1 == x.1,
            None => r is None,
        },
{
    let op = c[i];
    if op == OP_PUSH_CONST {
        return read_const_line(c, i);
    }
    if op == OP_LOAD_VAR || op == OP_STORE_VAR {
        return match read_string(c, i + 1) {
            Some((s, j)) => if i == 0 {
                None
            } else {
                let mut t = if op == OP_LOAD_VAR { owned("LoadVar \"") } else { owned("StoreVar \"") };
                push_str(&mut t, s.as_str());
                push_str(&mut t, "\"");
                Some((line_of(i - 1, t, None), j))
            },
            None => None,
        };
    }
    match jump_text(op) {
        Some(name) => {
            return if room(c, i, 5) {
                let mut t = owned(name);
                push_str(&mut t, " -> 0x");
                push_hex_text(&mut t, read_u32(c, i + 1) as u64, 4, false);
                Some((line_of(i, t, None), i + 5))
            } else {
                None
            };
        },
        None => {},
    }
    if op == OP_CALL_BUILTIN {
        return match read_string(c, i + 1) {
            Some((s, j)) => if j < c.len() {
                let mut t = owned("CallBuiltin \"");
                push_str(&mut t, s.as_str());
                push_str(&mut t, "\" (");
                push_str(&mut t, usize_text(c[j] as usize).as_str());
                push_str(&mut t, " args)");
                Some((line_of(i, t, None), j + 1))
            } else {
                None
            },
            None => None,
        };
    }
    if op == OP_BIND_PARAMS {
        if !room(c, i, 2) {
            return None;
        }
        let n = c[i + 1];
        return match read_strings(c, i + 2, n) {
            Some((names, j)) => {
                let mut t = owned("BindParams (");
                push_str(&mut t, usize_text(n as usize).as_str());
                push_str(&mut t, ") ");
                push_names(&mut t, &names);
                Some((line_of(i, t, None), j))
            },
            None => None,
        };
    }
    match simple_text(op) {
        Some(name) => Some((line_of(i, owned(name), None), i + 1)),
        None => {
            let mut t = owned("Unknown 0x");
            push_hex_text(&mut t, op as u64, 2, false);
            Some((line_of(i, t, None), i + 1))
        },
    }
}

/// Appends `names` joined with `, `.
fn push_names(s: &mut String, names: &Vec<String>)
    ensures
        final(s)@ == old(s)@ + joined(names@.map_values(|n: String| n@)),
{
    let ghost ns = names@.map_values(|n: String| n@);
    let ghost start = s@;
    let mut i: usize = 0;
    assert(ns.subrange(0, 0) =~= Seq::<Seq<char>>::empty());
    while i < names.len()
        invariant
            i <= names@.len(),
            ns == names@.map_values(|n: String| n@),
            s@ == start + joined(ns.subrange(0, i as int)),
        decreases names@.len() - i,
    {
        if i > 0 {
            push_str(s, ", ");
        }
        push_str(s, names[i].as_str());
        proof {
            let p = ns.subrange(0, i + 1);
            assert(p.drop_last() =~= ns.subrange(0, i as int));
            assert(p.last() == names@[i as int]@);
            assert(s@ =~= start + joined(p));
        }
        i = i + 1;
    }
    assert(ns.subrange(0, names@.len() as int) =~= ns);
}

/// The lines of the editor's listing, or `None` where the bytes end inside
/// an instruction or a variable access opens the code.
pub fn listing_lines(c: &[u8]) -> (r: Option<Vec<ListingLine>>)
    ensures
        match lines_from(c@, 0) {
            Some(x) => r matches Some(y) && lines_m(y@) == x,
            None => r is None,
        },
{
    let mut out: Vec<ListingLine> = Vec::new();
    let mut i: usize = 0;
    while i < c.len()
        invariant
            i <= c@.len(),
            match lines_from(c@, 0) {
                Some(all) => lines_from(c@, i as int) matches Some(rest) && all == lines_m(out@) + rest,
                None => lines_from(c@, i as int) is None,
            },
        decreases c@.len() - i,
    {
        match read_line(c, i) {
            Some((l, j)) => {
                if j <= i {
                    return None;
                }
                proof {
                    if let Some(all) = lines_from(c@, 0) {
                        let rest = lines_from(c@, i as int)->0;
                        let rest2 = lines_from(c@, j as int)->0;
                        assert(rest == seq![line_m(l)] + rest2);
                        assert(lines_m(out@.push(l)) =~= lines_m(out@).push(line_m(l)));
                        assert(all =~= lines_m(out@.push(l)) + rest2);
                    }
                }
                out.push(l);
                i = j;
            },
            None => {
                return None;
            },
        }
    }
    proof {
        if let Some(all) = lines_from(c@, 0) {
            assert(lines_from(c@, i as int) == Some(Seq::<LineM>::empty()));
            assert(all =~= lines_m(out@));
        }
    }
    Some(out)
}

/// The listing as one text: each line's offset in four or more hex digits,
/// two spaces and its text, with `floats[j]` as the text of the float on
/// line `j`; the lines joined with line feeds.
pub fn listing_string(lines: &Vec<ListingLine>, floats: &Vec<String>) -> (r: String)
    ensures
        r@ == listing_text(lines_m(lines@), floats@.map_values(|f: String| f@)),
{
    let ghost ls = lines_m(lines@);
    let ghost fs = floats@.map_values(|f: String| f@);
    let ghost shown = Seq::new(ls.len(), |j: int| shown_line(ls[j], float_on(fs, j)));
    let mut out = String::new();
    let mut i: usize = 0;
    assert(shown.subrange(0, 0) =~= Seq::<Seq<char>>::empty());
    while i < lines.len()
        invariant
            i <= lines@.len(),
            ls == lines_m(lines@),
            fs == floats@.map_values(|f: String| f@),
            shown == Seq::new(ls.len(), |j: int| shown_line(ls[j], float_on(fs, j))),
            out@ == join_lines(shown.subrange(0, i as int)),
        decreases lines@.len() - i,
    {
        let ghost before = out@;
        let l = &lines[i];
        let mut t = String::new();
        push_hex_text(&mut t, l.offset as u64, 4, false);
        push_str(&mut t, "  ");
        push_str(&mut t, l.text.as_str());
        if l.float_bits.is_some() {
            if i < floats.len() {
                push_str(&mut t, floats[i].as_str());
            }
            push_str(&mut t, ")");
        }
        proof {
            assert(ls[i as int] == line_m(lines@[i as int]));
            if i < floats@.len() {
                assert(fs[i as int] == floats@[i as int]@);
            }
            assert(t@ =~= shown[i as int]);
        }
        if i > 0 {
            push_str(&mut out, "\n");
        }
        push_str(&mut out, t.as_str());
        proof {
            let p = shown.subrange(0, i + 1);
            assert(p.drop_last() =~= shown.subrange(0, i as int));
            assert(p.last() == shown[i as int]);
            if i == 0 {
                assert(p =~= seq![shown[0]]);
                assert(out@ =~= join_lines(p));
            } else {
                assert(out@ =~= join_lines(p));
            }
        }
        i = i + 1;
    }
    assert(shown.subrange(0, lines@.len() as int) =~= shown);
    out
}

} // verus!
