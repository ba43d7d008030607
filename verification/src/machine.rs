//! The stack virtual machine, one instruction at a time.  What needs the
//! host (floating-point arithmetic and comparison, the `{:?}` text of a
//! value, printing, foreign calls) is handed back as a host call; the host
//! pushes its result and carries on.
use vstd::prelude::*;
use crate::vm::{Value, ValueM, value_m, fields_m, lemma_fields_m, clone_value, VmError};
use crate::decoder::{InstrM, Instr, FieldConst, FieldConstM, decode, decode_at, strings_at, struct_fields_m, read_strings};
use crate::bytecode::{OP_MAKE_STRUCT, OP_ADD, OP_SUB, OP_MUL, OP_DIV, OP_EQUAL, OP_NOT_EQUAL, OP_LESS_THAN,
    OP_GREATER_THAN, OP_LESS_EQUAL, OP_GREATER_EQUAL, OP_FADD, OP_FSUB, OP_FMUL, OP_FDIV};
use crate::util::{NameMap, owned, push_str, str_eq, chars_of, utf8_bytes};
use crate::text::{first_match, find_chars, trim, trimmed};
use crate::numeric::{parse_i64, parse_i64_chars};

verus! {

/// The most instructions one run may execute.
pub const MAX_INSTRUCTIONS: u64 = 10_000_000;

/// The model of the machine: the data stack, the return addresses, the
/// local frames (innermost last), the globals and the instructions executed.
pub struct VmM {
    pub stack: Seq<ValueM>,
    pub calls: Seq<usize>,
    pub frames: Seq<Map<Seq<char>, ValueM>>,
    pub globals: Map<Seq<char>, ValueM>,
    pub count: u64,
}

/// Work that only the host can do.
pub enum HostCall {
    /// An operation on two operands (the lower one first): float arithmetic,
    /// comparisons involving floats, equality involving floats or structs.
    /// The host pushes the result.
    Binary(u8, Value, Value),
    /// The `{:?}` text of a value; the host pushes it as a string.
    VariantText(Value),
    /// A builtin that prints, formats or parses; the host pushes its result
    /// or fails with its error.
    Builtin(String, Vec<Value>),
    /// A foreign function: library, symbol and arguments; the host pushes
    /// the result.
    Foreign(String, String, Vec<Value>),
}

pub enum HostCallM {
    Binary(u8, ValueM, ValueM),
    VariantText(ValueM),
    Builtin(Seq<char>, Seq<ValueM>),
    Foreign(Seq<char>, Seq<char>, Seq<ValueM>),
}

/// The outcome of one step.
pub enum Step {
    /// Go on at this place.
    Next(usize),
    /// The program is over.
    Halt,
    /// A runtime error.
    Fault(VmError),
    /// The code ends inside an instruction.
    Truncated,
    /// An integer operation overflowed.
    Overflow,
    /// The host does this work, then goes on at the place.
    Host(HostCall, usize),
}

pub enum StepM {
    Next(int),
    Halt,
    Fault(Seq<char>),
    Truncated,
    Overflow,
    Host(HostCallM, int),
}

pub open spec fn vals(m: Map<Seq<char>, Value>) -> Map<Seq<char>, ValueM> {
    m.map_values(|v: Value| v@)
}

pub open spec fn values_m(s: Seq<Value>) -> Seq<ValueM> {
    s.map_values(|v: Value| v@)
}

impl View for HostCall {
    type V = HostCallM;

    open spec fn view(&self) -> HostCallM {
        match self {
            HostCall::Binary(op, a, b) => HostCallM::Binary(*op, a@, b@),
            HostCall::VariantText(v) => HostCallM::VariantText(v@),
            HostCall::Builtin(n, args) => HostCallM::Builtin(n@, values_m(args@)),
            HostCall::Foreign(l, s, args) => HostCallM::Foreign(l@, s@, values_m(args@)),
        }
    }
}

impl View for Step {
    type V = StepM;

    open spec fn view(&self) -> StepM {
        match self {
            Step::Next(p) => StepM::Next(*p as int),
            Step::Halt => StepM::Halt,
            Step::Fault(e) => StepM::Fault(e.0@),
            Step::Truncated => StepM::Truncated,
            Step::Overflow => StepM::Overflow,
            Step::Host(h, p) => StepM::Host(h@, *p as int),
        }
    }
}

/// The innermost frame that binds `name`, searched from the last.
pub open spec fn frames_lookup(frames: Seq<Map<Seq<char>, ValueM>>, name: Seq<char>) -> Option<ValueM>
    decreases frames.len(),
{
    if frames.len() == 0 {
        None
    } else if frames.last().dom().contains(name) {
        Some(frames.last()[name])
    } else {
        frames_lookup(frames.drop_last(), name)
    }
}

/// A variable: the innermost frame that binds it, then the globals; `None`
/// where nothing binds it.
pub open spec fn load(m: VmM, name: Seq<char>) -> Option<ValueM> {
    match frames_lookup(m.frames, name) {
        Some(v) => Some(v),
        None => if m.globals.dom().contains(name) { Some(m.globals[name]) } else { None },
    }
}

/// The fault of a load of a name that nothing binds.
pub open spec fn undefined_msg(name: Seq<char>) -> Seq<char> {
    "undefined variable '"@ + name + "'"@
}

/// Storing goes to the innermost frame, or to the globals outside any call.
pub open spec fn store(m: VmM, name: Seq<char>, v: ValueM) -> VmM {
    if m.frames.len() > 0 {
        VmM { frames: m.frames.update(m.frames.len() - 1, m.frames.last().insert(name, v)), ..m }
    } else {
        VmM { globals: m.globals.insert(name, v), ..m }
    }
}

/// The index of the first field named `k`, from `i` on.
pub open spec fn field_index(fs: Seq<(Seq<char>, ValueM)>, k: Seq<char>, i: int) -> Option<int>
    decreases fs.len() - i,
{
    if i < 0 || i >= fs.len() {
        None
    } else if fs[i].0 == k {
        Some(i)
    } else {
        field_index(fs, k, i + 1)
    }
}

/// A field's value: the first under its name.
pub open spec fn struct_get(fs: Seq<(Seq<char>, ValueM)>, k: Seq<char>) -> Option<ValueM> {
    match field_index(fs, k, 0) {
        Some(i) => Some(fs[i].1),
        None => None,
    }
}

/// Setting a field replaces the first under its name, or adds it at the end.
pub open spec fn struct_set(fs: Seq<(Seq<char>, ValueM)>, k: Seq<char>, v: ValueM) -> Seq<(Seq<char>, ValueM)> {
    match field_index(fs, k, 0) {
        Some(i) => fs.update(i, (k, v)),
        None => fs.push((k, v)),
    }
}

pub open spec fn const_value(f: FieldConstM) -> ValueM {
    match f {
        FieldConstM::Int(n) => ValueM::Int(n),
        FieldConstM::Bool(b) => ValueM::Bool(b),
        FieldConstM::Str(s) => ValueM::Str(s),
        FieldConstM::Float(b) => ValueM::Float(b),
        FieldConstM::Other(_) => ValueM::Null,
    }
}

/// A struct constant's fields, set one after another.
pub open spec fn build_struct(fs: Seq<(Seq<char>, FieldConstM)>) -> Seq<(Seq<char>, ValueM)>
    decreases fs.len(),
{
    if fs.len() == 0 {
        Seq::empty()
    } else {
        struct_set(build_struct(fs.drop_last()), fs.last().0, const_value(fs.last().1))
    }
}

/// A struct made from the stack: the `i`-th name takes the `i`-th value
/// popped.
pub open spec fn pop_fields(stack: Seq<ValueM>, names: Seq<Seq<char>>) -> Seq<(Seq<char>, ValueM)>
    decreases names.len(),
{
    if names.len() == 0 {
        Seq::empty()
    } else {
        let k = names.len() - 1;
        struct_set(pop_fields(stack, names.drop_last()), names.last(), stack[stack.len() - 1 - k])
    }
}

/// Neither a float nor a struct occurs in the value.
pub open spec fn plain_value(v: ValueM) -> bool
    decreases v,
{
    match v {
        ValueM::Float(_) => false,
        ValueM::Struct(_) => false,
        ValueM::Enum(_, p) => plain_value(*p),
        _ => true,
    }
}

pub open spec fn is_number(v: ValueM) -> bool {
    v is Int || v is Float
}

/// The type name `प्रकारः` gives.
pub open spec fn type_name_of(v: ValueM) -> Seq<char> {
    match v {
        ValueM::Int(_) => "अङ्क"@,
        ValueM::Float(_) => "दशमलव"@,
        ValueM::Bool(_) => "सत्यता"@,
        ValueM::Str(_) => "शब्द"@,
        ValueM::Func(_) => "कार्य"@,
        ValueM::Enum(n, _) => n,
        ValueM::Struct(_) => "वस्तु_विन्यासः"@,
        ValueM::Null => "शून्य"@,
    }
}

/// The builtins the host runs.
pub open spec fn host_builtin(name: Seq<char>) -> bool {
    name == "मुद्रण"@ || name == "योजन"@ || name == "रूपान्तर"@
}

/// The names of all builtins.
pub open spec fn builtin_name(name: Seq<char>) -> bool {
    host_builtin(name) || name == "दैर्घ्यम्"@ || name == "प्रकारः"@ || name == "अस्ति"@ || name == "संख्या"@
}

pub open spec fn push(m: VmM, v: ValueM) -> VmM {
    VmM { stack: m.stack.push(v), ..m }
}

pub open spec fn with_stack(m: VmM, s: Seq<ValueM>) -> VmM {
    VmM { stack: s, ..m }
}

/// A failed pop leaves the stack empty.
pub open spec fn underflow(m: VmM) -> (VmM, StepM) {
    (with_stack(m, Seq::empty()), StepM::Fault("stack underflow"@))
}

/// The result of a builtin the machine runs itself, on arguments in order.
pub open spec fn builtin_step(m: VmM, name: Seq<char>, args: Seq<ValueM>, q: int) -> (VmM, StepM) {
    if name == "योजन"@ {
        if args.len() < 2 {
            (m, StepM::Fault("योजन expects 2 arguments"@))
        } else {
            match (args[0], args[1]) {
                (ValueM::Str(a), ValueM::Str(b)) => (push(m, ValueM::Str(a + b)), StepM::Next(q)),
                _ => (m, StepM::Host(HostCallM::Builtin(name, args), q)),
            }
        }
    } else if host_builtin(name) {
        (m, StepM::Host(HostCallM::Builtin(name, args), q))
    } else if name == "दैर्घ्यम्"@ {
        if args.len() == 0 {
            (m, StepM::Fault("दैर्घ्यम् expects 1 argument"@))
        } else {
            match args[0] {
                ValueM::Str(s) => (push(m, ValueM::Int((utf8_bytes(s).len() as usize) as i64)), StepM::Next(q)),
                _ => (m, StepM::Fault("दैर्घ्यम् expects a string argument"@)),
            }
        }
    } else if name == "प्रकारः"@ {
        if args.len() == 0 {
            (m, StepM::Fault("प्रकारः expects 1 argument"@))
        } else {
            (push(m, ValueM::Str(type_name_of(args[0]))), StepM::Next(q))
        }
    } else if name == "अस्ति"@ {
        if args.len() < 2 {
            (m, StepM::Fault("अस्ति expects 2 arguments"@))
        } else {
            match (args[0], args[1]) {
                (ValueM::Str(h), ValueM::Str(n)) => (push(m, ValueM::Bool(first_match(h, n) is Some)), StepM::Next(q)),
                _ => (m, StepM::Fault("अस्ति expects string arguments"@)),
            }
        }
    } else if name == "संख्या"@ {
        if args.len() == 0 {
            (m, StepM::Fault("संख्या expects 1 argument"@))
        } else {
            match args[0] {
                ValueM::Str(s) => (push(m, ValueM::Int(match parse_i64(trim(s)) {
                    Some(v) => v,
                    None => 0,
                })), StepM::Next(q)),
                ValueM::Int(k) => (push(m, ValueM::Int(k)), StepM::Next(q)),
                _ => (m, StepM::Fault("संख्या expects a string or int"@)),
            }
        }
    } else {
        (m, StepM::Fault("unknown builtin '"@ + name + "'"@))
    }
}

/// Parameters bound in the innermost frame, in order.
pub open spec fn bind_all(f: Map<Seq<char>, ValueM>, names: Seq<Seq<char>>, args: Seq<ValueM>) -> Map<Seq<char>, ValueM>
    decreases names.len(),
{
    if names.len() == 0 {
        f
    } else {
        bind_all(f, names.drop_last(), args).insert(names.last(), args[names.len() - 1])
    }
}

/// Integer arithmetic on the left operand (pushed first) and the right
/// operand (on top); `None` on overflow.
pub open spec fn int_arith(op: u8, left: i64, right: i64) -> Option<Result<i64, Seq<char>>> {
    if op == OP_ADD {
        if i64::MIN <= left + right <= i64::MAX { Some(Ok((left + right) as i64)) } else { None }
    } else if op == OP_SUB {
        if i64::MIN <= left - right <= i64::MAX { Some(Ok((left - right) as i64)) } else { None }
    } else if op == OP_MUL {
        if i64::MIN <= left * right <= i64::MAX { Some(Ok((left * right) as i64)) } else { None }
    } else if right == 0 {
        Some(Err("division by zero"@))
    } else if left == i64::MIN && right == -1 {
        None
    } else {
        Some(Ok(crate::optimizer::trunc_div(left as int, right as int) as i64))
    }
}

pub open spec fn int_compare(op: u8, a: i64, b: i64) -> bool {
    if op == OP_LESS_THAN { a < b }
    else if op == OP_GREATER_THAN { a > b }
    else if op == OP_LESS_EQUAL { a <= b }
    else { a >= b }
}

/// One instruction after its decoding; `q` is the place after it.
pub open spec fn exec_spec(m: VmM, ins: InstrM, q: int) -> (VmM, StepM) {
    let n = m.stack.len();
    match ins {
        InstrM::PushInt(v) => (push(m, ValueM::Int(v)), StepM::Next(q)),
        InstrM::PushBool(b) => (push(m, ValueM::Bool(b)), StepM::Next(q)),
        InstrM::PushStr(s) => (push(m, ValueM::Str(s)), StepM::Next(q)),
        InstrM::PushFloat(b) => (push(m, ValueM::Float(b)), StepM::Next(q)),
        InstrM::PushEnum(s) => (push(m, ValueM::Enum(s, Box::new(ValueM::Null))), StepM::Next(q)),
        InstrM::PushStruct(fs) => (push(m, ValueM::Struct(build_struct(fs))), StepM::Next(q)),
        InstrM::PushUnknown(_) => (m, StepM::Next(q)),
        InstrM::LoadVar(name) => match load(m, name) {
            Some(v) => (push(m, v), StepM::Next(q)),
            None => (m, StepM::Fault(undefined_msg(name))),
        },
        InstrM::StoreVar(name) => if n == 0 { underflow(m) } else {
            (store(with_stack(m, m.stack.drop_last()), name, m.stack.last()), StepM::Next(q))
        },
        InstrM::Dup => if n == 0 { (m, StepM::Fault("stack underflow on dup"@)) } else {
            (push(m, m.stack.last()), StepM::Next(q))
        },
        InstrM::Drop => if n == 0 { underflow(m) } else { (with_stack(m, m.stack.drop_last()), StepM::Next(q)) },
        InstrM::GetVariant => if n == 0 { underflow(m) } else {
            let m1 = with_stack(m, m.stack.drop_last());
            match m.stack.last() {
                ValueM::Enum(name, _) => (push(m1, ValueM::Str(name)), StepM::Next(q)),
                other => (m1, StepM::Host(HostCallM::VariantText(other), q)),
            }
        },
        InstrM::Extract => if n == 0 { underflow(m) } else {
            let m1 = with_stack(m, m.stack.drop_last());
            match m.stack.last() {
                ValueM::Enum(_, p) => (push(m1, *p), StepM::Next(q)),
                other => (push(m1, other), StepM::Next(q)),
            }
        },
        InstrM::MakeEnum => if n < 2 { underflow(m) } else {
            let m1 = with_stack(m, m.stack.subrange(0, n - 2));
            match m.stack[n - 2] {
                ValueM::Str(s) => (push(m1, ValueM::Enum(s, Box::new(m.stack[n - 1]))), StepM::Next(q)),
                _ => (m1, StepM::Fault("MakeEnum: expected string name"@)),
            }
        },
        InstrM::Add => arith_spec(m, OP_ADD, q),
        InstrM::Sub => arith_spec(m, OP_SUB, q),
        InstrM::Mul => arith_spec(m, OP_MUL, q),
        InstrM::Div => arith_spec(m, OP_DIV, q),
        InstrM::FAdd => float_spec(m, OP_FADD, q),
        InstrM::FSub => float_spec(m, OP_FSUB, q),
        InstrM::FMul => float_spec(m, OP_FMUL, q),
        InstrM::FDiv => float_spec(m, OP_FDIV, q),
        InstrM::Equal => equal_spec(m, OP_EQUAL, q),
        InstrM::NotEqual => equal_spec(m, OP_NOT_EQUAL, q),
        InstrM::LessThan => compare_spec(m, OP_LESS_THAN, q),
        InstrM::GreaterThan => compare_spec(m, OP_GREATER_THAN, q),
        InstrM::LessEqual => compare_spec(m, OP_LESS_EQUAL, q),
        InstrM::GreaterEqual => compare_spec(m, OP_GREATER_EQUAL, q),
        InstrM::Jump(a) => (m, StepM::Next(a as int)),
        InstrM::JumpIfFalse(a) => if n == 0 { underflow(m) } else {
            (with_stack(m, m.stack.drop_last()), StepM::Next(if m.stack.last() == ValueM::Bool(false) { a as int } else { q }))
        },
        InstrM::JumpIfTrue(a) => if n == 0 { underflow(m) } else {
            (with_stack(m, m.stack.drop_last()), StepM::Next(if m.stack.last() == ValueM::Bool(true) { a as int } else { q }))
        },
        InstrM::Call(a) => (VmM { calls: m.calls.push(q as usize), frames: m.frames.push(Map::empty()), ..m }, StepM::Next(a as int)),
        InstrM::Return => if m.calls.len() == 0 { (m, StepM::Halt) } else {
            (VmM {
                calls: m.calls.drop_last(),
                frames: if m.frames.len() > 0 { m.frames.drop_last() } else { m.frames },
                ..m
            }, StepM::Next(m.calls.last() as int))
        },
        InstrM::GetField(name) => if n == 0 { underflow(m) } else {
            let m1 = with_stack(m, m.stack.drop_last());
            match m.stack.last() {
                ValueM::Struct(fs) => (push(m1, match struct_get(fs, name) { Some(v) => v, None => ValueM::Null }), StepM::Next(q)),
                other => (push(m1, other), StepM::Next(q)),
            }
        },
        InstrM::SetField(name) => if n < 2 { underflow(m) } else {
            let m1 = with_stack(m, m.stack.subrange(0, n - 2));
            match m.stack[n - 2] {
                ValueM::Struct(fs) => (push(m1, ValueM::Struct(struct_set(fs, name, m.stack[n - 1]))), StepM::Next(q)),
                other => (push(m1, other), StepM::Next(q)),
            }
        },
        InstrM::CallForeign(lib, sym, k) => if n < k { underflow(m) } else {
            (with_stack(m, m.stack.subrange(0, n - k)), StepM::Host(HostCallM::Foreign(lib, sym, m.stack.subrange(n - k, n as int)), q))
        },
        InstrM::CallBuiltin(name, k) => if n < k { underflow(m) } else {
            builtin_step(with_stack(m, m.stack.subrange(0, n - k)), name, m.stack.subrange(n - k, n as int), q)
        },
        InstrM::BindParams(names) => if n < names.len() { underflow(m) } else {
            let m1 = with_stack(m, m.stack.subrange(0, n - names.len()));
            let args = m.stack.subrange(n - names.len(), n as int);
            if m.frames.len() == 0 {
                (m1, StepM::Fault("parameter binding outside function frame"@))
            } else {
                (VmM { frames: m.frames.update(m.frames.len() - 1, bind_all(m.frames.last(), names, args)), ..m1 }, StepM::Next(q))
            }
        },
        _ => (m, StepM::Next(q)),
    }
}

/// Arithmetic: the two operands are popped; integers give their result,
/// other numbers are handed to the host's floating-point arithmetic, and
/// anything else gives nothing.
pub open spec fn arith_spec(m: VmM, op: u8, q: int) -> (VmM, StepM) {
    let n = m.stack.len();
    if n < 2 {
        underflow(m)
    } else {
        let m1 = with_stack(m, m.stack.subrange(0, n - 2));
        match (m.stack[n - 2], m.stack[n - 1]) {
            (ValueM::Int(left), ValueM::Int(right)) => match int_arith(op, left, right) {
                Some(Ok(v)) => (push(m1, ValueM::Int(v)), StepM::Next(q)),
                Some(Err(e)) => (m1, StepM::Fault(e)),
                None => (m1, StepM::Overflow),
            },
            (a, b) => if is_number(a) && is_number(b) {
                (m1, StepM::Host(HostCallM::Binary(op, a, b), q))
            } else {
                (m1, StepM::Next(q))
            },
        }
    }
}

pub open spec fn float_spec(m: VmM, op: u8, q: int) -> (VmM, StepM) {
    let n = m.stack.len();
    if n < 2 {
        underflow(m)
    } else {
        (with_stack(m, m.stack.subrange(0, n - 2)), StepM::Host(HostCallM::Binary(op, m.stack[n - 2], m.stack[n - 1]), q))
    }
}

/// Every field of a structure holds a plain value.
pub open spec fn plain_fields(fs: Seq<(Seq<char>, ValueM)>) -> bool {
    forall|i: int| 0 <= i < fs.len() ==> plain_value(#[trigger] fs[i].1)
}

/// Structures are equal when they have as many fields and each field of
/// the first is found, by name and value, in the second (the fields form a
/// map, whose order does not count).
pub open spec fn same_fields(f1: Seq<(Seq<char>, ValueM)>, f2: Seq<(Seq<char>, ValueM)>) -> bool {
    f1.len() == f2.len() && forall|i: int| 0 <= i < f1.len() ==> has_field(f2, #[trigger] f1[i])
}

/// Whether the fields hold this name and value.
pub open spec fn has_field(fs: Seq<(Seq<char>, ValueM)>, f: (Seq<char>, ValueM)) -> bool {
    exists|j: int| 0 <= j < fs.len() && fs[j] == f
}

/// The kind of a value, one number per variant.
pub open spec fn value_kind(v: ValueM) -> int {
    match v {
        ValueM::Null => 0,
        ValueM::Int(_) => 1,
        ValueM::Float(_) => 2,
        ValueM::Bool(_) => 3,
        ValueM::Str(_) => 4,
        ValueM::Func(_) => 5,
        ValueM::Enum(_, _) => 6,
        ValueM::Struct(_) => 7,
    }
}

/// Equality where the machine can decide it without the host: plain
/// values compare as they are, structures of plain fields field by field,
/// and values of different kinds are unequal.  `None` where a float is
/// involved (the host compares those).
pub open spec fn decided_equal(a: ValueM, b: ValueM) -> Option<bool> {
    if plain_value(a) && plain_value(b) {
        Some(a == b)
    } else if value_kind(a) != value_kind(b) {
        Some(false)
    } else {
        match (a, b) {
            (ValueM::Struct(f1), ValueM::Struct(f2)) => if plain_fields(f1) && plain_fields(f2) {
                Some(same_fields(f1, f2))
            } else {
                None
            },
            _ => None,
        }
    }
}

pub open spec fn equal_spec(m: VmM, op: u8, q: int) -> (VmM, StepM) {
    let n = m.stack.len();
    if n < 2 {
        underflow(m)
    } else {
        let m1 = with_stack(m, m.stack.subrange(0, n - 2));
        let a = m.stack[n - 2];
        let b = m.stack[n - 1];
        match decided_equal(a, b) {
            Some(same) => (push(m1, ValueM::Bool(if op == OP_EQUAL { same } else { !same })), StepM::Next(q)),
            None => (m1, StepM::Host(HostCallM::Binary(op, a, b), q)),
        }
    }
}

pub open spec fn compare_spec(m: VmM, op: u8, q: int) -> (VmM, StepM) {
    let n = m.stack.len();
    if n < 2 {
        underflow(m)
    } else {
        let m1 = with_stack(m, m.stack.subrange(0, n - 2));
        let a = m.stack[n - 2];
        let b = m.stack[n - 1];
        match (a, b) {
            (ValueM::Int(x), ValueM::Int(y)) => (push(m1, ValueM::Bool(int_compare(op, x, y))), StepM::Next(q)),
            _ => if is_number(a) && is_number(b) {
                (m1, StepM::Host(HostCallM::Binary(op, a, b), q))
            } else {
                (push(m1, ValueM::Bool(false)), StepM::Next(q))
            },
        }
    }
}

/// One step at `pc`: past the end the program is over; each instruction is
/// counted, and the run fails past [`MAX_INSTRUCTIONS`].
pub open spec fn step_spec(m: VmM, c: Seq<u8>, pc: int) -> (VmM, StepM) {
    if pc < 0 || pc >= c.len() {
        (m, StepM::Halt)
    } else {
        let m0 = VmM { count: if m.count < u64::MAX { (m.count + 1) as u64 } else { m.count }, ..m };
        if m0.count > MAX_INSTRUCTIONS {
            (m0, StepM::Fault("execution limit exceeded (10000000 instructions) — possible infinite loop"@))
        } else if c[pc] == OP_MAKE_STRUCT {
            if pc + 2 <= c.len() {
                match strings_at(c, pc + 2, c[pc + 1] as nat) {
                    Some(r) => {
                        let names = r.0;
                        let n = m0.stack.len();
                        if n < names.len() {
                            underflow(m0)
                        } else {
                            (push(with_stack(m0, m0.stack.subrange(0, n - names.len())), ValueM::Struct(pop_fields(m0.stack, names))),
                                StepM::Next(r.1))
                        }
                    },
                    None => (m0, StepM::Truncated),
                }
            } else {
                (m0, StepM::Truncated)
            }
        } else {
            match decode_at(c, pc) {
                Some(d) => exec_spec(m0, d.0, d.1),
                None => (m0, StepM::Truncated),
            }
        }
    }
}

/// Up to `n` steps from `pc`: the state and outcome of the last step taken,
/// stopping early at any outcome other than going on.
pub open spec fn run_steps(m: VmM, c: Seq<u8>, pc: int, n: nat) -> (VmM, StepM)
    decreases n,
{
    if n == 0 {
        (m, StepM::Next(pc))
    } else {
        let r = step_spec(m, c, pc);
        match r.1 {
            StepM::Next(q) => run_steps(r.0, c, q, (n - 1) as nat),
            _ => r,
        }
    }
}

/// Loading a name after a store reads the stored value; other names read
/// what they read before.
pub proof fn lemma_load_store(m: VmM, name: Seq<char>, v: ValueM, other: Seq<char>)
    ensures
        load(store(m, name, v), name) == Some(v),
        other != name ==> load(store(m, name, v), other) == load(m, other),
{
    let m1 = store(m, name, v);
    if m.frames.len() > 0 {
        assert(m1.frames.drop_last() =~= m.frames.drop_last());
        assert(m1.frames.last() == m.frames.last().insert(name, v));
    } else {
        assert(m1.frames == m.frames);
    }
}

/// A load reads back what a store wrote: storing the top of the stack under
/// a name and then loading that name leaves the stack as it was, and every
/// other name reads as before.
pub proof fn law_store_then_load(m: VmM, name: Seq<char>, q1: int, q2: int, other: Seq<char>)
    requires
        m.stack.len() > 0,
        other != name,
    ensures
        ({
            let r1 = exec_spec(m, InstrM::StoreVar(name), q1);
            let r2 = exec_spec(r1.0, InstrM::LoadVar(name), q2);
            &&& r1.1 == StepM::Next(q1)
            &&& r2.1 == StepM::Next(q2)
            &&& r2.0.stack == m.stack
            &&& load(r1.0, other) == load(m, other)
        }),
{
    let m0 = with_stack(m, m.stack.drop_last());
    lemma_load_store(m0, name, m.stack.last(), other);
    let r1 = exec_spec(m, InstrM::StoreVar(name), q1);
    assert(r1.0 == store(m0, name, m.stack.last()));
    assert(r1.0.stack == m.stack.drop_last());
    let r2 = exec_spec(r1.0, InstrM::LoadVar(name), q2);
    assert(r2.0.stack =~= m.stack);
    assert(load(m0, other) == load(m, other));
}

/// Inside a call, storing a variable writes the innermost frame only: the
/// globals, and every outer frame, are as they were.
pub proof fn law_locals_stay_local(m: VmM, name: Seq<char>, q: int)
    requires
        m.frames.len() > 0,
        m.stack.len() > 0,
    ensures
        ({
            let r = exec_spec(m, InstrM::StoreVar(name), q);
            &&& r.0.globals == m.globals
            &&& r.0.frames.len() == m.frames.len()
            &&& r.0.frames.drop_last() == m.frames.drop_last()
            &&& r.0.frames.last() == m.frames.last().insert(name, m.stack.last())
        }),
{
    let r = exec_spec(m, InstrM::StoreVar(name), q);
    assert(r.0.frames.drop_last() =~= m.frames.drop_last());
}

/// The machine.
pub struct VirtualMachine {
    pub data_stack: Vec<Value>,
    pub call_stack: Vec<usize>,
    pub local_frames: Vec<NameMap<Value>>,
    pub globals: NameMap<Value>,
    pub instruction_count: u64,
}

impl View for VirtualMachine {
    type V = VmM;

    open spec fn view(&self) -> VmM {
        VmM {
            stack: values_m(self.data_stack@),
            calls: self.call_stack@,
            frames: self.local_frames@.map_values(|f: NameMap<Value>| vals(f@)),
            globals: vals(self.globals@),
            count: self.instruction_count,
        }
    }
}

fn str_value_bytes(s: &String) -> (r: i64)
    ensures
        r == (utf8_bytes(s@).len() as usize) as i64,
{
    let b = s.as_str().as_bytes();
    assert(b@.len() == utf8_bytes(s@).len());
    b.len() as i64
}

fn kind_name(v: &Value) -> (r: String)
    ensures
        r@ == type_name_of(v@),
{
    match v {
        Value::Int(_) => owned("अङ्क"),
        Value::Float(_) => owned("दशमलव"),
        Value::Bool(_) => owned("सत्यता"),
        Value::Str(_) => owned("शब्द"),
        Value::Func(_) => owned("कार्य"),
        Value::Enum(name, _) => name.clone(),
        Value::Struct(_) => owned("वस्तु_विन्यासः"),
        Value::Null => owned("शून्य"),
    }
}

fn is_plain(v: &Value) -> (r: bool)
    ensures
        r == plain_value(v@),
    decreases v,
{
    match v {
        Value::Float(_) => false,
        Value::Struct(_) => false,
        Value::Enum(_, p) => is_plain(&**p),
        _ => true,
    }
}

fn kind_of(v: &Value) -> (r: u8)
    ensures
        r as int == value_kind(v@),
{
    match v {
        Value::Null => 0,
        Value::Int(_) => 1,
        Value::Float(_) => 2,
        Value::Bool(_) => 3,
        Value::Str(_) => 4,
        Value::Func(_) => 5,
        Value::Enum(_, _) => 6,
        Value::Struct(_) => 7,
    }
}

fn fields_plain(fs: &Vec<(String, Value)>) -> (r: bool)
    ensures
        r == plain_fields(fields_m(fs@)),
{
    proof {
        lemma_fields_m(fs@);
    }
    let mut i: usize = 0;
    while i < fs.len()
        invariant
            i <= fs@.len(),
            fields_m(fs@).len() == fs@.len(),
            forall|k: int| 0 <= k < fs@.len() ==> #[trigger] fields_m(fs@)[k] == (fs@[k].0@, value_m(fs@[k].1)),
            forall|k: int| 0 <= k < i ==> plain_value(#[trigger] fields_m(fs@)[k].1),
        decreases fs@.len() - i,
    {
        if !is_plain(&fs[i].1) {
            assert(!plain_value(fields_m(fs@)[i as int].1));
            return false;
        }
        i = i + 1;
    }
    true
}

/// Whether `f2` holds the field `(k, v)`, values compared as they are.
fn holds_field(f2: &Vec<(String, Value)>, k: &String, v: &Value) -> (r: bool)
    ensures
        r == has_field(fields_m(f2@), (k@, v@)),
{
    proof {
        lemma_fields_m(f2@);
    }
    let mut j: usize = 0;
    while j < f2.len()
        invariant
            j <= f2@.len(),
            fields_m(f2@).len() == f2@.len(),
            forall|x: int| 0 <= x < f2@.len() ==> #[trigger] fields_m(f2@)[x] == (f2@[x].0@, value_m(f2@[x].1)),
            forall|x: int| 0 <= x < j ==> #[trigger] fields_m(f2@)[x] != (k@, v@),
        decreases f2@.len() - j,
    {
        if str_eq(f2[j].0.as_str(), k.as_str()) && crate::equality::value_eq(&f2[j].1, v) {
            assert(fields_m(f2@)[j as int] == (k@, v@));
            return true;
        }
        j = j + 1;
    }
    false
}

fn decide_equal(a: &Value, b: &Value) -> (r: Option<bool>)
    ensures
        r == decided_equal(a@, b@),
{
    if is_plain(a) && is_plain(b) {
        return Some(crate::equality::value_eq(a, b));
    }
    if kind_of(a) != kind_of(b) {
        return Some(false);
    }
    match (a, b) {
        (Value::Struct(f1), Value::Struct(f2)) => {
            if !(fields_plain(f1) && fields_plain(f2)) {
                return None;
            }
            proof {
                lemma_fields_m(f1@);
                lemma_fields_m(f2@);
            }
            if f1.len() != f2.len() {
                return Some(false);
            }
            let ghost m1 = fields_m(f1@);
            let ghost m2 = fields_m(f2@);
            let mut i: usize = 0;
            while i < f1.len()
                invariant
                    i <= f1@.len(),
                    m1 == fields_m(f1@),
                    m2 == fields_m(f2@),
                    m1.len() == f1@.len(),
                    m2.len() == f2@.len(),
                    f1@.len() == f2@.len(),
                    forall|x: int| 0 <= x < f1@.len() ==> #[trigger] m1[x] == (f1@[x].0@, value_m(f1@[x].1)),
                    forall|x: int| 0 <= x < i ==> has_field(m2, #[trigger] m1[x]),
                    plain_fields(m1),
                    plain_fields(m2),
                    a@ == ValueM::Struct(m1),
                    b@ == ValueM::Struct(m2),
                    !(plain_value(a@) && plain_value(b@)),
                decreases f1@.len() - i,
            {
                if !holds_field(f2, &f1[i].0, &f1[i].1) {
                    assert(!same_fields(m1, m2)) by {
                        assert(m1[i as int] == (f1@[i as int].0@, f1@[i as int].1@));
                        if same_fields(m1, m2) {
                            assert(has_field(m2, m1[i as int]));
                        }
                    }
                    return Some(false);
                }
                i = i + 1;
            }
            assert(i == m1.len());
            assert(same_fields(m1, m2));
            Some(true)
        },
        _ => None,
    }
}

/// The place of the first field named `k`.
fn field_pos(fs: &Vec<(String, Value)>, k: &str) -> (r: Option<usize>)
    ensures
        match field_index(fields_m(fs@), k@, 0) {
            Some(i) => r == Some(i as usize),
            None => r is None,
        },
        r matches Some(i) ==> i < fs@.len() && field_index(fields_m(fs@), k@, 0) == Some(i as int),
{
    proof {
        lemma_fields_m(fs@);
    }
    let ghost fm = fields_m(fs@);
    let mut i: usize = 0;
    while i < fs.len()
        invariant
            i <= fs@.len(),
            fm == fields_m(fs@),
            fm.len() == fs@.len(),
            forall|q: int| 0 <= q < fs@.len() ==> #[trigger] fm[q] == (fs@[q].0@, value_m(fs@[q].1)),
            field_index(fm, k@, 0) == field_index(fm, k@, i as int),
        decreases fs@.len() - i,
    {
        if str_eq(fs[i].0.as_str(), k) {
            assert(fm[i as int].0 == k@);
            return Some(i);
        }
        i = i + 1;
    }
    None
}

/// Sets a field: replaces the first under its name or appends it.
fn set_field(fs: &mut Vec<(String, Value)>, k: String, v: Value)
    ensures
        fields_m(final(fs)@) == struct_set(fields_m(old(fs)@), k@, v@),
{
    proof {
        lemma_fields_m(fs@);
    }
    let ghost old_fm = fields_m(fs@);
    let ghost kv = k@;
    let ghost vv = v@;
    match field_pos(fs, k.as_str()) {
        Some(i) => {
            let ghost before = fs@;
            fs.set(i, (k, v));
            proof {
                lemma_fields_m(fs@);
                assert(fields_m(fs@) =~= old_fm.update(i as int, (kv, vv))) by {
                    assert forall|q: int| 0 <= q < fs@.len() && q != i implies fs@[q] == before[q] by {}
                }
            }
        },
        None => {
            let ghost before = fs@;
            fs.push((k, v));
            proof {
                lemma_fields_m(fs@);
                assert(fields_m(fs@) =~= old_fm.push((kv, vv))) by {
                    assert forall|q: int| 0 <= q < before.len() implies fs@[q] == before[q] by {}
                }
            }
        },
    }
}

fn const_to_value(f: &FieldConst) -> (r: Value)
    ensures
        r@ == const_value(f@),
{
    match f {
        FieldConst::Int(n) => Value::Int(*n),
        FieldConst::Bool(b) => Value::Bool(*b),
        FieldConst::Str(s) => Value::Str(s.clone()),
        FieldConst::Float(b) => Value::Float(*b),
        FieldConst::Other(_) => Value::Null,
    }
}

fn build_struct_exec(fs: &Vec<(String, FieldConst)>) -> (r: Vec<(String, Value)>)
    ensures
        fields_m(r@) == build_struct(struct_fields_m(fs@)),
{
    let ghost sm = struct_fields_m(fs@);
    let mut out: Vec<(String, Value)> = Vec::new();
    let mut i: usize = 0;
    assert(sm.subrange(0, 0) =~= Seq::<(Seq<char>, FieldConstM)>::empty());
    assert(fields_m(out@) =~= Seq::<(Seq<char>, ValueM)>::empty());
    while i < fs.len()
        invariant
            i <= fs@.len(),
            sm == struct_fields_m(fs@),
            fields_m(out@) == build_struct(sm.subrange(0, i as int)),
        decreases fs@.len() - i,
    {
        assert(sm.subrange(0, i + 1).drop_last() =~= sm.subrange(0, i as int));
        assert(sm.subrange(0, i + 1).last() == (fs@[i as int].0@, fs@[i as int].1@));
        let v = const_to_value(&fs[i].1);
        set_field(&mut out, fs[i].0.clone(), v);
        i = i + 1;
    }
    assert(sm.subrange(0, i as int) =~= sm);
    out
}

impl VirtualMachine {
    pub fn new() -> (r: Self)
        ensures
            r@.stack.len() == 0,
            r@.calls.len() == 0,
            r@.frames.len() == 0,
            r@.globals == Map::<Seq<char>, ValueM>::empty(),
            r@.count == 0,
    {
        let r = VirtualMachine {
            data_stack: Vec::new(),
            call_stack: Vec::new(),
            local_frames: Vec::new(),
            globals: NameMap::new(),
            instruction_count: 0,
        };
        assert(r@.globals =~= Map::<Seq<char>, ValueM>::empty());
        r
    }

    /// Whether a name is a builtin.
    pub fn is_builtin_name(&self, name: &str) -> (r: bool)
        ensures
            r == builtin_name(name@),
    {
        str_eq(name, "मुद्रण") || str_eq(name, "योजन") || str_eq(name, "रूपान्तर")
            || str_eq(name, "दैर्घ्यम्") || str_eq(name, "प्रकारः") || str_eq(name, "अस्ति") || str_eq(name, "संख्या")
    }

    /// The value on top of the stack.
    pub fn stack_top(&self) -> (r: Option<&Value>)
        ensures
            self@.stack.len() == 0 ==> r is None,
            self@.stack.len() > 0 ==> (r matches Some(v) && v@ == self@.stack.last()),
    {
        if self.data_stack.len() == 0 {
            None
        } else {
            Some(&self.data_stack[self.data_stack.len() - 1])
        }
    }

    /// Pushes a value (the result of host work).
    pub fn push_value(&mut self, v: Value)
        ensures
            final(self)@ == push(old(self)@, v@),
    {
        self.data_stack.push(v);
        assert(values_m(self.data_stack@) =~= values_m(old(self).data_stack@).push(v@));
    }

    /// Pops a value, if there is one.
    pub fn pop_value(&mut self) -> (r: Option<Value>)
        ensures
            old(self)@.stack.len() == 0 ==> (r is None && final(self)@ == old(self)@),
            old(self)@.stack.len() > 0 ==> (r matches Some(v) && v@ == old(self)@.stack.last()
                && final(self)@ == with_stack(old(self)@, old(self)@.stack.drop_last())),
    {
        let r = self.data_stack.pop();
        if r.is_some() {
            assert(values_m(self.data_stack@) =~= values_m(old(self).data_stack@).drop_last());
        } else {
            assert(values_m(self.data_stack@) =~= values_m(old(self).data_stack@));
        }
        r
    }

    /// Pops `k` values, the lowest first; a failed pop empties the stack.
    fn pop_n(&mut self, k: usize) -> (r: Option<Vec<Value>>)
        ensures
            k <= old(self)@.stack.len() ==> (r matches Some(a) && values_m(a@) == old(self)@.stack.subrange(old(self)@.stack.len() - k, old(self)@.stack.len() as int)
                && final(self)@ == with_stack(old(self)@, old(self)@.stack.subrange(0, old(self)@.stack.len() - k))),
            k > old(self)@.stack.len() ==> (r is None && final(self)@ == with_stack(old(self)@, Seq::empty())),
    {
        let n = self.data_stack.len();
        if k > n {
            self.data_stack = Vec::new();
            assert(values_m(self.data_stack@) =~= Seq::<ValueM>::empty());
            return None;
        }
        let ghost old_stack = self.data_stack@;
        let args = self.data_stack.split_off(n - k);
        assert(values_m(args@) =~= values_m(old_stack).subrange(n - k, n as int));
        assert(values_m(self.data_stack@) =~= values_m(old_stack).subrange(0, n - k));
        Some(args)
    }

    /// Pops the top value and the one below it; a failed pop empties the stack.
    fn pop2(&mut self) -> (r: Option<(Value, Value)>)
        ensures
            old(self)@.stack.len() >= 2 ==> (r matches Some(p) && p.0@ == old(self)@.stack[old(self)@.stack.len() - 2]
                && p.1@ == old(self)@.stack[old(self)@.stack.len() - 1]
                && final(self)@ == with_stack(old(self)@, old(self)@.stack.subrange(0, old(self)@.stack.len() - 2))),
            old(self)@.stack.len() < 2 ==> (r is None && final(self)@ == with_stack(old(self)@, Seq::empty())),
    {
        let top = match self.pop_value() {
            Some(v) => v,
            None => {
                assert(old(self)@.stack =~= Seq::<ValueM>::empty());
                assert(self@ == with_stack(old(self)@, Seq::empty()));
                return None;
            },
        };
        let below = match self.pop_value() {
            Some(v) => v,
            None => {
                assert(self@.stack =~= Seq::<ValueM>::empty());
                assert(self@ == with_stack(old(self)@, Seq::empty()));
                return None;
            },
        };
        assert(old(self)@.stack.drop_last().drop_last() =~= old(self)@.stack.subrange(0, old(self)@.stack.len() - 2));
        Some((below, top))
    }

    fn clear_stack(&mut self)
        ensures
            final(self)@ == with_stack(old(self)@, Seq::empty()),
    {
        self.data_stack = Vec::new();
        assert(values_m(self.data_stack@) =~= Seq::<ValueM>::empty());
    }

    /// The value of a variable, or `None` where nothing binds it.
    fn load_var(&self, name: &str) -> (r: Option<Value>)
        ensures
            match r {
                Some(v) => load(self@, name@) == Some(v@),
                None => load(self@, name@) is None,
            },
    {
        let ghost fr = self@.frames;
        let mut i: usize = self.local_frames.len();
        assert(fr.subrange(0, i as int) =~= fr);
        while i > 0
            invariant
                i <= self.local_frames@.len(),
                fr == self@.frames,
                fr.len() == self.local_frames@.len(),
                frames_lookup(fr, name@) == frames_lookup(fr.subrange(0, i as int), name@),
            decreases i,
        {
            let ghost sub = fr.subrange(0, i as int);
            assert(sub.last() == vals(self.local_frames@[i - 1]@));
            assert(sub.drop_last() =~= fr.subrange(0, i - 1));
            match self.local_frames[i - 1].get(name) {
                Some(v) => {
                    assert(self.local_frames@[i - 1]@.dom().contains(name@));
                    return Some(clone_value(v));
                },
                None => {},
            }
            i = i - 1;
        }
        assert(fr.subrange(0, 0) =~= Seq::<Map<Seq<char>, ValueM>>::empty());
        match self.globals.get(name) {
            Some(v) => {
                assert(self.globals@.dom().contains(name@));
                Some(clone_value(v))
            },
            None => None,
        }
    }

    /// Stores into the innermost frame, or the globals outside any call.
    fn store_var(&mut self, name: String, v: Value)
        ensures
            final(self)@ == store(old(self)@, name@, v@),
    {
        let ghost nv = name@;
        let ghost vv = v@;
        match self.local_frames.pop() {
            Some(mut f) => {
                let ghost fv = vals(f@);
                f.insert(name, v);
                assert(vals(f@) =~= fv.insert(nv, vv));
                self.local_frames.push(f);
                assert(self@.frames =~= old(self)@.frames.update(old(self)@.frames.len() - 1, old(self)@.frames.last().insert(nv, vv)));
            },
            None => {
                self.globals.insert(name, v);
                assert(self@.globals =~= old(self)@.globals.insert(nv, vv));
                assert(self@.frames =~= old(self)@.frames);
            },
        }
    }

    fn underflow_fault(&mut self) -> (r: Step)
        ensures
            (final(self)@, r@) == underflow(old(self)@),
    {
        self.clear_stack();
        Step::Fault(VmError(owned("stack underflow")))
    }

    fn fault(msg: &str) -> (r: Step)
        ensures
            r@ == StepM::Fault(msg@),
    {
        Step::Fault(VmError(owned(msg)))
    }
}

impl VirtualMachine {
    fn arith(&mut self, op: u8, q: usize) -> (r: Step)
        requires
            op == OP_ADD || op == OP_SUB || op == OP_MUL || op == OP_DIV,
        ensures
            (final(self)@, r@) == arith_spec(old(self)@, op, q as int),
    {
        let args = match self.pop2() {
            Some(a) => a,
            None => {
                return Step::Fault(VmError(owned("stack underflow")));
            },
        };
        let both_int = matches!(args.0, Value::Int(_)) && matches!(args.1, Value::Int(_));
        if !both_int {
            let numbers = (matches!(args.0, Value::Int(_)) || matches!(args.0, Value::Float(_)))
                && (matches!(args.1, Value::Int(_)) || matches!(args.1, Value::Float(_)));
            if numbers {
                let (left, right) = args;
                return Step::Host(HostCall::Binary(op, left, right), q);
            }
            return Step::Next(q);
        }
        match &args.0 {
            Value::Int(below) => match &args.1 {
                Value::Int(top) => {
                    let t = *below as i128;
                    let b = *top as i128;
                    if op == OP_ADD || op == OP_SUB || op == OP_MUL {
                        let v: i128 = if op == OP_ADD {
                            t + b
                        } else if op == OP_SUB {
                            t - b
                        } else {
                            assert(-0x4000_0000_0000_0000_0000_0000_0000_0000 <= t * b <= 0x4000_0000_0000_0000_0000_0000_0000_0000) by (nonlinear_arith)
                                requires
                                    -0x8000_0000_0000_0000 <= t <= 0x7fff_ffff_ffff_ffff,
                                    -0x8000_0000_0000_0000 <= b <= 0x7fff_ffff_ffff_ffff,
                            ;
                            t * b
                        };
                        if v < i64::MIN as i128 || v > i64::MAX as i128 {
                            return Step::Overflow;
                        }
                        self.push_value(Value::Int(v as i64));
                        Step::Next(q)
                    } else {
                        if *top == 0 {
                            return Self::fault("division by zero");
                        }
                        if *below == i64::MIN && *top == -1 {
                            return Step::Overflow;
                        }
                        let d = crate::optimizer::trunc_div_i64(*below, *top);
                        self.push_value(Value::Int(d));
                        Step::Next(q)
                    }
                },
                _ => Step::Next(q),
            },
            _ => Step::Next(q),
        }
    }

    fn float_op(&mut self, op: u8, q: usize) -> (r: Step)
        ensures
            (final(self)@, r@) == float_spec(old(self)@, op, q as int),
    {
        match self.pop2() {
            Some(a) => {
                let (below, top) = a;
                Step::Host(HostCall::Binary(op, below, top), q)
            },
            None => Step::Fault(VmError(owned("stack underflow"))),
        }
    }

    fn equal(&mut self, op: u8, q: usize) -> (r: Step)
        ensures
            (final(self)@, r@) == equal_spec(old(self)@, op, q as int),
    {
        match self.pop2() {
            Some(a) => {
                let (below, top) = a;
                match decide_equal(&below, &top) {
                    Some(same) => {
                        self.push_value(Value::Bool(if op == OP_EQUAL { same } else { !same }));
                        Step::Next(q)
                    },
                    None => Step::Host(HostCall::Binary(op, below, top), q),
                }
            },
            None => Step::Fault(VmError(owned("stack underflow"))),
        }
    }

    fn compare(&mut self, op: u8, q: usize) -> (r: Step)
        ensures
            (final(self)@, r@) == compare_spec(old(self)@, op, q as int),
    {
        match self.pop2() {
            Some(a) => {
                let (below, top) = a;
                let both_int = match &below {
                    Value::Int(x) => match &top {
                        Value::Int(y) => {
                            let c = if op == OP_LESS_THAN {
                                *x < *y
                            } else if op == OP_GREATER_THAN {
                                *x > *y
                            } else if op == OP_LESS_EQUAL {
                                *x <= *y
                            } else {
                                *x >= *y
                            };
                            Some(c)
                        },
                        _ => None,
                    },
                    _ => None,
                };
                match both_int {
                    Some(c) => {
                        self.push_value(Value::Bool(c));
                        Step::Next(q)
                    },
                    None => {
                        let numbers = (matches!(below, Value::Int(_)) || matches!(below, Value::Float(_)))
                            && (matches!(top, Value::Int(_)) || matches!(top, Value::Float(_)));
                        if numbers {
                            Step::Host(HostCall::Binary(op, below, top), q)
                        } else {
                            self.push_value(Value::Bool(false));
                            Step::Next(q)
                        }
                    },
                }
            },
            None => Step::Fault(VmError(owned("stack underflow"))),
        }
    }

    fn builtin(&mut self, name: String, args: Vec<Value>, q: usize) -> (r: Step)
        ensures
            (final(self)@, r@) == builtin_step(old(self)@, name@, values_m(args@), q as int),
    {
        let n = name.as_str();
        if str_eq(n, "योजन") {
            if args.len() < 2 {
                return Self::fault("योजन expects 2 arguments");
            }
            let joined: Option<String> = match (&args[0], &args[1]) {
                (Value::Str(a), Value::Str(b)) => {
                    let mut t = a.clone();
                    push_str(&mut t, b.as_str());
                    Some(t)
                },
                _ => None,
            };
            match joined {
                Some(t) => {
                    self.push_value(Value::Str(t));
                    return Step::Next(q);
                },
                None => {
                    return Step::Host(HostCall::Builtin(name, args), q);
                },
            }
        }
        if str_eq(n, "मुद्रण") || str_eq(n, "रूपान्तर") {
            return Step::Host(HostCall::Builtin(name, args), q);
        }
        if str_eq(n, "दैर्घ्यम्") {
            if args.len() == 0 {
                return Self::fault("दैर्घ्यम् expects 1 argument");
            }
            match &args[0] {
                Value::Str(s) => {
                    let len = str_value_bytes(s);
                    self.push_value(Value::Int(len));
                    return Step::Next(q);
                },
                _ => {
                    return Self::fault("दैर्घ्यम् expects a string argument");
                },
            }
        }
        if str_eq(n, "प्रकारः") {
            if args.len() == 0 {
                return Self::fault("प्रकारः expects 1 argument");
            }
            let t = kind_name(&args[0]);
            self.push_value(Value::Str(t));
            return Step::Next(q);
        }
        if str_eq(n, "अस्ति") {
            if args.len() < 2 {
                return Self::fault("अस्ति expects 2 arguments");
            }
            match &args[0] {
                Value::Str(h) => match &args[1] {
                    Value::Str(w) => {
                        let hc = chars_of(h.as_str());
                        let wc = chars_of(w.as_str());
                        let found = find_chars(&hc, &wc).is_some();
                        self.push_value(Value::Bool(found));
                        return Step::Next(q);
                    },
                    _ => {},
                },
                _ => {},
            }
            return Self::fault("अस्ति expects string arguments");
        }
        if str_eq(n, "संख्या") {
            if args.len() == 0 {
                return Self::fault("संख्या expects 1 argument");
            }
            match &args[0] {
                Value::Str(text) => {
                    let cs = chars_of(text.as_str());
                    let t = trimmed(&cs);
                    let tc = chars_of(t.as_str());
                    let v = match parse_i64_chars(&tc) {
                        Some(v) => v,
                        None => 0,
                    };
                    self.push_value(Value::Int(v));
                    return Step::Next(q);
                },
                Value::Int(k) => {
                    let k = *k;
                    self.push_value(Value::Int(k));
                    return Step::Next(q);
                },
                _ => {
                    return Self::fault("संख्या expects a string or int");
                },
            }
        }
        let mut m = owned("unknown builtin '");
        push_str(&mut m, n);
        push_str(&mut m, "'");
        Step::Fault(VmError(m))
    }

    fn bind_params(&mut self, names: Vec<String>, q: usize) -> (r: Step)
        ensures
            (final(self)@, r@) == exec_spec(old(self)@, InstrM::BindParams(names@.map_values(|s: String| s@)), q as int),
    {
        let ghost nm = names@.map_values(|s: String| s@);
        let args = match self.pop_n(names.len()) {
            Some(a) => a,
            None => {
                return Step::Fault(VmError(owned("stack underflow")));
            },
        };
        let ghost am = values_m(args@);
        assert(am.len() == args@.len());
        let mut f = match self.local_frames.pop() {
            Some(f) => f,
            None => {
                return Self::fault("parameter binding outside function frame");
            },
        };
        let ghost f0 = vals(f@);
        let mut i: usize = 0;
        assert(nm.subrange(0, 0) =~= Seq::<Seq<char>>::empty());
        while i < names.len()
            invariant
                i <= names@.len(),
                names@.len() == args@.len(),
                nm == names@.map_values(|s: String| s@),
                am == values_m(args@),
                vals(f@) == bind_all(f0, nm.subrange(0, i as int), am),
            decreases names@.len() - i,
        {
            let ghost before = vals(f@);
            assert(nm.subrange(0, i + 1).drop_last() =~= nm.subrange(0, i as int));
            assert(nm.subrange(0, i + 1).last() == names@[i as int]@);
            f.insert(names[i].clone(), clone_value(&args[i]));
            assert(vals(f@) =~= before.insert(names@[i as int]@, am[i as int]));
            i = i + 1;
        }
        assert(nm.subrange(0, i as int) =~= nm);
        self.local_frames.push(f);
        assert(self@.frames =~= old(self)@.frames.update(old(self)@.frames.len() - 1, bind_all(old(self)@.frames.last(), nm, am)));
        Step::Next(q)
    }
}

impl VirtualMachine {
    fn exec_instr(&mut self, ins: Instr, q: usize) -> (r: Step)
        ensures
            (final(self)@, r@) == exec_spec(old(self)@, ins@, q as int),
    {
        match ins {
            Instr::PushInt(v) => {
                self.push_value(Value::Int(v));
                Step::Next(q)
            },
            Instr::PushBool(b) => {
                self.push_value(Value::Bool(b));
                Step::Next(q)
            },
            Instr::PushStr(s) => {
                self.push_value(Value::Str(s));
                Step::Next(q)
            },
            Instr::PushFloat(b) => {
                self.push_value(Value::Float(b));
                Step::Next(q)
            },
            Instr::PushEnum(s) => {
                self.push_value(Value::Enum(s, Box::new(Value::Null)));
                Step::Next(q)
            },
            Instr::PushStruct(fs) => {
                let f = build_struct_exec(&fs);
                self.push_value(Value::Struct(f));
                Step::Next(q)
            },
            Instr::PushUnknown(_) => Step::Next(q),
            Instr::LoadVar(name) => match self.load_var(name.as_str()) {
                Some(v) => {
                    self.push_value(v);
                    Step::Next(q)
                },
                None => {
                    let mut m = owned("undefined variable '");
                    push_str(&mut m, name.as_str());
                    push_str(&mut m, "'");
                    Step::Fault(VmError(m))
                },
            },
            Instr::StoreVar(name) => match self.pop_value() {
                Some(v) => {
                    self.store_var(name, v);
                    Step::Next(q)
                },
                None => self.underflow_fault(),
            },
            Instr::Dup => {
                if self.data_stack.len() == 0 {
                    return Self::fault("stack underflow on dup");
                }
                let v = clone_value(&self.data_stack[self.data_stack.len() - 1]);
                self.push_value(v);
                Step::Next(q)
            },
            Instr::Drop => match self.pop_value() {
                Some(_) => Step::Next(q),
                None => self.underflow_fault(),
            },
            Instr::GetVariant => match self.pop_value() {
                Some(v) => match v {
                    Value::Enum(name, _) => {
                        self.push_value(Value::Str(name));
                        Step::Next(q)
                    },
                    other => Step::Host(HostCall::VariantText(other), q),
                },
                None => self.underflow_fault(),
            },
            Instr::Extract => match self.pop_value() {
                Some(v) => match v {
                    Value::Enum(_, p) => {
                        self.push_value(*p);
                        Step::Next(q)
                    },
                    other => {
                        self.push_value(other);
                        Step::Next(q)
                    },
                },
                None => self.underflow_fault(),
            },
            Instr::MakeEnum => match self.pop2() {
                Some(p) => {
                    let (name, payload) = p;
                    match name {
                        Value::Str(s) => {
                            self.push_value(Value::Enum(s, Box::new(payload)));
                            Step::Next(q)
                        },
                        _ => Self::fault("MakeEnum: expected string name"),
                    }
                },
                None => Step::Fault(VmError(owned("stack underflow"))),
            },
            Instr::Add => self.arith(OP_ADD, q),
            Instr::Sub => self.arith(OP_SUB, q),
            Instr::Mul => self.arith(OP_MUL, q),
            Instr::Div => self.arith(OP_DIV, q),
            Instr::FAdd => self.float_op(OP_FADD, q),
            Instr::FSub => self.float_op(OP_FSUB, q),
            Instr::FMul => self.float_op(OP_FMUL, q),
            Instr::FDiv => self.float_op(OP_FDIV, q),
            Instr::Equal => self.equal(OP_EQUAL, q),
            Instr::NotEqual => self.equal(OP_NOT_EQUAL, q),
            Instr::LessThan => self.compare(OP_LESS_THAN, q),
            Instr::GreaterThan => self.compare(OP_GREATER_THAN, q),
            Instr::LessEqual => self.compare(OP_LESS_EQUAL, q),
            Instr::GreaterEqual => self.compare(OP_GREATER_EQUAL, q),
            Instr::Jump(a) => Step::Next(a as usize),
            Instr::JumpIfFalse(a) => match self.pop_value() {
                Some(v) => {
                    let jump = match v {
                        Value::Bool(b) => !b,
                        _ => false,
                    };
                    if jump { Step::Next(a as usize) } else { Step::Next(q) }
                },
                None => self.underflow_fault(),
            },
            Instr::JumpIfTrue(a) => match self.pop_value() {
                Some(v) => {
                    let jump = match v {
                        Value::Bool(b) => b,
                        _ => false,
                    };
                    if jump { Step::Next(a as usize) } else { Step::Next(q) }
                },
                None => self.underflow_fault(),
            },
            Instr::Call(a) => {
                self.call_stack.push(q);
                let fr: NameMap<Value> = NameMap::new();
                assert(vals(fr@) =~= Map::<Seq<char>, ValueM>::empty());
                self.local_frames.push(fr);
                assert(self@.frames =~= old(self)@.frames.push(Map::empty()));
                Step::Next(a as usize)
            },
            Instr::Return => match self.call_stack.pop() {
                Some(ret) => {
                    let _ = self.local_frames.pop();
                    assert(self@.frames =~= (if old(self)@.frames.len() > 0 { old(self)@.frames.drop_last() } else { old(self)@.frames }));
                    Step::Next(ret)
                },
                None => Step::Halt,
            },
            Instr::GetField(name) => match self.pop_value() {
                Some(v) => match v {
                    Value::Struct(fs) => {
                        proof {
                            lemma_fields_m(fs@);
                        }
                        let found = match field_pos(&fs, name.as_str()) {
                            Some(i) => clone_value(&fs[i].1),
                            None => Value::Null,
                        };
                        self.push_value(found);
                        Step::Next(q)
                    },
                    other => {
                        self.push_value(other);
                        Step::Next(q)
                    },
                },
                None => self.underflow_fault(),
            },
            Instr::SetField(name) => match self.pop2() {
                Some(p) => {
                    let (target, val) = p;
                    match target {
                        Value::Struct(mut fs) => {
                            set_field(&mut fs, name, val);
                            self.push_value(Value::Struct(fs));
                            Step::Next(q)
                        },
                        other => {
                            self.push_value(other);
                            Step::Next(q)
                        },
                    }
                },
                None => Step::Fault(VmError(owned("stack underflow"))),
            },
            Instr::CallForeign(lib, sym, k) => match self.pop_n(k as usize) {
                Some(args) => Step::Host(HostCall::Foreign(lib, sym, args), q),
                None => Step::Fault(VmError(owned("stack underflow"))),
            },
            Instr::CallBuiltin(name, k) => match self.pop_n(k as usize) {
                Some(args) => self.builtin(name, args, q),
                None => Step::Fault(VmError(owned("stack underflow"))),
            },
            Instr::BindParams(names) => self.bind_params(names, q),
            _ => Step::Next(q),
        }
    }

    /// Executes the instruction at `pc`.
    pub fn step(&mut self, code: &[u8], pc: usize) -> (r: Step)
        ensures
            (final(self)@, r@) == step_spec(old(self)@, code@, pc as int),
    {
        if pc >= code.len() {
            return Step::Halt;
        }
        if self.instruction_count < u64::MAX {
            self.instruction_count = self.instruction_count + 1;
        }
        if self.instruction_count > MAX_INSTRUCTIONS {
            return Self::fault("execution limit exceeded (10000000 instructions) — possible infinite loop");
        }
        if code[pc] == OP_MAKE_STRUCT {
            if code.len() - pc < 2 {
                return Step::Truncated;
            }
            let (names, next) = match read_strings(code, pc + 2, code[pc + 1]) {
                Some(r) => r,
                None => {
                    return Step::Truncated;
                },
            };
            let ghost nm = names@.map_values(|s: String| s@);
            let ghost st = self@.stack;
            let ghost m0 = self@;
            if names.len() > self.data_stack.len() {
                return self.underflow_fault();
            }
            let mut fields: Vec<(String, Value)> = Vec::new();
            let mut i: usize = 0;
            assert(nm.subrange(0, 0) =~= Seq::<Seq<char>>::empty());
            assert(fields_m(fields@) =~= Seq::<(Seq<char>, ValueM)>::empty());
            assert(st.subrange(0, st.len() as int) =~= st);
            assert(with_stack(m0, st) == m0);
            while i < names.len()
                invariant
                    i <= names@.len(),
                    nm == names@.map_values(|s: String| s@),
                    nm.len() <= st.len(),
                    self@ == with_stack(m0, st.subrange(0, st.len() - i)),
                    fields_m(fields@) == pop_fields(st, nm.subrange(0, i as int)),
                decreases names@.len() - i,
            {
                assert(nm.subrange(0, i + 1).drop_last() =~= nm.subrange(0, i as int));
                assert(nm.subrange(0, i + 1).last() == names@[i as int]@);
                let v = match self.pop_value() {
                    Some(v) => v,
                    None => {
                        return Step::Truncated;
                    },
                };
                assert(st.subrange(0, st.len() - i).drop_last() =~= st.subrange(0, st.len() - (i + 1)));
                set_field(&mut fields, names[i].clone(), v);
                i = i + 1;
            }
            assert(nm.subrange(0, i as int) =~= nm);
            self.push_value(Value::Struct(fields));
            return Step::Next(next);
        }
        match decode(code, pc) {
            Some(d) => {
                let (ins, q) = d;
                self.exec_instr(ins, q)
            },
            None => Step::Truncated,
        }
    }
}

} // verus!
