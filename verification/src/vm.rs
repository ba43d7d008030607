//! The stack virtual machine and its value model.
use vstd::prelude::*;
pub use crate::machine::{VirtualMachine, HostCall, Step};

verus! {

/// Bytecode operations.  The byte of each operation is given by
/// [`crate::decoder::opcode_byte`].
#[derive(Debug, Clone, Copy, PartialEq, Eq)]
pub enum OpCode {
    PushConst,
    LoadVar,
    StoreVar,
    Dup,
    Drop,
    GetVariant,
    Add,
    Sub,
    Mul,
    Div,
    Equal,
    NotEqual,
    LessThan,
    GreaterThan,
    LessEqual,
    GreaterEqual,
    Jump,
    JumpIfFalse,
    Call,
    Return,
    FAdd,
    FSub,
    FMul,
    FDiv,
    CallBuiltin,
    Extract,
    MakeEnum,
    GetField,
    SetField,
    MakeStruct,
    CallForeign,
    JumpIfTrue,
    BindParams,
}

/// A runtime value.  A floating-point number is held as its IEEE-754
/// binary64 bit pattern; arithmetic on it is carried out by the host.
#[derive(Debug, PartialEq)]
pub enum Value {
    Null,
    Int(i64),
    Float(u64),
    Bool(bool),
    Str(String),
    Func(u32),
    Enum(String, Box<Value>),
    /// Named fields; a lookup finds the first entry under a name.
    Struct(Vec<(String, Value)>),
}

/// The mathematical model of a runtime value: strings as character
/// sequences and field lists as sequences.
pub enum ValueM {
    Null,
    Int(i64),
    Float(u64),
    Bool(bool),
    Str(Seq<char>),
    Func(u32),
    Enum(Seq<char>, Box<ValueM>),
    Struct(Seq<(Seq<char>, ValueM)>),
}

pub open spec fn value_m(v: Value) -> ValueM
    decreases v,
{
    match v {
        Value::Null => ValueM::Null,
        Value::Int(n) => ValueM::Int(n),
        Value::Float(b) => ValueM::Float(b),
        Value::Bool(b) => ValueM::Bool(b),
        Value::Str(s) => ValueM::Str(s@),
        Value::Func(a) => ValueM::Func(a),
        Value::Enum(n, p) => ValueM::Enum(n@, Box::new(value_m(*p))),
        Value::Struct(fields) => ValueM::Struct(fields_m(fields@)),
    }
}

pub open spec fn fields_m(s: Seq<(String, Value)>) -> Seq<(Seq<char>, ValueM)>
    decreases s,
{
    if s.len() == 0 {
        Seq::empty()
    } else {
        fields_m(s.drop_last()).push((s.last().0@, value_m(s.last().1)))
    }
}

pub proof fn lemma_fields_m(s: Seq<(String, Value)>)
    ensures
        fields_m(s).len() == s.len(),
        forall|i: int| 0 <= i < s.len() ==> #[trigger] fields_m(s)[i] == (s[i].0@, value_m(s[i].1)),
    decreases s.len(),
{
    if s.len() > 0 {
        lemma_fields_m(s.drop_last());
    }
}

impl View for Value {
    type V = ValueM;

    open spec fn view(&self) -> ValueM {
        value_m(*self)
    }
}

/// A copy of a value, field by field.
pub fn clone_value(v: &Value) -> (r: Value)
    ensures
        r@ == v@,
    decreases v,
{
    match v {
        Value::Null => Value::Null,
        Value::Int(n) => Value::Int(*n),
        Value::Float(b) => Value::Float(*b),
        Value::Bool(b) => Value::Bool(*b),
        Value::Str(s) => Value::Str(s.clone()),
        Value::Func(a) => Value::Func(*a),
        Value::Enum(name, payload) => Value::Enum(name.clone(), Box::new(clone_value(payload))),
        Value::Struct(fields) => Value::Struct(clone_fields(fields)),
    }
}

/// A copy of a list of named fields.
pub fn clone_fields(fields: &Vec<(String, Value)>) -> (r: Vec<(String, Value)>)
    ensures
        fields_m(r@) == fields_m(fields@),
    decreases fields,
{
    let mut out: Vec<(String, Value)> = Vec::new();
    let mut i: usize = 0;
    while i < fields.len()
        invariant
            i <= fields@.len(),
            fields_m(out@) == fields_m(fields@.subrange(0, i as int)),
            out@.len() == i,
        decreases fields@.len() - i,
    {
        assert(decreases_to!(fields => fields@[i as int].1));
        let v = clone_value(&fields[i].1);
        let ghost prev = out@;
        out.push((fields[i].0.clone(), v));
        i = i + 1;
        assert(out@.drop_last() =~= prev);
        assert(fields@.subrange(0, i as int).drop_last() =~= fields@.subrange(0, i - 1));
    }
    assert(fields@.subrange(0, fields@.len() as int) =~= fields@);
    out
}

impl Clone for Value {
    fn clone(&self) -> (r: Self)
        ensures
            r@ == self@,
    {
        clone_value(self)
    }
}

#[derive(Debug, Clone, PartialEq)]
pub struct VmError(pub String);

} // verus!
