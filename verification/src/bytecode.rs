//! The bytecode format shared by the compiler, the virtual machine and the
//! disassemblers: one byte per operation, big-endian operands, and strings
//! as a 16-bit byte length followed by their UTF-8 bytes.
use vstd::prelude::*;
use crate::util::utf8_bytes;

verus! {

pub const OP_PUSH_CONST: u8 = 0x01;
pub const OP_LOAD_VAR: u8 = 0x02;
pub const OP_STORE_VAR: u8 = 0x03;
pub const OP_DUP: u8 = 0x04;
pub const OP_DROP: u8 = 0x05;
pub const OP_GET_VARIANT: u8 = 0x06;
pub const OP_ADD: u8 = 0x07;
pub const OP_SUB: u8 = 0x08;
pub const OP_MUL: u8 = 0x09;
pub const OP_DIV: u8 = 0x0A;
pub const OP_EQUAL: u8 = 0x0B;
pub const OP_NOT_EQUAL: u8 = 0x0C;
pub const OP_LESS_THAN: u8 = 0x0D;
pub const OP_GREATER_THAN: u8 = 0x0E;
pub const OP_LESS_EQUAL: u8 = 0x0F;
pub const OP_GREATER_EQUAL: u8 = 0x10;
pub const OP_JUMP: u8 = 0x11;
pub const OP_JUMP_IF_FALSE: u8 = 0x12;
pub const OP_CALL: u8 = 0x13;
pub const OP_RETURN: u8 = 0x14;
pub const OP_FADD: u8 = 0x15;
pub const OP_FSUB: u8 = 0x16;
pub const OP_FMUL: u8 = 0x17;
pub const OP_FDIV: u8 = 0x18;
pub const OP_CALL_BUILTIN: u8 = 0x19;
pub const OP_EXTRACT: u8 = 0x1A;
pub const OP_MAKE_ENUM: u8 = 0x1B;
pub const OP_GET_FIELD: u8 = 0x1C;
pub const OP_SET_FIELD: u8 = 0x1D;
pub const OP_MAKE_STRUCT: u8 = 0x1E;
pub const OP_CALL_FOREIGN: u8 = 0x1F;
pub const OP_JUMP_IF_TRUE: u8 = 0x20;
pub const OP_BIND_PARAMS: u8 = 0x21;

/// Constant tags that follow a `PushConst` byte.
pub const TAG_INT: u8 = 0;
pub const TAG_BOOL: u8 = 1;
pub const TAG_STR: u8 = 2;
pub const TAG_FLOAT: u8 = 3;
pub const TAG_ENUM: u8 = 4;
pub const TAG_STRUCT: u8 = 5;

/// Big-endian bytes of a 16-bit value.
pub open spec fn be16(v: u16) -> Seq<u8> {
    seq![(v >> 8u16) as u8, (v & 0xffu16) as u8]
}

/// Big-endian bytes of a 32-bit value.
pub open spec fn be32(v: u32) -> Seq<u8> {
    seq![(v >> 24u32) as u8, ((v >> 16u32) & 0xffu32) as u8, ((v >> 8u32) & 0xffu32) as u8, (v & 0xffu32) as u8]
}

/// Big-endian bytes of a 64-bit value.
pub open spec fn be64(v: u64) -> Seq<u8> {
    seq![
        (v >> 56u64) as u8,
        ((v >> 48u64) & 0xffu64) as u8,
        ((v >> 40u64) & 0xffu64) as u8,
        ((v >> 32u64) & 0xffu64) as u8,
        ((v >> 24u64) & 0xffu64) as u8,
        ((v >> 16u64) & 0xffu64) as u8,
        ((v >> 8u64) & 0xffu64) as u8,
        (v & 0xffu64) as u8,
    ]
}

/// The 16-bit value whose big-endian bytes are `hi`, `lo`.
pub open spec fn from_be16(hi: u8, lo: u8) -> u16 {
    ((hi as u16) << 8u16) | (lo as u16)
}

/// The 32-bit value whose big-endian bytes are `b[0..4]`.
pub open spec fn from_be32(b0: u8, b1: u8, b2: u8, b3: u8) -> u32 {
    ((b0 as u32) << 24u32) | ((b1 as u32) << 16u32) | ((b2 as u32) << 8u32) | (b3 as u32)
}

/// The 64-bit value whose big-endian bytes are the eight arguments.
pub open spec fn from_be64(b0: u8, b1: u8, b2: u8, b3: u8, b4: u8, b5: u8, b6: u8, b7: u8) -> u64 {
    ((b0 as u64) << 56u64) | ((b1 as u64) << 48u64) | ((b2 as u64) << 40u64) | ((b3 as u64) << 32u64)
        | ((b4 as u64) << 24u64) | ((b5 as u64) << 16u64) | ((b6 as u64) << 8u64) | (b7 as u64)
}

/// Whether a string can be written in the bytecode (its length fits in 16 bits).
pub open spec fn str_fits(s: Seq<char>) -> bool {
    utf8_bytes(s).len() <= 0xffff
}

/// The encoding of a string: its byte length, then its UTF-8 bytes.
pub open spec fn str_code(s: Seq<char>) -> Seq<u8> {
    be16(utf8_bytes(s).len() as u16) + utf8_bytes(s)
}

/// Four zero bytes, written where a jump or call address is patched in later.
pub open spec fn zeros4() -> Seq<u8> {
    seq![0u8, 0u8, 0u8, 0u8]
}

pub fn u16_bytes(v: u16) -> (r: [u8; 2])
    ensures
        r@ == be16(v),
{
    [(v >> 8u16) as u8, (v & 0xffu16) as u8]
}

pub fn u32_bytes(v: u32) -> (r: [u8; 4])
    ensures
        r@ == be32(v),
{
    [(v >> 24u32) as u8, ((v >> 16u32) & 0xffu32) as u8, ((v >> 8u32) & 0xffu32) as u8, (v & 0xffu32) as u8]
}

pub fn u64_bytes(v: u64) -> (r: [u8; 8])
    ensures
        r@ == be64(v),
{
    [
        (v >> 56u64) as u8,
        ((v >> 48u64) & 0xffu64) as u8,
        ((v >> 40u64) & 0xffu64) as u8,
        ((v >> 32u64) & 0xffu64) as u8,
        ((v >> 24u64) & 0xffu64) as u8,
        ((v >> 16u64) & 0xffu64) as u8,
        ((v >> 8u64) & 0xffu64) as u8,
        (v & 0xffu64) as u8,
    ]
}

/// Reading back the two bytes written for a 16-bit value gives that value.
pub proof fn lemma_be16_roundtrip(v: u16)
    ensures
        from_be16(be16(v)[0], be16(v)[1]) == v,
{
    assert(((((v >> 8u16) as u8) as u16) << 8u16) | (((v & 0xffu16) as u8) as u16) == v) by (bit_vector);
}

/// Reading back the four bytes written for a 32-bit value gives that value.
pub proof fn lemma_be32_roundtrip(v: u32)
    ensures
        from_be32(be32(v)[0], be32(v)[1], be32(v)[2], be32(v)[3]) == v,
{
    assert(((((v >> 24u32) as u8) as u32) << 24u32) | (((((v >> 16u32) & 0xffu32) as u8) as u32) << 16u32)
        | (((((v >> 8u32) & 0xffu32) as u8) as u32) << 8u32) | (((v & 0xffu32) as u8) as u32) == v) by (bit_vector);
}

/// Reading back the eight bytes written for a 64-bit value gives that value.
pub proof fn lemma_be64_roundtrip(v: u64)
    ensures
        from_be64(be64(v)[0], be64(v)[1], be64(v)[2], be64(v)[3], be64(v)[4], be64(v)[5], be64(v)[6], be64(v)[7]) == v,
{
    assert(((((v >> 56u64) as u8) as u64) << 56u64) | (((((v >> 48u64) & 0xffu64) as u8) as u64) << 48u64)
        | (((((v >> 40u64) & 0xffu64) as u8) as u64) << 40u64) | (((((v >> 32u64) & 0xffu64) as u8) as u64) << 32u64)
        | (((((v >> 24u64) & 0xffu64) as u8) as u64) << 24u64) | (((((v >> 16u64) & 0xffu64) as u8) as u64) << 16u64)
        | (((((v >> 8u64) & 0xffu64) as u8) as u64) << 8u64) | (((v & 0xffu64) as u8) as u64) == v) by (bit_vector);
}

/// A signed integer survives the trip through its unsigned bit pattern.
pub proof fn lemma_i64_bits_roundtrip(n: i64)
    ensures
        ((n as u64) as i64) == n,
{
    assert(((n as u64) as i64) == n) by (bit_vector);
}

} // verus!
