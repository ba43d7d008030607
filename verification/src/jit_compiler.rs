//! The x86-64 code generator of the JIT: a function body of additions and
//! subtractions of constants becomes machine code that transforms its
//! argument (`rdi`) into its result (`rax`).  Placing the code in executable
//! memory is left to the host.
use vstd::prelude::*;
use crate::ast::{ASTNode, Expression, ExprM, NodeM, expr_m, node_m, nodes_m, lemma_nodes_m};
use crate::util::{owned, push_str, str_eq};

verus! {

/// `push rbp; mov rbp, rsp; mov rax, rdi`.
pub open spec fn prologue() -> Seq<u8> {
    seq![0x55u8, 0x48u8, 0x89u8, 0xE5u8, 0x48u8, 0x89u8, 0xF8u8]
}

/// `pop rbp; ret`.
pub open spec fn epilogue() -> Seq<u8> {
    seq![0x5Du8, 0xC3u8]
}

/// The little-endian bytes of a 32-bit word.
pub open spec fn le32(w: u32) -> Seq<u8> {
    seq![(w % 256) as u8, ((w / 256) % 256) as u8, ((w / 65536) % 256) as u8, ((w / 16777216) % 256) as u8]
}

pub open spec fn unsupported_msg(op: Seq<char>) -> Seq<char> {
    "JIT Error: Instruction operation '"@ + op
        + "' not supported inside runtime bare-metal code generator compilation steps."@
}

/// The code for one statement: `add rax, imm32` or `sub rax, imm32` for an
/// expression statement whose right operand is an integer literal (the
/// immediate is its low 32 bits); nothing for any other statement.
pub open spec fn jit_node(n: NodeM) -> Result<Seq<u8>, Seq<char>> {
    match n {
        NodeM::StatementExpr(ExprM::Binary { op, right, .. }) => match *right {
            ExprM::IntLiteral(v) => if op == "+"@ {
                Ok(seq![0x48u8, 0x05u8] + le32(v as u32))
            } else if op == "-"@ {
                Ok(seq![0x48u8, 0x2Du8] + le32(v as u32))
            } else {
                Err(unsupported_msg(op))
            },
            _ => Ok(Seq::empty()),
        },
        _ => Ok(Seq::empty()),
    }
}

/// The code for a body, or the first unsupported operation.
pub open spec fn jit_nodes(ns: Seq<NodeM>) -> Result<Seq<u8>, Seq<char>>
    decreases ns.len(),
{
    if ns.len() == 0 {
        Ok(Seq::empty())
    } else {
        match jit_node(ns[0]) {
            Ok(c) => match jit_nodes(ns.drop_first()) {
                Ok(rest) => Ok(c + rest),
                Err(m) => Err(m),
            },
            Err(m) => Err(m),
        }
    }
}

/// The code generator.
pub struct JitCompiler;

impl Default for JitCompiler {
    fn default() -> (r: Self) {
        JitCompiler
    }
}

impl JitCompiler {
    pub fn new() -> (r: Self) {
        JitCompiler
    }

    /// The machine code of a function body: prologue, one instruction per
    /// supported statement, epilogue; or the error for the first
    /// unsupported operation.
    pub fn compile_function(&mut self, body: &[ASTNode]) -> (r: Result<Vec<u8>, String>)
        ensures
            match jit_nodes(nodes_m(body@)) {
                Ok(code) => r matches Ok(b) && b@ == prologue() + code + epilogue(),
                Err(m) => r matches Err(x) && x@ == m,
            },
    {
        let ghost nm = nodes_m(body@);
        proof {
            lemma_nodes_m(body@);
            assert(nm.subrange(0, nm.len() as int) =~= nm);
        }
        let mut code: Vec<u8> = Vec::new();
        code.push(0x55);
        code.push(0x48);
        code.push(0x89);
        code.push(0xE5);
        code.push(0x48);
        code.push(0x89);
        code.push(0xF8);
        assert(code@ =~= prologue());
        let mut i: usize = 0;
        while i < body.len()
            invariant
                i <= body@.len(),
                nm == nodes_m(body@),
                nm.len() == body@.len(),
                forall|q: int| 0 <= q < body@.len() ==> #[trigger] nm[q] == node_m(body@[q]),
                match jit_nodes(nm) {
                    Ok(all) => jit_nodes(nm.subrange(i as int, nm.len() as int)) matches Ok(rest)
                        && all == code@.subrange(prologue().len() as int, code@.len() as int) + rest
                        && code@.subrange(0, prologue().len() as int) == prologue(),
                    Err(m) => jit_nodes(nm.subrange(i as int, nm.len() as int)) == Err::<Seq<u8>, Seq<char>>(m)
                        && code@.subrange(0, prologue().len() as int) == prologue(),
                },
                code@.len() >= prologue().len(),
            decreases body@.len() - i,
        {
            let ghost rest = nm.subrange(i as int, nm.len() as int);
            assert(rest[0] == nm[i as int]);
            assert(rest.drop_first() =~= nm.subrange(i + 1, nm.len() as int));
            let ghost before = code@;
            match Self::emit(&body[i], &mut code) {
                Ok(()) => {},
                Err(m) => {
                    return Err(m);
                },
            }
            proof {
                assert(code@.subrange(0, prologue().len() as int) =~= before.subrange(0, prologue().len() as int));
                match jit_node(nm[i as int]) {
                    Ok(c) => {
                        assert(code@.subrange(prologue().len() as int, code@.len() as int)
                            =~= before.subrange(prologue().len() as int, before.len() as int) + c);
                    },
                    Err(_) => {},
                }
            }
            i = i + 1;
        }
        assert(nm.subrange(i as int, nm.len() as int) =~= Seq::<NodeM>::empty());
        let ghost mid = code@;
        code.push(0x5D);
        code.push(0xC3);
        assert(code@ =~= prologue() + mid.subrange(prologue().len() as int, mid.len() as int) + epilogue());
        Ok(code)
    }

    /// Appends the code of one statement.
    fn emit(node: &ASTNode, code: &mut Vec<u8>) -> (r: Result<(), String>)
        ensures
            match jit_node(node@) {
                Ok(c) => r is Ok && final(code)@ == old(code)@ + c,
                Err(m) => r matches Err(x) && x@ == m,
            },
    {
        match node {
            ASTNode::StatementExpr(Expression::Binary { op, right, .. }) => match &**right {
                Expression::IntLiteral(val) => {
                    assert(expr_m(**right) == ExprM::IntLiteral(*val));
                    let w: u32 = *val as u32;
                    if str_eq(op.as_str(), "+") {
                        code.push(0x48);
                        code.push(0x05);
                    } else if str_eq(op.as_str(), "-") {
                        code.push(0x48);
                        code.push(0x2D);
                    } else {
                        let mut m = owned("JIT Error: Instruction operation '");
                        push_str(&mut m, op.as_str());
                        push_str(&mut m, "' not supported inside runtime bare-metal code generator compilation steps.");
                        return Err(m);
                    }
                    let ghost mid = code@;
                    Self::push_le32(code, w);
                    assert(code@ =~= old(code)@ + (mid.subrange(old(code)@.len() as int, mid.len() as int) + le32(w)));
                    Ok(())
                },
                _ => {
                    assert(old(code)@ + Seq::<u8>::empty() =~= code@);
                    Ok(())
                },
            },
            _ => {
                assert(old(code)@ + Seq::<u8>::empty() =~= code@);
                Ok(())
            },
        }
    }

    fn push_le32(code: &mut Vec<u8>, w: u32)
        ensures
            final(code)@ == old(code)@ + le32(w),
    {
        let b0 = (w & 0xff) as u8;
        let b1 = ((w >> 8u32) & 0xff) as u8;
        let b2 = ((w >> 16u32) & 0xff) as u8;
        let b3 = ((w >> 24u32) & 0xff) as u8;
        assert(w & 0xff == w % 256) by (bit_vector);
        assert((w >> 8u32) & 0xff == (w / 256) % 256) by (bit_vector);
        assert((w >> 16u32) & 0xff == (w / 65536) % 256) by (bit_vector);
        assert((w >> 24u32) & 0xff == (w / 16777216) % 256) by (bit_vector);
        code.push(b0);
        code.push(b1);
        code.push(b2);
        code.push(b3);
        assert(code@ =~= old(code)@ + le32(w));
    }
}

} // verus!
