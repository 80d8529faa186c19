//! The instruction set of function bodies, and their disassembly.
use crate::text::{decimal, padded4, push_decimal, push_padded4};
use vstd::prelude::*;
use vstd::string::StringExecFns;

verus! {

/// An instruction code in a function body.
#[derive(Debug, Clone, Copy, PartialEq, Eq, Structural)]
pub enum ByteCode {
    /// Pushes the literal in the byte that follows.
    ConstantByte,
    /// Returns from the function; takes no operand.
    Return,
}

/// The instruction code a byte stands for, if any.
pub open spec fn op_of_byte(b: u8) -> Option<ByteCode> {
    if b == 0 {
        Some(ByteCode::ConstantByte)
    } else if b == 1 {
        Some(ByteCode::Return)
    } else {
        None
    }
}

/// The name an instruction code is listed under.
pub open spec fn mnemonic_of(op: ByteCode) -> Seq<char> {
    match op {
        ByteCode::ConstantByte => "CONSTANT_BYTE"@,
        ByteCode::Return => "RETURN"@,
    }
}

impl ByteCode {
    /// The instruction code `b` stands for; `None` for a byte outside the
    /// instruction set.
    pub fn from_byte(b: u8) -> (r: Option<ByteCode>)
        ensures
            r == op_of_byte(b),
    {
        if b == 0 {
            Some(ByteCode::ConstantByte)
        } else if b == 1 {
            Some(ByteCode::Return)
        } else {
            None
        }
    }

    /// The byte that stands for this instruction code.
    pub fn to_byte(self) -> (r: u8)
        ensures
            op_of_byte(r) == Some(self),
    {
        match self {
            ByteCode::ConstantByte => 0,
            ByteCode::Return => 1,
        }
    }

    /// The name this instruction code is listed under.
    pub fn mnemonic(self) -> (r: &'static str)
        ensures
            r@ == mnemonic_of(self),
    {
        match self {
            ByteCode::ConstantByte => "CONSTANT_BYTE",
            ByteCode::Return => "RETURN",
        }
    }
}

/// One decoded instruction: where it starts, its code, and its operand
/// byte when the code takes one.
#[derive(Debug, Clone, Copy, PartialEq, Eq, Structural)]
pub struct Instruction {
    pub offset: usize,
    pub op: ByteCode,
    pub operand: Option<u8>,
}

/// Why a function body cannot be disassembled.
#[derive(Debug, Clone, Copy, PartialEq, Eq, Structural)]
pub enum DisassembleError {
    /// The byte at `offset` is no instruction code.
    UnknownOp { offset: usize, byte: u8 },
    /// The instruction at `offset` needs an operand byte and the body ends.
    MissingOperand { offset: usize },
}

/// `ins` in front of what `rest` decoded, or the failure of `rest`.
pub open spec fn prepend(ins: Instruction, rest: Result<Seq<Instruction>, DisassembleError>) -> Result<
    Seq<Instruction>,
    DisassembleError,
> {
    match rest {
        Ok(s) => Ok(seq![ins] + s),
        Err(e) => Err(e),
    }
}

/// The instructions of `code` from offset `pos` to its end, each read at
/// the offset where the one before it ends.
pub open spec fn decode_from(code: Seq<u8>, pos: int) -> Result<Seq<Instruction>, DisassembleError>
    decreases code.len() - pos,
{
    if pos < 0 || pos >= code.len() {
        Ok(Seq::empty())
    } else {
        match op_of_byte(code[pos]) {
            None => Err(DisassembleError::UnknownOp { offset: pos as usize, byte: code[pos] }),
            Some(ByteCode::ConstantByte) => if pos + 1 < code.len() {
                prepend(
                    Instruction {
                        offset: pos as usize,
                        op: ByteCode::ConstantByte,
                        operand: Some(code[pos + 1]),
                    },
                    decode_from(code, pos + 2),
                )
            } else {
                Err(DisassembleError::MissingOperand { offset: pos as usize })
            },
            Some(ByteCode::Return) => prepend(
                Instruction { offset: pos as usize, op: ByteCode::Return, operand: None },
                decode_from(code, pos + 1),
            ),
        }
    }
}

/// How many bytes an instruction takes: its code, and its operand if any.
pub open spec fn width(ins: Instruction) -> int {
    if ins.operand is Some {
        2
    } else {
        1
    }
}

/// A decoded body tiles the bytes from `pos` to its end: the first
/// instruction starts at `pos`, each next one where the one before it ends,
/// and the last one ends exactly at the end of the body.
pub proof fn lemma_decode_covers(code: Seq<u8>, pos: int)
    requires
        0 <= pos <= code.len() <= usize::MAX,
        decode_from(code, pos) is Ok,
    ensures
        ({
            let ins = decode_from(code, pos)->Ok_0;
            &&& ins.len() == 0 <==> pos == code.len()
            &&& ins.len() > 0 ==> ins[0].offset == pos && ins.last().offset + width(ins.last())
                == code.len()
            &&& forall|i: int|
                0 <= i < ins.len() - 1 ==> #[trigger] ins[i + 1].offset == ins[i].offset + width(
                    ins[i],
                )
        }),
    decreases code.len() - pos,
{
    if pos < code.len() {
        let next = if op_of_byte(code[pos]) == Some(ByteCode::ConstantByte) {
            pos + 2
        } else {
            pos + 1
        };
        lemma_decode_covers(code, next);
        let rest = decode_from(code, next)->Ok_0;
        let ins = decode_from(code, pos)->Ok_0;
        assert(ins == seq![ins[0]] + rest);
        assert(ins[0].offset == pos);
        assert(width(ins[0]) == next - pos);
        assert forall|i: int| 0 <= i < ins.len() - 1 implies #[trigger] ins[i + 1].offset
            == ins[i].offset + width(ins[i]) by {
            if i == 0 {
                assert(ins[1] == rest[0]);
            } else {
                assert(ins[i] == rest[i - 1]);
                assert(ins[i + 1] == rest[i]);
                assert(rest[(i - 1) + 1].offset == rest[i - 1].offset + width(rest[i - 1]));
            }
        }
    }
}

/// The listing line of one instruction: the offset padded to four digits,
/// the mnemonic, and the operand in decimal when there is one.
pub open spec fn instruction_line(ins: Instruction) -> Seq<char> {
    padded4(ins.offset as nat) + seq![' '] + mnemonic_of(ins.op) + match ins.operand {
        Some(x) => seq![' '] + decimal(x as nat),
        None => Seq::empty(),
    }
}

/// The listing lines of a sequence of instructions.
pub open spec fn listing(ins: Seq<Instruction>) -> Seq<Seq<char>> {
    ins.map_values(|i: Instruction| instruction_line(i))
}

/// The text of each string, in order.
pub open spec fn lines_view(lines: Seq<String>) -> Seq<Seq<char>> {
    lines.map_values(|l: String| l@)
}

spec fn joined(done: Seq<Instruction>, rest: Result<Seq<Instruction>, DisassembleError>) -> Result<
    Seq<Instruction>,
    DisassembleError,
> {
    match rest {
        Ok(s) => Ok(done + s),
        Err(e) => Err(e),
    }
}

/// Decodes `code` from offset 0, one instruction after another, until the
/// cursor reaches its end exactly. Fails on a byte that is no instruction
/// code and on an operand that would lie past the end.
pub fn disassemble(code: &[u8]) -> (r: Result<Vec<Instruction>, DisassembleError>)
    ensures
        match r {
            Ok(ins) => decode_from(code@, 0) == Ok::<Seq<Instruction>, DisassembleError>(ins@),
            Err(e) => decode_from(code@, 0) == Err::<Seq<Instruction>, DisassembleError>(e),
        },
{
    let mut out: Vec<Instruction> = Vec::new();
    let mut ip: usize = 0;
    assert(out@ + Seq::<Instruction>::empty() =~= out@);
    while ip < code.len()
        invariant
            ip <= code@.len(),
            decode_from(code@, 0) == joined(out@, decode_from(code@, ip as int)),
        decreases code@.len() - ip,
    {
        let byte = code[ip];
        match ByteCode::from_byte(byte) {
            None => {
                return Err(DisassembleError::UnknownOp { offset: ip, byte });
            },
            Some(ByteCode::ConstantByte) => {
                if ip + 1 >= code.len() {
                    return Err(DisassembleError::MissingOperand { offset: ip });
                }
                let ins = Instruction { offset: ip, op: ByteCode::ConstantByte, operand: Some(code[ip + 1]) };
                let ghost prev = out@;
                out.push(ins);
                ip = ip + 2;
                proof {
                    let rest = decode_from(code@, ip as int);
                    if rest is Ok {
                        assert(out@ + rest->Ok_0 =~= prev + (seq![ins] + rest->Ok_0));
                    }
                }
            },
            Some(ByteCode::Return) => {
                let ins = Instruction { offset: ip, op: ByteCode::Return, operand: None };
                let ghost prev = out@;
                out.push(ins);
                ip = ip + 1;
                proof {
                    let rest = decode_from(code@, ip as int);
                    if rest is Ok {
                        assert(out@ + rest->Ok_0 =~= prev + (seq![ins] + rest->Ok_0));
                    }
                }
            },
        }
    }
    assert(out@ + Seq::<Instruction>::empty() =~= out@);
    Ok(out)
}

impl Instruction {
    /// The listing line of this instruction.
    pub fn render(&self) -> (r: String)
        ensures
            r@ == instruction_line(*self),
    {
        let mut out = String::new();
        push_padded4(&mut out, self.offset as u64);
        proof { reveal_strlit(" "); }
        out.append(" ");
        out.append(self.op.mnemonic());
        match self.operand {
            Some(x) => {
                out.append(" ");
                push_decimal(&mut out, x as u64);
            },
            None => {},
        }
        assert(out@ =~= instruction_line(*self));
        out
    }
}

/// The listing lines of `ins`, one per instruction, in order.
pub fn render_listing(ins: &[Instruction]) -> (r: Vec<String>)
    ensures
        lines_view(r@) == listing(ins@),
{
    let mut out: Vec<String> = Vec::new();
    let mut i: usize = 0;
    while i < ins.len()
        invariant
            i <= ins@.len(),
            lines_view(out@) == listing(ins@.subrange(0, i as int)),
        decreases ins@.len() - i,
    {
        let line = ins[i].render();
        let ghost prev = out@;
        out.push(line);
        assert(lines_view(out@) =~= lines_view(prev).push(instruction_line(ins@[i as int])));
        assert(listing(ins@.subrange(0, i + 1)) =~= listing(ins@.subrange(0, i as int)).push(
            instruction_line(ins@[i as int]),
        ));
        i = i + 1;
    }
    assert(ins@.subrange(0, i as int) =~= ins@);
    out
}

} // verus!
