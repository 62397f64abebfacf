use vstd::prelude::*;
use crate::error::ErrorKind;
use crate::model::Architecture;

verus! {

/// The disassembler backend for an architecture.
#[derive(Clone, Copy, Debug, PartialEq, Eq, Structural)]
pub enum Disassembler {
    X86_64,
    Aarch64,
    Riscv64,
    Wasm,
}

/// The first operand of a decoded instruction, as far as target extraction
/// cares.
#[derive(Clone, Copy, Debug, PartialEq, Eq, Structural)]
pub enum Operand {
    /// An immediate value.
    Imm(i64),
    /// A memory reference relative to the instruction pointer, with this
    /// displacement.
    RipRelative(i64),
    /// Any other operand.
    Other,
    /// The instruction has no operand.
    Missing,
}

/// One decoded instruction.
pub struct Inst {
    /// The backend that decoded it.
    pub arch: Disassembler,
    pub address: u64,
    pub bytes: Vec<u8>,
    /// Mnemonic and operands as text.
    pub text: String,
    /// Whether the instruction is in the call or jump group.
    pub branch: bool,
    pub operand: Operand,
}

impl Inst {
    pub fn address(&self) -> (r: u64)
        ensures
            r == self.address,
    {
        self.address
    }

    pub fn bytes(&self) -> (r: &[u8])
        ensures
            r@ == self.bytes@,
    {
        self.bytes.as_slice()
    }
}

/// The backend for an architecture, if there is one.
pub open spec fn backend_for(arch: Architecture) -> Option<Disassembler> {
    match arch {
        Architecture::X86_64 => Some(Disassembler::X86_64),
        Architecture::Aarch64 => Some(Disassembler::Aarch64),
        Architecture::Riscv64 => Some(Disassembler::Riscv64),
        Architecture::Wasm32 | Architecture::Wasm64 => Some(Disassembler::Wasm),
        Architecture::Other => None,
    }
}

/// The absolute address a branch instruction refers to: an immediate that
/// is a valid address on x86-64 and AArch64, or on x86-64 also the
/// instruction's address plus an instruction-pointer-relative displacement.
/// Instructions of other backends, or mixed with another backend, are
/// refused.
pub open spec fn target_spec(d: Disassembler, inst: &Inst) -> Result<Option<u64>, ErrorKind> {
    if d != inst.arch || d == Disassembler::Wasm {
        Err(ErrorKind::UnsupportedArch)
    } else if d == Disassembler::Riscv64 || !inst.branch {
        Ok(None)
    } else {
        match inst.operand {
            Operand::Imm(v) => if v >= 0 {
                Ok(Some(v as u64))
            } else {
                Ok(None)
            },
            Operand::RipRelative(disp) => if d == Disassembler::X86_64 && 0 <= inst.address + disp
                <= u64::MAX {
                Ok(Some((inst.address + disp) as u64))
            } else {
                Ok(None)
            },
            _ => Ok(None),
        }
    }
}

impl Disassembler {
    /// Selects the backend for the target's architecture.
    pub fn new(arch: Architecture) -> (r: Result<Disassembler, ErrorKind>)
        ensures
            match backend_for(arch) {
                Some(d) => r == Ok::<Disassembler, ErrorKind>(d),
                None => r == Err::<Disassembler, ErrorKind>(ErrorKind::UnsupportedArch),
            },
    {
        match arch {
            Architecture::X86_64 => Ok(Disassembler::X86_64),
            Architecture::Aarch64 => Ok(Disassembler::Aarch64),
            Architecture::Riscv64 => Ok(Disassembler::Riscv64),
            Architecture::Wasm32 | Architecture::Wasm64 => Ok(Disassembler::Wasm),
            Architecture::Other => Err(ErrorKind::UnsupportedArch),
        }
    }

    /// The address a call or jump refers to, where it can be read off the
    /// instruction.
    pub fn operand2addr(&self, inst: &Inst) -> (r: Result<Option<u64>, ErrorKind>)
        ensures
            r == target_spec(*self, inst),
    {
        if *self != inst.arch || *self == Disassembler::Wasm {
            return Err(ErrorKind::UnsupportedArch);
        }
        if *self == Disassembler::Riscv64 || !inst.branch {
            return Ok(None);
        }
        match inst.operand {
            Operand::Imm(v) => if v >= 0 {
                Ok(Some(v as u64))
            } else {
                Ok(None)
            },
            Operand::RipRelative(disp) => {
                if *self != Disassembler::X86_64 {
                    return Ok(None);
                }
                if disp >= 0 {
                    Ok(inst.address.checked_add(disp as u64))
                } else {
                    let back = (0i128 - disp as i128) as u64;
                    Ok(inst.address.checked_sub(back))
                }
            },
            _ => Ok(None),
        }
    }
}

/// The bytes of a WebAssembly operator inside a function body that starts
/// at offset `base` and holds `len` bytes: from its own offset to the next
/// operator's, or to the end of the body for the last one.
pub open spec fn wasm_span(base: int, len: int, offset: int, next: Option<usize>) -> Option<
    (int, int),
> {
    let start = offset - base;
    let end = match next {
        Some(n) => n - base,
        None => len,
    };
    if 0 <= start <= end <= len {
        Some((start, end))
    } else {
        None
    }
}

/// Where in the function body's bytes an operator's bytes lie; `None` where
/// the offsets do not fit inside the body.
pub fn wasm_inst_range(base: usize, len: usize, offset: usize, next: Option<usize>) -> (r: Option<
    (usize, usize),
>)
    ensures
        match wasm_span(base as int, len as int, offset as int, next) {
            Some((s, e)) => r == Some((s as usize, e as usize)),
            None => r is None,
        },
{
    if offset < base {
        return None;
    }
    let start = offset - base;
    let end = match next {
        Some(n) => {
            if n < base {
                return None;
            }
            n - base
        },
        None => len,
    };
    if start <= end && end <= len {
        Some((start, end))
    } else {
        None
    }
}

} // verus!
