//! The machine architectures that a scanned entry can be classified as.

use vstd::prelude::*;

verus! {

/// What a scanned directory entry turned out to be.
///
/// The machine variants come from the machine field of an ELF header.
/// `Directory` and `Unparsable` mark entries that cannot be analysed.
#[derive(Clone, Copy, Debug, PartialEq, Eq, Structural, Hash)]
pub enum Architecture {
    Sparc,
    X86,
    Mips,
    PowerPc,
    S390,
    Arm,
    SuperH,
    Ia64,
    X86_64,
    AArch64,
    RiscV,
    /// A machine code without a variant of its own.
    Unknown(u16),
    /// The entry is a directory.
    Directory,
    /// The bytes do not start with a readable ELF header.
    Unparsable,
}

/// The architecture that a machine code stands for.
pub open spec fn spec_architecture_of_code(code: int) -> Architecture {
    if code == 0x02 {
        Architecture::Sparc
    } else if code == 0x03 {
        Architecture::X86
    } else if code == 0x08 {
        Architecture::Mips
    } else if code == 0x14 {
        Architecture::PowerPc
    } else if code == 0x16 {
        Architecture::S390
    } else if code == 0x28 {
        Architecture::Arm
    } else if code == 0x2A {
        Architecture::SuperH
    } else if code == 0x32 {
        Architecture::Ia64
    } else if code == 0x3E {
        Architecture::X86_64
    } else if code == 0xB7 {
        Architecture::AArch64
    } else if code == 0xF3 {
        Architecture::RiscV
    } else {
        Architecture::Unknown(code as u16)
    }
}

/// Whether dependency facts may carry this architecture: it names a machine.
pub open spec fn spec_is_machine(a: Architecture) -> bool {
    a != Architecture::Directory && a != Architecture::Unparsable
}

/// Maps the machine field of an ELF header to an architecture.
pub fn architecture_of_code(code: u16) -> (a: Architecture)
    ensures
        a == spec_architecture_of_code(code as int),
        spec_is_machine(a),
{
    match code {
        0x02 => Architecture::Sparc,
        0x03 => Architecture::X86,
        0x08 => Architecture::Mips,
        0x14 => Architecture::PowerPc,
        0x16 => Architecture::S390,
        0x28 => Architecture::Arm,
        0x2A => Architecture::SuperH,
        0x32 => Architecture::Ia64,
        0x3E => Architecture::X86_64,
        0xB7 => Architecture::AArch64,
        0xF3 => Architecture::RiscV,
        _ => Architecture::Unknown(code),
    }
}

/// Tells whether an architecture names a machine.
pub fn is_machine(a: Architecture) -> (r: bool)
    ensures
        r == spec_is_machine(a),
{
    match a {
        Architecture::Directory => false,
        Architecture::Unparsable => false,
        _ => true,
    }
}

} // verus!
