//! Classification of a file's bytes by the machine named in its ELF header.

use vstd::prelude::*;
use crate::arch::{
    Architecture, architecture_of_code, spec_architecture_of_code, spec_is_machine,
};
use crate::bytes::{spec_u16_at, u16_at};

verus! {

/// Length of the header of a 32-bit ELF file, the shortest there is.
pub const HEADER_LEN_32: usize = 52;

/// Length of the header of a 64-bit ELF file.
pub const HEADER_LEN_64: usize = 64;

/// Offset of the machine field, the same in both classes.
pub const MACHINE_OFFSET: usize = 18;

/// The buffer starts with the four magic bytes.
pub open spec fn spec_has_magic(b: Seq<u8>) -> bool {
    b.len() >= 4 && b[0] == 0x7f && b[1] == 0x45 && b[2] == 0x4c && b[3] == 0x46
}

/// The buffer is long enough for a header, starts with the magic bytes, and
/// names a class whose header fits too.
pub open spec fn spec_header_plausible(b: Seq<u8>) -> bool {
    &&& b.len() >= HEADER_LEN_32
    &&& spec_has_magic(b)
    &&& (b[4] == 1 || b[4] == 2)
    &&& (b[4] == 2 ==> b.len() >= HEADER_LEN_64)
}

/// The header names a byte order.
pub open spec fn spec_byte_order_known(b: Seq<u8>) -> bool {
    b[5] == 1 || b[5] == 2
}

/// The buffer starts with a header that can be read: it is plausible and
/// names its byte order.
pub open spec fn spec_header_readable(b: Seq<u8>) -> bool {
    spec_header_plausible(b) && spec_byte_order_known(b)
}

/// The architecture named by the machine field, read in the byte order that
/// the header declares. Meaningful for a readable header.
pub open spec fn spec_header_architecture(b: Seq<u8>) -> Architecture {
    spec_architecture_of_code(spec_u16_at(b, MACHINE_OFFSET as int, b[5] == 2))
}

/// What a buffer is classified as: the architecture of its header where the
/// header can be read, else `Unparsable`.
pub open spec fn spec_classify(b: Seq<u8>) -> Architecture {
    if spec_header_readable(b) {
        spec_header_architecture(b)
    } else {
        Architecture::Unparsable
    }
}

/// A readable header is classified as a machine: never as `Unparsable` and
/// never as `Directory`. The machine is the known one for a known code and
/// `Unknown` with the code for any other.
pub proof fn lemma_readable_is_machine(b: Seq<u8>)
    requires
        spec_header_readable(b),
    ensures
        spec_is_machine(spec_classify(b)),
        spec_classify(b) == spec_architecture_of_code(
            spec_u16_at(b, MACHINE_OFFSET as int, b[5] == 2),
        ),
{
}

/// Two readable headers with the same machine code are classified alike,
/// whatever their class, byte order and length.
pub proof fn lemma_same_code_same_architecture(b: Seq<u8>, c: Seq<u8>)
    requires
        spec_header_readable(b),
        spec_header_readable(c),
        spec_u16_at(b, MACHINE_OFFSET as int, b[5] == 2) == spec_u16_at(
            c,
            MACHINE_OFFSET as int,
            c[5] == 2,
        ),
    ensures
        spec_classify(b) == spec_classify(c),
{
}

/// A plausible header in least-significant-byte-first order whose machine
/// field holds the code of x86-64 is classified as that architecture.
pub proof fn lemma_x86_64_header(b: Seq<u8>)
    requires
        spec_header_plausible(b),
        b[5] == 1,
        b[18] == 0x3E,
        b[19] == 0,
    ensures
        spec_classify(b) == Architecture::X86_64,
{
}

/// Classifies a file's bytes.
///
/// A buffer that is shorter than the header of its class, lacks the magic
/// bytes or names no known class or byte order is `Unparsable`; in
/// particular every buffer shorter than the shortest ELF header is. Every
/// other buffer yields the architecture of its machine field, read in the
/// byte order that the header declares. No other field of the header enters.
pub fn classify(bytes: &[u8]) -> (a: Architecture)
    ensures
        a == spec_classify(bytes@),
        bytes@.len() < HEADER_LEN_32 ==> a == Architecture::Unparsable,
        a != Architecture::Directory,
{
    if bytes.len() < HEADER_LEN_32 {
        return Architecture::Unparsable;
    }
    if bytes[0] != 0x7f || bytes[1] != 0x45 || bytes[2] != 0x4c || bytes[3] != 0x46 {
        return Architecture::Unparsable;
    }
    let class: u8 = bytes[4];
    let order: u8 = bytes[5];
    if class != 1 && class != 2 {
        return Architecture::Unparsable;
    }
    if class == 2 && bytes.len() < HEADER_LEN_64 {
        return Architecture::Unparsable;
    }
    if order != 1 && order != 2 {
        return Architecture::Unparsable;
    }
    architecture_of_code(u16_at(bytes, MACHINE_OFFSET, order == 2))
}

} // verus!
