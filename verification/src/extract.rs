//! The names of the shared libraries that an ELF file asks for.
//!
//! The dynamic section is the first section of the dynamic type in the
//! section header table. Its string table is the section that its link field
//! names. Every entry tagged as needed, up to the first null entry, gives the
//! offset of a NUL-terminated name in that string table. The layout of the
//! structures follows the class and byte order that the header declares,
//! never the machine.

use vstd::prelude::*;
use crate::arch::Architecture;
use crate::bytes::{spec_u16_at, spec_u32_at, spec_word_at, u16_at, u32_at, word_at};
use crate::names::spec_names;
use crate::classify::{
    HEADER_LEN_32, HEADER_LEN_64, spec_byte_order_known, spec_header_plausible,
    spec_header_readable,
};

verus! {

/// Section type of a dynamic section.
pub const SECTION_DYNAMIC: u32 = 6;

/// Tag that ends a dynamic table.
pub const TAG_NULL: u64 = 0;

/// Tag of an entry that names a needed library.
pub const TAG_NEEDED: u64 = 1;

/// Why the dependencies of a buffer could not be read.
#[derive(Clone, Copy, Debug, PartialEq, Eq, Structural)]
pub enum ExtractError {
    /// The header, the section header table or the dynamic table is not
    /// consistent with the buffer that holds it.
    MalformedDynamicSection,
}

/// The header declares the 64-bit class.
pub open spec fn spec_wide(b: Seq<u8>) -> bool {
    b[4] == 2
}

/// The header declares most-significant-byte-first order.
pub open spec fn spec_big(b: Seq<u8>) -> bool {
    b[5] == 2
}

/// Offset of the section header table.
pub open spec fn spec_table_offset(b: Seq<u8>) -> int {
    spec_word_at(b, if spec_wide(b) { 40 } else { 32 }, spec_wide(b), spec_big(b))
}

/// Length of one section header as the header declares it.
pub open spec fn spec_section_entry_len(b: Seq<u8>) -> int {
    spec_u16_at(b, if spec_wide(b) { 58 } else { 46 }, spec_big(b))
}

/// Number of section headers.
pub open spec fn spec_section_count(b: Seq<u8>) -> int {
    spec_u16_at(b, if spec_wide(b) { 60 } else { 48 }, spec_big(b))
}

/// Length of the fields of a section header in the given class.
pub open spec fn spec_section_fields_len(wide: bool) -> int {
    if wide {
        64
    } else {
        40
    }
}

/// Length of one dynamic entry in the given class.
pub open spec fn spec_dynamic_entry_len(wide: bool) -> int {
    if wide {
        16
    } else {
        8
    }
}

/// The file has a section header table at all.
pub open spec fn spec_has_section_table(b: Seq<u8>) -> bool {
    spec_table_offset(b) != 0 && spec_section_count(b) != 0
}

/// The section header table lies inside the buffer and its entries are long
/// enough for their fields.
pub open spec fn spec_section_table_fits(b: Seq<u8>) -> bool {
    &&& spec_section_entry_len(b) >= spec_section_fields_len(spec_wide(b))
    &&& spec_table_offset(b) + spec_section_count(b) * spec_section_entry_len(b) <= b.len()
}

/// Offset of section header `i`.
pub open spec fn spec_section_base(b: Seq<u8>, i: int) -> int {
    spec_table_offset(b) + i * spec_section_entry_len(b)
}

/// Type of section `i`.
pub open spec fn spec_section_type(b: Seq<u8>, i: int) -> int {
    spec_u32_at(b, spec_section_base(b, i) + 4, spec_big(b))
}

/// Offset in the file of the contents of section `i`.
pub open spec fn spec_section_offset(b: Seq<u8>, i: int) -> int {
    spec_word_at(
        b,
        spec_section_base(b, i) + (if spec_wide(b) { 24int } else { 16int }),
        spec_wide(b),
        spec_big(b),
    )
}

/// Length of the contents of section `i`.
pub open spec fn spec_section_size(b: Seq<u8>, i: int) -> int {
    spec_word_at(
        b,
        spec_section_base(b, i) + (if spec_wide(b) { 32int } else { 20int }),
        spec_wide(b),
        spec_big(b),
    )
}

/// Link field of section `i`.
pub open spec fn spec_section_link(b: Seq<u8>, i: int) -> int {
    spec_u32_at(
        b,
        spec_section_base(b, i) + (if spec_wide(b) { 40int } else { 24int }),
        spec_big(b),
    )
}

/// Index of the first dynamic section at or after `i`, if there is one.
pub open spec fn spec_find_dynamic(b: Seq<u8>, i: int) -> Option<int>
    decreases spec_section_count(b) - i,
{
    if i >= spec_section_count(b) {
        None
    } else if spec_section_type(b, i) == SECTION_DYNAMIC {
        Some(i)
    } else {
        spec_find_dynamic(b, i + 1)
    }
}

/// Tag of entry `k` of the dynamic table at `table`.
pub open spec fn spec_entry_tag(b: Seq<u8>, table: int, k: int) -> int {
    spec_word_at(b, table + k * spec_dynamic_entry_len(spec_wide(b)), spec_wide(b), spec_big(b))
}

/// Value of entry `k` of the dynamic table at `table`.
pub open spec fn spec_entry_value(b: Seq<u8>, table: int, k: int) -> int {
    spec_word_at(
        b,
        table + k * spec_dynamic_entry_len(spec_wide(b)) + (if spec_wide(b) { 8int } else { 4int }),
        spec_wide(b),
        spec_big(b),
    )
}

/// Position of the first NUL byte in `pos..limit`, if there is one.
pub open spec fn spec_name_end(b: Seq<u8>, pos: int, limit: int) -> Option<int>
    decreases limit - pos,
{
    if pos >= limit {
        None
    } else if b[pos] == 0 {
        Some(pos)
    } else {
        spec_name_end(b, pos + 1, limit)
    }
}

/// The name at offset `value` of the string table `strings..strings + len`:
/// the bytes up to the first NUL. There is none where the offset lies outside
/// the table or no NUL follows inside it.
pub open spec fn spec_name_at(b: Seq<u8>, strings: int, len: int, value: int) -> Option<Seq<u8>> {
    if value >= len {
        None
    } else {
        match spec_name_end(b, strings + value, strings + len) {
            Some(end) => Some(b.subrange(strings + value, end)),
            None => None,
        }
    }
}

/// The needed names of entries `k..count`, in table order, up to the first
/// null entry. There is none where a needed entry has no name.
pub open spec fn spec_needed_from(
    b: Seq<u8>,
    table: int,
    count: int,
    strings: int,
    len: int,
    k: int,
) -> Option<Seq<Seq<u8>>>
    decreases count - k,
{
    if k >= count {
        Some(Seq::empty())
    } else if spec_entry_tag(b, table, k) == TAG_NULL {
        Some(Seq::empty())
    } else if spec_entry_tag(b, table, k) == TAG_NEEDED {
        match spec_name_at(b, strings, len, spec_entry_value(b, table, k)) {
            None => None,
            Some(name) => match spec_needed_from(b, table, count, strings, len, k + 1) {
                None => None,
                Some(rest) => Some(seq![name] + rest),
            },
        }
    } else {
        spec_needed_from(b, table, count, strings, len, k + 1)
    }
}

/// The needed names of the dynamic section `d`, or none where the section,
/// its link or its string table does not fit the buffer.
pub open spec fn spec_needed_of_section(b: Seq<u8>, d: int) -> Option<Seq<Seq<u8>>> {
    let table = spec_section_offset(b, d);
    let size = spec_section_size(b, d);
    let link = spec_section_link(b, d);
    if table + size > b.len() || link >= spec_section_count(b) {
        None
    } else {
        let strings = spec_section_offset(b, link);
        let len = spec_section_size(b, link);
        if strings + len > b.len() {
            None
        } else {
            spec_needed_from(
                b,
                table,
                size / spec_dynamic_entry_len(spec_wide(b)),
                strings,
                len,
                0,
            )
        }
    }
}

/// The names of the libraries that the buffer asks for, in the order of its
/// dynamic table; `None` where the buffer is malformed. A file without
/// section headers or without a dynamic section asks for nothing.
pub open spec fn spec_extract(b: Seq<u8>) -> Option<Seq<Seq<u8>>> {
    if !spec_header_readable(b) {
        None
    } else if !spec_has_section_table(b) {
        Some(Seq::empty())
    } else if !spec_section_table_fits(b) {
        None
    } else {
        match spec_find_dynamic(b, 0) {
            None => Some(Seq::empty()),
            Some(d) => spec_needed_of_section(b, d),
        }
    }
}

/// Where no section from `i` on is a dynamic section, none is found.
pub proof fn lemma_no_dynamic_from(b: Seq<u8>, i: int)
    requires
        forall|j: int|
            i <= j < spec_section_count(b) ==> #[trigger] spec_section_type(b, j)
                != SECTION_DYNAMIC,
    ensures
        spec_find_dynamic(b, i).is_none(),
    decreases spec_section_count(b) - i,
{
    if i < spec_section_count(b) {
        lemma_no_dynamic_from(b, i + 1);
    }
}

/// A file without a dynamic section asks for nothing, and is not malformed.
pub proof fn lemma_static_asks_for_nothing(b: Seq<u8>)
    requires
        spec_header_plausible(b),
        spec_byte_order_known(b),
        spec_has_section_table(b) ==> spec_section_table_fits(b),
        forall|j: int|
            0 <= j < spec_section_count(b) ==> #[trigger] spec_section_type(b, j)
                != SECTION_DYNAMIC,
    ensures
        spec_extract(b) == Some(Seq::<Seq<u8>>::empty()),
{
    lemma_no_dynamic_from(b, 0);
}

/// Entry `i` of `n` entries of length `e` ends inside the `n` entries.
pub proof fn lemma_entry_within(i: int, n: int, e: int)
    requires
        0 <= i < n,
        0 <= e,
    ensures
        0 <= i * e,
        i * e + e <= n * e,
        (i + 1) * e == i * e + e,
{
    assert(0 <= i * e && i * e + e <= n * e && (i + 1) * e == i * e + e) by (nonlinear_arith)
        requires
            0 <= i < n,
            0 <= e,
    ;
}

/// The fields of a section header that the extraction reads.
pub struct SectionFields {
    pub kind: u32,
    pub offset: u64,
    pub size: u64,
    pub link: u32,
}

/// The class, the byte order and the place of the section header table, as
/// read from a header.
pub struct TableLayout {
    pub wide: bool,
    pub big: bool,
    pub offset: u64,
    pub entry_len: u64,
    pub count: u64,
}

impl TableLayout {
    /// The layout is the one that the buffer's header declares, and the table
    /// fits the buffer.
    pub open spec fn describes(&self, b: Seq<u8>) -> bool {
        &&& spec_header_plausible(b)
        &&& spec_byte_order_known(b)
        &&& self.wide == spec_wide(b)
        &&& self.big == spec_big(b)
        &&& self.offset == spec_table_offset(b)
        &&& self.entry_len == spec_section_entry_len(b)
        &&& self.count == spec_section_count(b)
        &&& spec_section_table_fits(b)
    }
}

/// Reads the fields of section header `i`.
fn read_section(b: &[u8], layout: &TableLayout, i: u64) -> (s: SectionFields)
    requires
        layout.describes(b@),
        i < layout.count,
    ensures
        s.kind == spec_section_type(b@, i as int),
        s.offset == spec_section_offset(b@, i as int),
        s.size == spec_section_size(b@, i as int),
        s.link == spec_section_link(b@, i as int),
{
    proof {
        lemma_entry_within(i as int, layout.count as int, layout.entry_len as int);
        assert(spec_section_count(b@) * spec_section_entry_len(b@) == layout.count
            * layout.entry_len);
        assert(i * layout.entry_len + layout.entry_len <= layout.count * layout.entry_len);
        assert(layout.offset + layout.count * layout.entry_len <= b@.len());
        assert(b@.len() == b.len());
    }
    let base: usize = (layout.offset + i * layout.entry_len) as usize;
    if layout.wide {
        SectionFields {
            kind: u32_at(b, base + 4, layout.big),
            offset: word_at(b, base + 24, true, layout.big),
            size: word_at(b, base + 32, true, layout.big),
            link: u32_at(b, base + 40, layout.big),
        }
    } else {
        SectionFields {
            kind: u32_at(b, base + 4, layout.big),
            offset: word_at(b, base + 16, false, layout.big),
            size: word_at(b, base + 20, false, layout.big),
            link: u32_at(b, base + 24, layout.big),
        }
    }
}

/// Finds the first dynamic section.
fn find_dynamic(b: &[u8], layout: &TableLayout) -> (r: Option<u64>)
    requires
        layout.describes(b@),
    ensures
        match spec_find_dynamic(b@, 0) {
            Some(d) => r.is_some() && r.unwrap() as int == d && d < layout.count,
            None => r.is_none(),
        },
{
    let mut i: u64 = 0;
    while i < layout.count
        invariant
            layout.describes(b@),
            i <= layout.count,
            spec_find_dynamic(b@, 0) == spec_find_dynamic(b@, i as int),
        decreases layout.count - i,
    {
        let s = read_section(b, layout, i);
        if s.kind == SECTION_DYNAMIC {
            return Some(i);
        }
        i += 1;
    }
    None
}

/// Reads the name at offset `value` of a string table.
fn read_name(b: &[u8], strings: u64, len: u64, value: u64) -> (r: Option<Vec<u8>>)
    requires
        strings + len <= b.len(),
    ensures
        match spec_name_at(b@, strings as int, len as int, value as int) {
            Some(name) => r.is_some() && r.unwrap()@ == name,
            None => r.is_none(),
        },
{
    if value >= len {
        return None;
    }
    let start: usize = (strings + value) as usize;
    let limit: usize = (strings + len) as usize;
    let mut pos: usize = start;
    let mut name: Vec<u8> = Vec::new();
    while pos < limit
        invariant
            start <= pos <= limit <= b.len(),
            value < len,
            start as int == strings + value,
            limit as int == strings + len,
            spec_name_end(b@, start as int, limit as int) == spec_name_end(
                b@,
                pos as int,
                limit as int,
            ),
            name@ == b@.subrange(start as int, pos as int),
        decreases limit - pos,
    {
        let c: u8 = b[pos];
        if c == 0 {
            assert(spec_name_end(b@, pos as int, limit as int) == Some(pos as int));
            return Some(name);
        }
        name.push(c);
        pos += 1;
        proof {
            assert(name@ =~= b@.subrange(start as int, pos as int));
        }
    }
    None
}

/// Reads the needed names of a dynamic table whose string table is known.
fn read_needed(b: &[u8], wide: bool, big: bool, table: u64, size: u64, strings: u64, len: u64) -> (r:
    Result<Vec<Vec<u8>>, ExtractError>)
    requires
        wide == spec_wide(b@),
        big == spec_big(b@),
        table + size <= b.len(),
        strings + len <= b.len(),
    ensures
        match spec_needed_from(
            b@,
            table as int,
            size as int / spec_dynamic_entry_len(wide),
            strings as int,
            len as int,
            0,
        ) {
            Some(names) => r.is_ok() && spec_names(r.unwrap()@) == names,
            None => r.is_err(),
        },
{
    let entry_len: u64 = if wide { 16 } else { 8 };
    let count: u64 = size / entry_len;
    assert(count * entry_len <= size) by {
        if wide {
            assert((size / 16) * 16 <= size);
        } else {
            assert((size / 8) * 8 <= size);
        }
    }
    let mut names: Vec<Vec<u8>> = Vec::new();
    let mut k: u64 = 0;
    assert(spec_names(names@) + Seq::<Seq<u8>>::empty() =~= spec_names(names@));
    assert(spec_names(names@) =~= Seq::<Seq<u8>>::empty());
    while k < count
        invariant
            wide == spec_wide(b@),
            big == spec_big(b@),
            entry_len == spec_dynamic_entry_len(wide),
            count == size as int / spec_dynamic_entry_len(wide),
            count * entry_len <= size,
            table + size <= b.len(),
            strings + len <= b.len(),
            k <= count,
            spec_needed_from(b@, table as int, count as int, strings as int, len as int, 0)
                == (match spec_needed_from(
                b@,
                table as int,
                count as int,
                strings as int,
                len as int,
                k as int,
            ) {
                Some(rest) => Some(spec_names(names@) + rest),
                None => None,
            }),
        decreases count - k,
    {
        proof {
            lemma_entry_within(k as int, count as int, entry_len as int);
        }
        let at: usize = (table + k * entry_len) as usize;
        let tag: u64 = word_at(b, at, wide, big);
        let value: u64 = if wide {
            word_at(b, at + 8, true, big)
        } else {
            word_at(b, at + 4, false, big)
        };
        let ghost before = spec_names(names@);
        if tag == TAG_NULL {
            assert(before + Seq::<Seq<u8>>::empty() =~= before);
            return Ok(names);
        }
        if tag == TAG_NEEDED {
            match read_name(b, strings, len, value) {
                None => {
                    return Err(ExtractError::MalformedDynamicSection);
                },
                Some(name) => {
                    let ghost n = name@;
                    names.push(name);
                    proof {
                        assert(spec_names(names@) =~= before.push(n));
                        match spec_needed_from(
                            b@,
                            table as int,
                            count as int,
                            strings as int,
                            len as int,
                            k + 1,
                        ) {
                            Some(rest) => {
                                assert(before + (seq![n] + rest) =~= before.push(n) + rest);
                            },
                            None => {},
                        }
                    }
                },
            }
        }
        k += 1;
    }
    assert(spec_names(names@) + Seq::<Seq<u8>>::empty() =~= spec_names(names@));
    Ok(names)
}

/// Reads the place of the section header table from a header.
///
/// Gives `None` for a buffer without a readable header, and a layout of no
/// sections where the file declares no section header table.
pub fn read_layout(b: &[u8]) -> (r: Option<TableLayout>)
    ensures
        r.is_some() == (spec_header_plausible(b@) && spec_byte_order_known(b@)),
        r.is_some() ==> {
            let t = r.unwrap();
            &&& t.wide == spec_wide(b@)
            &&& t.big == spec_big(b@)
            &&& t.offset == spec_table_offset(b@)
            &&& t.entry_len == spec_section_entry_len(b@)
            &&& t.count == spec_section_count(b@)
        },
{
    if b.len() < HEADER_LEN_32 {
        return None;
    }
    if b[0] != 0x7f || b[1] != 0x45 || b[2] != 0x4c || b[3] != 0x46 {
        return None;
    }
    if (b[4] != 1 && b[4] != 2) || (b[5] != 1 && b[5] != 2) {
        return None;
    }
    let wide: bool = b[4] == 2;
    let big: bool = b[5] == 2;
    if wide && b.len() < HEADER_LEN_64 {
        return None;
    }
    if wide {
        Some(
            TableLayout {
                wide,
                big,
                offset: word_at(b, 40, true, big),
                entry_len: u16_at(b, 58, big) as u64,
                count: u16_at(b, 60, big) as u64,
            },
        )
    } else {
        Some(
            TableLayout {
                wide,
                big,
                offset: word_at(b, 32, false, big),
                entry_len: u16_at(b, 46, big) as u64,
                count: u16_at(b, 48, big) as u64,
            },
        )
    }
}

/// Whether `size` bytes at `offset` lie inside a buffer of `total` bytes.
pub fn span_fits(offset: u64, size: u64, total: u64) -> (r: bool)
    ensures
        r == (offset + size <= total),
{
    offset <= total && size <= total - offset
}

/// Extracts the names of the libraries that an ELF file asks for, in the
/// order of its dynamic table.
///
/// A file without section headers or without a dynamic section asks for
/// nothing. A buffer whose header, section header table, dynamic section or
/// string table does not fit it, or in which a needed entry has no name, is
/// malformed. The architecture does not enter: the layout follows the class
/// and byte order of the header.
pub fn extract(bytes: &[u8], architecture: Architecture) -> (r: Result<Vec<Vec<u8>>, ExtractError>)
    ensures
        match spec_extract(bytes@) {
            Some(names) => r.is_ok() && spec_names(r.unwrap()@) == names,
            None => r == Err::<Vec<Vec<u8>>, ExtractError>(ExtractError::MalformedDynamicSection),
        },
{
    let layout = match read_layout(bytes) {
        Some(t) => t,
        None => {
            return Err(ExtractError::MalformedDynamicSection);
        },
    };
    let total: u64 = bytes.len() as u64;
    if layout.offset == 0 || layout.count == 0 {
        let none: Vec<Vec<u8>> = Vec::new();
        assert(spec_names(none@) =~= Seq::<Seq<u8>>::empty());
        return Ok(none);
    }
    let fields_len: u64 = if layout.wide { 64 } else { 40 };
    assert(layout.count * layout.entry_len <= 0xFFFF * 0xFFFF) by (nonlinear_arith)
        requires
            layout.count <= 0xFFFF,
            layout.entry_len <= 0xFFFF,
    ;
    if layout.entry_len < fields_len || !span_fits(
        layout.offset,
        layout.count * layout.entry_len,
        total,
    ) {
        return Err(ExtractError::MalformedDynamicSection);
    }
    let d: u64 = match find_dynamic(bytes, &layout) {
        Some(d) => d,
        None => {
            let none: Vec<Vec<u8>> = Vec::new();
            assert(spec_names(none@) =~= Seq::<Seq<u8>>::empty());
            return Ok(none);
        },
    };
    let dynamic = read_section(bytes, &layout, d);
    if !span_fits(dynamic.offset, dynamic.size, total) || dynamic.link as u64 >= layout.count {
        return Err(ExtractError::MalformedDynamicSection);
    }
    let strings = read_section(bytes, &layout, dynamic.link as u64);
    if !span_fits(strings.offset, strings.size, total) {
        return Err(ExtractError::MalformedDynamicSection);
    }
    match read_needed(
        bytes,
        layout.wide,
        layout.big,
        dynamic.offset,
        dynamic.size,
        strings.offset,
        strings.size,
    ) {
        Ok(names) => Ok(names),
        Err(_) => Err(ExtractError::MalformedDynamicSection),
    }
}

} // verus!
