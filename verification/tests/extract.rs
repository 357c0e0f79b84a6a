use elfdeps::arch::Architecture;
use elfdeps::extract::{extract, read_layout, span_fits, ExtractError};

fn put(b: &mut Vec<u8>, at: usize, value: u64, width: usize, big: bool) {
    for i in 0..width {
        let shift = if big { 8 * (width - 1 - i) } else { 8 * i };
        b[at + i] = (value >> shift) as u8;
    }
}

struct Section {
    kind: u32,
    offset: u64,
    size: u64,
    link: u32,
}

/// A file of a header, then `body`, then the section header table.
fn image(wide: bool, big: bool, body: &[u8], sections: &[Section]) -> Vec<u8> {
    let head: usize = if wide { 64 } else { 52 };
    let entry: usize = if wide { 64 } else { 40 };
    let table = head + body.len();
    let mut b = vec![0u8; table + entry * sections.len()];
    b[0] = 0x7f;
    b[1] = b'E';
    b[2] = b'L';
    b[3] = b'F';
    b[4] = if wide { 2 } else { 1 };
    b[5] = if big { 2 } else { 1 };
    b[6] = 1;
    put(&mut b, 18, 0x3E, 2, big);
    if wide {
        put(&mut b, 40, if sections.is_empty() { 0 } else { table as u64 }, 8, big);
        put(&mut b, 52, head as u64, 2, big);
        put(&mut b, 58, entry as u64, 2, big);
        put(&mut b, 60, sections.len() as u64, 2, big);
    } else {
        put(&mut b, 32, if sections.is_empty() { 0 } else { table as u64 }, 4, big);
        put(&mut b, 40, head as u64, 2, big);
        put(&mut b, 46, entry as u64, 2, big);
        put(&mut b, 48, sections.len() as u64, 2, big);
    }
    b[head..table].copy_from_slice(body);
    for (i, s) in sections.iter().enumerate() {
        let at = table + i * entry;
        put(&mut b, at + 4, s.kind as u64, 4, big);
        if wide {
            put(&mut b, at + 24, s.offset, 8, big);
            put(&mut b, at + 32, s.size, 8, big);
            put(&mut b, at + 40, s.link as u64, 4, big);
        } else {
            put(&mut b, at + 16, s.offset, 4, big);
            put(&mut b, at + 20, s.size, 4, big);
            put(&mut b, at + 24, s.link as u64, 4, big);
        }
    }
    b
}

fn dynamic_table(wide: bool, big: bool, entries: &[(u64, u64)]) -> Vec<u8> {
    let word: usize = if wide { 8 } else { 4 };
    let mut b = vec![0u8; entries.len() * 2 * word];
    for (i, (tag, value)) in entries.iter().enumerate() {
        put(&mut b, i * 2 * word, *tag, word, big);
        put(&mut b, i * 2 * word + word, *value, word, big);
    }
    b
}

const STRINGS: &[u8] = b"\0libc.so.6\0libm.so.6\0";

/// A dynamically linked file: string table, then dynamic table.
fn linked(wide: bool, big: bool, entries: &[(u64, u64)]) -> Vec<u8> {
    let head: u64 = if wide { 64 } else { 52 };
    let table = dynamic_table(wide, big, entries);
    let mut body = STRINGS.to_vec();
    body.extend_from_slice(&table);
    let sections = [
        Section { kind: 0, offset: 0, size: 0, link: 0 },
        Section { kind: 3, offset: head, size: STRINGS.len() as u64, link: 0 },
        Section { kind: 6, offset: head + STRINGS.len() as u64, size: table.len() as u64, link: 1 },
    ];
    image(wide, big, &body, &sections)
}

fn names(list: &[&str]) -> Vec<Vec<u8>> {
    list.iter().map(|s| s.as_bytes().to_vec()).collect()
}

#[test]
fn extract_needed_names_in_table_order() {
    let b = linked(true, false, &[(1, 1), (1, 11), (0, 0)]);
    assert_eq!(extract(&b, Architecture::X86_64), Ok(names(&["libc.so.6", "libm.so.6"])));
    let swapped = linked(true, false, &[(1, 11), (1, 1), (0, 0)]);
    assert_eq!(extract(&swapped, Architecture::X86_64), Ok(names(&["libm.so.6", "libc.so.6"])));
}

#[test]
fn extract_static_file_has_no_dependencies() {
    let bare = image(true, false, &[], &[]);
    assert_eq!(extract(&bare, Architecture::X86_64), Ok(Vec::new()));
    let sections = [
        Section { kind: 0, offset: 0, size: 0, link: 0 },
        Section { kind: 1, offset: 64, size: 4, link: 0 },
    ];
    let plain = image(true, false, &[1, 2, 3, 4], &sections);
    assert_eq!(extract(&plain, Architecture::X86_64), Ok(Vec::new()));
}

#[test]
fn extract_narrow_and_big_endian_layouts() {
    let want = Ok(names(&["libc.so.6", "libm.so.6"]));
    assert_eq!(extract(&linked(false, false, &[(1, 1), (1, 11), (0, 0)]), Architecture::X86), want);
    assert_eq!(extract(&linked(false, true, &[(1, 1), (1, 11), (0, 0)]), Architecture::Mips), want);
    assert_eq!(extract(&linked(true, true, &[(1, 1), (1, 11), (0, 0)]), Architecture::Sparc), want);
}

#[test]
fn extract_layout_follows_class_not_architecture() {
    let b = linked(false, false, &[(1, 1), (0, 0)]);
    assert_eq!(extract(&b, Architecture::X86_64), Ok(names(&["libc.so.6"])));
    assert_eq!(extract(&b, Architecture::Unknown(9)), Ok(names(&["libc.so.6"])));
}

#[test]
fn extract_stops_at_null_and_skips_other_tags() {
    let b = linked(true, false, &[(14, 1), (1, 11), (0, 0), (1, 1)]);
    assert_eq!(extract(&b, Architecture::X86_64), Ok(names(&["libm.so.6"])));
    let unterminated = linked(true, false, &[(1, 1), (5, 0)]);
    assert_eq!(extract(&unterminated, Architecture::X86_64), Ok(names(&["libc.so.6"])));
    let empty = linked(true, false, &[]);
    assert_eq!(extract(&empty, Architecture::X86_64), Ok(Vec::new()));
}

#[test]
fn extract_name_in_the_middle_of_a_string() {
    let b = linked(true, false, &[(1, 4), (1, 0), (0, 0)]);
    assert_eq!(extract(&b, Architecture::X86_64), Ok(vec![b"c.so.6".to_vec(), Vec::new()]));
}

#[test]
fn extract_rejects_a_buffer_without_a_header() {
    let e = Err(ExtractError::MalformedDynamicSection);
    assert_eq!(extract(&[], Architecture::X86_64), e);
    assert_eq!(extract(b"#!/bin/sh\n", Architecture::X86_64), e);
    let b = linked(true, false, &[(1, 1), (0, 0)]);
    assert_eq!(extract(&b[..60], Architecture::X86_64), e);
}

#[test]
fn extract_rejects_a_section_table_outside_the_buffer() {
    let e = Err(ExtractError::MalformedDynamicSection);
    let b = linked(true, false, &[(1, 1), (0, 0)]);
    assert_eq!(extract(&b[..b.len() - 1], Architecture::X86_64), e);
    let mut far = b.clone();
    put(&mut far, 40, u64::MAX, 8, false);
    assert_eq!(extract(&far, Architecture::X86_64), e);
    let mut short_entries = b.clone();
    put(&mut short_entries, 58, 63, 2, false);
    assert_eq!(extract(&short_entries, Architecture::X86_64), e);
}

#[test]
fn extract_rejects_a_dynamic_section_outside_the_buffer() {
    let e = Err(ExtractError::MalformedDynamicSection);
    let b = linked(true, false, &[(1, 1), (0, 0)]);
    let table = 64 + STRINGS.len() + 32;
    let mut big_size = b.clone();
    put(&mut big_size, table + 2 * 64 + 32, 100_000, 8, false);
    assert_eq!(extract(&big_size, Architecture::X86_64), e);
    let mut far = b.clone();
    put(&mut far, table + 2 * 64 + 24, u64::MAX, 8, false);
    assert_eq!(extract(&far, Architecture::X86_64), e);
}

#[test]
fn extract_rejects_a_bad_string_table() {
    let e = Err(ExtractError::MalformedDynamicSection);
    let b = linked(true, false, &[(1, 1), (0, 0)]);
    let table = 64 + STRINGS.len() + 32;
    let mut bad_link = b.clone();
    put(&mut bad_link, table + 2 * 64 + 40, 3, 4, false);
    assert_eq!(extract(&bad_link, Architecture::X86_64), e);
    let mut far_strings = b.clone();
    put(&mut far_strings, table + 64 + 32, 100_000, 8, false);
    assert_eq!(extract(&far_strings, Architecture::X86_64), e);
}

#[test]
fn extract_rejects_a_name_outside_the_string_table() {
    let e = Err(ExtractError::MalformedDynamicSection);
    let outside = linked(true, false, &[(1, STRINGS.len() as u64), (0, 0)]);
    assert_eq!(extract(&outside, Architecture::X86_64), e);
    let far = linked(true, false, &[(1, 1), (1, u64::MAX), (0, 0)]);
    assert_eq!(extract(&far, Architecture::X86_64), e);
    // The string table ends before the NUL that would close the last name.
    let mut cut = linked(true, false, &[(1, 11), (0, 0)]);
    let table = 64 + STRINGS.len() + 32;
    put(&mut cut, table + 64 + 32, STRINGS.len() as u64 - 1, 8, false);
    assert_eq!(extract(&cut, Architecture::X86_64), e);
}

#[test]
fn read_layout_of_a_wide_header() {
    let b = linked(true, false, &[(1, 1), (0, 0)]);
    let layout = read_layout(&b).unwrap();
    assert!(layout.wide);
    assert!(!layout.big);
    assert_eq!(layout.offset, (64 + STRINGS.len() + 32) as u64);
    assert_eq!(layout.entry_len, 64);
    assert_eq!(layout.count, 3);
    assert!(read_layout(&b[..20]).is_none());
    let narrow = linked(false, true, &[(1, 1), (0, 0)]);
    let other = read_layout(&narrow).unwrap();
    assert!(!other.wide);
    assert!(other.big);
    assert_eq!(other.offset, (52 + STRINGS.len() + 16) as u64);
    assert_eq!(other.entry_len, 40);
    assert_eq!(other.count, 3);
}

#[test]
fn extract_reads_an_empty_name_at_a_nul() {
    let b = linked(true, false, &[(1, 10), (1, 20), (0, 0)]);
    assert_eq!(extract(&b, Architecture::X86_64), Ok(vec![Vec::new(), Vec::new()]));
}

#[test]
fn span_fits_without_overflow() {
    assert!(span_fits(0, 0, 0));
    assert!(span_fits(3, 4, 7));
    assert!(!span_fits(3, 5, 7));
    assert!(!span_fits(8, 0, 7));
    assert!(!span_fits(u64::MAX, u64::MAX, u64::MAX));
    assert!(span_fits(0, u64::MAX, u64::MAX));
}
