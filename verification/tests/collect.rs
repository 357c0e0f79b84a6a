use elfdeps::arch::Architecture;
use elfdeps::collect::{
    inspect, message, walk_action, Collection, EntryStatus, Event, Inspection, WalkAction, Warning,
    WarningKind,
};
use elfdeps::report::{aggregate, DependencyFact};

fn put(b: &mut Vec<u8>, at: usize, value: u64, width: usize) {
    for i in 0..width {
        b[at + i] = (value >> (8 * i)) as u8;
    }
}

/// A 64-bit little-endian x86-64 file that asks for the given libraries.
fn binary(libraries: &[&str]) -> Vec<u8> {
    let mut strings = vec![0u8];
    let mut offsets = Vec::new();
    for l in libraries {
        offsets.push(strings.len() as u64);
        strings.extend_from_slice(l.as_bytes());
        strings.push(0);
    }
    let dynamic_at = 64 + strings.len();
    let dynamic_len = 16 * (libraries.len() + 1);
    let table = dynamic_at + dynamic_len;
    let mut b = vec![0u8; table + 3 * 64];
    b[..4].copy_from_slice(&[0x7f, b'E', b'L', b'F']);
    b[4] = 2;
    b[5] = 1;
    b[6] = 1;
    put(&mut b, 18, 0x3E, 2);
    put(&mut b, 40, table as u64, 8);
    put(&mut b, 52, 64, 2);
    put(&mut b, 58, 64, 2);
    put(&mut b, 60, 3, 2);
    b[64..dynamic_at].copy_from_slice(&strings);
    for (i, at) in offsets.iter().enumerate() {
        put(&mut b, dynamic_at + 16 * i, 1, 8);
        put(&mut b, dynamic_at + 16 * i + 8, *at, 8);
    }
    put(&mut b, table + 64 + 4, 3, 4);
    put(&mut b, table + 64 + 24, 64, 8);
    put(&mut b, table + 64 + 32, strings.len() as u64, 8);
    put(&mut b, table + 128 + 4, 6, 4);
    put(&mut b, table + 128 + 24, dynamic_at as u64, 8);
    put(&mut b, table + 128 + 32, dynamic_len as u64, 8);
    put(&mut b, table + 128 + 40, 1, 4);
    b
}

fn fact(path: &str, library: &str) -> DependencyFact {
    DependencyFact {
        file_path: path.to_string(),
        library_name: library.as_bytes().to_vec(),
        architecture: Architecture::X86_64,
    }
}

#[test]
fn walk_action_table() {
    assert_eq!(walk_action(EntryStatus::Unreadable, false), WalkAction::Warn);
    assert_eq!(walk_action(EntryStatus::Unreadable, true), WalkAction::Warn);
    assert_eq!(walk_action(EntryStatus::Directory, true), WalkAction::Descend);
    assert_eq!(walk_action(EntryStatus::Directory, false), WalkAction::Emit);
    assert_eq!(walk_action(EntryStatus::File, true), WalkAction::Emit);
    assert_eq!(walk_action(EntryStatus::File, false), WalkAction::Emit);
}

#[test]
fn new_collection_is_empty() {
    let c = Collection::new();
    assert!(c.facts().is_empty());
    assert!(c.warnings().is_empty());
}

#[test]
fn scanned_file_gives_one_fact_for_each_library() {
    let mut c = Collection::new();
    c.scan_file(&"root/tool".to_string(), &binary(&["libc.so.6", "libm.so.6"]));
    assert_eq!(
        c.facts(),
        &vec![fact("root/tool", "libc.so.6"), fact("root/tool", "libm.so.6")]
    );
    assert!(c.warnings().is_empty());
}

#[test]
fn subdirectory_gives_no_facts_when_emitted() {
    let mut c = Collection::new();
    assert_eq!(walk_action(EntryStatus::Directory, false), WalkAction::Emit);
    c.observe(&"root/sub".to_string(), &Event::Directory);
    assert!(c.facts().is_empty());
    assert!(c.warnings().is_empty());
    // In a recursive walk the files inside are emitted under their own paths.
    assert_eq!(walk_action(EntryStatus::Directory, true), WalkAction::Descend);
    c.observe(&"root/sub/tool".to_string(), &Event::Contents(binary(&["libc.so.6"])));
    assert_eq!(c.facts(), &vec![fact("root/sub/tool", "libc.so.6")]);
}

#[test]
fn unreadable_entry_gives_one_warning_and_spares_its_siblings() {
    let mut c = Collection::new();
    c.observe(&"root/a".to_string(), &Event::Contents(binary(&["libc.so.6"])));
    c.observe(&"root/locked".to_string(), &Event::Unreadable);
    c.observe(&"root/b".to_string(), &Event::Contents(binary(&["libz.so.1"])));
    assert_eq!(c.facts(), &vec![fact("root/a", "libc.so.6"), fact("root/b", "libz.so.1")]);
    assert_eq!(
        c.warnings(),
        &vec![Warning { path: "root/locked".to_string(), kind: WarningKind::EntryUnreadable }]
    );
}

#[test]
fn text_file_is_passed_over_in_silence() {
    let mut c = Collection::new();
    c.observe(&"root/readme".to_string(), &Event::Contents(b"plain text\n".to_vec()));
    c.observe(&"root/empty".to_string(), &Event::Contents(Vec::new()));
    assert!(c.facts().is_empty());
    assert!(c.warnings().is_empty());
}

#[test]
fn malformed_file_gives_a_warning_and_the_scan_goes_on() {
    let mut c = Collection::new();
    let mut broken = binary(&["libc.so.6"]);
    let cut = broken.len() - 1;
    broken.truncate(cut);
    c.observe(&"root/broken".to_string(), &Event::Contents(broken));
    c.observe(&"root/fine".to_string(), &Event::Contents(binary(&["libc.so.6"])));
    assert_eq!(c.facts(), &vec![fact("root/fine", "libc.so.6")]);
    assert_eq!(
        c.warnings(),
        &vec![Warning {
            path: "root/broken".to_string(),
            kind: WarningKind::MalformedDynamicSection
        }]
    );
}

#[test]
fn static_file_gives_no_facts_and_no_warning() {
    let mut c = Collection::new();
    c.scan_file(&"root/static".to_string(), &binary(&[]));
    assert!(c.facts().is_empty());
    assert!(c.warnings().is_empty());
}

#[test]
fn inspect_by_architecture() {
    let b = binary(&["libc.so.6"]);
    assert!(matches!(inspect(&b, Architecture::Unparsable), Inspection::Skipped));
    assert!(matches!(inspect(&b, Architecture::Directory), Inspection::Skipped));
    assert!(matches!(inspect(&b[..100], Architecture::X86_64), Inspection::Malformed));
    match inspect(&b, Architecture::X86_64) {
        Inspection::Needed(names) => assert_eq!(names, vec![b"libc.so.6".to_vec()]),
        _ => panic!("the file names one library"),
    }
}

#[test]
fn record_by_inspection() {
    let mut c = Collection::new();
    let path = "p".to_string();
    let needed = Inspection::Needed(vec![b"liba".to_vec(), b"libb".to_vec()]);
    c.record(&path, Architecture::Directory, &needed);
    c.record(&path, Architecture::Unparsable, &needed);
    c.record(&path, Architecture::X86_64, &Inspection::Skipped);
    assert!(c.facts().is_empty());
    c.record(&path, Architecture::X86_64, &needed);
    assert_eq!(c.facts(), &vec![fact("p", "liba"), fact("p", "libb")]);
    assert!(c.warnings().is_empty());
    c.record(&path, Architecture::X86_64, &Inspection::Malformed);
    c.warn_unreadable(&"q".to_string());
    assert_eq!(
        c.warnings(),
        &vec![
            Warning { path: "p".to_string(), kind: WarningKind::MalformedDynamicSection },
            Warning { path: "q".to_string(), kind: WarningKind::EntryUnreadable },
        ]
    );
    assert_eq!(c.facts().len(), 2);
}

#[test]
fn collected_facts_aggregate_into_a_report() {
    let mut c = Collection::new();
    c.observe(&"bin/a".to_string(), &Event::Contents(binary(&["libm.so.6", "libc.so.6"])));
    c.observe(&"bin/b".to_string(), &Event::Contents(binary(&["libc.so.6"])));
    let report = aggregate(c.facts());
    assert_eq!(report.sections.len(), 1);
    let groups = &report.sections[0].groups;
    assert_eq!(groups.len(), 2);
    assert_eq!(groups[0].library_name, b"libc.so.6".to_vec());
    assert_eq!(groups[0].referencing_files, vec!["bin/a".to_string(), "bin/b".to_string()]);
    assert_eq!(groups[1].library_name, b"libm.so.6".to_vec());
    assert_eq!(groups[1].referencing_files, vec!["bin/a".to_string()]);
}

#[test]
fn warning_kinds_in_words() {
    assert_eq!(message(WarningKind::EntryUnreadable), "entry cannot be read");
    assert_eq!(message(WarningKind::MalformedDynamicSection), "malformed dynamic section");
}

#[test]
fn small_big_endian_file_gives_its_facts() {
    // A 32-bit file in most-significant-byte-first order that asks for one library.
    let strings = b"\0libc.so.6\0";
    let mut b = vec![0u8; 52 + strings.len() + 16 + 3 * 40];
    b[..4].copy_from_slice(&[0x7f, b'E', b'L', b'F']);
    b[4] = 1;
    b[5] = 2;
    b[19] = 0x08;
    let dynamic_at = 52 + strings.len();
    let table = dynamic_at + 16;
    b[32..36].copy_from_slice(&(table as u32).to_be_bytes());
    b[46..48].copy_from_slice(&40u16.to_be_bytes());
    b[48..50].copy_from_slice(&3u16.to_be_bytes());
    b[52..dynamic_at].copy_from_slice(strings);
    b[dynamic_at..dynamic_at + 4].copy_from_slice(&1u32.to_be_bytes());
    b[dynamic_at + 4..dynamic_at + 8].copy_from_slice(&1u32.to_be_bytes());
    b[table + 40 + 4..table + 40 + 8].copy_from_slice(&3u32.to_be_bytes());
    b[table + 40 + 16..table + 40 + 20].copy_from_slice(&52u32.to_be_bytes());
    b[table + 40 + 20..table + 40 + 24].copy_from_slice(&(strings.len() as u32).to_be_bytes());
    b[table + 80 + 4..table + 80 + 8].copy_from_slice(&6u32.to_be_bytes());
    b[table + 80 + 16..table + 80 + 20].copy_from_slice(&(dynamic_at as u32).to_be_bytes());
    b[table + 80 + 20..table + 80 + 24].copy_from_slice(&16u32.to_be_bytes());
    b[table + 80 + 24..table + 80 + 28].copy_from_slice(&1u32.to_be_bytes());
    let mut c = Collection::new();
    c.observe(&"root/mips".to_string(), &Event::Contents(b));
    assert_eq!(
        c.facts(),
        &vec![DependencyFact {
            file_path: "root/mips".to_string(),
            library_name: b"libc.so.6".to_vec(),
            architecture: Architecture::Mips,
        }]
    );
    assert!(c.warnings().is_empty());
}
