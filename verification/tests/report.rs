use elfdeps::arch::Architecture;
use elfdeps::names::{copy_name, name_equal, name_less};
use elfdeps::report::{
    aggregate, architectures, flatten, library_names, rank_position, ranks_before,
    referencing_files, section_of, DependencyFact, LibraryGroup, Report,
};

fn fact(path: &str, library: &str, architecture: Architecture) -> DependencyFact {
    DependencyFact {
        file_path: path.to_string(),
        library_name: library.as_bytes().to_vec(),
        architecture,
    }
}

fn group(library: &str, architecture: Architecture, files: &[&str]) -> LibraryGroup {
    LibraryGroup {
        library_name: library.as_bytes().to_vec(),
        architecture,
        referencing_files: files.iter().map(|f| f.to_string()).collect(),
    }
}

fn shape(report: &Report) -> Vec<(Architecture, Vec<(String, Vec<String>)>)> {
    report
        .sections
        .iter()
        .map(|s| {
            let groups = s
                .groups
                .iter()
                .map(|g| {
                    (String::from_utf8(g.library_name.clone()).unwrap(), g.referencing_files.clone())
                })
                .collect();
            (s.architecture, groups)
        })
        .collect()
}

#[test]
fn aggregate_ranks_the_more_referenced_library_first() {
    let facts = vec![
        fact("fileA", "libX", Architecture::X86_64),
        fact("fileB", "libX", Architecture::X86_64),
        fact("fileC", "libY", Architecture::X86_64),
    ];
    let report = aggregate(&facts);
    assert_eq!(report.sections.len(), 1);
    let section = &report.sections[0];
    assert_eq!(section.architecture, Architecture::X86_64);
    assert_eq!(
        section.groups,
        vec![
            group("libX", Architecture::X86_64, &["fileA", "fileB"]),
            group("libY", Architecture::X86_64, &["fileC"]),
        ]
    );
}

#[test]
fn aggregate_ranks_by_count_whatever_the_order_of_the_facts() {
    let facts = vec![
        fact("fileC", "libY", Architecture::X86_64),
        fact("fileA", "libX", Architecture::X86_64),
        fact("fileB", "libX", Architecture::X86_64),
    ];
    let report = aggregate(&facts);
    assert_eq!(
        report.sections[0].groups,
        vec![
            group("libX", Architecture::X86_64, &["fileA", "fileB"]),
            group("libY", Architecture::X86_64, &["fileC"]),
        ]
    );
}

#[test]
fn aggregate_breaks_ties_by_name() {
    let facts = vec![
        fact("a", "libz.so", Architecture::Arm),
        fact("a", "liba.so", Architecture::Arm),
        fact("b", "libm.so", Architecture::Arm),
        fact("b", "libm.so.6", Architecture::Arm),
    ];
    let report = aggregate(&facts);
    let names: Vec<String> = shape(&report)[0].1.iter().map(|g| g.0.clone()).collect();
    assert_eq!(names, vec!["liba.so", "libm.so", "libm.so.6", "libz.so"]);
}

#[test]
fn aggregate_keeps_architectures_in_first_seen_order() {
    let facts = vec![
        fact("one", "libc", Architecture::RiscV),
        fact("two", "libc", Architecture::X86),
        fact("three", "libm", Architecture::RiscV),
        fact("four", "libc", Architecture::Unknown(5)),
        fact("five", "libc", Architecture::X86),
    ];
    let report = aggregate(&facts);
    assert_eq!(
        shape(&report),
        vec![
            (
                Architecture::RiscV,
                vec![
                    ("libc".to_string(), vec!["one".to_string()]),
                    ("libm".to_string(), vec!["three".to_string()]),
                ]
            ),
            (
                Architecture::X86,
                vec![("libc".to_string(), vec!["two".to_string(), "five".to_string()])]
            ),
            (Architecture::Unknown(5), vec![("libc".to_string(), vec!["four".to_string()])]),
        ]
    );
}

#[test]
fn aggregate_of_nothing_is_empty() {
    let report = aggregate(&Vec::new());
    assert!(report.sections.is_empty());
    assert!(flatten(&report).is_empty());
}

#[test]
fn aggregate_keeps_a_file_that_asks_twice() {
    let facts = vec![
        fact("one", "libc", Architecture::X86),
        fact("one", "libc", Architecture::X86),
    ];
    let report = aggregate(&facts);
    assert_eq!(report.sections[0].groups, vec![group("libc", Architecture::X86, &["one", "one"])]);
}

#[test]
fn aggregate_again_gives_the_same_report() {
    let facts = vec![
        fact("bin/a", "libm.so.6", Architecture::X86_64),
        fact("bin/a", "libc.so.6", Architecture::X86_64),
        fact("bin/b", "libc.so.6", Architecture::AArch64),
        fact("bin/c", "libc.so.6", Architecture::X86_64),
        fact("bin/d", "libz.so.1", Architecture::AArch64),
        fact("bin/e", "libz.so.1", Architecture::X86_64),
        fact("bin/f", "liba.so.1", Architecture::AArch64),
    ];
    let report = aggregate(&facts);
    let again = aggregate(&flatten(&report));
    assert_eq!(again, report);
    assert_eq!(aggregate(&flatten(&again)), report);
}

#[test]
fn flatten_lists_facts_group_by_group() {
    let facts = vec![
        fact("c", "libY", Architecture::X86_64),
        fact("a", "libX", Architecture::X86_64),
        fact("z", "libX", Architecture::Arm),
        fact("b", "libX", Architecture::X86_64),
    ];
    let flat = flatten(&aggregate(&facts));
    assert_eq!(
        flat,
        vec![
            fact("a", "libX", Architecture::X86_64),
            fact("b", "libX", Architecture::X86_64),
            fact("c", "libY", Architecture::X86_64),
            fact("z", "libX", Architecture::Arm),
        ]
    );
}

#[test]
fn grouping_steps_on_their_own() {
    let facts = vec![
        fact("a", "libm", Architecture::X86),
        fact("b", "libc", Architecture::Arm),
        fact("c", "libm", Architecture::X86),
        fact("d", "libc", Architecture::X86),
    ];
    assert_eq!(architectures(&facts), vec![Architecture::X86, Architecture::Arm]);
    assert_eq!(library_names(&facts, Architecture::X86), vec![b"libm".to_vec(), b"libc".to_vec()]);
    assert_eq!(library_names(&facts, Architecture::Mips), Vec::<Vec<u8>>::new());
    assert_eq!(
        referencing_files(&facts, Architecture::X86, &b"libm".to_vec()),
        vec!["a".to_string(), "c".to_string()]
    );
    assert!(referencing_files(&facts, Architecture::Arm, &b"libm".to_vec()).is_empty());
    let section = section_of(&facts, Architecture::X86);
    assert_eq!(section.architecture, Architecture::X86);
    assert_eq!(
        section.groups,
        vec![
            group("libm", Architecture::X86, &["a", "c"]),
            group("libc", Architecture::X86, &["d"]),
        ]
    );
}

#[test]
fn rank_order_of_groups() {
    let two = group("libz", Architecture::X86, &["a", "b"]);
    let one = group("liba", Architecture::X86, &["a"]);
    let other = group("libb", Architecture::X86, &["c"]);
    assert!(ranks_before(&two, &one));
    assert!(!ranks_before(&one, &two));
    assert!(ranks_before(&one, &other));
    assert!(!ranks_before(&other, &one));
    assert!(!ranks_before(&one, &one));
    let groups = vec![two.clone(), other.clone()];
    assert_eq!(rank_position(&groups, &one), 1);
    assert_eq!(rank_position(&groups, &group("libzz", Architecture::X86, &["q"])), 2);
    assert_eq!(rank_position(&groups, &group("lib", Architecture::X86, &["q", "r", "s"])), 0);
}

#[test]
fn names_in_dictionary_order() {
    let a = b"libc.so".to_vec();
    let b = b"libc.so.6".to_vec();
    let c = b"libd".to_vec();
    assert!(name_less(&a, &b));
    assert!(!name_less(&b, &a));
    assert!(name_less(&b, &c));
    assert!(name_less(&a, &c));
    assert!(!name_less(&a, &a));
    assert!(name_less(&Vec::new(), &a));
    assert!(!name_less(&a, &Vec::new()));
    assert!(name_less(&vec![0x7f], &vec![0x80]));
    assert!(name_equal(&a, &a.clone()));
    assert!(!name_equal(&a, &b));
    assert_eq!(copy_name(&b), b);
}
