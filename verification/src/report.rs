//! Dependency facts and their aggregation into a ranked report.
//!
//! A report has one section for each architecture that occurs in the facts,
//! in the order in which the architectures are first seen. A section has one
//! group for each library that a file of that architecture asks for. The
//! groups of a section are ranked by the number of files that refer to the
//! library, most first; libraries with equally many files stand in
//! dictionary order of their names.

use vstd::prelude::*;
use crate::arch::Architecture;
use crate::laws::{lemma_report_tidy, spec_tidy};
use crate::names::{
    copy_name, lemma_name_less_total, lemma_name_less_transitive, name_equal, name_less,
    spec_name_less, spec_names,
};

verus! {

/// One library that one file asks for.
#[derive(Clone, Debug, PartialEq, Eq)]
pub struct DependencyFact {
    pub file_path: String,
    pub library_name: Vec<u8>,
    pub architecture: Architecture,
}

/// A dependency fact as plain values.
pub struct FactView {
    pub file_path: Seq<char>,
    pub library_name: Seq<u8>,
    pub architecture: Architecture,
}

impl View for DependencyFact {
    type V = FactView;

    open spec fn view(&self) -> FactView {
        FactView {
            file_path: self.file_path@,
            library_name: self.library_name@,
            architecture: self.architecture,
        }
    }
}

/// The files of one architecture that ask for one library.
#[derive(Clone, Debug, PartialEq, Eq)]
pub struct LibraryGroup {
    pub library_name: Vec<u8>,
    pub architecture: Architecture,
    pub referencing_files: Vec<String>,
}

/// A library group as plain values.
pub struct GroupView {
    pub library_name: Seq<u8>,
    pub architecture: Architecture,
    pub referencing_files: Seq<Seq<char>>,
}

impl View for LibraryGroup {
    type V = GroupView;

    open spec fn view(&self) -> GroupView {
        GroupView {
            library_name: self.library_name@,
            architecture: self.architecture,
            referencing_files: spec_paths(self.referencing_files@),
        }
    }
}

/// The ranked library groups of one architecture.
#[derive(Clone, Debug, PartialEq, Eq)]
pub struct ArchitectureSection {
    pub architecture: Architecture,
    pub groups: Vec<LibraryGroup>,
}

/// A section as plain values.
pub struct SectionView {
    pub architecture: Architecture,
    pub groups: Seq<GroupView>,
}

impl View for ArchitectureSection {
    type V = SectionView;

    open spec fn view(&self) -> SectionView {
        SectionView { architecture: self.architecture, groups: spec_groups(self.groups@) }
    }
}

/// The sections of all architectures, in first-seen order.
#[derive(Clone, Debug, PartialEq, Eq)]
pub struct Report {
    pub sections: Vec<ArchitectureSection>,
}

impl View for Report {
    type V = Seq<SectionView>;

    open spec fn view(&self) -> Seq<SectionView> {
        Seq::new(self.sections@.len(), |i: int| self.sections@[i]@)
    }
}

/// The paths that a vector of strings holds.
pub open spec fn spec_paths(v: Seq<String>) -> Seq<Seq<char>> {
    Seq::new(v.len(), |i: int| v[i]@)
}

/// The facts that a vector holds.
pub open spec fn spec_facts(v: Seq<DependencyFact>) -> Seq<FactView> {
    Seq::new(v.len(), |i: int| v[i]@)
}

/// The groups that a vector holds.
pub open spec fn spec_groups(v: Seq<LibraryGroup>) -> Seq<GroupView> {
    Seq::new(v.len(), |i: int| v[i]@)
}

/// The architectures of the facts, each once, in the order of first
/// occurrence.
pub open spec fn spec_architectures(facts: Seq<FactView>) -> Seq<Architecture>
    decreases facts.len(),
{
    if facts.len() == 0 {
        Seq::empty()
    } else {
        let earlier = spec_architectures(facts.drop_last());
        if earlier.contains(facts.last().architecture) {
            earlier
        } else {
            earlier.push(facts.last().architecture)
        }
    }
}

/// The libraries that files of `arch` ask for, each once, in the order of
/// first occurrence.
pub open spec fn spec_library_names(facts: Seq<FactView>, arch: Architecture) -> Seq<Seq<u8>>
    decreases facts.len(),
{
    if facts.len() == 0 {
        Seq::empty()
    } else {
        let earlier = spec_library_names(facts.drop_last(), arch);
        if facts.last().architecture != arch || earlier.contains(facts.last().library_name) {
            earlier
        } else {
            earlier.push(facts.last().library_name)
        }
    }
}

/// The paths of the facts of `arch` that ask for `name`, in the order of the
/// facts.
pub open spec fn spec_files_of(facts: Seq<FactView>, arch: Architecture, name: Seq<u8>) -> Seq<
    Seq<char>,
>
    decreases facts.len(),
{
    if facts.len() == 0 {
        Seq::empty()
    } else {
        let earlier = spec_files_of(facts.drop_last(), arch, name);
        if facts.last().architecture == arch && facts.last().library_name == name {
            earlier.push(facts.last().file_path)
        } else {
            earlier
        }
    }
}

/// Whether group `g` ranks strictly before group `h`: it has more files, or
/// as many and the smaller name.
pub open spec fn spec_ranks_before(g: GroupView, h: GroupView) -> bool {
    g.referencing_files.len() > h.referencing_files.len() || (g.referencing_files.len()
        == h.referencing_files.len() && spec_name_less(g.library_name, h.library_name))
}

/// The group is the one that the facts give for its library under `arch`.
pub open spec fn spec_group_of(facts: Seq<FactView>, arch: Architecture, g: GroupView) -> bool {
    &&& g.architecture == arch
    &&& g.referencing_files == spec_files_of(facts, arch, g.library_name)
}

/// Every group stands strictly before all that follow it in rank.
pub open spec fn spec_ranked(groups: Seq<GroupView>) -> bool {
    forall|p: int, q: int|
        0 <= p < q < groups.len() ==> spec_ranks_before(#[trigger] groups[p], #[trigger] groups[q])
}

/// The groups are for the libraries in `names` and for no others.
pub open spec fn spec_covers(groups: Seq<GroupView>, names: Seq<Seq<u8>>) -> bool {
    &&& forall|j: int|
        0 <= j < groups.len() ==> names.contains((#[trigger] groups[j]).library_name)
    &&& forall|k: int|
        0 <= k < names.len() ==> exists|j: int|
            0 <= j < groups.len() && (#[trigger] groups[j]).library_name == #[trigger] names[k]
}

/// The section holds exactly the groups that the facts give for its
/// architecture, one for each library, in rank order.
pub open spec fn spec_section_of(facts: Seq<FactView>, s: SectionView) -> bool {
    let names = spec_library_names(facts, s.architecture);
    &&& s.groups.len() == names.len()
    &&& forall|j: int|
        0 <= j < s.groups.len() ==> spec_group_of(facts, s.architecture, #[trigger] s.groups[j])
    &&& spec_covers(s.groups, names)
    &&& spec_ranked(s.groups)
}

/// The report holds one section for each architecture of the facts, in
/// first-seen order, and each section is the one that the facts give.
pub open spec fn spec_is_report_of(facts: Seq<FactView>, r: Seq<SectionView>) -> bool {
    &&& r.len() == spec_architectures(facts).len()
    &&& forall|a: int|
        0 <= a < r.len() ==> (#[trigger] r[a]).architecture == spec_architectures(facts)[a]
            && spec_section_of(facts, r[a])
}

/// Groups of different libraries are ranked one way or the other.
pub proof fn lemma_rank_total(g: GroupView, h: GroupView)
    requires
        g.library_name != h.library_name,
    ensures
        spec_ranks_before(g, h) || spec_ranks_before(h, g),
{
    lemma_name_less_total(g.library_name, h.library_name);
}

/// The rank order passes along a chain of three groups.
pub proof fn lemma_rank_transitive(g: GroupView, h: GroupView, k: GroupView)
    requires
        spec_ranks_before(g, h),
        spec_ranks_before(h, k),
    ensures
        spec_ranks_before(g, k),
{
    if g.referencing_files.len() == h.referencing_files.len() && h.referencing_files.len()
        == k.referencing_files.len() {
        lemma_name_less_transitive(g.library_name, h.library_name, k.library_name);
    }
}

/// No library occurs twice among the library names of an architecture.
pub proof fn lemma_library_names_distinct(facts: Seq<FactView>, arch: Architecture)
    ensures
        spec_library_names(facts, arch).no_duplicates(),
    decreases facts.len(),
{
    if facts.len() > 0 {
        lemma_library_names_distinct(facts.drop_last(), arch);
    }
}

/// No architecture occurs twice among the architectures of the facts.
pub proof fn lemma_architectures_distinct(facts: Seq<FactView>)
    ensures
        spec_architectures(facts).no_duplicates(),
    decreases facts.len(),
{
    if facts.len() > 0 {
        lemma_architectures_distinct(facts.drop_last());
    }
}

/// Tells whether `a` occurs in `v`.
pub fn contains_architecture(v: &Vec<Architecture>, a: Architecture) -> (r: bool)
    ensures
        r == v@.contains(a),
{
    let mut i: usize = 0;
    while i < v.len()
        invariant
            i <= v.len(),
            forall|j: int| 0 <= j < i ==> v@[j] != a,
        decreases v.len() - i,
    {
        if v[i] == a {
            return true;
        }
        i += 1;
    }
    false
}

/// Tells whether the name `n` occurs in `v`.
pub fn contains_name(v: &Vec<Vec<u8>>, n: &Vec<u8>) -> (r: bool)
    ensures
        r == spec_names(v@).contains(n@),
{
    let mut i: usize = 0;
    while i < v.len()
        invariant
            i <= v.len(),
            forall|j: int| 0 <= j < i ==> spec_names(v@)[j] != n@,
        decreases v.len() - i,
    {
        if name_equal(&v[i], n) {
            assert(spec_names(v@)[i as int] == n@);
            return true;
        }
        i += 1;
    }
    false
}

/// Lists the architectures of the facts, each once, in first-seen order.
pub fn architectures(facts: &Vec<DependencyFact>) -> (r: Vec<Architecture>)
    ensures
        r@ == spec_architectures(spec_facts(facts@)),
{
    let ghost all = spec_facts(facts@);
    let mut out: Vec<Architecture> = Vec::new();
    let mut i: usize = 0;
    while i < facts.len()
        invariant
            i <= facts.len(),
            all == spec_facts(facts@),
            out@ == spec_architectures(all.take(i as int)),
        decreases facts.len() - i,
    {
        let a = facts[i].architecture;
        proof {
            assert(all.take(i + 1).drop_last() =~= all.take(i as int));
            assert(all.take(i + 1).last() == all[i as int]);
        }
        if !contains_architecture(&out, a) {
            out.push(a);
        }
        i += 1;
    }
    assert(all.take(facts.len() as int) =~= all);
    out
}

/// Lists the libraries that files of `arch` ask for, each once, in first-seen
/// order.
pub fn library_names(facts: &Vec<DependencyFact>, arch: Architecture) -> (r: Vec<Vec<u8>>)
    ensures
        spec_names(r@) == spec_library_names(spec_facts(facts@), arch),
{
    let ghost all = spec_facts(facts@);
    let mut out: Vec<Vec<u8>> = Vec::new();
    let mut i: usize = 0;
    assert(spec_names(out@) =~= Seq::<Seq<u8>>::empty());
    while i < facts.len()
        invariant
            i <= facts.len(),
            all == spec_facts(facts@),
            spec_names(out@) == spec_library_names(all.take(i as int), arch),
        decreases facts.len() - i,
    {
        proof {
            assert(all.take(i + 1).drop_last() =~= all.take(i as int));
            assert(all.take(i + 1).last() == all[i as int]);
        }
        if facts[i].architecture == arch && !contains_name(&out, &facts[i].library_name) {
            let ghost before = spec_names(out@);
            let name = copy_name(&facts[i].library_name);
            out.push(name);
            assert(spec_names(out@) =~= before.push(all[i as int].library_name));
        }
        i += 1;
    }
    assert(all.take(facts.len() as int) =~= all);
    out
}

/// Lists the paths of the facts of `arch` that ask for `name`, in the order
/// of the facts.
pub fn referencing_files(facts: &Vec<DependencyFact>, arch: Architecture, name: &Vec<u8>) -> (r:
    Vec<String>)
    ensures
        spec_paths(r@) == spec_files_of(spec_facts(facts@), arch, name@),
{
    let ghost all = spec_facts(facts@);
    let mut out: Vec<String> = Vec::new();
    let mut i: usize = 0;
    assert(spec_paths(out@) =~= Seq::<Seq<char>>::empty());
    while i < facts.len()
        invariant
            i <= facts.len(),
            all == spec_facts(facts@),
            spec_paths(out@) == spec_files_of(all.take(i as int), arch, name@),
        decreases facts.len() - i,
    {
        proof {
            assert(all.take(i + 1).drop_last() =~= all.take(i as int));
            assert(all.take(i + 1).last() == all[i as int]);
        }
        if facts[i].architecture == arch && name_equal(&facts[i].library_name, name) {
            let ghost before = spec_paths(out@);
            let path = facts[i].file_path.clone();
            out.push(path);
            assert(spec_paths(out@) =~= before.push(all[i as int].file_path));
        }
        i += 1;
    }
    assert(all.take(facts.len() as int) =~= all);
    out
}

/// Tells whether group `g` ranks strictly before group `h`.
pub fn ranks_before(g: &LibraryGroup, h: &LibraryGroup) -> (r: bool)
    ensures
        r == spec_ranks_before(g@, h@),
{
    let g_count: usize = g.referencing_files.len();
    let h_count: usize = h.referencing_files.len();
    if g_count != h_count {
        g_count > h_count
    } else {
        name_less(&g.library_name, &h.library_name)
    }
}

/// Finds the first place in `groups` whose group `g` ranks before.
pub fn rank_position(groups: &Vec<LibraryGroup>, g: &LibraryGroup) -> (p: usize)
    ensures
        p <= groups.len(),
        forall|j: int| 0 <= j < p ==> !spec_ranks_before(g@, #[trigger] groups@[j]@),
        p < groups.len() ==> spec_ranks_before(g@, groups@[p as int]@),
{
    let mut p: usize = 0;
    while p < groups.len()
        invariant
            p <= groups.len(),
            forall|j: int| 0 <= j < p ==> !spec_ranks_before(g@, #[trigger] groups@[j]@),
        decreases groups.len() - p,
    {
        if ranks_before(g, &groups[p]) {
            return p;
        }
        p += 1;
    }
    p
}

/// Groups that cover some names still do so when a group for one more name
/// is put in among them.
pub proof fn lemma_covers_insert(groups: Seq<GroupView>, names: Seq<Seq<u8>>, at: int, g: GroupView)
    requires
        spec_covers(groups, names),
        0 <= at <= groups.len(),
    ensures
        spec_covers(groups.insert(at, g), names.push(g.library_name)),
{
    let after = groups.insert(at, g);
    let more = names.push(g.library_name);
    groups.insert_ensures(at, g);
    assert forall|j: int| 0 <= j < after.len() implies more.contains(
        (#[trigger] after[j]).library_name,
    ) by {
        if j == at {
            assert(more[names.len() as int] == g.library_name);
        } else {
            let b = if j < at { j } else { j - 1 };
            assert(after[j] == groups[b]) by {
                if j > at {
                    assert(after[(j - 1) + 1] == groups[j - 1]);
                }
            }
            assert(names.contains(groups[b].library_name));
            let k = choose|k: int| 0 <= k < names.len() && names[k] == groups[b].library_name;
            assert(more[k] == after[j].library_name);
        }
    }
    assert forall|k: int| 0 <= k < more.len() implies exists|j: int|
        0 <= j < after.len() && (#[trigger] after[j]).library_name == #[trigger] more[k] by {
        if k == names.len() {
            assert(after[at].library_name == more[k]);
        } else {
            let b = choose|j: int|
                0 <= j < groups.len() && (#[trigger] groups[j]).library_name == names[k];
            if b < at {
                assert(after[b].library_name == more[k]);
            } else {
                assert(after[b + 1] == groups[b]);
                assert(after[b + 1].library_name == more[k]);
            }
        }
    }
}

/// Ranked groups stay ranked when a group is put in behind all that rank
/// before it and in front of all that it ranks before.
pub proof fn lemma_ranked_insert(groups: Seq<GroupView>, at: int, g: GroupView)
    requires
        spec_ranked(groups),
        0 <= at <= groups.len(),
        forall|j: int| 0 <= j < at ==> spec_ranks_before(#[trigger] groups[j], g),
        forall|j: int| at <= j < groups.len() ==> spec_ranks_before(g, #[trigger] groups[j]),
    ensures
        spec_ranked(groups.insert(at, g)),
{
    let after = groups.insert(at, g);
    groups.insert_ensures(at, g);
    assert forall|p: int, q: int| 0 <= p < q < after.len() implies spec_ranks_before(
        #[trigger] after[p],
        #[trigger] after[q],
    ) by {
        let bp = if p < at { p } else { p - 1 };
        let bq = if q < at { q } else { q - 1 };
        if p > at {
            assert(after[(p - 1) + 1] == groups[p - 1]);
        }
        if q > at {
            assert(after[(q - 1) + 1] == groups[q - 1]);
        }
        if p != at && q != at {
            assert(spec_ranks_before(groups[bp], groups[bq]));
        } else if p == at {
            assert(spec_ranks_before(g, groups[bq]));
        } else {
            assert(spec_ranks_before(groups[bp], g));
        }
    }
}

/// Puts a group into ranked groups at the place that its rank gives it.
fn insert_ranked(groups: &mut Vec<LibraryGroup>, g: LibraryGroup) -> (at: usize)
    requires
        spec_ranked(spec_groups(old(groups)@)),
        forall|j: int|
            0 <= j < old(groups)@.len() ==> (#[trigger] old(groups)@[j])@.library_name
                != g@.library_name,
    ensures
        at <= old(groups)@.len(),
        final(groups)@ == old(groups)@.insert(at as int, g),
        spec_groups(final(groups)@) == spec_groups(old(groups)@).insert(at as int, g@),
        spec_ranked(spec_groups(final(groups)@)),
{
    let at = rank_position(groups, &g);
    let ghost before = spec_groups(groups@);
    let ghost gv = g@;
    proof {
        assert forall|j: int| 0 <= j < at implies spec_ranks_before(#[trigger] before[j], gv) by {
            assert(!spec_ranks_before(gv, groups@[j]@));
            lemma_rank_total(gv, before[j]);
        }
        assert forall|j: int| at <= j < before.len() implies spec_ranks_before(
            gv,
            #[trigger] before[j],
        ) by {
            assert(spec_ranks_before(gv, before[at as int]));
            if j > at {
                lemma_rank_transitive(gv, before[at as int], before[j]);
            }
        }
        lemma_ranked_insert(before, at as int, gv);
        groups@.insert_ensures(at as int, g);
        before.insert_ensures(at as int, gv);
    }
    groups.insert(at, g);
    proof {
        let after = spec_groups(groups@);
        let expected = before.insert(at as int, gv);
        assert forall|j: int| 0 <= j < after.len() implies after[j] == expected[j] by {
            if j > at {
                assert(groups@[(j - 1) + 1] == old(groups)@[j - 1]);
                assert(expected[(j - 1) + 1] == before[j - 1]);
            }
        }
        assert(after =~= expected);
    }
    at
}

/// Builds the section of `arch`: one group for each library that its files
/// ask for, in rank order.
pub fn section_of(facts: &Vec<DependencyFact>, arch: Architecture) -> (s: ArchitectureSection)
    ensures
        s@.architecture == arch,
        spec_section_of(spec_facts(facts@), s@),
{
    let ghost all = spec_facts(facts@);
    let names = library_names(facts, arch);
    let ghost wanted = spec_names(names@);
    proof {
        lemma_library_names_distinct(all, arch);
        assert(wanted.take(0) =~= Seq::<Seq<u8>>::empty());
    }
    let mut groups: Vec<LibraryGroup> = Vec::new();
    let mut i: usize = 0;
    while i < names.len()
        invariant
            i <= names.len(),
            all == spec_facts(facts@),
            wanted == spec_names(names@),
            wanted == spec_library_names(all, arch),
            wanted.no_duplicates(),
            groups.len() == i,
            forall|j: int|
                0 <= j < i ==> spec_group_of(all, arch, #[trigger] spec_groups(groups@)[j]),
            spec_covers(spec_groups(groups@), wanted.take(i as int)),
            spec_ranked(spec_groups(groups@)),
        decreases names.len() - i,
    {
        let name = copy_name(&names[i]);
        let files = referencing_files(facts, arch, &name);
        let g = LibraryGroup { library_name: name, architecture: arch, referencing_files: files };
        let ghost before = spec_groups(groups@);
        let ghost gv = g@;
        proof {
            assert(gv.library_name == wanted[i as int]);
            assert forall|j: int| 0 <= j < groups@.len() implies (#[trigger] groups@[j])@.library_name
                != gv.library_name by {
                let n = before[j].library_name;
                assert(wanted.take(i as int).contains(n));
                let k = choose|k: int| 0 <= k < i && wanted.take(i as int)[k] == n;
                assert(wanted[k] == n);
            }
        }
        let at = insert_ranked(&mut groups, g);
        proof {
            lemma_covers_insert(before, wanted.take(i as int), at as int, gv);
            assert(wanted.take(i as int).push(gv.library_name) =~= wanted.take(i + 1));
            before.insert_ensures(at as int, gv);
            let after = spec_groups(groups@);
            assert forall|j: int| 0 <= j < i + 1 implies spec_group_of(
                all,
                arch,
                #[trigger] after[j],
            ) by {
                if j > at {
                    assert(after[(j - 1) + 1] == before[j - 1]);
                } else if j < at {
                    assert(after[j] == before[j]);
                }
            }
        }
        i += 1;
    }
    proof {
        assert(wanted.take(names.len() as int) =~= wanted);
    }
    ArchitectureSection { architecture: arch, groups }
}

/// Aggregates dependency facts into a report.
///
/// The report has one section for each architecture of the facts, in the
/// order in which the architectures first occur. Each section holds one
/// group for each library that a file of its architecture asks for, with the
/// paths of those files in the order of the facts. The groups of a section
/// are ranked by their number of files, most first, and by name where the
/// numbers are equal. So no architecture has two sections, no section is
/// without a group, no group without a file, and no section has two groups
/// for one library.
pub fn aggregate(facts: &Vec<DependencyFact>) -> (r: Report)
    ensures
        spec_is_report_of(spec_facts(facts@), r@),
        spec_tidy(r@),
{
    let ghost all = spec_facts(facts@);
    let archs = architectures(facts);
    let mut sections: Vec<ArchitectureSection> = Vec::new();
    let mut a: usize = 0;
    while a < archs.len()
        invariant
            a <= archs.len(),
            all == spec_facts(facts@),
            archs@ == spec_architectures(all),
            sections.len() == a,
            forall|j: int|
                0 <= j < sections.len() ==> (#[trigger] sections@[j])@.architecture == archs@[j]
                    && spec_section_of(all, sections@[j]@),
        decreases archs.len() - a,
    {
        let s = section_of(facts, archs[a]);
        sections.push(s);
        a += 1;
    }
    let r = Report { sections };
    assert forall|j: int| 0 <= j < r@.len() implies (#[trigger] r@[j]).architecture
        == spec_architectures(all)[j] && spec_section_of(all, r@[j]) by {
        assert(r@[j] == r.sections@[j]@);
    }
    proof {
        lemma_report_tidy(all, r@);
    }
    r
}

/// One fact for each file of the group.
pub open spec fn spec_group_facts(g: GroupView) -> Seq<FactView> {
    Seq::new(
        g.referencing_files.len(),
        |i: int|
            FactView {
                file_path: g.referencing_files[i],
                library_name: g.library_name,
                architecture: g.architecture,
            },
    )
}

/// The facts of the groups, group after group.
pub open spec fn spec_groups_facts(groups: Seq<GroupView>) -> Seq<FactView>
    decreases groups.len(),
{
    if groups.len() == 0 {
        Seq::empty()
    } else {
        spec_groups_facts(groups.drop_last()) + spec_group_facts(groups.last())
    }
}

/// The facts of a report, section after section.
pub open spec fn spec_flatten(r: Seq<SectionView>) -> Seq<FactView>
    decreases r.len(),
{
    if r.len() == 0 {
        Seq::empty()
    } else {
        spec_flatten(r.drop_last()) + spec_groups_facts(r.last().groups)
    }
}

/// Appends one fact for each file of the group.
pub fn push_group_facts(out: &mut Vec<DependencyFact>, g: &LibraryGroup)
    ensures
        spec_facts(final(out)@) == spec_facts(old(out)@) + spec_group_facts(g@),
{
    let ghost before = spec_facts(out@);
    let ghost wanted = spec_group_facts(g@);
    let mut k: usize = 0;
    assert(before + wanted.take(0) =~= before);
    while k < g.referencing_files.len()
        invariant
            k <= g.referencing_files.len(),
            wanted == spec_group_facts(g@),
            spec_facts(out@) == before + wanted.take(k as int),
        decreases g.referencing_files.len() - k,
    {
        let ghost so_far = spec_facts(out@);
        out.push(
            DependencyFact {
                file_path: g.referencing_files[k].clone(),
                library_name: copy_name(&g.library_name),
                architecture: g.architecture,
            },
        );
        k += 1;
        proof {
            let last = wanted[k - 1];
            assert(last.file_path == g.referencing_files@[k - 1]@);
            assert(spec_facts(out@) =~= so_far.push(last));
            assert(wanted.take(k as int) =~= wanted.take(k - 1).push(last));
            assert(so_far.push(last) =~= before + wanted.take(k as int));
        }
    }
    assert(wanted.take(g.referencing_files.len() as int) =~= wanted);
}

/// Appends the facts of the groups of a section, group after group.
pub fn push_section_facts(out: &mut Vec<DependencyFact>, s: &ArchitectureSection)
    ensures
        spec_facts(final(out)@) == spec_facts(old(out)@) + spec_groups_facts(s@.groups),
{
    let ghost before = spec_facts(out@);
    let ghost groups = s@.groups;
    let mut j: usize = 0;
    assert(before + spec_groups_facts(groups.take(0)) =~= before);
    while j < s.groups.len()
        invariant
            j <= s.groups.len(),
            groups == s@.groups,
            spec_facts(out@) == before + spec_groups_facts(groups.take(j as int)),
        decreases s.groups.len() - j,
    {
        let ghost so_far = spec_groups_facts(groups.take(j as int));
        push_group_facts(out, &s.groups[j]);
        j += 1;
        proof {
            assert(groups.take(j as int).drop_last() =~= groups.take(j - 1));
            assert(groups.take(j as int).last() == s.groups@[j - 1]@);
            assert((before + so_far) + spec_group_facts(s.groups@[j - 1]@) =~= before + (so_far
                + spec_group_facts(s.groups@[j - 1]@)));
        }
    }
    assert(groups.take(s.groups.len() as int) =~= groups);
}

/// Lists the facts that a report stands for: for each section in turn, for
/// each of its groups in turn, one fact for each file of the group.
pub fn flatten(report: &Report) -> (r: Vec<DependencyFact>)
    ensures
        spec_facts(r@) == spec_flatten(report@),
{
    let mut out: Vec<DependencyFact> = Vec::new();
    let ghost sections = report@;
    let mut a: usize = 0;
    assert(spec_facts(out@) =~= spec_flatten(sections.take(0)));
    while a < report.sections.len()
        invariant
            a <= report.sections.len(),
            sections == report@,
            spec_facts(out@) == spec_flatten(sections.take(a as int)),
        decreases report.sections.len() - a,
    {
        push_section_facts(&mut out, &report.sections[a]);
        a += 1;
        proof {
            assert(sections.take(a as int).drop_last() =~= sections.take(a - 1));
            assert(sections.take(a as int).last() == report.sections@[a - 1]@);
        }
    }
    assert(sections.take(report.sections.len() as int) =~= sections);
    out
}

} // verus!
