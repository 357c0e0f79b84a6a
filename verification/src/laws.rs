//! What holds of every report: the facts determine their report, and the
//! report of a report's own facts is that report again.

use vstd::prelude::*;
use crate::arch::Architecture;
use crate::names::lemma_name_less_asymmetric;
use crate::report::{
    FactView, GroupView, SectionView, spec_architectures, spec_covers, spec_files_of,
    spec_flatten, spec_group_facts, spec_group_of, spec_groups_facts, spec_is_report_of,
    spec_library_names, spec_ranked, spec_ranks_before, spec_section_of,
    lemma_architectures_distinct,
};

verus! {

/// No group ranks before one that ranks before it, nor before itself.
pub proof fn lemma_rank_asymmetric(g: GroupView, h: GroupView)
    requires
        spec_ranks_before(g, h),
    ensures
        !spec_ranks_before(h, g),
        g != h,
{
    if g.referencing_files.len() == h.referencing_files.len() {
        lemma_name_less_asymmetric(g.library_name, h.library_name);
    }
}

/// The place of the group for `name` among `groups`.
pub open spec fn spec_place(groups: Seq<GroupView>, name: Seq<u8>) -> int {
    choose|j: int| 0 <= j < groups.len() && (#[trigger] groups[j]).library_name == name
}

/// Every group of one section of the facts stands somewhere in any other
/// section of the same facts and architecture.
pub proof fn lemma_place(facts: Seq<FactView>, s: SectionView, t: SectionView, i: int)
    requires
        s.architecture == t.architecture,
        spec_section_of(facts, s),
        spec_section_of(facts, t),
        0 <= i < s.groups.len(),
    ensures
        0 <= spec_place(t.groups, s.groups[i].library_name) < t.groups.len(),
        t.groups[spec_place(t.groups, s.groups[i].library_name)] == s.groups[i],
{
    let names = spec_library_names(facts, s.architecture);
    let n = s.groups[i].library_name;
    assert(names.contains(n));
    let k = choose|k: int| 0 <= k < names.len() && names[k] == n;
    assert(exists|j: int| 0 <= j < t.groups.len() && (#[trigger] t.groups[j]).library_name == names[k]);
    let j = spec_place(t.groups, n);
    assert(spec_group_of(facts, s.architecture, s.groups[i]));
    assert(spec_group_of(facts, t.architecture, t.groups[j]));
}

/// Groups that follow one another in one section do so in the other.
pub proof fn lemma_place_increasing(
    facts: Seq<FactView>,
    s: SectionView,
    t: SectionView,
    i: int,
    k: int,
)
    requires
        s.architecture == t.architecture,
        spec_section_of(facts, s),
        spec_section_of(facts, t),
        0 <= i < k < s.groups.len(),
    ensures
        spec_place(t.groups, s.groups[i].library_name) < spec_place(
            t.groups,
            s.groups[k].library_name,
        ),
{
    lemma_place(facts, s, t, i);
    lemma_place(facts, s, t, k);
    let pi = spec_place(t.groups, s.groups[i].library_name);
    let pk = spec_place(t.groups, s.groups[k].library_name);
    assert(spec_ranks_before(s.groups[i], s.groups[k]));
    lemma_rank_asymmetric(s.groups[i], s.groups[k]);
    if pi > pk {
        assert(spec_ranks_before(t.groups[pk], t.groups[pi]));
    }
}

/// A group stands no earlier in the other section than in its own.
pub proof fn lemma_place_lower(facts: Seq<FactView>, s: SectionView, t: SectionView, i: int)
    requires
        s.architecture == t.architecture,
        spec_section_of(facts, s),
        spec_section_of(facts, t),
        0 <= i < s.groups.len(),
    ensures
        i <= spec_place(t.groups, s.groups[i].library_name),
    decreases i,
{
    lemma_place(facts, s, t, i);
    if i > 0 {
        lemma_place_lower(facts, s, t, i - 1);
        lemma_place_increasing(facts, s, t, i - 1, i);
    }
}

/// A group stands no later in the other section than in its own.
pub proof fn lemma_place_upper(facts: Seq<FactView>, s: SectionView, t: SectionView, i: int)
    requires
        s.architecture == t.architecture,
        spec_section_of(facts, s),
        spec_section_of(facts, t),
        0 <= i < s.groups.len(),
    ensures
        spec_place(t.groups, s.groups[i].library_name) <= i,
    decreases s.groups.len() - i,
{
    lemma_place(facts, s, t, i);
    if i + 1 < s.groups.len() {
        lemma_place_upper(facts, s, t, i + 1);
        lemma_place_increasing(facts, s, t, i, i + 1);
    }
}

/// The facts and the architecture determine the section.
pub proof fn lemma_section_unique(facts: Seq<FactView>, s: SectionView, t: SectionView)
    requires
        s.architecture == t.architecture,
        spec_section_of(facts, s),
        spec_section_of(facts, t),
    ensures
        s == t,
{
    assert forall|i: int| 0 <= i < s.groups.len() implies s.groups[i] == t.groups[i] by {
        lemma_place(facts, s, t, i);
        lemma_place_lower(facts, s, t, i);
        lemma_place_upper(facts, s, t, i);
    }
    assert(s.groups =~= t.groups);
}

/// The facts determine their report: two reports of the same facts are
/// equal.
pub proof fn lemma_report_unique(facts: Seq<FactView>, r: Seq<SectionView>, t: Seq<SectionView>)
    requires
        spec_is_report_of(facts, r),
        spec_is_report_of(facts, t),
    ensures
        r == t,
{
    assert forall|a: int| 0 <= a < r.len() implies r[a] == t[a] by {
        lemma_section_unique(facts, r[a], t[a]);
    }
    assert(r =~= t);
}

/// Every fact is of the architecture.
pub open spec fn spec_all_of_arch(facts: Seq<FactView>, arch: Architecture) -> bool {
    forall|k: int| 0 <= k < facts.len() ==> (#[trigger] facts[k]).architecture == arch
}

/// No fact is of the architecture.
pub open spec fn spec_none_of_arch(facts: Seq<FactView>, arch: Architecture) -> bool {
    forall|k: int| 0 <= k < facts.len() ==> (#[trigger] facts[k]).architecture != arch
}

/// Every fact asks for the library.
pub open spec fn spec_all_named(facts: Seq<FactView>, name: Seq<u8>) -> bool {
    forall|k: int| 0 <= k < facts.len() ==> (#[trigger] facts[k]).library_name == name
}

/// No fact asks for the library.
pub open spec fn spec_none_named(facts: Seq<FactView>, name: Seq<u8>) -> bool {
    forall|k: int| 0 <= k < facts.len() ==> (#[trigger] facts[k]).library_name != name
}

/// The names of the groups, in their order.
pub open spec fn spec_group_names(groups: Seq<GroupView>) -> Seq<Seq<u8>> {
    Seq::new(groups.len(), |j: int| groups[j].library_name)
}

/// The paths of a sequence of facts taken together are those of its parts.
pub proof fn lemma_files_concat(a: Seq<FactView>, b: Seq<FactView>, arch: Architecture, name: Seq<u8>)
    ensures
        spec_files_of(a + b, arch, name) == spec_files_of(a, arch, name) + spec_files_of(
            b,
            arch,
            name,
        ),
    decreases b.len(),
{
    if b.len() == 0 {
        assert(a + b =~= a);
        assert(spec_files_of(a, arch, name) + spec_files_of(b, arch, name) =~= spec_files_of(
            a,
            arch,
            name,
        ));
    } else {
        assert((a + b).drop_last() =~= a + b.drop_last());
        assert((a + b).last() == b.last());
        lemma_files_concat(a, b.drop_last(), arch, name);
        let fa = spec_files_of(a, arch, name);
        let fb = spec_files_of(b.drop_last(), arch, name);
        assert((fa + fb).push(b.last().file_path) =~= fa + fb.push(b.last().file_path));
    }
}

/// Facts of which none is of the architecture and for the library give no
/// paths.
pub proof fn lemma_files_none(b: Seq<FactView>, arch: Architecture, name: Seq<u8>)
    requires
        spec_none_of_arch(b, arch) || spec_none_named(b, name),
    ensures
        spec_files_of(b, arch, name) == Seq::<Seq<char>>::empty(),
    decreases b.len(),
{
    if b.len() > 0 {
        assert(b.last() == b[b.len() - 1]);
        assert forall|k: int| 0 <= k < b.drop_last().len() implies b.drop_last()[k] == b[k] by {}
        lemma_files_none(b.drop_last(), arch, name);
    }
}

/// The facts of a group give back the files of the group.
pub proof fn lemma_files_group(g: GroupView)
    ensures
        spec_files_of(spec_group_facts(g), g.architecture, g.library_name) == g.referencing_files,
    decreases g.referencing_files.len(),
{
    let facts = spec_group_facts(g);
    if g.referencing_files.len() > 0 {
        let shorter = GroupView {
            library_name: g.library_name,
            architecture: g.architecture,
            referencing_files: g.referencing_files.drop_last(),
        };
        assert(facts.drop_last() =~= spec_group_facts(shorter));
        lemma_files_group(shorter);
        assert(facts.last().file_path == g.referencing_files.last());
        assert(g.referencing_files.drop_last().push(g.referencing_files.last())
            =~= g.referencing_files);
    } else {
        assert(g.referencing_files =~= Seq::<Seq<char>>::empty());
    }
}

/// Facts for one new library of the architecture add its name behind the
/// library names.
pub proof fn lemma_names_block(a: Seq<FactView>, b: Seq<FactView>, arch: Architecture, name: Seq<u8>)
    requires
        b.len() > 0,
        spec_all_of_arch(b, arch),
        spec_all_named(b, name),
        !spec_library_names(a, arch).contains(name),
    ensures
        spec_library_names(a + b, arch) == spec_library_names(a, arch).push(name),
    decreases b.len(),
{
    assert((a + b).drop_last() =~= a + b.drop_last());
    assert((a + b).last() == b[b.len() - 1]);
    if b.len() == 1 {
        assert(a + b.drop_last() =~= a);
    } else {
        assert forall|k: int| 0 <= k < b.drop_last().len() implies b.drop_last()[k] == b[k] by {}
        lemma_names_block(a, b.drop_last(), arch, name);
        let earlier = spec_library_names(a, arch).push(name);
        assert(earlier[earlier.len() - 1] == name);
    }
}

/// Facts of other architectures leave the library names as they are.
pub proof fn lemma_names_other(a: Seq<FactView>, b: Seq<FactView>, arch: Architecture)
    requires
        spec_none_of_arch(b, arch),
    ensures
        spec_library_names(a + b, arch) == spec_library_names(a, arch),
    decreases b.len(),
{
    if b.len() == 0 {
        assert(a + b =~= a);
    } else {
        assert((a + b).drop_last() =~= a + b.drop_last());
        assert((a + b).last() == b[b.len() - 1]);
        assert forall|k: int| 0 <= k < b.drop_last().len() implies b.drop_last()[k] == b[k] by {}
        lemma_names_other(a, b.drop_last(), arch);
    }
}

/// Facts of one new architecture add it behind the architectures.
pub proof fn lemma_archs_block(a: Seq<FactView>, b: Seq<FactView>, arch: Architecture)
    requires
        b.len() > 0,
        spec_all_of_arch(b, arch),
        !spec_architectures(a).contains(arch),
    ensures
        spec_architectures(a + b) == spec_architectures(a).push(arch),
    decreases b.len(),
{
    assert((a + b).drop_last() =~= a + b.drop_last());
    assert((a + b).last() == b[b.len() - 1]);
    if b.len() == 1 {
        assert(a + b.drop_last() =~= a);
    } else {
        assert forall|k: int| 0 <= k < b.drop_last().len() implies b.drop_last()[k] == b[k] by {}
        lemma_archs_block(a, b.drop_last(), arch);
        let earlier = spec_architectures(a).push(arch);
        assert(earlier[earlier.len() - 1] == arch);
    }
}

/// The groups are all of the architecture, each has a file, and no two are
/// for the same library.
pub open spec fn spec_good_groups(groups: Seq<GroupView>, arch: Architecture) -> bool {
    &&& forall|j: int|
        0 <= j < groups.len() ==> (#[trigger] groups[j]).architecture == arch
            && groups[j].referencing_files.len() > 0
    &&& forall|i: int, j: int|
        0 <= i < j < groups.len() ==> (#[trigger] groups[i]).library_name != (
        #[trigger] groups[j]).library_name
}

/// The facts of groups of one architecture are of that architecture.
pub proof fn lemma_groups_facts_arch(groups: Seq<GroupView>, arch: Architecture)
    requires
        forall|j: int| 0 <= j < groups.len() ==> (#[trigger] groups[j]).architecture == arch,
    ensures
        spec_all_of_arch(spec_groups_facts(groups), arch),
    decreases groups.len(),
{
    if groups.len() > 0 {
        assert forall|j: int| 0 <= j < groups.drop_last().len() implies (
        #[trigger] groups.drop_last()[j]).architecture == arch by {
            assert(groups.drop_last()[j] == groups[j]);
        }
        lemma_groups_facts_arch(groups.drop_last(), arch);
        assert(groups.last() == groups[groups.len() - 1]);
    }
}

/// The facts of groups for other libraries do not ask for the library.
pub proof fn lemma_groups_facts_named(groups: Seq<GroupView>, name: Seq<u8>)
    requires
        forall|j: int| 0 <= j < groups.len() ==> (#[trigger] groups[j]).library_name != name,
    ensures
        spec_none_named(spec_groups_facts(groups), name),
    decreases groups.len(),
{
    if groups.len() > 0 {
        assert forall|j: int| 0 <= j < groups.drop_last().len() implies (
        #[trigger] groups.drop_last()[j]).library_name != name by {
            assert(groups.drop_last()[j] == groups[j]);
        }
        lemma_groups_facts_named(groups.drop_last(), name);
        assert(groups.last() == groups[groups.len() - 1]);
    }
}

/// Groups that each have a file give at least one fact.
pub proof fn lemma_groups_facts_nonempty(groups: Seq<GroupView>)
    requires
        groups.len() > 0,
        forall|j: int| 0 <= j < groups.len() ==> (#[trigger] groups[j]).referencing_files.len() > 0,
    ensures
        spec_groups_facts(groups).len() > 0,
{
    assert(groups.last() == groups[groups.len() - 1]);
}

/// A shorter run of good groups is good.
pub proof fn lemma_good_groups_shorter(groups: Seq<GroupView>, arch: Architecture)
    requires
        spec_good_groups(groups, arch),
        groups.len() > 0,
    ensures
        spec_good_groups(groups.drop_last(), arch),
        forall|j: int|
            0 <= j < groups.len() - 1 ==> (#[trigger] groups[j]).library_name
                != groups.last().library_name,
{
    let shorter = groups.drop_last();
    assert forall|j: int| 0 <= j < shorter.len() implies (#[trigger] shorter[j]).architecture
        == arch && shorter[j].referencing_files.len() > 0 by {
        assert(shorter[j] == groups[j]);
    }
    assert forall|i: int, j: int| 0 <= i < j < shorter.len() implies (
    #[trigger] shorter[i]).library_name != (#[trigger] shorter[j]).library_name by {
        assert(shorter[i] == groups[i]);
        assert(shorter[j] == groups[j]);
    }
    assert(groups.last() == groups[groups.len() - 1]);
}

/// Behind facts of other architectures, the facts of good groups give the
/// names of the groups as library names, in the order of the groups.
pub proof fn lemma_names_groups(a: Seq<FactView>, groups: Seq<GroupView>, arch: Architecture)
    requires
        spec_none_of_arch(a, arch),
        spec_good_groups(groups, arch),
    ensures
        spec_library_names(a + spec_groups_facts(groups), arch) == spec_group_names(groups),
    decreases groups.len(),
{
    if groups.len() == 0 {
        assert(a + spec_groups_facts(groups) =~= Seq::<FactView>::empty() + a);
        lemma_names_other(Seq::<FactView>::empty(), a, arch);
        assert(spec_group_names(groups) =~= Seq::<Seq<u8>>::empty());
    } else {
        let shorter = groups.drop_last();
        let last = groups.last();
        lemma_good_groups_shorter(groups, arch);
        lemma_names_groups(a, shorter, arch);
        let block = spec_group_facts(last);
        let front = a + spec_groups_facts(shorter);
        assert(front + block =~= a + spec_groups_facts(groups));
        assert(last == groups[groups.len() - 1]);
        assert(!spec_group_names(shorter).contains(last.library_name)) by {
            if spec_group_names(shorter).contains(last.library_name) {
                let j = choose|j: int|
                    0 <= j < shorter.len() && spec_group_names(shorter)[j] == last.library_name;
                assert(groups[j].library_name == last.library_name);
            }
        }
        lemma_names_block(front, block, arch, last.library_name);
        assert(spec_group_names(shorter).push(last.library_name) =~= spec_group_names(groups));
    }
}

/// The facts of good groups give back the files of each group.
pub proof fn lemma_files_groups(groups: Seq<GroupView>, arch: Architecture, j: int)
    requires
        spec_good_groups(groups, arch),
        0 <= j < groups.len(),
    ensures
        spec_files_of(spec_groups_facts(groups), arch, groups[j].library_name)
            == groups[j].referencing_files,
    decreases groups.len(),
{
    let shorter = groups.drop_last();
    let last = groups.last();
    let name = groups[j].library_name;
    lemma_good_groups_shorter(groups, arch);
    lemma_files_concat(spec_groups_facts(shorter), spec_group_facts(last), arch, name);
    assert(last == groups[groups.len() - 1]);
    if j == groups.len() - 1 {
        assert forall|i: int| 0 <= i < shorter.len() implies (#[trigger] shorter[i]).library_name
            != name by {
            assert(shorter[i] == groups[i]);
        }
        lemma_groups_facts_named(shorter, name);
        lemma_files_none(spec_groups_facts(shorter), arch, name);
        lemma_files_group(last);
        assert(Seq::<Seq<char>>::empty() + last.referencing_files =~= last.referencing_files);
    } else {
        assert(shorter[j] == groups[j]);
        lemma_files_groups(shorter, arch, j);
        assert(spec_none_named(spec_group_facts(last), name));
        lemma_files_none(spec_group_facts(last), arch, name);
        assert(groups[j].referencing_files + Seq::<Seq<char>>::empty()
            =~= groups[j].referencing_files);
    }
}

/// The section has a group, its groups are good and they are ranked.
pub open spec fn spec_tidy_section(s: SectionView) -> bool {
    &&& s.groups.len() > 0
    &&& spec_good_groups(s.groups, s.architecture)
    &&& spec_ranked(s.groups)
}

/// A report as aggregation gives it: no architecture has two sections, and
/// every section is tidy.
pub open spec fn spec_tidy(r: Seq<SectionView>) -> bool {
    &&& forall|a: int, b: int|
        0 <= a < b < r.len() ==> (#[trigger] r[a]).architecture != (#[trigger] r[b]).architecture
    &&& forall|a: int| 0 <= a < r.len() ==> spec_tidy_section(#[trigger] r[a])
}

/// The architectures of the sections, in their order.
pub open spec fn spec_section_archs(r: Seq<SectionView>) -> Seq<Architecture> {
    Seq::new(r.len(), |a: int| r[a].architecture)
}

/// The facts of the first `m` sections of a tidy report have the
/// architectures of those sections, in their order.
pub proof fn lemma_flatten_archs(r: Seq<SectionView>, m: int)
    requires
        spec_tidy(r),
        0 <= m <= r.len(),
    ensures
        spec_architectures(spec_flatten(r.take(m))) == spec_section_archs(r).take(m),
    decreases m,
{
    if m == 0 {
        assert(spec_section_archs(r).take(m) =~= Seq::<Architecture>::empty());
    } else {
        lemma_flatten_archs(r, m - 1);
        assert(r.take(m).drop_last() =~= r.take(m - 1));
        assert(r.take(m).last() == r[m - 1]);
        let front = spec_flatten(r.take(m - 1));
        let s = r[m - 1];
        let block = spec_groups_facts(s.groups);
        assert(spec_tidy_section(s));
        lemma_groups_facts_arch(s.groups, s.architecture);
        lemma_groups_facts_nonempty(s.groups);
        let seen = spec_section_archs(r).take(m - 1);
        assert(!seen.contains(s.architecture)) by {
            if seen.contains(s.architecture) {
                let a = choose|a: int| 0 <= a < seen.len() && seen[a] == s.architecture;
                assert(r[a].architecture == r[m - 1].architecture);
            }
        }
        lemma_archs_block(front, block, s.architecture);
        assert(seen.push(s.architecture) =~= spec_section_archs(r).take(m));
    }
}

/// The facts of the first `m` sections hold no fact of an architecture that
/// none of those sections has.
pub proof fn lemma_flatten_none_of_arch(r: Seq<SectionView>, m: int, arch: Architecture)
    requires
        spec_tidy(r),
        0 <= m <= r.len(),
        forall|a: int| 0 <= a < m ==> (#[trigger] r[a]).architecture != arch,
    ensures
        spec_none_of_arch(spec_flatten(r.take(m)), arch),
    decreases m,
{
    if m > 0 {
        lemma_flatten_none_of_arch(r, m - 1, arch);
        assert(r.take(m).drop_last() =~= r.take(m - 1));
        assert(r.take(m).last() == r[m - 1]);
        let s = r[m - 1];
        assert(spec_tidy_section(s));
        lemma_groups_facts_arch(s.groups, s.architecture);
    }
}

/// In the facts of the first `m` sections of a tidy report, section `a`
/// finds its own library names and, for each group, its own files.
pub proof fn lemma_flatten_section(r: Seq<SectionView>, a: int, m: int)
    requires
        spec_tidy(r),
        0 <= a < m <= r.len(),
    ensures
        spec_library_names(spec_flatten(r.take(m)), r[a].architecture) == spec_group_names(
            r[a].groups,
        ),
        forall|j: int|
            0 <= j < r[a].groups.len() ==> spec_files_of(
                spec_flatten(r.take(m)),
                r[a].architecture,
                (#[trigger] r[a].groups[j]).library_name,
            ) == r[a].groups[j].referencing_files,
    decreases m,
{
    let arch = r[a].architecture;
    let groups = r[a].groups;
    let front = spec_flatten(r.take(m - 1));
    let s = r[m - 1];
    let block = spec_groups_facts(s.groups);
    assert(r.take(m).drop_last() =~= r.take(m - 1));
    assert(r.take(m).last() == r[m - 1]);
    assert(spec_tidy_section(s));
    assert(spec_tidy_section(r[a]));
    lemma_groups_facts_arch(s.groups, s.architecture);
    if m == a + 1 {
        lemma_flatten_none_of_arch(r, a, arch);
        lemma_names_groups(front, groups, arch);
        assert forall|j: int| 0 <= j < groups.len() implies spec_files_of(
            spec_flatten(r.take(m)),
            arch,
            (#[trigger] groups[j]).library_name,
        ) == groups[j].referencing_files by {
            let name = groups[j].library_name;
            lemma_files_concat(front, block, arch, name);
            lemma_files_none(front, arch, name);
            lemma_files_groups(groups, arch, j);
            assert(Seq::<Seq<char>>::empty() + groups[j].referencing_files
                =~= groups[j].referencing_files);
        }
    } else {
        lemma_flatten_section(r, a, m - 1);
        assert(r[a].architecture != r[m - 1].architecture);
        assert(spec_none_of_arch(block, arch));
        lemma_names_other(front, block, arch);
        assert forall|j: int| 0 <= j < groups.len() implies spec_files_of(
            spec_flatten(r.take(m)),
            arch,
            (#[trigger] groups[j]).library_name,
        ) == groups[j].referencing_files by {
            let name = groups[j].library_name;
            lemma_files_concat(front, block, arch, name);
            lemma_files_none(block, arch, name);
            assert(groups[j].referencing_files + Seq::<Seq<char>>::empty()
                =~= groups[j].referencing_files);
        }
    }
}

/// A tidy report is the report of its own facts.
pub proof fn lemma_tidy_self_report(r: Seq<SectionView>)
    requires
        spec_tidy(r),
    ensures
        spec_is_report_of(spec_flatten(r), r),
{
    let facts = spec_flatten(r);
    assert(r.take(r.len() as int) =~= r);
    lemma_flatten_archs(r, r.len() as int);
    assert(spec_section_archs(r).take(r.len() as int) =~= spec_section_archs(r));
    assert forall|a: int| 0 <= a < r.len() implies (#[trigger] r[a]).architecture
        == spec_architectures(facts)[a] && spec_section_of(facts, r[a]) by {
        lemma_flatten_section(r, a, r.len() as int);
        let s = r[a];
        let names = spec_library_names(facts, s.architecture);
        assert(spec_tidy_section(s));
        assert(names == spec_group_names(s.groups));
        assert forall|j: int| 0 <= j < s.groups.len() implies names.contains(
            (#[trigger] s.groups[j]).library_name,
        ) by {
            assert(names[j] == s.groups[j].library_name);
        }
        assert forall|k: int| 0 <= k < names.len() implies exists|j: int|
            0 <= j < s.groups.len() && (#[trigger] s.groups[j]).library_name
                == #[trigger] names[k] by {
            assert(s.groups[k].library_name == names[k]);
        }
        assert(spec_covers(s.groups, names));
    }
}

/// Every architecture of the facts is that of one of them.
pub proof fn lemma_architectures_occur(facts: Seq<FactView>, a: int)
    requires
        0 <= a < spec_architectures(facts).len(),
    ensures
        exists|k: int|
            0 <= k < facts.len() && (#[trigger] facts[k]).architecture == spec_architectures(
                facts,
            )[a],
    decreases facts.len(),
{
    let earlier = spec_architectures(facts.drop_last());
    if a < earlier.len() {
        lemma_architectures_occur(facts.drop_last(), a);
        let k = choose|k: int|
            0 <= k < facts.drop_last().len() && (#[trigger] facts.drop_last()[k]).architecture
                == earlier[a];
        assert(facts[k].architecture == spec_architectures(facts)[a]);
    } else {
        assert(facts[facts.len() - 1].architecture == spec_architectures(facts)[a]);
    }
}

/// The library of every fact of an architecture is among the library names
/// of that architecture.
pub proof fn lemma_names_cover(facts: Seq<FactView>, arch: Architecture, k: int)
    requires
        0 <= k < facts.len(),
        facts[k].architecture == arch,
    ensures
        spec_library_names(facts, arch).contains(facts[k].library_name),
    decreases facts.len(),
{
    let earlier = spec_library_names(facts.drop_last(), arch);
    let names = spec_library_names(facts, arch);
    let name = facts[k].library_name;
    if k < facts.len() - 1 {
        assert(facts.drop_last()[k] == facts[k]);
        lemma_names_cover(facts.drop_last(), arch, k);
    }
    if earlier.contains(name) {
        let i = choose|i: int| 0 <= i < earlier.len() && earlier[i] == name;
        assert(names[i] == name);
    } else {
        assert(names[names.len() - 1] == name);
    }
}

/// Every library name of an architecture has a file that asks for it.
pub proof fn lemma_names_have_files(facts: Seq<FactView>, arch: Architecture, i: int)
    requires
        0 <= i < spec_library_names(facts, arch).len(),
    ensures
        spec_files_of(facts, arch, spec_library_names(facts, arch)[i]).len() > 0,
    decreases facts.len(),
{
    let earlier = spec_library_names(facts.drop_last(), arch);
    if i < earlier.len() {
        lemma_names_have_files(facts.drop_last(), arch, i);
    }
}

/// The report of some facts is tidy.
pub proof fn lemma_report_tidy(facts: Seq<FactView>, r: Seq<SectionView>)
    requires
        spec_is_report_of(facts, r),
    ensures
        spec_tidy(r),
{
    lemma_architectures_distinct(facts);
    assert forall|a: int| 0 <= a < r.len() implies spec_tidy_section(#[trigger] r[a]) by {
        let s = r[a];
        let arch = s.architecture;
        let names = spec_library_names(facts, arch);
        assert(spec_section_of(facts, s));
        lemma_architectures_occur(facts, a);
        let k = choose|k: int|
            0 <= k < facts.len() && (#[trigger] facts[k]).architecture == spec_architectures(
                facts,
            )[a];
        lemma_names_cover(facts, arch, k);
        assert forall|j: int| 0 <= j < s.groups.len() implies (#[trigger] s.groups[j]).architecture
            == arch && s.groups[j].referencing_files.len() > 0 by {
            assert(spec_group_of(facts, arch, s.groups[j]));
            assert(names.contains(s.groups[j].library_name));
            let i = choose|i: int| 0 <= i < names.len() && names[i] == s.groups[j].library_name;
            lemma_names_have_files(facts, arch, i);
        }
        assert forall|i: int, j: int| 0 <= i < j < s.groups.len() implies (
        #[trigger] s.groups[i]).library_name != (#[trigger] s.groups[j]).library_name by {
            assert(spec_ranks_before(s.groups[i], s.groups[j]));
            lemma_rank_asymmetric(s.groups[i], s.groups[j]);
            assert(spec_group_of(facts, arch, s.groups[i]));
            assert(spec_group_of(facts, arch, s.groups[j]));
        }
    }
    assert forall|a: int, b: int| 0 <= a < b < r.len() implies (#[trigger] r[a]).architecture != (
    #[trigger] r[b]).architecture by {
        assert(spec_architectures(facts)[a] != spec_architectures(facts)[b]);
    }
}

/// Aggregation is idempotent: the report of the facts that a report stands
/// for is that report again.
pub proof fn lemma_aggregate_idempotent(
    facts: Seq<FactView>,
    r: Seq<SectionView>,
    again: Seq<SectionView>,
)
    requires
        spec_is_report_of(facts, r),
        spec_is_report_of(spec_flatten(r), again),
    ensures
        again == r,
{
    lemma_report_tidy(facts, r);
    lemma_tidy_self_report(r);
    lemma_report_unique(spec_flatten(r), r, again);
}

/// The architecture of every fact is among the architectures of the facts.
pub proof fn lemma_architectures_cover(facts: Seq<FactView>, k: int)
    requires
        0 <= k < facts.len(),
    ensures
        spec_architectures(facts).contains(facts[k].architecture),
    decreases facts.len(),
{
    let earlier = spec_architectures(facts.drop_last());
    let archs = spec_architectures(facts);
    let arch = facts[k].architecture;
    if k < facts.len() - 1 {
        assert(facts.drop_last()[k] == facts[k]);
        lemma_architectures_cover(facts.drop_last(), k);
    }
    if earlier.contains(arch) {
        let i = choose|i: int| 0 <= i < earlier.len() && earlier[i] == arch;
        assert(archs[i] == arch);
    } else {
        assert(archs[archs.len() - 1] == arch);
    }
}

/// The path of every fact is among the files of its architecture and
/// library.
pub proof fn lemma_files_cover(facts: Seq<FactView>, k: int)
    requires
        0 <= k < facts.len(),
    ensures
        spec_files_of(facts, facts[k].architecture, facts[k].library_name).contains(
            facts[k].file_path,
        ),
    decreases facts.len(),
{
    let arch = facts[k].architecture;
    let name = facts[k].library_name;
    let earlier = spec_files_of(facts.drop_last(), arch, name);
    let files = spec_files_of(facts, arch, name);
    if k < facts.len() - 1 {
        assert(facts.drop_last()[k] == facts[k]);
        lemma_files_cover(facts.drop_last(), k);
        let i = choose|i: int| 0 <= i < earlier.len() && earlier[i] == facts[k].file_path;
        assert(files[i] == facts[k].file_path);
    } else {
        assert(files[files.len() - 1] == facts[k].file_path);
    }
}

/// Every fact stands in the report: the section of its architecture has a
/// group for its library, and that group lists its path.
pub proof fn lemma_fact_in_report(facts: Seq<FactView>, r: Seq<SectionView>, k: int)
    requires
        spec_is_report_of(facts, r),
        0 <= k < facts.len(),
    ensures
        exists|a: int, j: int|
            0 <= a < r.len() && 0 <= j < r[a].groups.len() && (#[trigger] r[a]).architecture
                == facts[k].architecture && (#[trigger] r[a].groups[j]).library_name
                == facts[k].library_name && r[a].groups[j].referencing_files.contains(
                facts[k].file_path,
            ),
{
    let archs = spec_architectures(facts);
    let arch = facts[k].architecture;
    lemma_architectures_cover(facts, k);
    let a = choose|a: int| 0 <= a < archs.len() && archs[a] == arch;
    let s = r[a];
    assert(spec_section_of(facts, s));
    let names = spec_library_names(facts, arch);
    lemma_names_cover(facts, arch, k);
    let i = choose|i: int| 0 <= i < names.len() && names[i] == facts[k].library_name;
    let j = choose|j: int|
        0 <= j < s.groups.len() && (#[trigger] s.groups[j]).library_name == names[i];
    assert(spec_group_of(facts, arch, s.groups[j]));
    lemma_files_cover(facts, k);
    assert(r[a].groups[j].referencing_files.contains(facts[k].file_path));
}

/// In ranked groups, a group with more files stands before every group with
/// fewer.
pub proof fn lemma_more_files_first(groups: Seq<GroupView>, i: int, j: int)
    requires
        spec_ranked(groups),
        0 <= i < groups.len(),
        0 <= j < groups.len(),
        groups[i].referencing_files.len() > groups[j].referencing_files.len(),
    ensures
        i < j,
{
    if j < i {
        assert(spec_ranks_before(groups[j], groups[i]));
    }
}

} // verus!
