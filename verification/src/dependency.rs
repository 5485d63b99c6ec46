//! Dependencies as the manifest declares them, and the updates planned for them.

use vstd::prelude::*;
use crate::text::chars_of;

verus! {

/// The dependency table of a manifest that a dependency stands in.
#[derive(Clone, Copy, Debug, PartialEq, Eq, Structural, Hash, PartialOrd, Ord)]
pub enum DependencySection {
    Dependencies,
    DevDependencies,
    BuildDependencies,
}

/// The key of a section's table in `Cargo.toml`.
pub open spec fn section_key(s: DependencySection) -> Seq<char> {
    match s {
        DependencySection::Dependencies => "dependencies"@,
        DependencySection::DevDependencies => "dev-dependencies"@,
        DependencySection::BuildDependencies => "build-dependencies"@,
    }
}

impl DependencySection {
    /// The table's key in `Cargo.toml`.
    pub fn toml_key(self) -> (r: &'static str)
        ensures
            r@ == section_key(self),
    {
        match self {
            DependencySection::Dependencies => "dependencies",
            DependencySection::DevDependencies => "dev-dependencies",
            DependencySection::BuildDependencies => "build-dependencies",
        }
    }

    /// The table's name as the interactive list shows it.
    pub fn display_name(self) -> (r: &'static str)
        ensures
            self == DependencySection::Dependencies ==> r@ == "dependencies"@,
            self == DependencySection::DevDependencies ==> r@ == "devDependencies"@,
            self == DependencySection::BuildDependencies ==> r@ == "buildDependencies"@,
    {
        match self {
            DependencySection::Dependencies => "dependencies",
            DependencySection::DevDependencies => "devDependencies",
            DependencySection::BuildDependencies => "buildDependencies",
        }
    }

    /// Whether the table holds what a build of the package needs (`--prod`).
    pub fn is_normal_build(self) -> (r: bool)
        ensures
            r == (self != DependencySection::DevDependencies),
    {
        match self {
            DependencySection::DevDependencies => false,
            _ => true,
        }
    }

    /// Whether the table holds development dependencies (`--dev`).
    pub fn is_development(self) -> (r: bool)
        ensures
            r == (self == DependencySection::DevDependencies),
    {
        match self {
            DependencySection::DevDependencies => true,
            _ => false,
        }
    }
}

/// The rank of a section in the order tables are listed: normal, development,
/// build.
pub open spec fn section_rank(s: DependencySection) -> int {
    match s {
        DependencySection::Dependencies => 0,
        DependencySection::DevDependencies => 1,
        DependencySection::BuildDependencies => 2,
    }
}

/// A dependency with a version requirement, as read from the manifest.
#[derive(Debug)]
pub struct ManifestDependency {
    pub name: String,
    pub requirement: String,
    pub section: DependencySection,
}

/// A manifest dependency as plain values.
pub struct DependencyView {
    pub name: Seq<char>,
    pub requirement: Seq<char>,
    pub section: DependencySection,
}

impl View for ManifestDependency {
    type V = DependencyView;

    open spec fn view(&self) -> DependencyView {
        DependencyView { name: self.name@, requirement: self.requirement@, section: self.section }
    }
}

impl Clone for ManifestDependency {
    fn clone(&self) -> (r: Self)
        ensures
            r@ == self@,
    {
        ManifestDependency {
            name: self.name.clone(),
            requirement: self.requirement.clone(),
            section: self.section,
        }
    }
}

/// A planned change of one dependency's requirement.
#[derive(Debug)]
pub struct DependencyUpdate {
    pub name: String,
    pub section: DependencySection,
    pub current_requirement: String,
    pub target_requirement: String,
}

/// A planned update as plain values.
pub struct UpdateView {
    pub name: Seq<char>,
    pub section: DependencySection,
    pub current_requirement: Seq<char>,
    pub target_requirement: Seq<char>,
}

impl View for DependencyUpdate {
    type V = UpdateView;

    open spec fn view(&self) -> UpdateView {
        UpdateView {
            name: self.name@,
            section: self.section,
            current_requirement: self.current_requirement@,
            target_requirement: self.target_requirement@,
        }
    }
}

impl Clone for DependencyUpdate {
    fn clone(&self) -> (r: Self)
        ensures
            r@ == self@,
    {
        DependencyUpdate {
            name: self.name.clone(),
            section: self.section,
            current_requirement: self.current_requirement.clone(),
            target_requirement: self.target_requirement.clone(),
        }
    }
}

impl DependencyUpdate {
    pub fn new(name: String, section: DependencySection, current_requirement: String, target_requirement: String) -> (r: Self)
        ensures
            r@ == (UpdateView {
                name: name@,
                section: section,
                current_requirement: current_requirement@,
                target_requirement: target_requirement@,
            }),
    {
        DependencyUpdate { name, section, current_requirement, target_requirement }
    }
}

/// The plain views of a sequence of updates.
pub open spec fn update_views(s: Seq<DependencyUpdate>) -> Seq<UpdateView> {
    s.map_values(|u: DependencyUpdate| u@)
}

/// The plain views of a sequence of manifest dependencies.
pub open spec fn dependency_views(s: Seq<ManifestDependency>) -> Seq<DependencyView> {
    s.map_values(|d: ManifestDependency| d@)
}

/// How a manifest entry gives its dependency: a bare requirement string, a
/// reference to the workspace's entry, or a table that may hold a `version`.
#[derive(Debug)]
pub enum DependencySpec {
    Simple(String),
    Inherited,
    Detailed { version: Option<String> },
}

/// One entry of a dependency table.
#[derive(Debug)]
pub struct DependencyEntry {
    pub name: String,
    pub spec: DependencySpec,
}

/// Whether name `a` comes before name `b`: compared character by character
/// by code point, a proper prefix first. This is the order of `String`'s
/// `Ord`, since UTF-8 keeps the order of code points.
pub open spec fn name_before(a: Seq<char>, b: Seq<char>) -> bool
    decreases a.len(),
{
    if a.len() == 0 {
        b.len() > 0
    } else if b.len() == 0 {
        false
    } else if a[0] != b[0] {
        a[0] < b[0]
    } else {
        name_before(a.drop_first(), b.drop_first())
    }
}

/// Each entry's name comes before the names of the entries after it: the
/// names are ascending, and so no two are the same.
pub open spec fn names_ascending(entries: Seq<DependencyEntry>) -> bool {
    forall|i: int, j: int| 0 <= i < j < entries.len() ==> name_before(#[trigger] entries[i].name@, #[trigger] entries[j].name@)
}

/// A name never comes before itself.
pub proof fn name_before_is_irreflexive(a: Seq<char>)
    ensures
        !name_before(a, a),
    decreases a.len(),
{
    if a.len() > 0 {
        name_before_is_irreflexive(a.drop_first());
    }
}

/// The name order is transitive.
pub proof fn name_before_is_transitive(a: Seq<char>, b: Seq<char>, c: Seq<char>)
    requires
        name_before(a, b),
        name_before(b, c),
    ensures
        name_before(a, c),
    decreases a.len(),
{
    if a.len() > 0 && b.len() > 0 && c.len() > 0 && a[0] == b[0] && b[0] == c[0] {
        name_before_is_transitive(a.drop_first(), b.drop_first(), c.drop_first());
    }
}

proof fn lemma_name_before_skip(a: Seq<char>, b: Seq<char>, i: int)
    requires
        0 <= i <= a.len(),
        i <= b.len(),
        forall|k: int| 0 <= k < i ==> a[k] == b[k],
    ensures
        name_before(a, b) == name_before(a.skip(i), b.skip(i)),
    decreases i,
{
    if i > 0 {
        assert(a.drop_first().skip(i - 1) =~= a.skip(i));
        assert(b.drop_first().skip(i - 1) =~= b.skip(i));
        assert forall|k: int| 0 <= k < i - 1 implies a.drop_first()[k] == b.drop_first()[k] by {
            assert(a[k + 1] == b[k + 1]);
        }
        lemma_name_before_skip(a.drop_first(), b.drop_first(), i - 1);
    } else {
        assert(a.skip(0) =~= a);
        assert(b.skip(0) =~= b);
    }
}

/// Whether name `a` comes before name `b` (see [`name_before`]).
pub fn comes_before(a: &[char], b: &[char]) -> (r: bool)
    ensures
        r == name_before(a@, b@),
{
    let mut i: usize = 0;
    while i < a.len() && i < b.len() && a[i] == b[i]
        invariant
            i <= a@.len(),
            i <= b@.len(),
            forall|k: int| 0 <= k < i ==> a@[k] == b@[k],
        decreases a@.len() - i,
    {
        i = i + 1;
    }
    proof {
        lemma_name_before_skip(a@, b@, i as int);
    }
    if i == a.len() {
        i < b.len()
    } else if i == b.len() {
        false
    } else {
        assert(a@.skip(i as int)[0] == a@[i as int]);
        assert(b@.skip(i as int)[0] == b@[i as int]);
        a[i] < b[i]
    }
}

/// Whether the names of `entries` are ascending (see [`names_ascending`]).
fn entries_ascending(entries: &Vec<DependencyEntry>) -> (r: bool)
    ensures
        r == names_ascending(entries@),
{
    let n = entries.len();
    if n == 0 {
        return true;
    }
    let mut k: usize = 1;
    while k < n
        invariant
            1 <= k <= n,
            n == entries@.len(),
            forall|i: int, j: int| 0 <= i < j < k ==> name_before(#[trigger] entries@[i].name@, #[trigger] entries@[j].name@),
        decreases n - k,
    {
        let before = comes_before(&chars_of(entries[k - 1].name.as_str()), &chars_of(entries[k].name.as_str()));
        if !before {
            assert(!name_before(entries@[k - 1].name@, entries@[k as int].name@));
            return false;
        }
        assert forall|i: int, j: int| 0 <= i < j < k + 1 implies name_before(#[trigger] entries@[i].name@, #[trigger] entries@[j].name@) by {
            if j == k && i < k - 1 {
                name_before_is_transitive(entries@[i].name@, entries@[k - 1].name@, entries@[k as int].name@);
            }
        }
        k = k + 1;
    }
    true
}

/// The three top-level dependency tables of a manifest. Like the sorted
/// maps a manifest reader keeps them in, each lists its entries by ascending
/// name, with no name twice.
#[derive(Debug)]
pub struct ManifestTables {
    dependencies: Vec<DependencyEntry>,
    dev_dependencies: Vec<DependencyEntry>,
    build_dependencies: Vec<DependencyEntry>,
}

impl ManifestTables {
    #[verifier::type_invariant]
    spec fn well_formed(self) -> bool {
        &&& names_ascending(self.dependencies@)
        &&& names_ascending(self.dev_dependencies@)
        &&& names_ascending(self.build_dependencies@)
    }

    /// The entries of one table.
    pub closed spec fn entries(self, section: DependencySection) -> Seq<DependencyEntry> {
        match section {
            DependencySection::Dependencies => self.dependencies@,
            DependencySection::DevDependencies => self.dev_dependencies@,
            DependencySection::BuildDependencies => self.build_dependencies@,
        }
    }

    /// The tables holding these entries, when each lists its entries by
    /// ascending name with no name twice; `None` otherwise.
    pub fn new(
        dependencies: Vec<DependencyEntry>,
        dev_dependencies: Vec<DependencyEntry>,
        build_dependencies: Vec<DependencyEntry>,
    ) -> (r: Option<ManifestTables>)
        ensures
            r is Some <==> names_ascending(dependencies@) && names_ascending(dev_dependencies@) && names_ascending(build_dependencies@),
            r matches Some(t) ==> {
                &&& t.entries(DependencySection::Dependencies) == dependencies@
                &&& t.entries(DependencySection::DevDependencies) == dev_dependencies@
                &&& t.entries(DependencySection::BuildDependencies) == build_dependencies@
            },
    {
        if entries_ascending(&dependencies) && entries_ascending(&dev_dependencies) && entries_ascending(&build_dependencies) {
            Some(ManifestTables { dependencies, dev_dependencies, build_dependencies })
        } else {
            None
        }
    }
}

/// The requirement an entry gives, if it gives one of its own.
pub open spec fn requirement_view(spec: DependencySpec) -> Option<Seq<char>> {
    match spec {
        DependencySpec::Simple(v) => Some(v@),
        DependencySpec::Inherited => None,
        DependencySpec::Detailed { version } => match version {
            Some(v) => Some(v@),
            None => None,
        },
    }
}

/// The requirement of a dependency entry; none for an inherited entry or a
/// table without `version`.
pub fn requirement_of(spec: &DependencySpec) -> (r: Option<String>)
    ensures
        r is Some <==> requirement_view(*spec) is Some,
        r matches Some(v) ==> requirement_view(*spec) == Some(v@),
{
    match spec {
        DependencySpec::Simple(version) => Some(version.clone()),
        DependencySpec::Inherited => None,
        DependencySpec::Detailed { version } => match version {
            Some(v) => Some(v.clone()),
            None => None,
        },
    }
}

/// The dependencies with a requirement among `entries`, in order, marked
/// with `section`.
pub open spec fn collected(entries: Seq<DependencyEntry>, section: DependencySection) -> Seq<DependencyView>
    decreases entries.len(),
{
    if entries.len() == 0 {
        seq![]
    } else {
        let rest = collected(entries.drop_last(), section);
        match requirement_view(entries.last().spec) {
            Some(req) => rest.push(DependencyView { name: entries.last().name@, requirement: req, section: section }),
            None => rest,
        }
    }
}

/// The dependencies collected from a table come from its entries, carry the
/// table's section, and keep the entries' ascending name order.
proof fn lemma_collected_ascending(entries: Seq<DependencyEntry>, section: DependencySection)
    requires
        names_ascending(entries),
    ensures
        forall|m: int| 0 <= m < collected(entries, section).len() ==> {
            &&& (#[trigger] collected(entries, section)[m]).section == section
            &&& exists|k: int| 0 <= k < entries.len() && collected(entries, section)[m].name == #[trigger] entries[k].name@
        },
        forall|i: int, j: int| 0 <= i < j < collected(entries, section).len()
            ==> name_before(#[trigger] collected(entries, section)[i].name, #[trigger] collected(entries, section)[j].name),
    decreases entries.len(),
{
    if entries.len() > 0 {
        let p = entries.drop_last();
        assert forall|i: int, j: int| 0 <= i < j < p.len() implies name_before(#[trigger] p[i].name@, #[trigger] p[j].name@) by {
            assert(p[i] == entries[i] && p[j] == entries[j]);
        }
        lemma_collected_ascending(p, section);
        let cp = collected(p, section);
        let c = collected(entries, section);
        let last = entries.len() - 1;
        assert(entries.last() == entries[last]);
        assert forall|m: int| 0 <= m < cp.len() implies exists|k: int| 0 <= k < last && (#[trigger] cp[m]).name == #[trigger] entries[k].name@ by {
            let k = choose|k: int| 0 <= k < p.len() && cp[m].name == #[trigger] p[k].name@;
            assert(p[k] == entries[k]);
        }
        assert forall|m: int| 0 <= m < c.len() implies {
            &&& (#[trigger] c[m]).section == section
            &&& exists|k: int| 0 <= k < entries.len() && c[m].name == #[trigger] entries[k].name@
        } by {
            if m < cp.len() {
                assert(c[m] == cp[m]);
                let k = choose|k: int| 0 <= k < last && (#[trigger] cp[m]).name == #[trigger] entries[k].name@;
            } else {
                assert(c[m].name == entries[last].name@);
            }
        }
        assert forall|i: int, j: int| 0 <= i < j < c.len() implies name_before(#[trigger] c[i].name, #[trigger] c[j].name) by {
            if j < cp.len() {
                assert(c[i] == cp[i] && c[j] == cp[j]);
            } else {
                assert(c[i] == cp[i]);
                let k = choose|k: int| 0 <= k < last && (#[trigger] cp[i]).name == #[trigger] entries[k].name@;
                assert(c[j].name == entries[last].name@);
            }
        }
    }
}

/// The entries of one table of the manifest.
pub open spec fn section_entries(manifest: ManifestTables, section: DependencySection) -> Seq<DependencyEntry> {
    manifest.entries(section)
}

/// The dependencies of one table that have a requirement of their own.
pub fn collect_from_section(manifest: &ManifestTables, section: DependencySection) -> (r: Vec<ManifestDependency>)
    ensures
        dependency_views(r@) == collected(section_entries(*manifest, section), section),
        forall|i: int, j: int| 0 <= i < j < r@.len() ==> name_before(#[trigger] r@[i].name@, #[trigger] r@[j].name@),
{
    proof {
        use_type_invariant(manifest);
        lemma_collected_ascending(section_entries(*manifest, section), section);
    }
    let entries = match section {
        DependencySection::Dependencies => &manifest.dependencies,
        DependencySection::DevDependencies => &manifest.dev_dependencies,
        DependencySection::BuildDependencies => &manifest.build_dependencies,
    };
    let mut r: Vec<ManifestDependency> = Vec::new();
    let mut i: usize = 0;
    while i < entries.len()
        invariant
            i <= entries@.len(),
            entries@ == section_entries(*manifest, section),
            dependency_views(r@) == collected(entries@.take(i as int), section),
        decreases entries@.len() - i,
    {
        let entry = &entries[i];
        assert(entries@.take(i + 1).drop_last() =~= entries@.take(i as int));
        assert(entries@.take(i + 1).last() == entries@[i as int]);
        match requirement_of(&entry.spec) {
            Some(requirement) => {
                r.push(ManifestDependency { name: entry.name.clone(), requirement, section });
                assert(dependency_views(r@) =~= collected(entries@.take(i + 1), section));
            },
            None => {},
        }
        i = i + 1;
    }
    assert(entries@.take(entries@.len() as int) =~= entries@);
    assert forall|i: int, j: int| 0 <= i < j < r@.len() implies name_before(#[trigger] r@[i].name@, #[trigger] r@[j].name@) by {
        let c = collected(section_entries(*manifest, section), section);
        assert(dependency_views(r@)[i] == r@[i]@ && dependency_views(r@)[j] == r@[j]@);
        assert(c[i].name == r@[i].name@ && c[j].name == r@[j].name@);
    }
    r
}

/// All dependencies with a requirement: normal, then development, then build.
pub open spec fn manifest_dependencies(manifest: ManifestTables) -> Seq<DependencyView> {
    collected(section_entries(manifest, DependencySection::Dependencies), DependencySection::Dependencies)
        + collected(section_entries(manifest, DependencySection::DevDependencies), DependencySection::DevDependencies)
        + collected(section_entries(manifest, DependencySection::BuildDependencies), DependencySection::BuildDependencies)
}

/// All dependencies of the manifest that have a requirement of their own;
/// inherited entries and tables without `version` are left out.
pub fn collect_manifest_dependencies(manifest: &ManifestTables) -> (r: Vec<ManifestDependency>)
    ensures
        dependency_views(r@) == manifest_dependencies(*manifest),
        forall|i: int, j: int| 0 <= i < j < r@.len() ==> {
            ||| section_rank(#[trigger] r@[i].section) < section_rank(#[trigger] r@[j].section)
            ||| (r@[i].section == r@[j].section && name_before(r@[i].name@, r@[j].name@))
        },
{
    let mut r = collect_from_section(manifest, DependencySection::Dependencies);
    let mut dev = collect_from_section(manifest, DependencySection::DevDependencies);
    let mut build = collect_from_section(manifest, DependencySection::BuildDependencies);
    let ghost a = r@;
    let ghost b = dev@;
    let ghost c = build@;
    proof {
        use_type_invariant(manifest);
        lemma_collected_ascending(section_entries(*manifest, DependencySection::Dependencies), DependencySection::Dependencies);
        lemma_collected_ascending(section_entries(*manifest, DependencySection::DevDependencies), DependencySection::DevDependencies);
        lemma_collected_ascending(section_entries(*manifest, DependencySection::BuildDependencies), DependencySection::BuildDependencies);
        assert forall|m: int| 0 <= m < a.len() implies (#[trigger] a[m]).section == DependencySection::Dependencies by {
            assert(dependency_views(a)[m] == a[m]@);
        }
        assert forall|m: int| 0 <= m < b.len() implies (#[trigger] b[m]).section == DependencySection::DevDependencies by {
            assert(dependency_views(b)[m] == b[m]@);
        }
        assert forall|m: int| 0 <= m < c.len() implies (#[trigger] c[m]).section == DependencySection::BuildDependencies by {
            assert(dependency_views(c)[m] == c[m]@);
        }
    }
    r.append(&mut dev);
    r.append(&mut build);
    assert(r@ =~= a + b + c);
    assert(dependency_views(r@) =~= dependency_views(a) + dependency_views(b) + dependency_views(c));
    assert forall|i: int, j: int| 0 <= i < j < r@.len() implies {
        ||| section_rank(#[trigger] r@[i].section) < section_rank(#[trigger] r@[j].section)
        ||| (r@[i].section == r@[j].section && name_before(r@[i].name@, r@[j].name@))
    } by {
        let la = a.len() as int;
        let lb = b.len() as int;
        if j < la {
            assert(r@[i] == a[i] && r@[j] == a[j]);
        } else if j < la + lb {
            assert(r@[j] == b[j - la]);
            if i >= la {
                assert(r@[i] == b[i - la]);
            } else {
                assert(r@[i] == a[i]);
            }
        } else {
            assert(r@[j] == c[j - la - lb]);
            if i >= la + lb {
                assert(r@[i] == c[i - la - lb]);
            } else if i >= la {
                assert(r@[i] == b[i - la]);
            } else {
                assert(r@[i] == a[i]);
            }
        }
    }
    r
}

} // verus!
