//! What the command-line options select and reject.

use vstd::prelude::*;
use crate::cli::Cli;
use crate::dependency::{
    DependencySection, DependencyView, ManifestDependency, ManifestTables, collect_manifest_dependencies, dependency_views,
    manifest_dependencies,
};
use crate::error::{UpgradeError, string_views};
use crate::text::{chars_of, chars_equal};

verus! {

/// Whether a table is in scope: `--prod` keeps normal and build tables,
/// `--dev` (without `--prod`) keeps the development table, and otherwise every
/// table is in scope.
pub open spec fn section_selected(section: DependencySection, prod: bool, dev: bool) -> bool {
    if prod {
        section != DependencySection::DevDependencies
    } else if dev {
        section == DependencySection::DevDependencies
    } else {
        true
    }
}

/// Whether the table `section` is in scope for `cli`.
pub fn section_is_selected(section: DependencySection, cli: &Cli) -> (r: bool)
    ensures
        r == section_selected(section, cli.prod, cli.dev),
{
    if cli.prod {
        section.is_normal_build()
    } else if cli.dev {
        section.is_development()
    } else {
        true
    }
}

/// Whether a dependency named `name` is among the crates asked for: names
/// match exactly, and an empty list asks for all.
pub open spec fn name_requested(crates: Seq<Seq<char>>, name: Seq<char>) -> bool {
    crates.len() == 0 || exists|i: int| 0 <= i < crates.len() && #[trigger] crates[i] == name
}

/// Whether a dependency stays in scope for the options.
pub open spec fn dependency_kept(d: DependencyView, prod: bool, dev: bool, crates: Seq<Seq<char>>) -> bool {
    section_selected(d.section, prod, dev) && name_requested(crates, d.name)
}

/// The dependencies that stay in scope, in order.
pub open spec fn kept_dependencies(ds: Seq<DependencyView>, prod: bool, dev: bool, crates: Seq<Seq<char>>) -> Seq<DependencyView>
    decreases ds.len(),
{
    if ds.len() == 0 {
        seq![]
    } else {
        let rest = kept_dependencies(ds.drop_last(), prod, dev, crates);
        if dependency_kept(ds.last(), prod, dev, crates) {
            rest.push(ds.last())
        } else {
            rest
        }
    }
}

/// Whether `name` is among the crate names, compared exactly.
fn is_requested(crates: &Vec<Vec<char>>, name: &str) -> (r: bool)
    ensures
        r == (exists|i: int| 0 <= i < crates@.len() && #[trigger] crates@[i]@ == name@),
{
    let wanted = chars_of(name);
    let mut i: usize = 0;
    while i < crates.len()
        invariant
            i <= crates@.len(),
            wanted@ == name@,
            forall|k: int| 0 <= k < i ==> #[trigger] crates@[k]@ != name@,
        decreases crates@.len() - i,
    {
        if chars_equal(&crates[i], &wanted) {
            return true;
        }
        i = i + 1;
    }
    false
}

/// Keeps the dependencies that the options put in scope: their table is
/// selected by `--prod`/`--dev`, and their name is exactly one of the crates
/// given (any name when none is given).
pub fn filter_dependencies(dependencies: Vec<ManifestDependency>, cli: &Cli) -> (r: Vec<ManifestDependency>)
    ensures
        dependency_views(r@) == kept_dependencies(dependency_views(dependencies@), cli.prod, cli.dev, string_views(cli.crates@)),
{
    let ghost crates = string_views(cli.crates@);
    let mut names: Vec<Vec<char>> = Vec::new();
    let mut c: usize = 0;
    while c < cli.crates.len()
        invariant
            c <= cli.crates@.len(),
            crates == string_views(cli.crates@),
            names@.len() == c,
            forall|k: int| 0 <= k < c ==> #[trigger] names@[k]@ == crates[k],
        decreases cli.crates@.len() - c,
    {
        names.push(chars_of(cli.crates[c].as_str()));
        c = c + 1;
    }
    let ghost ds = dependency_views(dependencies@);
    let mut r: Vec<ManifestDependency> = Vec::new();
    let mut i: usize = 0;
    while i < dependencies.len()
        invariant
            i <= dependencies@.len(),
            ds == dependency_views(dependencies@),
            crates == string_views(cli.crates@),
            names@.len() == crates.len(),
            forall|k: int| 0 <= k < crates.len() ==> #[trigger] names@[k]@ == crates[k],
            dependency_views(r@) == kept_dependencies(ds.take(i as int), cli.prod, cli.dev, crates),
        decreases dependencies@.len() - i,
    {
        let d = &dependencies[i];
        let selected = section_is_selected(d.section, cli);
        let requested = cli.crates.len() == 0 || is_requested(&names, d.name.as_str());
        proof {
            assert(ds[i as int] == d@);
            if cli.crates.len() > 0 {
                if requested {
                    let k = choose|k: int| 0 <= k < names@.len() && #[trigger] names@[k]@ == d.name@;
                    assert(crates[k] == d.name@);
                }
                if name_requested(crates, d.name@) {
                    let k = choose|k: int| 0 <= k < crates.len() && #[trigger] crates[k] == d.name@;
                    assert(names@[k]@ == d.name@);
                }
            }
            assert(ds.take(i + 1).drop_last() =~= ds.take(i as int));
            assert(ds.take(i + 1).last() == ds[i as int]);
        }
        if selected && requested {
            r.push(d.clone());
            assert(dependency_views(r@) =~= kept_dependencies(ds.take(i + 1), cli.prod, cli.dev, crates));
        }
        i = i + 1;
    }
    assert(ds.take(dependencies@.len() as int) =~= ds);
    r
}

/// The flags of the options given that are not carried out yet, in the order
/// the help lists them.
pub open spec fn unsupported_flags(cli: Cli) -> Seq<Seq<char>> {
    let a: Seq<Seq<char>> = if cli.recursive { seq!["--recursive"@] } else { seq![] };
    let b: Seq<Seq<char>> = if cli.global { a.push("--global"@) } else { a };
    let c: Seq<Seq<char>> = if cli.workspace { b.push("--workspace"@) } else { b };
    let d: Seq<Seq<char>> = if cli.no_optional { c.push("--no-optional"@) } else { c };
    let e: Seq<Seq<char>> = if cli.filter@.len() > 0 { d.push("--filter"@) } else { d };
    if cli.depth is Some { e.push("--depth"@) } else { e }
}

/// Refuses the options that are accepted but not carried out yet, naming all
/// of them; succeeds exactly when none is given.
pub fn ensure_supported_options(cli: &Cli) -> (res: Result<(), UpgradeError>)
    ensures
        res is Ok <==> unsupported_flags(*cli).len() == 0,
        res matches Err(e) ==> (e matches UpgradeError::UnsupportedOptions(flags) && string_views(flags@) == unsupported_flags(*cli)),
{
    let mut unsupported: Vec<String> = Vec::new();
    if cli.recursive {
        unsupported.push(String::from_str("--recursive"));
    }
    if cli.global {
        unsupported.push(String::from_str("--global"));
    }
    if cli.workspace {
        unsupported.push(String::from_str("--workspace"));
    }
    if cli.no_optional {
        unsupported.push(String::from_str("--no-optional"));
    }
    if cli.filter.len() > 0 {
        unsupported.push(String::from_str("--filter"));
    }
    if cli.depth.is_some() {
        unsupported.push(String::from_str("--depth"));
    }
    assert(string_views(unsupported@) =~= unsupported_flags(*cli));
    if unsupported.len() == 0 {
        return Ok(());
    }
    Err(UpgradeError::UnsupportedOptions(unsupported))
}

/// The manifest's dependencies that have a requirement of their own and
/// that the options put in scope, in manifest order.
pub fn collect_filtered_dependencies(manifest: &ManifestTables, cli: &Cli) -> (r: Vec<ManifestDependency>)
    ensures
        dependency_views(r@) == kept_dependencies(manifest_dependencies(*manifest), cli.prod, cli.dev, string_views(cli.crates@)),
{
    filter_dependencies(collect_manifest_dependencies(manifest), cli)
}

/// Without `--prod`, `--dev` or crate names, every dependency stays in scope.
pub proof fn no_options_keep_every_dependency(ds: Seq<DependencyView>)
    ensures
        kept_dependencies(ds, false, false, seq![]) == ds,
    decreases ds.len(),
{
    if ds.len() > 0 {
        no_options_keep_every_dependency(ds.drop_last());
        assert(ds.drop_last().push(ds.last()) =~= ds);
    }
}

/// Filtering what was already filtered with the same options changes
/// nothing.
pub proof fn filtering_twice_is_filtering_once(ds: Seq<DependencyView>, prod: bool, dev: bool, crates: Seq<Seq<char>>)
    ensures
        kept_dependencies(kept_dependencies(ds, prod, dev, crates), prod, dev, crates) == kept_dependencies(ds, prod, dev, crates),
    decreases ds.len(),
{
    if ds.len() > 0 {
        let rest = kept_dependencies(ds.drop_last(), prod, dev, crates);
        filtering_twice_is_filtering_once(ds.drop_last(), prod, dev, crates);
        if dependency_kept(ds.last(), prod, dev, crates) {
            assert(rest.push(ds.last()).drop_last() =~= rest);
        }
    }
}

/// `--prod` and `--dev` split the dependencies in scope: with the same crate
/// names, each dependency that either flag alone would leave out is kept by
/// the other, so together they keep as many as no flag does.
pub proof fn prod_and_dev_split_the_dependencies(ds: Seq<DependencyView>, crates: Seq<Seq<char>>)
    ensures
        kept_dependencies(ds, true, false, crates).len() + kept_dependencies(ds, false, true, crates).len()
            == kept_dependencies(ds, false, false, crates).len(),
    decreases ds.len(),
{
    if ds.len() > 0 {
        prod_and_dev_split_the_dependencies(ds.drop_last(), crates);
    }
}

/// Whether `--prod` / `--dev` leave a table in scope, written out: with
/// `--prod` every table but the development one, with only `--dev` the
/// development table, with neither every table.
pub open spec fn in_scope_written_out(section: DependencySection, prod: bool, dev: bool) -> bool {
    ||| !prod && !dev
    ||| prod && section != DependencySection::DevDependencies
    ||| !prod && dev && section == DependencySection::DevDependencies
}

/// Every dependency whose table is in scope and whose name is any one of the
/// crate names given, wherever it stands in the list (or any dependency when
/// no name is given), is kept.
pub proof fn every_requested_dependency_is_kept(ds: Seq<DependencyView>, prod: bool, dev: bool, crates: Seq<Seq<char>>, k: int)
    requires
        0 <= k < ds.len(),
        crates.len() == 0 || exists|i: int| 0 <= i < crates.len() && crates[i] == #[trigger] ds[k].name,
        in_scope_written_out(ds[k].section, prod, dev),
    ensures
        kept_dependencies(ds, prod, dev, crates).contains(ds[k]),
    decreases ds.len(),
{
    if crates.len() > 0 {
        let i = choose|i: int| 0 <= i < crates.len() && crates[i] == #[trigger] ds[k].name;
        assert(crates[i] == ds[k].name);
    }
    assert(dependency_kept(ds[k], prod, dev, crates));
    let p = ds.drop_last();
    let rest = kept_dependencies(p, prod, dev, crates);
    if k == ds.len() - 1 {
        assert(ds.last() == ds[k]);
        assert(kept_dependencies(ds, prod, dev, crates) == rest.push(ds[k]));
        assert(rest.push(ds[k])[rest.len() as int] == ds[k]);
    } else {
        assert(p[k] == ds[k]);
        every_requested_dependency_is_kept(p, prod, dev, crates, k);
        let w = choose|w: int| 0 <= w < rest.len() && rest[w] == ds[k];
        if dependency_kept(ds.last(), prod, dev, crates) {
            assert(rest.push(ds.last())[w] == ds[k]);
        }
    }
}

/// Only requested dependencies are kept: each kept dependency is one of the
/// dependencies given, its table is in scope, and its name is one of the
/// crate names given (when any is given).
pub proof fn only_requested_dependencies_are_kept(ds: Seq<DependencyView>, prod: bool, dev: bool, crates: Seq<Seq<char>>)
    ensures
        forall|m: int| 0 <= m < kept_dependencies(ds, prod, dev, crates).len() ==> {
            let d = #[trigger] kept_dependencies(ds, prod, dev, crates)[m];
            &&& ds.contains(d)
            &&& in_scope_written_out(d.section, prod, dev)
            &&& (crates.len() == 0 || crates.contains(d.name))
        },
    decreases ds.len(),
{
    if ds.len() > 0 {
        let p = ds.drop_last();
        only_requested_dependencies_are_kept(p, prod, dev, crates);
        let rest = kept_dependencies(p, prod, dev, crates);
        let kept = kept_dependencies(ds, prod, dev, crates);
        assert forall|m: int| 0 <= m < kept.len() implies {
            let d = #[trigger] kept[m];
            &&& ds.contains(d)
            &&& in_scope_written_out(d.section, prod, dev)
            &&& (crates.len() == 0 || crates.contains(d.name))
        } by {
            if m < rest.len() {
                assert(kept[m] == rest[m]);
                let w = choose|w: int| 0 <= w < p.len() && p[w] == rest[m];
                assert(ds[w] == p[w]);
            } else {
                assert(kept[m] == ds.last());
                assert(ds[ds.len() - 1] == ds.last());
                if crates.len() > 0 {
                    let i = choose|i: int| 0 <= i < crates.len() && #[trigger] crates[i] == ds.last().name;
                    assert(crates[i] == ds.last().name);
                }
            }
        }
    }
}

} // verus!
