//! What the package commands compute once the mirror has been read: the
//! lockfile's text, the upgrade plan and the audit findings.

use vstd::prelude::*;

use crate::lsp::protocol::join_with;
use crate::order::{is_stable_sort_of, stable_sort, str_less, views, TotalPreorder};
use crate::pkg::resolve::{
    mirror_versions, pair_views, semver_matches, semver_req_error, MirrorPackage, MirrorVersionView,
    ResolvedPackageView,
};
use crate::pkg::{
    semver_parse, AuditFinding, AuditReport, Resolution, UpgradeEntry, UpgradeReport,
    LOCK_SCHEMA_VERSION,
};
use crate::text::{decimal, push_decimal, push_str, str_eq, to_owned_string};

verus! {

/// The texts one after the other.
pub open spec fn concat_texts(parts: Seq<Seq<char>>) -> Seq<char>
    decreases parts.len(),
{
    if parts.len() == 0 {
        Seq::empty()
    } else {
        concat_texts(parts.drop_last()) + parts.last()
    }
}

pub open spec fn lock_dependency_text(d: (Seq<char>, Seq<char>)) -> Seq<char> {
    d.0 + " = \""@ + d.1 + "\""@
}

pub open spec fn lock_dependencies_text(deps: Seq<(Seq<char>, Seq<char>)>) -> Seq<char> {
    if deps.len() == 0 {
        "dependencies = {}\n"@
    } else {
        "dependencies = { "@ + join_with(
            deps.map_values(|d: (Seq<char>, Seq<char>)| lock_dependency_text(d)),
            ", "@,
        ) + " }\n"@
    }
}

/// One `[[package]]` table of the lockfile.
pub open spec fn lock_package_text(p: ResolvedPackageView) -> Seq<char> {
    "[[package]]\n"@ + "name = \""@ + p.name + "\"\n"@ + "version = \""@ + p.version + "\"\n"@
        + "source = \""@ + p.source + "\"\n"@ + lock_dependencies_text(p.dependencies) + "\n"@
}

/// The lockfile: its schema version, then one table per package.
pub open spec fn lockfile_text(packages: Seq<ResolvedPackageView>) -> Seq<char> {
    "version = "@ + decimal(LOCK_SCHEMA_VERSION as nat) + "\n\n"@ + concat_texts(
        packages.map_values(|p: ResolvedPackageView| lock_package_text(p)),
    )
}

fn push_lock_dependencies(out: &mut String, deps: &Vec<(String, String)>)
    ensures
        final(out)@ == old(out)@ + lock_dependencies_text(pair_views(deps@)),
{
    let ghost dv = pair_views(deps@);
    let ghost items = dv.map_values(|d: (Seq<char>, Seq<char>)| lock_dependency_text(d));
    if deps.len() == 0 {
        push_str(out, "dependencies = {}\n");
        return;
    }
    let ghost start = out@;
    push_str(out, "dependencies = { ");
    let ghost head = out@;
    let mut i: usize = 0;
    while i < deps.len()
        invariant
            dv == pair_views(deps@),
            items == dv.map_values(|d: (Seq<char>, Seq<char>)| lock_dependency_text(d)),
            dv.len() > 0,
            i <= dv.len(),
            out@ == head + join_with(items.take(i as int), ", "@),
        decreases deps.len() - i,
    {
        if i > 0 {
            push_str(out, ", ");
        }
        push_str(out, deps[i].0.as_str());
        push_str(out, " = \"");
        push_str(out, deps[i].1.as_str());
        push_str(out, "\"");
        assert(dv[i as int] == (deps@[i as int].0@, deps@[i as int].1@));
        assert(items.take(i + 1).drop_last() =~= items.take(i as int));
        assert(items.take(i + 1).last() == lock_dependency_text(dv[i as int]));
        if i == 0 {
            assert(items.take(1).len() == 1);
        }
        assert(out@ =~= head + join_with(items.take(i + 1), ", "@));
        i = i + 1;
    }
    push_str(out, " }\n");
    assert(items.take(items.len() as int) =~= items);
    assert(out@ =~= start + lock_dependencies_text(dv));
}

/// The text of the lockfile for a resolution.
pub fn render_lockfile(resolution: &Resolution) -> (r: String)
    ensures
        r@ == lockfile_text(views(resolution.packages@)),
{
    let ghost pv = views(resolution.packages@);
    let ghost texts = pv.map_values(|p: ResolvedPackageView| lock_package_text(p));
    let mut out = String::new();
    push_str(&mut out, "version = ");
    push_decimal(&mut out, LOCK_SCHEMA_VERSION as u64);
    push_str(&mut out, "\n\n");
    let ghost head = out@;
    let mut i: usize = 0;
    assert(texts.take(0) =~= Seq::<Seq<char>>::empty());
    while i < resolution.packages.len()
        invariant
            pv == views(resolution.packages@),
            texts == pv.map_values(|p: ResolvedPackageView| lock_package_text(p)),
            i <= pv.len(),
            out@ == head + concat_texts(texts.take(i as int)),
        decreases resolution.packages.len() - i,
    {
        let p = &resolution.packages[i];
        let ghost before = out@;
        push_str(&mut out, "[[package]]\n");
        push_str(&mut out, "name = \"");
        push_str(&mut out, p.name.as_str());
        push_str(&mut out, "\"\n");
        push_str(&mut out, "version = \"");
        push_str(&mut out, p.version.as_str());
        push_str(&mut out, "\"\n");
        push_str(&mut out, "source = \"");
        push_str(&mut out, p.source.as_str());
        push_str(&mut out, "\"\n");
        push_lock_dependencies(&mut out, &p.dependencies);
        push_str(&mut out, "\n");
        assert(pv[i as int] == p@);
        assert(out@ =~= before + lock_package_text(p@));
        assert(texts.take(i + 1).drop_last() =~= texts.take(i as int));
        i = i + 1;
    }
    assert(texts.take(texts.len() as int) =~= texts);
    out
}

pub struct UpgradeEntryView {
    pub package: Seq<char>,
    pub current: Seq<char>,
    pub latest_compatible: Seq<char>,
    pub latest_available: Seq<char>,
    pub requires_manifest_change: bool,
}

impl View for UpgradeEntry {
    type V = UpgradeEntryView;

    open spec fn view(&self) -> UpgradeEntryView {
        UpgradeEntryView {
            package: self.package@,
            current: self.current@,
            latest_compatible: self.latest_compatible@,
            latest_available: self.latest_available@,
            requires_manifest_change: self.requires_manifest_change,
        }
    }
}

/// Upgrade entries by package name.
pub struct UpgradeEntryOrder;

impl TotalPreorder<UpgradeEntry> for UpgradeEntryOrder {
    open spec fn le(a: UpgradeEntryView, b: UpgradeEntryView) -> bool {
        crate::order::str_le(a.package, b.package)
    }

    proof fn lemma_total(a: UpgradeEntryView, b: UpgradeEntryView) {
        crate::order::lemma_str_le_total(a.package, b.package);
    }

    proof fn lemma_transitive(a: UpgradeEntryView, b: UpgradeEntryView, c: UpgradeEntryView) {
        crate::order::lemma_str_le_transitive(a.package, b.package, c.package);
    }

    fn le_exec(a: &UpgradeEntry, b: &UpgradeEntry) -> (r: bool) {
        !str_less(b.package.as_str(), a.package.as_str())
    }
}

/// The version a resolution chose for `name`, if it lists the package.
pub open spec fn resolved_version(packages: Seq<ResolvedPackageView>, name: Seq<char>) -> Option<
    Seq<char>,
>
    decreases packages.len(),
{
    if packages.len() == 0 {
        None
    } else if packages[0].name == name {
        Some(packages[0].version)
    } else {
        resolved_version(packages.drop_first(), name)
    }
}

/// The first of the versions (newest first) that the requirement matches.
pub open spec fn first_matching(versions: Seq<MirrorVersionView>, req: Seq<char>) -> Option<Seq<char>>
    decreases versions.len(),
{
    if versions.len() == 0 {
        None
    } else if semver_matches(req, versions[0].version) {
        Some(versions[0].version)
    } else {
        first_matching(versions.drop_first(), req)
    }
}

pub open spec fn invalid_dependency_message(raw: Seq<char>, name: Seq<char>, error: Seq<char>) -> Seq<
    char,
> {
    "invalid dependency requirement `"@ + raw + "` for `"@ + name + "`: "@ + error
}

/// The upgrade entry of a dependency: the newest version available, and
/// the newest its requirement allows (each the current one when there is
/// none); the manifest must change when the two differ.
pub open spec fn upgrade_entry(
    name: Seq<char>,
    req: Seq<char>,
    current: Seq<char>,
    versions: Seq<MirrorVersionView>,
) -> UpgradeEntryView {
    let latest_available = if versions.len() > 0 {
        versions[0].version
    } else {
        current
    };
    let latest_compatible = match first_matching(versions, req) {
        Some(v) => v,
        None => current,
    };
    UpgradeEntryView {
        package: name,
        current,
        latest_compatible,
        latest_available,
        requires_manifest_change: latest_compatible != latest_available,
    }
}

/// The upgrade entries of the manifest's dependencies that the resolution
/// chose, in the manifest's order; the first requirement that does not
/// parse, or the first listing of the mirror that failed, is the error.
pub open spec fn upgrade_entries(
    deps: Seq<(Seq<char>, Seq<char>)>,
    resolved: Seq<ResolvedPackageView>,
    m: Seq<crate::pkg::resolve::MirrorPackageView>,
) -> Result<Seq<UpgradeEntryView>, Seq<char>>
    decreases deps.len(),
{
    if deps.len() == 0 {
        Ok(Seq::empty())
    } else {
        let (name, raw) = deps[0];
        let later = upgrade_entries(deps.drop_first(), resolved, m);
        match resolved_version(resolved, name) {
            None => later,
            Some(current) => match semver_req_error(raw) {
                Some(e) => Err(invalid_dependency_message(raw, name, e)),
                None => match mirror_versions(m, name) {
                    Err(e) => Err(e),
                    Ok(vs) => match later {
                        Ok(es) => Ok(seq![upgrade_entry(name, raw, current, vs)] + es),
                        Err(e) => Err(e),
                    },
                },
            },
        }
    }
}

fn find_resolved(packages: &Vec<crate::pkg::ResolvedPackage>, name: &str) -> (r: Option<usize>)
    ensures
        match resolved_version(views(packages@), name@) {
            Some(v) => r.is_some() && r.unwrap() < packages@.len() && packages@[r.unwrap() as int].version@ == v,
            None => r.is_none(),
        },
{
    let ghost pv = views(packages@);
    let mut i: usize = 0;
    assert(pv.skip(0) =~= pv);
    while i < packages.len()
        invariant
            pv == views(packages@),
            i <= pv.len(),
            resolved_version(pv, name@) == resolved_version(pv.skip(i as int), name@),
        decreases packages.len() - i,
    {
        assert(pv.skip(i as int)[0] == packages@[i as int]@);
        if str_eq(packages[i].name.as_str(), name) {
            return Some(i);
        }
        assert(pv.skip(i as int).drop_first() =~= pv.skip(i + 1));
        i = i + 1;
    }
    None
}

fn first_matching_exec(versions: &Vec<crate::pkg::resolve::MirrorVersion>, req: &str) -> (r: Option<usize>)
    ensures
        match first_matching(views(versions@), req@) {
            Some(v) => r.is_some() && r.unwrap() < versions@.len() && versions@[r.unwrap() as int].version@ == v,
            None => r.is_none(),
        },
{
    let ghost vv = views(versions@);
    let mut i: usize = 0;
    assert(vv.skip(0) =~= vv);
    while i < versions.len()
        invariant
            vv == views(versions@),
            i <= vv.len(),
            first_matching(vv, req@) == first_matching(vv.skip(i as int), req@),
        decreases versions.len() - i,
    {
        assert(vv.skip(i as int)[0] == versions@[i as int]@);
        if crate::pkg::resolve::requirement_matches(req, versions[i].version.as_str()) {
            return Some(i);
        }
        assert(vv.skip(i as int).drop_first() =~= vv.skip(i + 1));
        i = i + 1;
    }
    None
}

pub open spec fn prepend_entries(
    acc: Seq<UpgradeEntryView>,
    r: Result<Seq<UpgradeEntryView>, Seq<char>>,
) -> Result<Seq<UpgradeEntryView>, Seq<char>> {
    match r {
        Ok(es) => Ok(acc + es),
        Err(e) => Err(e),
    }
}

/// The upgrade plan: for each dependency of the manifest that the
/// resolution chose, its current, newest compatible and newest available
/// versions, by package name.
pub fn upgrade_report(
    dependencies: &Vec<(String, String)>,
    resolution: &Resolution,
    mirror: &Vec<MirrorPackage>,
) -> (r: Result<UpgradeReport, String>)
    ensures
        match upgrade_entries(pair_views(dependencies@), views(resolution.packages@), views(mirror@)) {
            Ok(es) => r.is_ok() && is_stable_sort_of::<UpgradeEntry, UpgradeEntryOrder>(
                es,
                views(r->Ok_0.entries@),
            ),
            Err(e) => r.is_err() && r->Err_0@ == e,
        },
{
    let ghost dv = pair_views(dependencies@);
    let ghost rv = views(resolution.packages@);
    let ghost mv = views(mirror@);
    let mut entries: Vec<UpgradeEntry> = Vec::new();
    let mut i: usize = 0;
    assert(dv.skip(0) =~= dv);
    assert(Seq::<UpgradeEntryView>::empty() + Seq::<UpgradeEntryView>::empty() =~= Seq::<UpgradeEntryView>::empty());
    assert forall|x: Seq<UpgradeEntryView>| Seq::<UpgradeEntryView>::empty() + x =~= x by {}
    while i < dependencies.len()
        invariant
            dv == pair_views(dependencies@),
            rv == views(resolution.packages@),
            mv == views(mirror@),
            i <= dv.len(),
            upgrade_entries(dv, rv, mv) == prepend_entries(views(entries@), upgrade_entries(dv.skip(i as int), rv, mv)),
        decreases dependencies.len() - i,
    {
        let ghost tail = dv.skip(i as int);
        assert(tail[0] == dv[i as int]);
        assert(tail.drop_first() =~= dv.skip(i + 1));
        assert(dv[i as int] == (dependencies@[i as int].0@, dependencies@[i as int].1@));
        let name = dependencies[i].0.as_str();
        let raw = dependencies[i].1.as_str();
        match find_resolved(&resolution.packages, name) {
            None => {},
            Some(k) => {
                let current = resolution.packages[k].version.as_str();
                match crate::pkg::resolve::check_requirement(raw) {
                    Ok(_) => {},
                    Err(e) => {
                        let mut msg = String::new();
                        push_str(&mut msg, "invalid dependency requirement `");
                        push_str(&mut msg, raw);
                        push_str(&mut msg, "` for `");
                        push_str(&mut msg, name);
                        push_str(&mut msg, "`: ");
                        push_str(&mut msg, e.as_str());
                        assert(msg@ =~= invalid_dependency_message(raw@, name@, e@));
                        return Err(msg);
                    },
                }
                let versions = match crate::pkg::resolve::find_package(mirror, name) {
                    None => {
                        let ghost ev = Seq::<MirrorVersionView>::empty();
                        let e = UpgradeEntry {
                            package: to_owned_string(name),
                            current: to_owned_string(current),
                            latest_compatible: to_owned_string(current),
                            latest_available: to_owned_string(current),
                            requires_manifest_change: false,
                        };
                        assert(e@ == upgrade_entry(name@, raw@, current@, ev));
                        let ghost before = views(entries@);
                        entries.push(e);
                        assert(views(entries@) =~= before.push(e@));
                        assert(before.push(e@) + Seq::<UpgradeEntryView>::empty() =~= before.push(e@));
                        proof {
                            assert forall|es: Seq<UpgradeEntryView>| before + (seq![e@] + es) =~= before.push(e@) + es by {}
                        }
                        i = i + 1;
                        continue;
                    },
                    Some(p) => match &mirror[p].versions {
                        Err(e) => {
                            return Err(e.clone());
                        },
                        Ok(v) => v,
                    },
                };
                let ghost vv = views(versions@);
                let latest_available = if versions.len() > 0 {
                    versions[0].version.as_str()
                } else {
                    current
                };
                let latest_compatible = match first_matching_exec(versions, raw) {
                    Some(j) => versions[j].version.as_str(),
                    None => current,
                };
                let change = !str_eq(latest_compatible, latest_available);
                let e = UpgradeEntry {
                    package: to_owned_string(name),
                    current: to_owned_string(current),
                    latest_compatible: to_owned_string(latest_compatible),
                    latest_available: to_owned_string(latest_available),
                    requires_manifest_change: change,
                };
                assert(vv.len() > 0 ==> vv[0] == versions@[0]@);
                assert(e@ == upgrade_entry(name@, raw@, current@, vv));
                let ghost before = views(entries@);
                entries.push(e);
                assert(views(entries@) =~= before.push(e@));
                proof {
                    assert forall|es: Seq<UpgradeEntryView>| before + (seq![e@] + es) =~= before.push(e@) + es by {}
                }
            },
        }
        i = i + 1;
    }
    assert(dv.skip(dv.len() as int) =~= Seq::<(Seq<char>, Seq<char>)>::empty());
    assert(views(entries@) + Seq::<UpgradeEntryView>::empty() =~= views(entries@));
    Ok(UpgradeReport { entries: stable_sort::<UpgradeEntry, UpgradeEntryOrder>(entries) })
}

/// A security advisory: the package it concerns, the requirement that
/// matches the affected versions, and how severe it is.
#[derive(Debug, Clone, PartialEq, Eq)]
pub struct Advisory {
    pub id: String,
    pub package: String,
    pub affected: String,
    pub severity: String,
}

pub struct AdvisoryView {
    pub id: Seq<char>,
    pub package: Seq<char>,
    pub affected: Seq<char>,
    pub severity: Seq<char>,
}

impl View for Advisory {
    type V = AdvisoryView;

    open spec fn view(&self) -> AdvisoryView {
        AdvisoryView {
            id: self.id@,
            package: self.package@,
            affected: self.affected@,
            severity: self.severity@,
        }
    }
}

pub struct AuditFindingView {
    pub kind: Seq<char>,
    pub package: Seq<char>,
    pub version: Seq<char>,
    pub detail: Seq<char>,
}

impl View for AuditFinding {
    type V = AuditFindingView;

    open spec fn view(&self) -> AuditFindingView {
        AuditFindingView {
            kind: self.kind@,
            package: self.package@,
            version: self.version@,
            detail: self.detail@,
        }
    }
}

pub open spec fn severity_text(severity: Seq<char>) -> Seq<char> {
    if crate::mir::trim(severity).len() == 0 {
        "unknown"@
    } else {
        severity
    }
}

/// The finding an advisory gives for a package.
pub open spec fn advisory_finding(p: ResolvedPackageView, a: AdvisoryView) -> AuditFindingView {
    AuditFindingView {
        kind: "vulnerability"@,
        package: p.name,
        version: p.version,
        detail: a.id + " matched affected range `"@ + a.affected + "` (severity="@ + severity_text(
            a.severity,
        ) + ")"@,
    }
}

/// Whether an advisory concerns the package's chosen version.
pub open spec fn advisory_applies(p: ResolvedPackageView, a: AdvisoryView) -> bool {
    a.package == p.name && semver_matches(a.affected, p.version)
}

/// The findings for one package: its license when the policy denies it,
/// then each advisory that concerns its version, in order.
pub open spec fn package_findings(
    p: ResolvedPackageView,
    license: Seq<char>,
    denied: Seq<Seq<char>>,
    advisories: Seq<AdvisoryView>,
) -> Seq<AuditFindingView> {
    (if denied.contains(license) {
        seq![
            AuditFindingView {
                kind: "license"@,
                package: p.name,
                version: p.version,
                detail: "license `"@ + license + "` is denied by policy"@,
            },
        ]
    } else {
        Seq::empty()
    }) + crate::indexer::queries::keep(advisories, |a: AdvisoryView| advisory_applies(p, a)).map_values(
        |a: AdvisoryView| advisory_finding(p, a),
    )
}

pub open spec fn invalid_resolved_message(version: Seq<char>, name: Seq<char>, error: Seq<char>) -> Seq<
    char,
> {
    "invalid resolved version `"@ + version + "` for `"@ + name + "`: "@ + error
}

pub open spec fn license_of(m: crate::pkg::resolve::MirrorManifestView) -> Seq<char> {
    match m.license {
        Some(l) => l,
        None => "UNSPECIFIED"@,
    }
}

/// The audit's findings, package by package; a resolved version that does
/// not parse, or a manifest that could not be read, is the error.
pub open spec fn audit_findings(
    packages: Seq<ResolvedPackageView>,
    manifests: Seq<Result<crate::pkg::resolve::MirrorManifestView, Seq<char>>>,
    denied: Seq<Seq<char>>,
    advisories: Seq<AdvisoryView>,
) -> Result<Seq<AuditFindingView>, Seq<char>>
    decreases packages.len(),
{
    if packages.len() == 0 || manifests.len() == 0 {
        Ok(Seq::empty())
    } else {
        let p = packages[0];
        match semver_parse(p.version) {
            Err(e) => Err(invalid_resolved_message(p.version, p.name, e)),
            Ok(_) => match manifests[0] {
                Err(e) => Err(e),
                Ok(man) => match audit_findings(
                    packages.drop_first(),
                    manifests.drop_first(),
                    denied,
                    advisories,
                ) {
                    Ok(fs) => Ok(package_findings(p, license_of(man), denied, advisories) + fs),
                    Err(e) => Err(e),
                },
            },
        }
    }
}

pub open spec fn manifest_views(v: Seq<Result<crate::pkg::resolve::MirrorManifest, String>>) -> Seq<
    Result<crate::pkg::resolve::MirrorManifestView, Seq<char>>,
> {
    v.map_values(
        |r: Result<crate::pkg::resolve::MirrorManifest, String>|
            match r {
                Ok(m) => Ok(m@),
                Err(e) => Err(e@),
            },
    )
}

pub open spec fn prepend_findings(
    acc: Seq<AuditFindingView>,
    r: Result<Seq<AuditFindingView>, Seq<char>>,
) -> Result<Seq<AuditFindingView>, Seq<char>> {
    match r {
        Ok(fs) => Ok(acc + fs),
        Err(e) => Err(e),
    }
}

fn push_package_findings(
    out: &mut Vec<AuditFinding>,
    p: &crate::pkg::ResolvedPackage,
    license: &str,
    denied: &Vec<String>,
    advisories: &Vec<Advisory>,
)
    ensures
        views(final(out)@) == views(old(out)@) + package_findings(
            p@,
            license@,
            denied@.map_values(|d: String| d@),
            views(advisories@),
        ),
{
    let ghost dn = denied@.map_values(|d: String| d@);
    let ghost av = views(advisories@);
    let ghost pa = |a: AdvisoryView| advisory_applies(p@, a);
    let ghost fa = |a: AdvisoryView| advisory_finding(p@, a);
    let ghost start = views(out@);
    let mut denied_here = false;
    let mut j: usize = 0;
    while j < denied.len()
        invariant
            dn == denied@.map_values(|d: String| d@),
            j <= dn.len(),
            denied_here == exists|q: int| 0 <= q < j && dn[q] == license@,
        decreases denied.len() - j,
    {
        assert(dn[j as int] == denied@[j as int]@);
        if str_eq(denied[j].as_str(), license) {
            denied_here = true;
        }
        j = j + 1;
    }
    assert(denied_here == dn.contains(license@));
    if denied_here {
        let mut detail = String::new();
        push_str(&mut detail, "license `");
        push_str(&mut detail, license);
        push_str(&mut detail, "` is denied by policy");
        let f = AuditFinding {
            kind: to_owned_string("license"),
            package: p.name.clone(),
            version: p.version.clone(),
            detail,
        };
        out.push(f);
    }
    let ghost head = views(out@);
    assert(head == start + (if dn.contains(license@) {
        seq![
            AuditFindingView {
                kind: "license"@,
                package: p@.name,
                version: p@.version,
                detail: "license `"@ + license@ + "` is denied by policy"@,
            },
        ]
    } else {
        Seq::<AuditFindingView>::empty()
    }));
    let mut k: usize = 0;
    assert(av.take(0) =~= Seq::<AdvisoryView>::empty());
    assert(crate::indexer::queries::keep(av.take(0), pa).map_values(fa) =~= Seq::<AuditFindingView>::empty());
    while k < advisories.len()
        invariant
            av == views(advisories@),
            pa == (|a: AdvisoryView| advisory_applies(p@, a)),
            fa == (|a: AdvisoryView| advisory_finding(p@, a)),
            k <= av.len(),
            views(out@) == head + crate::indexer::queries::keep(av.take(k as int), pa).map_values(fa),
        decreases advisories.len() - k,
    {
        let a = &advisories[k];
        assert(av[k as int] == a@);
        proof {
            crate::indexer::queries::lemma_keep_step(av, pa, k as int);
        }
        if str_eq(a.package.as_str(), p.name.as_str()) && crate::pkg::resolve::requirement_matches(
            a.affected.as_str(),
            p.version.as_str(),
        ) {
            let sev_chars = crate::text::chars_of(a.severity.as_str());
            let trimmed = crate::mir::trim_chars_pub(sev_chars.as_slice());
            let mut detail = String::new();
            push_str(&mut detail, a.id.as_str());
            push_str(&mut detail, " matched affected range `");
            push_str(&mut detail, a.affected.as_str());
            push_str(&mut detail, "` (severity=");
            if trimmed.len() == 0 {
                push_str(&mut detail, "unknown");
            } else {
                push_str(&mut detail, a.severity.as_str());
            }
            push_str(&mut detail, ")");
            let f = AuditFinding {
                kind: to_owned_string("vulnerability"),
                package: p.name.clone(),
                version: p.version.clone(),
                detail,
            };
            assert(f@ == fa(a@));
            let ghost before = views(out@);
            out.push(f);
            assert(views(out@) =~= before.push(fa(a@)));
            assert(crate::indexer::queries::keep(av.take(k as int), pa).push(a@).map_values(fa)
                =~= crate::indexer::queries::keep(av.take(k as int), pa).map_values(fa).push(fa(a@)));
        }
        k = k + 1;
    }
    assert(av.take(av.len() as int) =~= av);
    assert(views(out@) =~= start + package_findings(p@, license@, dn, av));
}

/// The audit of a resolution: for each package (with its manifest, read
/// from the mirror), a finding when the policy denies its license and one
/// for each advisory whose range matches its version.
pub fn audit_report(
    resolution: &Resolution,
    manifests: &Vec<Result<crate::pkg::resolve::MirrorManifest, String>>,
    denied: &Vec<String>,
    advisories: &Vec<Advisory>,
) -> (r: Result<AuditReport, String>)
    requires
        manifests@.len() == resolution.packages@.len(),
    ensures
        match audit_findings(
            views(resolution.packages@),
            manifest_views(manifests@),
            denied@.map_values(|d: String| d@),
            views(advisories@),
        ) {
            Ok(fs) => r.is_ok() && r->Ok_0.scanned == resolution.packages@.len() && views(
                r->Ok_0.findings@,
            ) == fs,
            Err(e) => r.is_err() && r->Err_0@ == e,
        },
{
    let ghost pv = views(resolution.packages@);
    let ghost mv = manifest_views(manifests@);
    let ghost dn = denied@.map_values(|d: String| d@);
    let ghost av = views(advisories@);
    let mut findings: Vec<AuditFinding> = Vec::new();
    let mut i: usize = 0;
    assert(pv.skip(0) =~= pv);
    assert(mv.skip(0) =~= mv);
    assert forall|x: Seq<AuditFindingView>| Seq::<AuditFindingView>::empty() + x =~= x by {}
    while i < resolution.packages.len()
        invariant
            pv == views(resolution.packages@),
            mv == manifest_views(manifests@),
            dn == denied@.map_values(|d: String| d@),
            av == views(advisories@),
            manifests@.len() == pv.len(),
            i <= pv.len(),
            audit_findings(pv, mv, dn, av) == prepend_findings(
                views(findings@),
                audit_findings(pv.skip(i as int), mv.skip(i as int), dn, av),
            ),
        decreases resolution.packages.len() - i,
    {
        let p = &resolution.packages[i];
        assert(pv.skip(i as int)[0] == p@);
        assert(pv.skip(i as int).drop_first() =~= pv.skip(i + 1));
        assert(mv.skip(i as int).drop_first() =~= mv.skip(i + 1));
        assert(mv.skip(i as int)[0] == mv[i as int]);
        match crate::pkg::parse_version(p.version.as_str()) {
            Ok(_) => {},
            Err(e) => {
                let mut msg = String::new();
                push_str(&mut msg, "invalid resolved version `");
                push_str(&mut msg, p.version.as_str());
                push_str(&mut msg, "` for `");
                push_str(&mut msg, p.name.as_str());
                push_str(&mut msg, "`: ");
                push_str(&mut msg, e.as_str());
                assert(msg@ =~= invalid_resolved_message(p@.version, p@.name, e@));
                return Err(msg);
            },
        }
        let man = match &manifests[i] {
            Err(e) => {
                return Err(e.clone());
            },
            Ok(m) => m,
        };
        let license = match &man.license {
            Some(l) => l.as_str(),
            None => "UNSPECIFIED",
        };
        let ghost before = views(findings@);
        push_package_findings(&mut findings, p, license, denied, advisories);
        proof {
            assert forall|fs: Seq<AuditFindingView>| before + (package_findings(p@, license@, dn, av) + fs)
                =~= views(findings@) + fs by {}
        }
        i = i + 1;
    }
    assert(pv.skip(pv.len() as int).len() == 0);
    assert(views(findings@) + Seq::<AuditFindingView>::empty() =~= views(findings@));
    Ok(AuditReport { scanned: resolution.packages.len(), findings })
}

/// An entry of the registry's index: a published package version.
#[derive(Debug, Clone, PartialEq, Eq)]
pub struct RegistryEntry {
    pub name: String,
    pub version: String,
    pub source: String,
}

/// Whether the index already lists `name` at `version`.
pub fn registry_has(entries: &Vec<RegistryEntry>, name: &str, version: &str) -> (r: bool)
    ensures
        r == exists|i: int|
            0 <= i < entries@.len() && (#[trigger] entries@[i]).name@ == name@ && entries@[i].version@
                == version@,
{
    let mut i: usize = 0;
    while i < entries.len()
        invariant
            i <= entries@.len(),
            forall|j: int|
                0 <= j < i ==> !((#[trigger] entries@[j]).name@ == name@ && entries@[j].version@ == version@),
        decreases entries.len() - i,
    {
        if str_eq(entries[i].name.as_str(), name) && str_eq(entries[i].version.as_str(), version) {
            return true;
        }
        i = i + 1;
    }
    false
}

pub struct RegistryEntryView {
    pub name: Seq<char>,
    pub version: Seq<char>,
    pub source: Seq<char>,
}

impl View for RegistryEntry {
    type V = RegistryEntryView;

    open spec fn view(&self) -> RegistryEntryView {
        RegistryEntryView { name: self.name@, version: self.version@, source: self.source@ }
    }
}

pub open spec fn registry_entry_text(e: RegistryEntryView) -> Seq<char> {
    "[[entry]]\n"@ + "name = \""@ + e.name + "\"\n"@ + "version = \""@ + e.version + "\"\n"@
        + "source = \""@ + e.source + "\"\n\n"@
}

/// The registry index file: its format version, then one table per entry.
pub open spec fn registry_index_text(version: u32, entries: Seq<RegistryEntryView>) -> Seq<char> {
    "version = "@ + decimal(version as nat) + "\n\n"@ + concat_texts(
        entries.map_values(|e: RegistryEntryView| registry_entry_text(e)),
    )
}

/// The text of the registry index file.
pub fn render_registry_index(version: u32, entries: &Vec<RegistryEntry>) -> (r: String)
    ensures
        r@ == registry_index_text(version, views(entries@)),
{
    let ghost ev = views(entries@);
    let ghost texts = ev.map_values(|e: RegistryEntryView| registry_entry_text(e));
    let mut out = String::new();
    push_str(&mut out, "version = ");
    push_decimal(&mut out, version as u64);
    push_str(&mut out, "\n\n");
    let ghost head = out@;
    let mut i: usize = 0;
    assert(texts.take(0) =~= Seq::<Seq<char>>::empty());
    while i < entries.len()
        invariant
            ev == views(entries@),
            texts == ev.map_values(|e: RegistryEntryView| registry_entry_text(e)),
            i <= ev.len(),
            out@ == head + concat_texts(texts.take(i as int)),
        decreases entries.len() - i,
    {
        let e = &entries[i];
        let ghost before = out@;
        push_str(&mut out, "[[entry]]\n");
        push_str(&mut out, "name = \"");
        push_str(&mut out, e.name.as_str());
        push_str(&mut out, "\"\n");
        push_str(&mut out, "version = \"");
        push_str(&mut out, e.version.as_str());
        push_str(&mut out, "\"\n");
        push_str(&mut out, "source = \"");
        push_str(&mut out, e.source.as_str());
        push_str(&mut out, "\"\n\n");
        assert(ev[i as int] == e@);
        assert(out@ =~= before + registry_entry_text(e@));
        assert(texts.take(i + 1).drop_last() =~= texts.take(i as int));
        i = i + 1;
    }
    assert(texts.take(texts.len() as int) =~= texts);
    out
}

} // verus!
