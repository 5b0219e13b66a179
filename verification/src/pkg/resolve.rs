//! Dependency resolution against an offline mirror: a depth-first search
//! that takes requirements in name order, tries each package's versions
//! newest first, and backtracks when a choice leads to a conflict.

use vstd::prelude::*;

use crate::order::{is_stable_sort_of, stable_sort, str_less, views, TotalPreorder};
use crate::pkg::{Manifest, PackageSection, ResolvedPackage, Resolution};
use crate::text::{push_str, str_eq, to_owned_string};

verus! {

/// What `semver::VersionReq::parse` says of a requirement: `None` when it
/// parses, else the text of its error.
pub uninterp spec fn semver_req_error(raw: Seq<char>) -> Option<Seq<char>>;

/// Whether a requirement and a version both parse (`semver::VersionReq`,
/// `semver::Version`) and the requirement matches the version.
pub uninterp spec fn semver_matches(req: Seq<char>, version: Seq<char>) -> bool;

/// `semver::VersionReq::parse`, keeping only whether it succeeds and the
/// error's text. Claimed, not proved: it succeeds exactly when
/// `semver_req_error(raw)` is `None`, and fails with that error's text
/// otherwise; the grammar of requirements is not written out.
#[verifier::external_body]
pub(crate) fn check_requirement(raw: &str) -> (r: Result<(), String>)
    ensures
        match r {
            Ok(_) => semver_req_error(raw@).is_none(),
            Err(e) => semver_req_error(raw@) == Some(e@),
        },
{
    match semver::VersionReq::parse(raw) {
        Ok(_) => Ok(()),
        Err(e) => Err(e.to_string()),
    }
}

/// `semver::VersionReq::matches` on the parsed requirement and version;
/// false when either does not parse. Claimed, not proved: the result is
/// `semver_matches(req, version)`, which depends on the two texts alone;
/// semver's matching rules are not written out. A match needs both texts
/// to parse.
#[verifier::external_body]
pub(crate) fn requirement_matches(req: &str, version: &str) -> (r: bool)
    ensures
        r == semver_matches(req@, version@),
        r ==> semver_req_error(req@).is_none() && crate::pkg::semver_parse(version@) is Ok,
{
    match (semver::VersionReq::parse(req), semver::Version::parse(version)) {
        (Ok(q), Ok(v)) => q.matches(&v),
        _ => false,
    }
}

/// What a mirrored package version's manifest says: its license and the
/// dependencies it declares (name, requirement), in name order.
#[derive(Debug, Clone, PartialEq, Eq)]
pub struct MirrorManifest {
    pub license: Option<String>,
    pub dependencies: Vec<(String, String)>,
}

/// One version of a package in the mirror, with its manifest, or the
/// message of the error that reading the manifest gave.
#[derive(Debug, PartialEq, Eq)]
pub struct MirrorVersion {
    pub version: String,
    pub manifest: Result<MirrorManifest, String>,
}

/// A package of the mirror with its versions, newest first, or the message
/// of the error that listing its directory gave.
#[derive(Debug, PartialEq, Eq)]
pub struct MirrorPackage {
    pub name: String,
    pub versions: Result<Vec<MirrorVersion>, String>,
}

/// A package chosen during resolution.
#[derive(Debug, Clone, PartialEq, Eq)]
pub struct Selection {
    pub name: String,
    pub version: String,
    pub dependencies: Vec<(String, String)>,
}

pub open spec fn pair_views(v: Seq<(String, String)>) -> Seq<(Seq<char>, Seq<char>)> {
    v.map_values(|p: (String, String)| (p.0@, p.1@))
}

pub struct MirrorManifestView {
    pub license: Option<Seq<char>>,
    pub dependencies: Seq<(Seq<char>, Seq<char>)>,
}

impl View for MirrorManifest {
    type V = MirrorManifestView;

    open spec fn view(&self) -> MirrorManifestView {
        MirrorManifestView {
            license: crate::indexer::model::opt_text(self.license),
            dependencies: pair_views(self.dependencies@),
        }
    }
}

pub struct MirrorVersionView {
    pub version: Seq<char>,
    pub manifest: Result<MirrorManifestView, Seq<char>>,
}

impl View for MirrorVersion {
    type V = MirrorVersionView;

    open spec fn view(&self) -> MirrorVersionView {
        MirrorVersionView {
            version: self.version@,
            manifest: match self.manifest {
                Ok(d) => Ok(d@),
                Err(e) => Err(e@),
            },
        }
    }
}

pub struct MirrorPackageView {
    pub name: Seq<char>,
    pub versions: Result<Seq<MirrorVersionView>, Seq<char>>,
}

impl View for MirrorPackage {
    type V = MirrorPackageView;

    open spec fn view(&self) -> MirrorPackageView {
        MirrorPackageView {
            name: self.name@,
            versions: match self.versions {
                Ok(v) => Ok(views(v@)),
                Err(e) => Err(e@),
            },
        }
    }
}

pub struct SelectionView {
    pub name: Seq<char>,
    pub version: Seq<char>,
    pub dependencies: Seq<(Seq<char>, Seq<char>)>,
}

impl View for Selection {
    type V = SelectionView;

    open spec fn view(&self) -> SelectionView {
        SelectionView {
            name: self.name@,
            version: self.version@,
            dependencies: pair_views(self.dependencies@),
        }
    }
}

/// The versions of package `name`: those of its first entry in the mirror
/// (or the error listing them gave), none when it has no entry.
pub open spec fn mirror_versions(m: Seq<MirrorPackageView>, name: Seq<char>) -> Result<
    Seq<MirrorVersionView>,
    Seq<char>,
>
    decreases m.len(),
{
    if m.len() == 0 {
        Ok(Seq::empty())
    } else if m[0].name == name {
        m[0].versions
    } else {
        mirror_versions(m.drop_first(), name)
    }
}

pub open spec fn version_count(m: Seq<MirrorPackageView>, name: Seq<char>) -> int {
    match mirror_versions(m, name) {
        Ok(v) => v.len() as int,
        Err(_) => 0,
    }
}

/// The version chosen for `name`, if it has been chosen.
pub open spec fn selected_version(sel: Seq<SelectionView>, name: Seq<char>) -> Option<Seq<char>>
    decreases sel.len(),
{
    if sel.len() == 0 {
        None
    } else if sel[0].name == name {
        Some(sel[0].version)
    } else {
        selected_version(sel.drop_first(), name)
    }
}

/// The position of the first requirement with the least package name.
pub open spec fn first_least(p: Seq<(Seq<char>, Seq<char>)>) -> int
    decreases p.len(),
{
    if p.len() <= 1 {
        0
    } else {
        let m = first_least(p.drop_last());
        if crate::order::str_lt(p.last().0, p[m].0) {
            p.len() - 1
        } else {
            m
        }
    }
}

pub open spec fn mirror_names(m: Seq<MirrorPackageView>) -> Set<Seq<char>> {
    m.map_values(|p: MirrorPackageView| p.name).to_set()
}

pub open spec fn selected_names(sel: Seq<SelectionView>) -> Set<Seq<char>> {
    sel.map_values(|s: SelectionView| s.name).to_set()
}

/// How many packages of the mirror are not chosen yet.
pub open spec fn unselected(m: Seq<MirrorPackageView>, sel: Seq<SelectionView>) -> nat {
    mirror_names(m).difference(selected_names(sel)).len()
}

/// Every requirement parses.
pub open spec fn requirements_valid(deps: Seq<(Seq<char>, Seq<char>)>) -> bool {
    forall|i: int| 0 <= i < deps.len() ==> semver_req_error(#[trigger] deps[i].1).is_none()
}

pub proof fn lemma_first_least_range(p: Seq<(Seq<char>, Seq<char>)>)
    requires
        p.len() > 0,
    ensures
        0 <= first_least(p) < p.len(),
    decreases p.len(),
{
    if p.len() > 1 {
        lemma_first_least_range(p.drop_last());
    }
}

pub proof fn lemma_mirror_versions_named(m: Seq<MirrorPackageView>, name: Seq<char>)
    ensures
        match mirror_versions(m, name) {
            Ok(v) => v.len() > 0 ==> mirror_names(m).contains(name),
            Err(_) => mirror_names(m).contains(name),
        },
    decreases m.len(),
{
    if m.len() > 0 {
        assert(m.map_values(|p: MirrorPackageView| p.name)[0] == m[0].name);
        if m[0].name != name {
            lemma_mirror_versions_named(m.drop_first(), name);
            let t = m.drop_first().map_values(|p: MirrorPackageView| p.name);
            let s = m.map_values(|p: MirrorPackageView| p.name);
            assert forall|x: Seq<char>| t.contains(x) implies s.contains(x) by {
                let k = choose|k: int| 0 <= k < t.len() && t[k] == x;
                assert(s[k + 1] == x);
            }
        }
    }
}

pub proof fn lemma_selected_version_named(sel: Seq<SelectionView>, name: Seq<char>)
    ensures
        selected_version(sel, name).is_none() <==> !selected_names(sel).contains(name),
    decreases sel.len(),
{
    let s = sel.map_values(|x: SelectionView| x.name);
    if sel.len() > 0 {
        lemma_selected_version_named(sel.drop_first(), name);
        let t = sel.drop_first().map_values(|x: SelectionView| x.name);
        assert(s =~= seq![sel[0].name] + t);
        if sel[0].name != name {
            if s.contains(name) {
                let k = choose|k: int| 0 <= k < s.len() && s[k] == name;
                assert(t[k - 1] == name);
            }
            if t.contains(name) {
                let k = choose|k: int| 0 <= k < t.len() && t[k] == name;
                assert(s[k + 1] == name);
            }
        } else {
            assert(s[0] == name);
        }
    }
}

pub proof fn lemma_unselected_decreases(m: Seq<MirrorPackageView>, sel: Seq<SelectionView>, s: SelectionView)
    requires
        mirror_names(m).contains(s.name),
        !selected_names(sel).contains(s.name),
    ensures
        unselected(m, sel.push(s)) < unselected(m, sel),
{
    let a = mirror_names(m);
    let b = selected_names(sel);
    let names = sel.map_values(|x: SelectionView| x.name);
    assert(sel.push(s).map_values(|x: SelectionView| x.name) =~= names.push(s.name));
    assert(selected_names(sel.push(s)) =~= b.insert(s.name)) by {
        assert forall|x: Seq<char>| names.push(s.name).contains(x) <==> b.insert(s.name).contains(x) by {
            if names.push(s.name).contains(x) && x != s.name {
                let k = choose|k: int| 0 <= k < names.len() + 1 && names.push(s.name)[k] == x;
                assert(names[k] == x);
            }
            if names.contains(x) {
                let k = choose|k: int| 0 <= k < names.len() && names[k] == x;
                assert(names.push(s.name)[k] == x);
            }
            if x == s.name {
                assert(names.push(s.name)[names.len() as int] == x);
            }
        }
    }
    assert(a.difference(b.insert(s.name)) =~= a.difference(b).remove(s.name));
    vstd::seq_lib::seq_to_set_is_finite(m.map_values(|p: MirrorPackageView| p.name));
    vstd::set::axiom_set_difference_finite(a, b);
    vstd::set::axiom_set_remove_len(a.difference(b), s.name);
}

/// The search: with no requirement left, the choices made; else the first
/// requirement by name is taken out. A package already chosen must match
/// it; otherwise its versions are tried (`try_versions`).
pub open spec fn solve(
    m: Seq<MirrorPackageView>,
    pending: Seq<(Seq<char>, Seq<char>)>,
    sel: Seq<SelectionView>,
) -> Option<Seq<SelectionView>>
    decreases unselected(m, sel), pending.len(), 0int,
{
    if pending.len() == 0 {
        Some(sel)
    } else {
        let i = first_least(pending);
        let next = pending[i];
        let rest = pending.remove(i);
        proof {
            lemma_first_least_range(pending);
        }
        match selected_version(sel, next.0) {
            Some(v) => if semver_matches(next.1, v) {
                solve(m, rest, sel)
            } else {
                None
            },
            None => try_versions(m, next, rest, sel, 0),
        }
    }
}

/// Tries the versions of `next`'s package from the `k`-th on, newest
/// first: one that matches is chosen and its dependencies join the
/// requirements; when the search below it fails, the next version is
/// tried. An unlisted package, an unreadable manifest, or a dependency
/// requirement that does not parse ends the search at this point.
pub open spec fn try_versions(
    m: Seq<MirrorPackageView>,
    next: (Seq<char>, Seq<char>),
    rest: Seq<(Seq<char>, Seq<char>)>,
    sel: Seq<SelectionView>,
    k: int,
) -> Option<Seq<SelectionView>>
    decreases unselected(m, sel), rest.len(), version_count(m, next.0) - k,
{
    match mirror_versions(m, next.0) {
        Err(_) => None,
        Ok(cands) => if k < 0 || k >= cands.len() || selected_version(sel, next.0).is_some() {
            None
        } else {
            let c = cands[k];
            if !semver_matches(next.1, c.version) {
                try_versions(m, next, rest, sel, k + 1)
            } else {
                match c.manifest {
                    Err(_) => None,
                    Ok(man) => if !requirements_valid(man.dependencies) {
                        None
                    } else {
                        let deps = man.dependencies;
                        let chosen = SelectionView { name: next.0, version: c.version, dependencies: deps };
                        proof {
                            lemma_mirror_versions_named(m, next.0);
                            lemma_selected_version_named(sel, next.0);
                            lemma_unselected_decreases(m, sel, chosen);
                        }
                        match solve(m, rest + deps, sel.push(chosen)) {
                            Some(s) => Some(s),
                            None => try_versions(m, next, rest, sel, k + 1),
                        }
                    },
                }
            }
        },
    }
}

fn copy_pairs(v: &Vec<(String, String)>) -> (r: Vec<(String, String)>)
    ensures
        pair_views(r@) == pair_views(v@),
{
    let mut out: Vec<(String, String)> = Vec::new();
    let mut i: usize = 0;
    while i < v.len()
        invariant
            i <= v@.len(),
            pair_views(out@) == pair_views(v@).take(i as int),
        decreases v.len() - i,
    {
        let ghost before = pair_views(out@);
        let a = v[i].0.clone();
        let b = v[i].1.clone();
        out.push((a, b));
        assert(pair_views(out@) =~= before.push((v@[i as int].0@, v@[i as int].1@)));
        assert(pair_views(v@).take(i + 1) =~= pair_views(v@).take(i as int).push(
            (v@[i as int].0@, v@[i as int].1@),
        ));
        i = i + 1;
    }
    assert(pair_views(v@).take(v@.len() as int) =~= pair_views(v@));
    out
}

fn copy_selections(v: &Vec<Selection>) -> (r: Vec<Selection>)
    ensures
        views(r@) == views(v@),
{
    let mut out: Vec<Selection> = Vec::new();
    let mut i: usize = 0;
    while i < v.len()
        invariant
            i <= v@.len(),
            views(out@) == views(v@).take(i as int),
        decreases v.len() - i,
    {
        let s = &v[i];
        let ghost before = views(out@);
        let c = Selection {
            name: s.name.clone(),
            version: s.version.clone(),
            dependencies: copy_pairs(&s.dependencies),
        };
        assert(c@ == v@[i as int]@);
        out.push(c);
        assert(views(out@) =~= before.push(v@[i as int]@));
        assert(views(v@).take(i + 1) =~= views(v@).take(i as int).push(v@[i as int]@));
        i = i + 1;
    }
    assert(views(v@).take(v@.len() as int) =~= views(v@));
    out
}

fn first_least_index(p: &Vec<(String, String)>) -> (r: usize)
    requires
        p@.len() > 0,
    ensures
        r as int == first_least(pair_views(p@)),
        r < p@.len(),
{
    let ghost pv = pair_views(p@);
    let mut best: usize = 0;
    let mut i: usize = 1;
    assert(pv.take(1).len() == 1);
    while i < p.len()
        invariant
            pv == pair_views(p@),
            1 <= i <= p@.len(),
            best < i,
            best as int == first_least(pv.take(i as int)),
        decreases p.len() - i,
    {
        assert(pv.take(i + 1).drop_last() =~= pv.take(i as int));
        assert(pv.take(i + 1)[best as int] == pv[best as int]);
        assert(pv[best as int].0 == p@[best as int].0@);
        assert(pv.take(i + 1).last().0 == p@[i as int].0@);
        if str_less(p[i].0.as_str(), p[best].0.as_str()) {
            best = i;
        }
        i = i + 1;
    }
    assert(pv.take(p@.len() as int) =~= pv);
    best
}

fn find_selected(sel: &Vec<Selection>, name: &str) -> (r: Option<usize>)
    ensures
        match selected_version(views(sel@), name@) {
            Some(v) => r.is_some() && r.unwrap() < sel@.len() && sel@[r.unwrap() as int].version@ == v,
            None => r.is_none(),
        },
{
    let ghost sv = views(sel@);
    let mut i: usize = 0;
    assert(sv.skip(0) =~= sv);
    while i < sel.len()
        invariant
            sv == views(sel@),
            i <= sv.len(),
            selected_version(sv, name@) == selected_version(sv.skip(i as int), name@),
        decreases sel.len() - i,
    {
        assert(sv.skip(i as int)[0] == sel@[i as int]@);
        if str_eq(sel[i].name.as_str(), name) {
            return Some(i);
        }
        assert(sv.skip(i as int).drop_first() =~= sv.skip(i + 1));
        i = i + 1;
    }
    None
}

pub(crate) fn find_package(m: &Vec<MirrorPackage>, name: &str) -> (r: Option<usize>)
    ensures
        match r {
            Some(i) => i < m@.len() && mirror_versions(views(m@), name@) == m@[i as int]@.versions,
            None => mirror_versions(views(m@), name@) == Ok::<Seq<MirrorVersionView>, Seq<char>>(Seq::empty()),
        },
{
    let ghost mv = views(m@);
    let mut i: usize = 0;
    assert(mv.skip(0) =~= mv);
    while i < m.len()
        invariant
            mv == views(m@),
            i <= mv.len(),
            mirror_versions(mv, name@) == mirror_versions(mv.skip(i as int), name@),
        decreases m.len() - i,
    {
        assert(mv.skip(i as int)[0] == m@[i as int]@);
        if str_eq(m[i].name.as_str(), name) {
            return Some(i);
        }
        assert(mv.skip(i as int).drop_first() =~= mv.skip(i + 1));
        i = i + 1;
    }
    None
}

fn all_requirements_valid(deps: &Vec<(String, String)>) -> (r: bool)
    ensures
        r == requirements_valid(pair_views(deps@)),
{
    let ghost dv = pair_views(deps@);
    let mut i: usize = 0;
    while i < deps.len()
        invariant
            dv == pair_views(deps@),
            i <= dv.len(),
            forall|j: int| 0 <= j < i ==> semver_req_error(#[trigger] dv[j].1).is_none(),
        decreases deps.len() - i,
    {
        assert(dv[i as int].1 == deps@[i as int].1@);
        match check_requirement(deps[i].1.as_str()) {
            Ok(_) => {},
            Err(_) => {
                return false;
            },
        }
        i = i + 1;
    }
    true
}

fn solve_exec(mirror: &Vec<MirrorPackage>, pending: Vec<(String, String)>, selected: Vec<Selection>) -> (r:
    Option<Vec<Selection>>)
    ensures
        match solve(views(mirror@), pair_views(pending@), views(selected@)) {
            Some(s) => r.is_some() && views(r.unwrap()@) == s,
            None => r.is_none(),
        },
    decreases unselected(views(mirror@), views(selected@)), pending@.len(), 0int,
{
    let ghost m = views(mirror@);
    let ghost pv = pair_views(pending@);
    let ghost sv = views(selected@);
    if pending.len() == 0 {
        return Some(selected);
    }
    let i = first_least_index(&pending);
    let mut rest = pending;
    let next = rest.remove(i);
    let ghost nv = (next.0@, next.1@);
    let ghost rv = pair_views(rest@);
    assert(nv == pv[i as int]);
    assert(rv =~= pv.remove(i as int));
    match find_selected(&selected, next.0.as_str()) {
        Some(k) => {
            if requirement_matches(next.1.as_str(), selected[k].version.as_str()) {
                return solve_exec(mirror, rest, selected);
            } else {
                return None;
            }
        },
        None => {},
    }
    assert(solve(m, pv, sv) == try_versions(m, nv, rv, sv, 0));
    let p = match find_package(mirror, next.0.as_str()) {
        None => {
            return None;
        },
        Some(p) => p,
    };
    let cands = match &mirror[p].versions {
        Err(_) => {
            return None;
        },
        Ok(c) => c,
    };
    let ghost cv = views(cands@);
    assert(mirror_versions(m, nv.0) == Ok::<Seq<MirrorVersionView>, Seq<char>>(cv));
    let mut k: usize = 0;
    while k < cands.len()
        invariant
            m == views(mirror@),
            sv == views(selected@),
            pv == pair_views(pending@),
            solve(m, pv, sv) == try_versions(m, nv, rv, sv, 0),
            rv == pair_views(rest@),
            nv == (next.0@, next.1@),
            cv == views(cands@),
            mirror_versions(m, nv.0) == Ok::<Seq<MirrorVersionView>, Seq<char>>(cv),
            selected_version(sv, nv.0).is_none(),
            k <= cv.len(),
            unselected(m, sv) == unselected(views(mirror@), views(selected@)),
            try_versions(m, nv, rv, sv, 0) == try_versions(m, nv, rv, sv, k as int),
        decreases cands.len() - k,
    {
        let c = &cands[k];
        assert(cv[k as int] == c@);
        if requirement_matches(next.1.as_str(), c.version.as_str()) {
            let deps = match &c.manifest {
                Err(_) => {
                    return None;
                },
                Ok(man) => &man.dependencies,
            };
            if !all_requirements_valid(deps) {
                return None;
            }
            let mut next_pending = copy_pairs(&rest);
            let mut extra = copy_pairs(deps);
            next_pending.append(&mut extra);
            let mut next_selected = copy_selections(&selected);
            next_selected.push(
                Selection {
                    name: next.0.clone(),
                    version: c.version.clone(),
                    dependencies: copy_pairs(deps),
                },
            );
            let ghost chosen = SelectionView {
                name: nv.0,
                version: c.version@,
                dependencies: pair_views(deps@),
            };
            assert(pair_views(next_pending@) =~= rv + pair_views(deps@));
            assert(views(next_selected@) =~= sv.push(chosen));
            proof {
                lemma_mirror_versions_named(m, nv.0);
                lemma_selected_version_named(sv, nv.0);
                lemma_unselected_decreases(m, sv, chosen);
            }
            match solve_exec(mirror, next_pending, next_selected) {
                Some(s) => {
                    return Some(s);
                },
                None => {},
            }
        }
        k = k + 1;
    }
    None
}

pub struct PackageSectionView {
    pub name: Seq<char>,
    pub version: Seq<char>,
    pub license: Option<Seq<char>>,
}

impl View for PackageSection {
    type V = PackageSectionView;

    open spec fn view(&self) -> PackageSectionView {
        PackageSectionView {
            name: self.name@,
            version: self.version@,
            license: crate::indexer::model::opt_text(self.license),
        }
    }
}

pub struct ResolvedPackageView {
    pub name: Seq<char>,
    pub version: Seq<char>,
    pub source: Seq<char>,
    pub dependencies: Seq<(Seq<char>, Seq<char>)>,
}

impl View for ResolvedPackage {
    type V = ResolvedPackageView;

    open spec fn view(&self) -> ResolvedPackageView {
        ResolvedPackageView {
            name: self.name@,
            version: self.version@,
            source: self.source@,
            dependencies: pair_views(self.dependencies@),
        }
    }
}

/// Resolved packages by name.
pub struct ResolvedPackageOrder;

impl TotalPreorder<ResolvedPackage> for ResolvedPackageOrder {
    open spec fn le(a: ResolvedPackageView, b: ResolvedPackageView) -> bool {
        crate::order::str_le(a.name, b.name)
    }

    proof fn lemma_total(a: ResolvedPackageView, b: ResolvedPackageView) {
        crate::order::lemma_str_le_total(a.name, b.name);
    }

    proof fn lemma_transitive(a: ResolvedPackageView, b: ResolvedPackageView, c: ResolvedPackageView) {
        crate::order::lemma_str_le_transitive(a.name, b.name, c.name);
    }

    fn le_exec(a: &ResolvedPackage, b: &ResolvedPackage) -> (r: bool) {
        !str_less(b.name.as_str(), a.name.as_str())
    }
}

/// The first requirement that does not parse, with its parse error.
pub open spec fn first_invalid_requirement(deps: Seq<(Seq<char>, Seq<char>)>) -> Option<
    (Seq<char>, Seq<char>),
>
    decreases deps.len(),
{
    if deps.len() == 0 {
        None
    } else {
        match semver_req_error(deps[0].1) {
            Some(e) => Some((deps[0].1, e)),
            None => first_invalid_requirement(deps.drop_first()),
        }
    }
}

pub open spec fn invalid_requirement_message(raw: Seq<char>, error: Seq<char>) -> Seq<char> {
    "invalid version requirement `"@ + raw + "`: "@ + error
}

pub open spec fn unresolvable_message() -> Seq<char> {
    "failed to resolve dependencies with deterministic backtracking"@
}

/// The dependencies of a chosen package that were chosen too, each with the
/// version chosen for it.
pub open spec fn chosen_dependencies(
    sel: Seq<SelectionView>,
    deps: Seq<(Seq<char>, Seq<char>)>,
) -> Seq<(Seq<char>, Seq<char>)> {
    crate::indexer::queries::keep(
        deps,
        |d: (Seq<char>, Seq<char>)| selected_version(sel, d.0).is_some(),
    ).map_values(|d: (Seq<char>, Seq<char>)| (d.0, selected_version(sel, d.0).unwrap()))
}

/// A chosen package as the resolution lists it.
pub open spec fn resolved_of(sel: Seq<SelectionView>, s: SelectionView) -> ResolvedPackageView {
    ResolvedPackageView {
        name: s.name,
        version: s.version,
        source: "mirror"@,
        dependencies: chosen_dependencies(sel, s.dependencies),
    }
}

fn chosen_dependencies_exec(sel: &Vec<Selection>, deps: &Vec<(String, String)>) -> (r: Vec<
    (String, String),
>)
    ensures
        pair_views(r@) == chosen_dependencies(views(sel@), pair_views(deps@)),
{
    let ghost sv = views(sel@);
    let ghost dv = pair_views(deps@);
    let ghost p = |d: (Seq<char>, Seq<char>)| selected_version(sv, d.0).is_some();
    let ghost f = |d: (Seq<char>, Seq<char>)| (d.0, selected_version(sv, d.0).unwrap());
    let mut out: Vec<(String, String)> = Vec::new();
    let mut i: usize = 0;
    assert(dv.take(0) =~= Seq::<(Seq<char>, Seq<char>)>::empty());
    assert(crate::indexer::queries::keep(dv.take(0), p).map_values(f) =~= Seq::<
        (Seq<char>, Seq<char>),
    >::empty());
    while i < deps.len()
        invariant
            sv == views(sel@),
            dv == pair_views(deps@),
            p == (|d: (Seq<char>, Seq<char>)| selected_version(sv, d.0).is_some()),
            f == (|d: (Seq<char>, Seq<char>)| (d.0, selected_version(sv, d.0).unwrap())),
            i <= dv.len(),
            pair_views(out@) == crate::indexer::queries::keep(dv.take(i as int), p).map_values(f),
        decreases deps.len() - i,
    {
        proof {
            crate::indexer::queries::lemma_keep_step(dv, p, i as int);
        }
        assert(dv[i as int] == (deps@[i as int].0@, deps@[i as int].1@));
        match find_selected(sel, deps[i].0.as_str()) {
            Some(k) => {
                let ghost before = pair_views(out@);
                let a = deps[i].0.clone();
                let b = sel[k].version.clone();
                out.push((a, b));
                assert(pair_views(out@) =~= before.push(f(dv[i as int])));
                assert(crate::indexer::queries::keep(dv.take(i as int), p).push(dv[i as int]).map_values(f)
                    =~= crate::indexer::queries::keep(dv.take(i as int), p).map_values(f).push(
                    f(dv[i as int]),
                ));
            },
            None => {},
        }
        i = i + 1;
    }
    assert(dv.take(dv.len() as int) =~= dv);
    out
}

fn copy_section(s: &PackageSection) -> (r: PackageSection)
    ensures
        r@ == s@,
{
    PackageSection {
        name: s.name.clone(),
        version: s.version.clone(),
        license: crate::indexer::model::copy_opt_string(&s.license),
    }
}

/// Resolves a project's dependencies against the mirror. A requirement of
/// the manifest that does not parse is an error naming the first one; a
/// search that finds no choice is an error; else the chosen packages, by
/// name, each with its chosen dependencies.
pub fn resolve(manifest: &Manifest, mirror: &Vec<MirrorPackage>) -> (r: Result<Resolution, String>)
    ensures
        match first_invalid_requirement(pair_views(manifest.dependencies@)) {
            Some((raw, e)) => r.is_err() && r->Err_0@ == invalid_requirement_message(raw, e),
            None => match solve(views(mirror@), pair_views(manifest.dependencies@), Seq::empty()) {
                None => r.is_err() && r->Err_0@ == unresolvable_message(),
                Some(sel) => r.is_ok() && r->Ok_0.root@ == manifest.package@ && is_stable_sort_of::<
                    ResolvedPackage,
                    ResolvedPackageOrder,
                >(
                    sel.map_values(|s: SelectionView| resolved_of(sel, s)),
                    views(r->Ok_0.packages@),
                ),
            },
        },
{
    let ghost dv = pair_views(manifest.dependencies@);
    let mut i: usize = 0;
    assert(dv.skip(0) =~= dv);
    while i < manifest.dependencies.len()
        invariant
            dv == pair_views(manifest.dependencies@),
            i <= dv.len(),
            first_invalid_requirement(dv) == first_invalid_requirement(dv.skip(i as int)),
        decreases manifest.dependencies.len() - i,
    {
        assert(dv.skip(i as int)[0] == dv[i as int]);
        assert(dv[i as int].1 == manifest.dependencies@[i as int].1@);
        match check_requirement(manifest.dependencies[i].1.as_str()) {
            Ok(_) => {},
            Err(e) => {
                let mut msg = String::new();
                push_str(&mut msg, "invalid version requirement `");
                push_str(&mut msg, manifest.dependencies[i].1.as_str());
                push_str(&mut msg, "`: ");
                push_str(&mut msg, e.as_str());
                assert(msg@ =~= invalid_requirement_message(dv[i as int].1, e@));
                return Err(msg);
            },
        }
        assert(dv.skip(i as int).drop_first() =~= dv.skip(i + 1));
        i = i + 1;
    }
    assert(first_invalid_requirement(dv.skip(dv.len() as int)) == None::<(Seq<char>, Seq<char>)>);
    let none_chosen: Vec<Selection> = Vec::new();
    assert(views(none_chosen@) =~= Seq::<SelectionView>::empty());
    let sel = match solve_exec(mirror, copy_pairs(&manifest.dependencies), none_chosen) {
        None => {
            return Err(to_owned_string("failed to resolve dependencies with deterministic backtracking"));
        },
        Some(s) => s,
    };
    let ghost sv = views(sel@);
    let ghost target = sv.map_values(|s: SelectionView| resolved_of(sv, s));
    let mut packages: Vec<ResolvedPackage> = Vec::new();
    let mut k: usize = 0;
    while k < sel.len()
        invariant
            sv == views(sel@),
            target == sv.map_values(|s: SelectionView| resolved_of(sv, s)),
            k <= sv.len(),
            views(packages@) == target.take(k as int),
        decreases sel.len() - k,
    {
        let s = &sel[k];
        let p = ResolvedPackage {
            name: s.name.clone(),
            version: s.version.clone(),
            source: to_owned_string("mirror"),
            dependencies: chosen_dependencies_exec(&sel, &s.dependencies),
        };
        assert(sv[k as int] == s@);
        assert(p@ == target[k as int]);
        let ghost before = views(packages@);
        packages.push(p);
        assert(views(packages@) =~= before.push(target[k as int]));
        assert(target.take(k + 1) =~= target.take(k as int).push(target[k as int]));
        k = k + 1;
    }
    assert(target.take(target.len() as int) =~= target);
    Ok(
        Resolution {
            root: copy_section(&manifest.package),
            packages: stable_sort::<ResolvedPackage, ResolvedPackageOrder>(packages),
        },
    )
}

/// The requirement is met by the version chosen for its package.
pub open spec fn satisfied(out: Seq<SelectionView>, req: (Seq<char>, Seq<char>)) -> bool {
    match selected_version(out, req.0) {
        Some(v) => semver_matches(req.1, v),
        None => false,
    }
}

pub open spec fn all_satisfied(out: Seq<SelectionView>, reqs: Seq<(Seq<char>, Seq<char>)>) -> bool {
    forall|i: int| 0 <= i < reqs.len() ==> satisfied(out, #[trigger] reqs[i])
}

/// Every chosen package from position `from` on has its dependencies met.
pub open spec fn dependencies_met_from(out: Seq<SelectionView>, from: int) -> bool {
    forall|j: int| from <= j < out.len() ==> all_satisfied(out, #[trigger] out[j].dependencies)
}

pub proof fn lemma_selected_version_append(a: Seq<SelectionView>, b: Seq<SelectionView>, n: Seq<char>)
    ensures
        selected_version(a + b, n) == match selected_version(a, n) {
            Some(v) => Some(v),
            None => selected_version(b, n),
        },
    decreases a.len(),
{
    if a.len() == 0 {
        assert(a + b =~= b);
    } else {
        assert((a + b).drop_first() =~= a.drop_first() + b);
        assert((a + b)[0] == a[0]);
        lemma_selected_version_append(a.drop_first(), b, n);
    }
}


proof fn lemma_solve_sound(m: Seq<MirrorPackageView>, pending: Seq<(Seq<char>, Seq<char>)>, sel: Seq<SelectionView>)
    requires
        solve(m, pending, sel).is_some(),
    ensures
        ({
            let out = solve(m, pending, sel).unwrap();
            &&& sel.len() <= out.len()
            &&& out.take(sel.len() as int) == sel
            &&& all_satisfied(out, pending)
            &&& dependencies_met_from(out, sel.len() as int)
        }),
    decreases unselected(m, sel), pending.len(), 0int,
{
    let out = solve(m, pending, sel).unwrap();
    if pending.len() == 0 {
        assert(out.take(sel.len() as int) =~= sel);
    } else {
        let i = first_least(pending);
        lemma_first_least_range(pending);
        let next = pending[i];
        let rest = pending.remove(i);
        match selected_version(sel, next.0) {
            Some(v) => {
                lemma_solve_sound(m, rest, sel);
                assert(out =~= sel + out.skip(sel.len() as int));
                lemma_selected_version_append(sel, out.skip(sel.len() as int), next.0);
                assert forall|j: int| 0 <= j < pending.len() implies satisfied(out, #[trigger] pending[j]) by {
                    if j < i {
                        assert(pending[j] == rest[j]);
                    } else if j > i {
                        assert(pending[j] == rest[j - 1]);
                    }
                }
            },
            None => {
                lemma_try_sound(m, next, rest, sel, 0);
                assert forall|j: int| 0 <= j < pending.len() implies satisfied(out, #[trigger] pending[j]) by {
                    if j < i {
                        assert(pending[j] == rest[j]);
                    } else if j > i {
                        assert(pending[j] == rest[j - 1]);
                    }
                }
            },
        }
    }
}

proof fn lemma_try_sound(
    m: Seq<MirrorPackageView>,
    next: (Seq<char>, Seq<char>),
    rest: Seq<(Seq<char>, Seq<char>)>,
    sel: Seq<SelectionView>,
    k: int,
)
    requires
        try_versions(m, next, rest, sel, k).is_some(),
    ensures
        ({
            let out = try_versions(m, next, rest, sel, k).unwrap();
            &&& sel.len() <= out.len()
            &&& out.take(sel.len() as int) == sel
            &&& satisfied(out, next)
            &&& all_satisfied(out, rest)
            &&& dependencies_met_from(out, sel.len() as int)
        }),
    decreases unselected(m, sel), rest.len(), version_count(m, next.0) - k,
{
    let out = try_versions(m, next, rest, sel, k).unwrap();
    let cands = mirror_versions(m, next.0)->Ok_0;
    let c = cands[k];
    if !semver_matches(next.1, c.version) {
        lemma_try_sound(m, next, rest, sel, k + 1);
    } else {
        let deps = c.manifest->Ok_0.dependencies;
        let chosen = SelectionView { name: next.0, version: c.version, dependencies: deps };
        lemma_mirror_versions_named(m, next.0);
        lemma_selected_version_named(sel, next.0);
        lemma_unselected_decreases(m, sel, chosen);
        let below = solve(m, rest + deps, sel.push(chosen));
        if below.is_some() {
            lemma_solve_sound(m, rest + deps, sel.push(chosen));
            let s2 = sel.push(chosen);
            assert(out == below.unwrap());
            assert(out.take(sel.len() as int) =~= s2.take(sel.len() as int));
            assert(s2.take(sel.len() as int) =~= sel);
            assert(out =~= sel + out.skip(sel.len() as int));
            lemma_selected_version_append(sel, out.skip(sel.len() as int), next.0);
            assert(out.take(s2.len() as int)[sel.len() as int] == out[sel.len() as int]);
            assert(s2[sel.len() as int] == chosen);
            assert(out.skip(sel.len() as int)[0] == chosen);
            assert forall|j: int| 0 <= j < rest.len() implies satisfied(out, #[trigger] rest[j]) by {
                assert((rest + deps)[j] == rest[j]);
            }
            assert forall|j: int| 0 <= j < deps.len() implies satisfied(out, #[trigger] deps[j]) by {
                assert((rest + deps)[rest.len() + j] == deps[j]);
            }
            assert(out[sel.len() as int] == chosen);
        } else {
            lemma_try_sound(m, next, rest, sel, k + 1);
        }
    }
}

/// A resolution meets every requirement it started from and every
/// dependency of every package it chose: each is matched by the version
/// chosen for its package.
pub proof fn lemma_resolution_meets_requirements(
    m: Seq<MirrorPackageView>,
    root: Seq<(Seq<char>, Seq<char>)>,
)
    requires
        solve(m, root, Seq::empty()).is_some(),
    ensures
        all_satisfied(solve(m, root, Seq::empty()).unwrap(), root),
        dependencies_met_from(solve(m, root, Seq::empty()).unwrap(), 0),
{
    lemma_solve_sound(m, root, Seq::empty());
}

} // verus!
