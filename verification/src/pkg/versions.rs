//! The versions a mirror holds for one package: of the names of its
//! version directories, those that parse as semantic versions, newest
//! first.

use vstd::prelude::*;

use crate::order::views;
use crate::pkg::{parse_version, semver_parse};
use crate::order::{lemma_str_le_total, str_less, str_lt};
use crate::pkg::report::{RegistryEntry, RegistryEntryView};
use crate::text::{str_eq, to_owned_string};

verus! {

/// Whether both texts parse as versions (`semver::Version`) and the first
/// has lower precedence than the second.
pub uninterp spec fn semver_less(a: Seq<char>, b: Seq<char>) -> bool;

/// `semver::Version`'s `<` on the two parsed texts; false when either does
/// not parse. Claimed, not proved: the result is `semver_less(a, b)`,
/// which depends on the two texts alone, and, since semver orders versions
/// totally, `a` below `b` rules out `b` below `a`. The precedence rules of
/// semantic versioning are not written out.
#[verifier::external_body]
pub(crate) fn version_less(a: &str, b: &str) -> (r: bool)
    ensures
        r == semver_less(a@, b@),
        r ==> !semver_less(b@, a@),
{
    match (semver::Version::parse(a), semver::Version::parse(b)) {
        (Ok(x), Ok(y)) => x < y,
        _ => false,
    }
}

/// The texts of `names` that parse as versions, in their order.
pub open spec fn parsed_versions(names: Seq<Seq<char>>) -> Seq<Seq<char>>
    decreases names.len(),
{
    if names.len() == 0 {
        names
    } else {
        let rest = parsed_versions(names.drop_last());
        if semver_parse(names.last()) is Ok {
            rest.push(names.last())
        } else {
            rest
        }
    }
}

/// No version in `s` is followed by a newer one.
pub open spec fn newest_first(s: Seq<Seq<char>>) -> bool {
    forall|i: int, j: int|
        #![trigger s[i], s[j]]
        0 <= i && j == i + 1 && j < s.len() ==> !semver_less(s[i], s[j])
}

/// Of the names of a package's version directories, those that parse as
/// versions, newest first: the same names (as a multiset) as
/// `parsed_versions`, with no version followed by a newer one.
pub fn versions_newest_first(names: &Vec<String>) -> (r: Vec<String>)
    ensures
        views(r@).to_multiset() == parsed_versions(views(names@)).to_multiset(),
        newest_first(views(r@)),
{
    let mut out: Vec<String> = Vec::new();
    let mut i: usize = 0;
    proof {
        assert(views(out@) =~= Seq::<Seq<char>>::empty());
        assert(parsed_versions(views(names@).take(0)) =~= Seq::<Seq<char>>::empty());
    }
    while i < names.len()
        invariant
            i <= names.len(),
            views(out@).to_multiset() == parsed_versions(views(names@).take(i as int)).to_multiset(),
            newest_first(views(out@)),
        decreases names.len() - i,
    {
        let name = &names[i];
        let ghost before = views(names@).take(i as int);
        proof {
            assert(views(names@).take(i + 1).drop_last() =~= before);
            assert(views(names@).take(i + 1).last() == name@);
        }
        if parse_version(name.as_str()).is_ok() {
            let mut j: usize = 0;
            while j < out.len() && !version_less(out[j].as_str(), name.as_str())
                invariant
                    j <= out.len(),
                    forall|k: int| 0 <= k < j ==> !semver_less(#[trigger] out@[k]@, name@),
                decreases out.len() - j,
            {
                j += 1;
            }
            let ghost old_out = views(out@);
            proof {
                assert forall|k: int| 0 <= k < j implies !semver_less(old_out[k], name@) by {
                    assert(old_out[k] == out@[k]@);
                }
                if j < out.len() {
                    assert(semver_less(old_out[j as int], name@));
                }
            }
            let copy = to_owned_string(name.as_str());
            out.insert(j, copy);
            proof {
                assert(views(out@) =~= old_out.insert(j as int, name@));
                vstd::seq_lib::to_multiset_insert(old_out, j as int, name@);
                vstd::seq_lib::to_multiset_build(parsed_versions(before), name@);
                let s = views(out@);
                assert forall|a: int, b: int|
                    #![trigger s[a], s[b]]
                    0 <= a && b == a + 1 && b < s.len() implies !semver_less(s[a], s[b]) by {
                    if b < j {
                        assert(s[a] == old_out[a] && s[b] == old_out[b]);
                    } else if b == j {
                        assert(s[a] == old_out[a]);
                    } else if a == j {
                        assert(old_out[a] == s[b]);
                    } else {
                        assert(s[a] == old_out[a - 1] && s[b] == old_out[b - 1]);
                    }
                }
            }
        } else {
            proof {
                assert(!(semver_parse(name@) is Ok));
            }
        }
        i += 1;
    }
    proof {
        assert(views(names@).take(names.len() as int) =~= views(names@));
    }
    out
}

/// The version the registry orders an entry by: its text when that parses,
/// else `0.0.0`.
pub open spec fn registry_order_version(v: Seq<char>) -> Seq<char> {
    if semver_parse(v) is Ok {
        v
    } else {
        "0.0.0"@
    }
}

/// Whether the registry index puts entry `a` before entry `b`: by name,
/// then by version (`registry_order_version`) as semver orders versions.
pub open spec fn registry_before(a: RegistryEntryView, b: RegistryEntryView) -> bool {
    str_lt(a.name, b.name) || (a.name == b.name && semver_less(
        registry_order_version(a.version),
        registry_order_version(b.version),
    ))
}

/// No entry of `s` is followed by one the registry puts before it.
pub open spec fn registry_ordered(s: Seq<RegistryEntryView>) -> bool {
    forall|i: int, j: int|
        #![trigger s[i], s[j]]
        0 <= i && j == i + 1 && j < s.len() ==> !registry_before(s[j], s[i])
}

fn order_version_text(v: &str) -> (r: &str)
    ensures
        r@ == registry_order_version(v@),
{
    if parse_version(v).is_ok() {
        v
    } else {
        proof {
            reveal_strlit("0.0.0");
        }
        "0.0.0"
    }
}

/// Whether entry `a` goes before entry `b` in the registry index.
fn goes_before(a: &RegistryEntry, b: &RegistryEntry) -> (r: bool)
    ensures
        r == registry_before(a@, b@),
        r ==> !registry_before(b@, a@),
{
    proof {
        lemma_str_le_total(a.name@, b.name@);
    }
    if str_less(a.name.as_str(), b.name.as_str()) {
        true
    } else if str_eq(a.name.as_str(), b.name.as_str()) {
        version_less(order_version_text(a.version.as_str()), order_version_text(b.version.as_str()))
    } else {
        false
    }
}

/// The entries of the registry index in the order the index is written:
/// the same entries (as a multiset), with no entry followed by one that
/// goes before it; entries that tie keep their order.
pub fn order_registry_entries(entries: Vec<RegistryEntry>) -> (r: Vec<RegistryEntry>)
    ensures
        views(r@).to_multiset() == views(entries@).to_multiset(),
        registry_ordered(views(r@)),
{
    let mut out: Vec<RegistryEntry> = Vec::new();
    let mut i: usize = 0;
    proof {
        assert(views(out@) =~= Seq::<RegistryEntryView>::empty());
        assert(views(entries@).take(0) =~= Seq::<RegistryEntryView>::empty());
    }
    while i < entries.len()
        invariant
            i <= entries.len(),
            views(out@).to_multiset() == views(entries@).take(i as int).to_multiset(),
            registry_ordered(views(out@)),
        decreases entries.len() - i,
    {
        let entry = &entries[i];
        let ghost before = views(entries@).take(i as int);
        proof {
            assert(views(entries@).take(i + 1) =~= before.push(entry@));
        }
        let mut j: usize = 0;
        while j < out.len() && !goes_before(entry, &out[j])
            invariant
                j <= out.len(),
                forall|k: int| 0 <= k < j ==> !registry_before(entry@, #[trigger] out@[k]@),
            decreases out.len() - j,
        {
            j += 1;
        }
        let ghost old_out = views(out@);
        proof {
            assert forall|k: int| 0 <= k < j implies !registry_before(entry@, old_out[k]) by {
                assert(old_out[k] == out@[k]@);
            }
            if j < out.len() {
                assert(!registry_before(old_out[j as int], entry@));
            }
        }
        let copy = RegistryEntry {
            name: to_owned_string(entry.name.as_str()),
            version: to_owned_string(entry.version.as_str()),
            source: to_owned_string(entry.source.as_str()),
        };
        out.insert(j, copy);
        proof {
            assert(views(out@) =~= old_out.insert(j as int, entry@));
            vstd::seq_lib::to_multiset_insert(old_out, j as int, entry@);
            vstd::seq_lib::to_multiset_build(before, entry@);
            let s = views(out@);
            assert forall|a: int, b: int|
                #![trigger s[a], s[b]]
                0 <= a && b == a + 1 && b < s.len() implies !registry_before(s[b], s[a]) by {
                if b < j {
                    assert(s[a] == old_out[a] && s[b] == old_out[b]);
                } else if b == j {
                    assert(s[a] == old_out[a]);
                } else if a == j {
                    assert(old_out[a] == s[b]);
                } else {
                    assert(s[a] == old_out[a - 1] && s[b] == old_out[b - 1]);
                }
            }
        }
        i += 1;
    }
    proof {
        assert(views(entries@).take(entries.len() as int) =~= views(entries@));
    }
    out
}

} // verus!
