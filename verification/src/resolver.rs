//! Kernel version resolution: which installed module directory is the newest
//! match for each configured kernel identifier.

use vstd::prelude::*;

use crate::jobs::EfiStubBuildConfig;
use crate::strutil::contains_sub;
use crate::strutil::str_contains;
use crate::strutil::str_eq;
use crate::version::KernelVersion;
use crate::version::key_lt;
use crate::version::lemma_key_lt_names;
use crate::version::name_key_lt;
use crate::version::version_wf;

verus! {

/// The candidates associated with an identifier: those whose directory name
/// contains it, in scan order.
pub open spec fn matching(cands: Seq<Seq<char>>, ident: Seq<char>) -> Seq<Seq<char>> {
    cands.filter(|c: Seq<char>| contains_sub(c, ident))
}

/// First-seen-wins selection of the newest candidate: a later candidate
/// replaces the current pick only when its key is strictly greater.
pub open spec fn select_newest(cands: Seq<Seq<char>>) -> Seq<char>
    recommends
        cands.len() > 0,
    decreases cands.len(),
{
    if cands.len() <= 1 {
        cands[0]
    } else {
        let prev = select_newest(cands.drop_last());
        if name_key_lt(prev, cands.last()) {
            cands.last()
        } else {
            prev
        }
    }
}

/// The resolver's result: each identifier with at least one matching
/// candidate, in configuration order, paired with the selected name.
pub open spec fn spec_resolve(idents: Seq<Seq<char>>, cands: Seq<Seq<char>>) -> Seq<
    (Seq<char>, Seq<char>),
>
    decreases idents.len(),
{
    if idents.len() == 0 {
        Seq::empty()
    } else {
        let rest = spec_resolve(idents.drop_last(), cands);
        let m = matching(cands, idents.last());
        if m.len() > 0 {
            rest.push((idents.last(), select_newest(m)))
        } else {
            rest
        }
    }
}

/// The identifier components of a configuration's mapping pairs.
pub open spec fn keys_of(mappings: Seq<(Seq<char>, Seq<char>)>) -> Seq<Seq<char>> {
    mappings.map_values(|p: (Seq<char>, Seq<char>)| p.0)
}

/// The selection never picks a candidate with a smaller key than any other:
/// whatever `select_newest` returns compares greater-or-equal, under the
/// `(major, minor, patch, revision)` order, with every candidate in the set.
pub proof fn lemma_selected_is_newest(cands: Seq<Seq<char>>, i: int)
    requires
        0 <= i < cands.len(),
    ensures
        !name_key_lt(select_newest(cands), cands[i]),
    decreases cands.len(),
{
    if cands.len() > 1 && i < cands.len() - 1 {
        lemma_selected_is_newest(cands.drop_last(), i);
    }
}

/// The selection returns one of the candidates.
pub proof fn lemma_selected_membership(cands: Seq<Seq<char>>)
    requires
        cands.len() > 0,
    ensures
        cands.contains(select_newest(cands)),
    decreases cands.len(),
{
    if cands.len() == 1 {
        assert(cands[0] == select_newest(cands));
    } else {
        lemma_selected_membership(cands.drop_last());
        if !name_key_lt(select_newest(cands.drop_last()), cands.last()) {
            let j = choose|j: int|
                0 <= j < cands.drop_last().len() && cands.drop_last()[j] == select_newest(
                    cands.drop_last(),
                );
            assert(cands[j] == select_newest(cands));
        } else {
            assert(cands[cands.len() - 1] == select_newest(cands));
        }
    }
}

/// Every pair the resolver hands back picks a newest match: whenever a
/// candidate's name contains the pair's identifier, the picked name's
/// `(major, minor, patch, revision)` key compares greater-or-equal with that
/// candidate's.
pub proof fn lemma_resolved_is_newest(
    idents: Seq<Seq<char>>,
    cands: Seq<Seq<char>>,
    i: int,
    j: int,
)
    requires
        0 <= i < spec_resolve(idents, cands).len(),
        0 <= j < cands.len(),
        contains_sub(cands[j], spec_resolve(idents, cands)[i].0),
    ensures
        !name_key_lt(spec_resolve(idents, cands)[i].1, cands[j]),
    decreases idents.len(),
{
    let r = spec_resolve(idents, cands);
    let rest = spec_resolve(idents.drop_last(), cands);
    let m = matching(cands, idents.last());
    if m.len() > 0 && i == r.len() - 1 {
        let pred = |c: Seq<char>| contains_sub(c, idents.last());
        Seq::lemma_filter_contains(cands, pred, j);
        let jj = choose|jj: int| 0 <= jj < m.len() && m[jj] == cands[j];
        lemma_selected_is_newest(m, jj);
    } else {
        lemma_resolved_is_newest(idents.drop_last(), cands, i, j);
    }
}

/// A module directory holds a kernel installation only when a `vmlinuz`
/// image sits among its entries; anything else is a leftover.
pub fn is_valid_installation(entries: &Vec<String>) -> (r: bool)
    ensures
        r == entries.deep_view().contains("vmlinuz"@),
{
    let mut i: usize = 0;
    while i < entries.len()
        invariant
            0 <= i <= entries@.len(),
            entries.deep_view().len() == entries@.len(),
            forall|j: int|
                0 <= j < entries@.len() ==> entries.deep_view()[j] == #[trigger] entries@[j]@,
            forall|j: int| 0 <= j < i ==> #[trigger] entries@[j]@ != "vmlinuz"@,
        decreases entries@.len() - i,
    {
        if str_eq(entries[i].as_str(), "vmlinuz") {
            proof {
                assert(entries.deep_view()[i as int] == "vmlinuz"@);
            }
            return true;
        }
        i += 1;
    }
    proof {
        if entries.deep_view().contains("vmlinuz"@) {
            let j = choose|j: int|
                0 <= j < entries.deep_view().len() && entries.deep_view()[j] == "vmlinuz"@;
            assert(entries@[j]@ != "vmlinuz"@);
        }
    }
    false
}

/// For each configured identifier, the full name of the newest installed
/// candidate whose directory name contains it; identifiers with no matching
/// candidate are absent. Later candidates win only with a strictly greater
/// `(major, minor, patch, revision)` key, so ties keep the first seen.
#[verifier::loop_isolation(false)]
pub fn get_newest_installed_kernels(settings: &EfiStubBuildConfig, candidates: &Vec<String>) -> (r:
    Vec<(String, String)>)
    ensures
        r.deep_view() == spec_resolve(
            keys_of(settings.build_mappings.deep_view()),
            candidates.deep_view(),
        ),
{
    let ghost cands = candidates.deep_view();
    let ghost idents = keys_of(settings.build_mappings.deep_view());
    let mut out: Vec<(String, String)> = Vec::new();
    let mut ki: usize = 0;
    while ki < settings.build_mappings.len()
        invariant
            0 <= ki <= settings.build_mappings@.len(),
            out.deep_view() =~= spec_resolve(idents.take(ki as int), cands),
        decreases settings.build_mappings@.len() - ki,
    {
        let ident: &String = &settings.build_mappings[ki].0;
        let ghost iv = ident@;
        let mut best: Option<KernelVersion> = None;
        let mut cj: usize = 0;
        while cj < candidates.len()
            invariant
                0 <= cj <= candidates@.len(),
                iv == idents[ki as int],
                match best {
                    Some(kv) => matching(cands.take(cj as int), iv).len() > 0 && version_wf(kv)
                        && kv.full_name@ == select_newest(matching(cands.take(cj as int), iv)),
                    None => matching(cands.take(cj as int), iv).len() == 0,
                },
            decreases candidates@.len() - cj,
        {
            let ghost m = matching(cands.take(cj as int), iv);
            let matched = str_contains(candidates[cj].as_str(), ident.as_str());
            proof {
                reveal(Seq::filter);
                assert(cands.take(cj + 1).drop_last() =~= cands.take(cj as int));
                assert(cands.take(cj + 1).last() == candidates@[cj as int]@);
            }
            if matched {
                let kv = KernelVersion::parse(candidates[cj].as_str());
                proof {
                    assert(matching(cands.take(cj + 1), iv) =~= m.push(candidates@[cj as int]@));
                }
                best = match best {
                    None => {
                        proof {
                            assert(matching(cands.take(cj + 1), iv)[0] == candidates@[cj as int]@);
                        }
                        Some(kv)
                    },
                    Some(b) => {
                        proof {
                            lemma_key_lt_names(b, kv);
                            assert(m.push(candidates@[cj as int]@).drop_last() =~= m);
                        }
                        if kv.is_newer_than(&b) {
                            Some(kv)
                        } else {
                            Some(b)
                        }
                    },
                };
            } else {
                proof {
                    assert(matching(cands.take(cj + 1), iv) =~= m);
                }
            }
            cj += 1;
        }
        proof {
            assert(cands.take(candidates@.len() as int) =~= cands);
            assert(idents.take(ki + 1).drop_last() =~= idents.take(ki as int));
            assert(idents.take(ki + 1).last() == idents[ki as int]);
        }
        match best {
            Some(kv) => {
                let name = ident.clone();
                out.push((name, kv.full_name));
            },
            None => {},
        }
        ki += 1;
    }
    proof {
        assert(idents.take(settings.build_mappings@.len() as int) =~= idents);
    }
    out
}

} // verus!
