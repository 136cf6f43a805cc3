//! Boot-order allocation: picking the lowest free boot-entry id and editing
//! the persisted order list.

use vstd::prelude::*;

verus! {

/// If a sequence contains every id below `r`, it has at least `r` elements.
proof fn lemma_all_below_contained_len(s: Seq<u16>, r: int)
    requires
        0 <= r <= 0x10000,
        forall|x: u16| x < r ==> s.contains(x),
    ensures
        r <= s.len(),
    decreases r,
{
    if r > 0 {
        let v = (r - 1) as u16;
        assert(s.contains(v));
        let i = choose|i: int| 0 <= i < s.len() && s[i] == v;
        let s2 = s.remove(i);
        assert forall|x: u16| x < r - 1 implies s2.contains(x) by {
            assert(s.contains(x));
            let j = choose|j: int| 0 <= j < s.len() && s[j] == x;
            if j < i {
                assert(s2[j] == x);
            } else {
                assert(j != i);
                assert(s2[j - 1] == x);
            }
        }
        lemma_all_below_contained_len(s2, r - 1);
    }
}

/// The smallest boot-entry id that the current order does not use: `0` for an
/// empty order, the first gap otherwise, `n` when `0..n-1` are all taken.
pub fn get_free_boot_id(boot_order: &Vec<u16>) -> (r: u16)
    requires
        boot_order@.len() <= u16::MAX as nat,
    ensures
        !boot_order@.contains(r),
        forall|x: u16| x < r ==> boot_order@.contains(x),
{
    let mut r: u16 = 0;
    let mut i: usize = 0;
    while i < boot_order.len()
        invariant
            boot_order@.len() <= u16::MAX as nat,
            0 <= i <= boot_order@.len(),
            forall|x: u16| x < r ==> boot_order@.contains(x),
            forall|j: int| 0 <= j < i ==> boot_order@[j] != r,
        decreases 0x10000 - r, boot_order@.len() - i,
    {
        if boot_order[i] == r {
            proof {
                assert(boot_order@.contains(boot_order@[i as int]));
                assert(forall|x: u16| x < r + 1 ==> boot_order@.contains(x));
                lemma_all_below_contained_len(boot_order@, r + 1);
            }
            r = r + 1;
            i = 0;
        } else {
            i += 1;
        }
    }
    proof {
        if boot_order@.contains(r) {
            let j = choose|j: int| 0 <= j < boot_order@.len() && boot_order@[j] == r;
            assert(boot_order@[j] != r);
        }
    }
    r
}

/// Places a new id in the boot order: at `position` when one is given, at the
/// end otherwise. The caller guarantees the id is not already present.
pub fn insert_or_append(boot_order: &mut Vec<u16>, boot_id: u16, boot_position: Option<usize>)
    requires
        match boot_position {
            Some(p) => p <= old(boot_order)@.len(),
            None => true,
        },
        old(boot_order)@.len() < usize::MAX,
    ensures
        final(boot_order)@ == match boot_position {
            Some(p) => old(boot_order)@.insert(p as int, boot_id),
            None => old(boot_order)@.push(boot_id),
        },
{
    match boot_position {
        Some(p) => boot_order.insert(p, boot_id),
        None => boot_order.push(boot_id),
    }
}

/// Resolves each id of the boot order to that id paired with the description
/// of the last entry carrying it; every id of the order must name an entry.
#[verifier::loop_isolation(false)]
pub fn boot_order_items(boot_order: &Vec<u16>, descriptions: &Vec<(u16, String)>) -> (r: Vec<
    (u16, String),
>)
    requires
        forall|i: int|
            #![trigger boot_order@[i]]
            0 <= i < boot_order@.len() ==> exists|j: int|
                0 <= j < descriptions@.len() && (#[trigger] descriptions@[j]).0 == boot_order@[i],
    ensures
        r@.len() == boot_order@.len(),
        forall|i: int|
            0 <= i < r@.len() ==> (#[trigger] r@[i]).0 == boot_order@[i] && exists|j: int|
                0 <= j < descriptions@.len() && (#[trigger] descriptions@[j]).0 == boot_order@[i]
                    && r@[i].1@ == descriptions@[j].1@ && (forall|t: int|
                    j < t < descriptions@.len() ==> (#[trigger] descriptions@[t]).0
                        != boot_order@[i]),
{
    let mut out: Vec<(u16, String)> = Vec::new();
    let mut i: usize = 0;
    while i < boot_order.len()
        invariant
            0 <= i <= boot_order@.len(),
            out@.len() == i,
            forall|k: int|
                0 <= k < i ==> (#[trigger] out@[k]).0 == boot_order@[k] && exists|j: int|
                    0 <= j < descriptions@.len() && (#[trigger] descriptions@[j]).0
                        == boot_order@[k] && out@[k].1@ == descriptions@[j].1@ && (forall|t: int|
                        j < t < descriptions@.len() ==> (#[trigger] descriptions@[t]).0
                            != boot_order@[k]),
        decreases boot_order@.len() - i,
    {
        let id = boot_order[i];
        let mut found: Option<usize> = None;
        let mut j: usize = 0;
        while j < descriptions.len()
            invariant
                0 <= j <= descriptions@.len(),
                match found {
                    Some(f) => f < descriptions@.len() && descriptions@[f as int].0 == id
                        && forall|t: int|
                        f < t < j ==> (#[trigger] descriptions@[t]).0 != id,
                    None => forall|t: int|
                        0 <= t < j ==> (#[trigger] descriptions@[t]).0 != id,
                },
            decreases descriptions@.len() - j,
        {
            if descriptions[j].0 == id {
                found = Some(j);
            }
            j += 1;
        }
        match found {
            Some(f) => {
                let name = descriptions[f].1.clone();
                out.push((id, name));
            },
            None => {
                // unreachable: the precondition names an entry for every id
                proof {
                    let j = choose|j: int|
                        0 <= j < descriptions@.len() && (#[trigger] descriptions@[j]).0
                            == boot_order@[i as int];
                    assert(descriptions@[j].0 != id);
                    assert(false);
                }
                out.push((id, String::new()));
            },
        }
        i += 1;
    }
    out
}

/// Reorders boot ids as the operator chose: `selection` lists positions into
/// `items`, and the result is the ids at those positions, in that order.
pub fn apply_boot_order_selection(items: &Vec<(u16, String)>, selection: &Vec<usize>) -> (r: Vec<
    u16,
>)
    requires
        forall|i: int| 0 <= i < selection@.len() ==> #[trigger] selection@[i] < items@.len(),
    ensures
        r@.len() == selection@.len(),
        forall|i: int|
            0 <= i < r@.len() ==> #[trigger] r@[i] == items@[selection@[i] as int].0,
{
    let mut out: Vec<u16> = Vec::new();
    let mut i: usize = 0;
    while i < selection.len()
        invariant
            0 <= i <= selection@.len(),
            forall|k: int| 0 <= k < selection@.len() ==> #[trigger] selection@[k] < items@.len(),
            out@.len() == i,
            forall|k: int|
                0 <= k < i ==> #[trigger] out@[k] == items@[selection@[k] as int].0,
        decreases selection@.len() - i,
    {
        out.push(items[selection[i]].0);
        i += 1;
    }
    out
}

} // verus!
