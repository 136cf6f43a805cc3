//! Build and clean planning: which EFI binaries to build for the resolved
//! kernels, which stale binaries and module directories to remove.

use vstd::prelude::*;

use crate::strutil::push_char;
use crate::strutil::str_eq;

verus! {

/// The build configuration: where kernel module directories live, where the
/// EFI binaries go, and which kernel identifier maps to which destination
/// file name.
pub struct EfiStubBuildConfig {
    pub kernel_modules_dir: String,
    pub efi_dir: String,
    pub build_mappings: Vec<(String, String)>,
}

/// A directory joined with a file name under it: a `/` is put between them
/// unless the directory is empty or already ends in one.
pub open spec fn joined(dir: Seq<char>, name: Seq<char>) -> Seq<char> {
    if dir.len() == 0 {
        name
    } else if dir.last() == '/' {
        dir + name
    } else {
        dir + seq!['/'] + name
    }
}

/// Joins a directory and a file name under it.
pub fn join_path(dir: &str, name: &str) -> (r: String)
    ensures
        r@ == joined(dir@, name@),
{
    let len = dir.unicode_len();
    if len == 0 {
        return name.to_owned();
    }
    let mut out = dir.to_owned();
    if dir.get_char(len - 1) != '/' {
        push_char(&mut out, '/');
    }
    out.append(name);
    proof {
        assert(out@ =~= joined(dir@, name@));
    }
    out
}

/// The destination file name the configuration maps an identifier to: the
/// second component of the first mapping pair carrying that key.
pub open spec fn spec_lookup(mappings: Seq<(String, String)>, key: Seq<char>) -> Seq<char>
    decreases mappings.len(),
{
    if mappings.len() == 0 {
        Seq::empty()
    } else if mappings[0].0@ == key {
        mappings[0].1@
    } else {
        spec_lookup(mappings.skip(1), key)
    }
}

/// Whether some pair of `pairs` carries the key.
pub open spec fn has_key(pairs: Seq<(String, String)>, key: Seq<char>) -> bool {
    exists|j: int| 0 <= j < pairs.len() && (#[trigger] pairs[j]).0@ == key
}

/// Finds the destination name mapped to `key`.
fn lookup_mapping(mappings: &Vec<(String, String)>, key: &str) -> (r: Option<String>)
    ensures
        match r {
            Some(d) => has_key(mappings@, key@) && d@ == spec_lookup(mappings@, key@),
            None => !has_key(mappings@, key@),
        },
{
    let mut i: usize = 0;
    proof {
        assert(mappings@.skip(0) =~= mappings@);
    }
    while i < mappings.len()
        invariant
            0 <= i <= mappings@.len(),
            spec_lookup(mappings@, key@) == spec_lookup(mappings@.skip(i as int), key@),
            forall|j: int| 0 <= j < i ==> (#[trigger] mappings@[j]).0@ != key@,
        decreases mappings@.len() - i,
    {
        proof {
            assert(mappings@.skip(i as int)[0] == mappings@[i as int]);
            assert(mappings@.skip(i as int).skip(1) =~= mappings@.skip(i + 1));
        }
        if str_eq(mappings[i].0.as_str(), key) {
            return Some(mappings[i].1.clone());
        }
        i += 1;
    }
    proof {
        if has_key(mappings@, key@) {
            let j = choose|j: int| 0 <= j < mappings@.len() && (#[trigger] mappings@[j]).0@ == key@;
            assert(mappings@[j].0@ != key@);
        }
    }
    None
}

/// One build to run: the resolved kernel's module-directory name and the
/// full path of the EFI binary to produce.
pub struct BuildJob {
    pub kernel_version: String,
    pub destination: String,
}

/// Lays out one build job per resolved kernel: the resolved name, and the
/// configured destination file joined under the EFI directory. Every
/// resolved identifier must appear in the mappings.
#[verifier::loop_isolation(false)]
pub fn plan_builds(settings: &EfiStubBuildConfig, resolved: &Vec<(String, String)>) -> (r: Vec<
    BuildJob,
>)
    requires
        forall|i: int|
            0 <= i < resolved@.len() ==> has_key(
                settings.build_mappings@,
                (#[trigger] resolved@[i]).0@,
            ),
    ensures
        r@.len() == resolved@.len(),
        forall|i: int|
            0 <= i < r@.len() ==> (#[trigger] r@[i]).kernel_version == resolved@[i].1
                && r@[i].destination@ == joined(
                settings.efi_dir@,
                spec_lookup(settings.build_mappings@, resolved@[i].0@),
            ),
{
    let mappings = &settings.build_mappings;
    let efi_dir = settings.efi_dir.as_str();
    let mut out: Vec<BuildJob> = Vec::new();
    let mut i: usize = 0;
    while i < resolved.len()
        invariant
            0 <= i <= resolved@.len(),
            out@.len() == i,
            forall|k: int|
                0 <= k < i ==> (#[trigger] out@[k]).kernel_version == resolved@[k].1
                    && out@[k].destination@ == joined(
                    efi_dir@,
                    spec_lookup(mappings@, resolved@[k].0@),
                ),
        decreases resolved@.len() - i,
    {
        match lookup_mapping(mappings, resolved[i].0.as_str()) {
            Some(dest_name) => {
                let destination = join_path(efi_dir, dest_name.as_str());
                out.push(BuildJob { kernel_version: resolved[i].1.clone(), destination });
            },
            None => {
                proof {
                    assert(has_key(mappings@, resolved@[i as int].0@));
                    assert(false);
                }
            },
        }
        i += 1;
    }
    out
}

/// One stale binary to consider removing: the configured identifier that no
/// longer resolves, the full path of its configured destination, and
/// whether that destination currently exists in the EFI directory.
pub struct CleanAction {
    pub ident: String,
    pub destination: String,
    pub present: bool,
}

/// The mapping pairs whose identifier resolved to no installed kernel.
pub open spec fn unresolved(
    mappings: Seq<(String, String)>,
    resolved: Seq<(String, String)>,
) -> Seq<(String, String)> {
    mappings.filter(|p: (String, String)| !has_key(resolved, p.0@))
}

/// Whether a file name occurs in a directory listing.
pub open spec fn name_listed(listing: Seq<Seq<char>>, name: Seq<char>) -> bool {
    listing.contains(name)
}

/// Tests a name against a directory listing.
fn is_listed(listing: &Vec<String>, name: &str) -> (r: bool)
    ensures
        r == name_listed(listing.deep_view(), name@),
{
    let mut i: usize = 0;
    while i < listing.len()
        invariant
            0 <= i <= listing@.len(),
            listing.deep_view().len() == listing@.len(),
            forall|j: int|
                0 <= j < listing@.len() ==> listing.deep_view()[j] == #[trigger] listing@[j]@,
            forall|j: int| 0 <= j < i ==> #[trigger] listing@[j]@ != name@,
        decreases listing@.len() - i,
    {
        if str_eq(listing[i].as_str(), name) {
            proof {
                assert(listing.deep_view()[i as int] == name@);
            }
            return true;
        }
        i += 1;
    }
    proof {
        if listing.deep_view().contains(name@) {
            let j = choose|j: int|
                0 <= j < listing.deep_view().len() && listing.deep_view()[j] == name@;
            assert(listing@[j]@ != name@);
        }
    }
    false
}

/// Lays out the clean step over the EFI directory: one action per
/// configured identifier that resolved to no installed kernel, carrying the
/// destination's full path and whether the destination file is present in
/// the directory's listing.
#[verifier::loop_isolation(false)]
pub fn plan_clean(
    settings: &EfiStubBuildConfig,
    resolved: &Vec<(String, String)>,
    efi_dir_listing: &Vec<String>,
) -> (r: Vec<CleanAction>)
    ensures
        r@.len() == unresolved(settings.build_mappings@, resolved@).len(),
        forall|i: int|
            0 <= i < r@.len() ==> {
                let u = unresolved(settings.build_mappings@, resolved@)[i];
                (#[trigger] r@[i]).ident == u.0 && r@[i].destination@ == joined(
                    settings.efi_dir@,
                    u.1@,
                ) && r@[i].present == name_listed(efi_dir_listing.deep_view(), u.1@)
            },
{
    let mappings = &settings.build_mappings;
    let efi_dir = settings.efi_dir.as_str();
    let ghost pred = |p: (String, String)| !has_key(resolved@, p.0@);
    let mut out: Vec<CleanAction> = Vec::new();
    let mut i: usize = 0;
    while i < mappings.len()
        invariant
            0 <= i <= mappings@.len(),
            out@.len() == mappings@.take(i as int).filter(pred).len(),
            forall|k: int|
                0 <= k < out@.len() ==> {
                    let u = mappings@.take(i as int).filter(pred)[k];
                    (#[trigger] out@[k]).ident == u.0 && out@[k].destination@ == joined(
                        efi_dir@,
                        u.1@,
                    ) && out@[k].present == name_listed(efi_dir_listing.deep_view(), u.1@)
                },
        decreases mappings@.len() - i,
    {
        proof {
            reveal(Seq::filter);
            assert(mappings@.take(i + 1).drop_last() =~= mappings@.take(i as int));
            assert(mappings@.take(i + 1).last() == mappings@[i as int]);
        }
        let mut found = false;
        let mut j: usize = 0;
        while j < resolved.len()
            invariant
                0 <= j <= resolved@.len(),
                0 <= i < mappings@.len(),
                found ==> has_key(resolved@, mappings@[i as int].0@),
                !found ==> forall|t: int|
                    0 <= t < j ==> (#[trigger] resolved@[t]).0@ != mappings@[i as int].0@,
            decreases resolved@.len() - j,
        {
            if str_eq(resolved[j].0.as_str(), mappings[i].0.as_str()) {
                found = true;
            }
            j += 1;
        }
        proof {
            if !found && has_key(resolved@, mappings@[i as int].0@) {
                let t = choose|t: int|
                    0 <= t < resolved@.len() && (#[trigger] resolved@[t]).0@
                        == mappings@[i as int].0@;
                assert(resolved@[t].0@ != mappings@[i as int].0@);
            }
            assert(found == has_key(resolved@, mappings@[i as int].0@));
        }
        if !found {
            let ident = mappings[i].0.clone();
            let destination = join_path(efi_dir, mappings[i].1.as_str());
            let present = is_listed(efi_dir_listing, mappings[i].1.as_str());
            out.push(CleanAction { ident, destination, present });
        }
        i += 1;
    }
    proof {
        assert(mappings@.take(mappings@.len() as int) =~= mappings@);
    }
    out
}

/// One entry of the modules directory: the directory's name, and whether it
/// still holds a kernel image.
pub struct ModuleDirEntry {
    pub name: String,
    pub has_kernel_image: bool,
}

/// The module directories that are leftovers: no kernel image, and not the
/// kernel running right now.
pub open spec fn spec_stale_dirs(entries: Seq<ModuleDirEntry>, current: Seq<char>) -> Seq<
    ModuleDirEntry,
> {
    entries.filter(|e: ModuleDirEntry| !e.has_kernel_image && e.name@ != current)
}

/// Picks the module directories safe to remove: those without a kernel
/// image whose name is not the currently running kernel's.
#[verifier::loop_isolation(false)]
pub fn stale_module_dirs(entries: &Vec<ModuleDirEntry>, current_kernel: &str) -> (r: Vec<String>)
    ensures
        r@.len() == spec_stale_dirs(entries@, current_kernel@).len(),
        forall|i: int|
            0 <= i < r@.len() ==> #[trigger] r@[i] == spec_stale_dirs(
                entries@,
                current_kernel@,
            )[i].name,
{
    let ghost pred = |e: ModuleDirEntry| !e.has_kernel_image && e.name@ != current_kernel@;
    let mut out: Vec<String> = Vec::new();
    let mut i: usize = 0;
    while i < entries.len()
        invariant
            0 <= i <= entries@.len(),
            out@.len() == entries@.take(i as int).filter(pred).len(),
            forall|k: int|
                0 <= k < out@.len() ==> #[trigger] out@[k] == entries@.take(i as int).filter(
                    pred,
                )[k].name,
        decreases entries@.len() - i,
    {
        proof {
            reveal(Seq::filter);
            assert(entries@.take(i + 1).drop_last() =~= entries@.take(i as int));
            assert(entries@.take(i + 1).last() == entries@[i as int]);
        }
        if !entries[i].has_kernel_image && !str_eq(entries[i].name.as_str(), current_kernel) {
            out.push(entries[i].name.clone());
        }
        i += 1;
    }
    proof {
        assert(entries@.take(entries@.len() as int) =~= entries@);
    }
    out
}

} // verus!
