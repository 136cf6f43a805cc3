//! Path handling for EFI binaries: canonicalizing the two separator
//! conventions (UEFI device paths use `\` and a leading separator, discovered
//! binaries use `/` and none) and recognizing `.efi` file names.

use vstd::prelude::*;

use crate::strutil::push_char;

verus! {

/// Maps a backslash separator to a forward slash; leaves every other
/// character alone.
pub open spec fn sep_to_slash(c: char) -> char {
    if c == '\\' {
        '/'
    } else {
        c
    }
}

/// Maps a forward slash to a backslash; leaves every other character alone.
pub open spec fn slash_to_sep(c: char) -> char {
    if c == '/' {
        '\\'
    } else {
        c
    }
}

/// The path with every backslash replaced by a forward slash.
pub open spec fn slashed(s: Seq<char>) -> Seq<char> {
    Seq::new(s.len(), |i: int| sep_to_slash(s[i]))
}

/// Canonical form of a path for matching: backslashes become forward
/// slashes, and one leading separator, if any, is stripped.
pub open spec fn normalize(s: Seq<char>) -> Seq<char> {
    let t = slashed(s);
    if t.len() > 0 && t[0] == '/' {
        t.skip(1)
    } else {
        t
    }
}

/// A path in the form UEFI device paths carry: a leading separator followed
/// by the path with every forward slash replaced by a backslash.
pub open spec fn uefi_path_of(s: Seq<char>) -> Seq<char> {
    seq!['\\'] + Seq::new(s.len(), |i: int| slash_to_sep(s[i]))
}

/// Canonicalizes a path for matching: `\`-separated and `/`-separated
/// spellings of the same path normalize to the same string.
pub fn normalize_path(s: &str) -> (r: String)
    ensures
        r@ == normalize(s@),
{
    let len = s.unicode_len();
    let mut out = String::new();
    let start: usize = if len > 0 {
        let c0 = s.get_char(0);
        if c0 == '/' || c0 == '\\' {
            1
        } else {
            0
        }
    } else {
        0
    };
    let mut i: usize = start;
    while i < len
        invariant
            len == s@.len(),
            start <= i <= len,
            start == if len > 0 && sep_to_slash(s@[0]) == '/' {
                1int
            } else {
                0int
            },
            out@ =~= slashed(s@).subrange(start as int, i as int),
        decreases len - i,
    {
        let c = s.get_char(i);
        let c2 = if c == '\\' {
            '/'
        } else {
            c
        };
        push_char(&mut out, c2);
        i += 1;
    }
    proof {
        assert(out@ =~= normalize(s@));
    }
    out
}

/// Converts a discovered binary's partition-relative path into the form a
/// UEFI device path carries: backslash separators and a leading separator.
pub fn to_uefi_path(s: &str) -> (r: String)
    ensures
        r@ == uefi_path_of(s@),
{
    let len = s.unicode_len();
    let mut out = String::new();
    push_char(&mut out, '\\');
    let mut i: usize = 0;
    while i < len
        invariant
            len == s@.len(),
            0 <= i <= len,
            out@ =~= uefi_path_of(s@).take(1 + i as int),
        decreases len - i,
    {
        let c = s.get_char(i);
        let c2 = if c == '/' {
            '\\'
        } else {
            c
        };
        push_char(&mut out, c2);
        i += 1;
    }
    proof {
        assert(out@ =~= uefi_path_of(s@));
    }
    out
}

/// Converting a relative path to its UEFI device-path form and normalizing
/// gives the same result as normalizing the path itself, provided the path
/// does not already begin with a separator.
pub proof fn lemma_uefi_round_trip(s: Seq<char>)
    requires
        s.len() > 0 ==> s[0] != '/' && s[0] != '\\',
    ensures
        normalize(uefi_path_of(s)) == normalize(s),
{
    let u = uefi_path_of(s);
    assert(slashed(u).len() == s.len() + 1);
    assert(slashed(u)[0] == '/');
    assert(slashed(u).skip(1) =~= slashed(s));
    if s.len() > 0 {
        assert(slashed(s)[0] == sep_to_slash(s[0]));
    }
}

/// The file-name component of a `/`-separated path: the run of characters
/// after the last separator (the whole path when it has none, empty when the
/// path ends in a separator).
pub open spec fn file_name_of(p: Seq<char>) -> Seq<char>
    decreases p.len(),
{
    if p.len() == 0 {
        p
    } else if p.last() == '/' {
        Seq::empty()
    } else {
        file_name_of(p.drop_last()).push(p.last())
    }
}

/// Whether a path's file name carries a `.efi` extension, case-insensitively:
/// the name's last four characters are `.efi` in any case, and at least one
/// character precedes the dot (a file name that is nothing but `.efi` is a
/// dotfile without an extension).
pub open spec fn has_efi_extension(p: Seq<char>) -> bool {
    let f = file_name_of(p);
    let n = f.len() as int;
    n >= 5 && f[n - 4] == '.' && (f[n - 3] == 'e' || f[n - 3] == 'E') && (f[n - 2] == 'f' || f[n
        - 2] == 'F') && (f[n - 1] == 'i' || f[n - 1] == 'I')
}

proof fn lemma_file_name_len(p: Seq<char>)
    ensures
        file_name_of(p).len() <= p.len(),
    decreases p.len(),
{
    if p.len() > 0 && p.last() != '/' {
        lemma_file_name_len(p.drop_last());
    }
}

/// When the last `m` characters of `p` contain no separator, the file name
/// keeps them: it is at least `m` long and ends in those same characters.
proof fn lemma_file_name_suffix(p: Seq<char>, m: int)
    requires
        0 <= m <= p.len(),
        forall|j: int| p.len() - m <= j < p.len() ==> p[j] != '/',
    ensures
        file_name_of(p).len() >= m,
        forall|t: int|
            0 <= t < m ==> file_name_of(p)[file_name_of(p).len() - 1 - t] == #[trigger] p[p.len()
                - 1 - t],
    decreases m,
{
    if m > 0 {
        assert(p[p.len() - 1] != '/');
        let q = p.drop_last();
        assert(forall|j: int| q.len() - (m - 1) <= j < q.len() ==> #[trigger] q[j] != '/');
        lemma_file_name_suffix(q, m - 1);
        let f = file_name_of(p);
        let fq = file_name_of(q);
        assert(f == fq.push(p.last()));
        assert forall|t: int| 0 <= t < m implies f[f.len() - 1 - t] == #[trigger] p[p.len() - 1
            - t] by {
            if t == 0 {
                assert(f[f.len() - 1] == p.last());
            } else {
                assert(f[f.len() - 1 - t] == fq[fq.len() - 1 - (t - 1)]);
                assert(fq[fq.len() - 1 - (t - 1)] == q[q.len() - 1 - (t - 1)]);
                assert(q[q.len() - 1 - (t - 1)] == p[p.len() - 1 - t]);
            }
        }
    }
}

/// When `p[k]` is the last separator of `p`, the file name is exactly what
/// follows it.
proof fn lemma_file_name_after_last_slash(p: Seq<char>, k: int)
    requires
        0 <= k < p.len(),
        p[k] == '/',
        forall|j: int| k < j < p.len() ==> p[j] != '/',
    ensures
        file_name_of(p) =~= p.skip(k + 1),
    decreases p.len(),
{
    if p.last() == '/' {
        assert(k == p.len() - 1);
    } else {
        lemma_file_name_after_last_slash(p.drop_last(), k);
    }
}

/// Case-insensitive `.efi` extension test on a `/`-separated relative path.
pub fn is_efi_binary(p: &str) -> (r: bool)
    ensures
        r == has_efi_extension(p@),
{
    let len = p.unicode_len();
    if len < 5 {
        proof {
            lemma_file_name_len(p@);
        }
        return false;
    }
    let c5 = p.get_char(len - 5);
    let c4 = p.get_char(len - 4);
    let c3 = p.get_char(len - 3);
    let c2 = p.get_char(len - 2);
    let c1 = p.get_char(len - 1);
    let ok = c5 != '/' && c4 == '.' && (c3 == 'e' || c3 == 'E') && (c2 == 'f' || c2 == 'F') && (c1
        == 'i' || c1 == 'I');
    proof {
        let s = p@;
        let n = s.len() as int;
        if c1 == '/' {
            lemma_file_name_after_last_slash(s, n - 1);
            assert(file_name_of(s).len() < 5);
        } else if c2 == '/' {
            lemma_file_name_after_last_slash(s, n - 2);
            assert(file_name_of(s).len() < 5);
        } else if c3 == '/' {
            lemma_file_name_after_last_slash(s, n - 3);
            assert(file_name_of(s).len() < 5);
        } else if c4 == '/' {
            lemma_file_name_after_last_slash(s, n - 4);
            assert(file_name_of(s).len() < 5);
        } else if c5 == '/' {
            lemma_file_name_after_last_slash(s, n - 5);
            assert(file_name_of(s).len() < 5);
        } else {
            lemma_file_name_suffix(s, 5);
            let f = file_name_of(s);
            assert(f[f.len() - 1 - 0] == s[s.len() - 1 - 0]);
            assert(f[f.len() - 1 - 1] == s[s.len() - 1 - 1]);
            assert(f[f.len() - 1 - 2] == s[s.len() - 1 - 2]);
            assert(f[f.len() - 1 - 3] == s[s.len() - 1 - 3]);
            assert(c1 == s[s.len() - 1 - 0]);
            assert(c2 == s[s.len() - 1 - 1]);
            assert(c3 == s[s.len() - 1 - 2]);
            assert(c4 == s[s.len() - 1 - 3]);
        }
    }
    ok
}

/// The subsequence of `paths` whose file names carry a `.efi` extension.
pub open spec fn efi_filter(paths: Seq<Seq<char>>) -> Seq<Seq<char>> {
    paths.filter(|p: Seq<char>| has_efi_extension(p))
}

/// Keeps exactly the paths that name `.efi` binaries, in their given order.
pub fn get_efi_binaries(paths: &Vec<String>) -> (r: Vec<String>)
    ensures
        r.deep_view() == efi_filter(paths.deep_view()),
{
    let mut out: Vec<String> = Vec::new();
    let mut i: usize = 0;
    while i < paths.len()
        invariant
            0 <= i <= paths.len(),
            paths.deep_view().len() == paths@.len(),
            forall|j: int|
                0 <= j < paths@.len() ==> paths.deep_view()[j] == #[trigger] paths@[j]@,
            out.deep_view() =~= efi_filter(paths.deep_view().take(i as int)),
        decreases paths.len() - i,
    {
        let ghost pred = |p: Seq<char>| has_efi_extension(p);
        let ghost prefix = paths.deep_view().take(i as int);
        if is_efi_binary(paths[i].as_str()) {
            out.push(paths[i].clone());
        }
        proof {
            reveal(Seq::filter);
            assert(paths.deep_view().take(i + 1).drop_last() =~= prefix);
            assert(paths.deep_view().take(i + 1).last() == paths@[i as int]@);
        }
        i += 1;
    }
    proof {
        assert(paths.deep_view().take(paths@.len() as int) =~= paths.deep_view());
    }
    out
}

} // verus!
