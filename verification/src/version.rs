//! Kernel version extraction: a module-directory name such as
//! `5.15.0-2-lts` yields the ordering key `(5, 15, 0, 2)` — the first
//! `major.minor.patch` run of digits, and the revision counter of the first
//! `-<digits>` run that follows it. A missing version defaults to `0.0.0`, a
//! missing revision to `0`.

use vstd::prelude::*;

verus! {

/// A decimal digit.
pub open spec fn is_digit(c: char) -> bool {
    '0' <= c && c <= '9'
}

/// The numeric value of one decimal digit.
pub open spec fn digit_val(c: char) -> int {
    c as int - '0' as int
}

/// The number a run of decimal digits denotes, most significant first.
pub open spec fn num_val(s: Seq<char>) -> int
    decreases s.len(),
{
    if s.len() == 0 {
        0
    } else {
        num_val(s.drop_last()) * 10 + digit_val(s.last())
    }
}

/// Clamps an unbounded numeric value into a `u64`.
pub open spec fn sat64(v: int) -> u64 {
    if v > u64::MAX {
        u64::MAX
    } else if v < 0 {
        0u64
    } else {
        v as u64
    }
}

pub proof fn lemma_num_val_nonneg(s: Seq<char>)
    requires
        forall|j: int| 0 <= j < s.len() ==> is_digit(#[trigger] s[j]),
    ensures
        num_val(s) >= 0,
    decreases s.len(),
{
    if s.len() > 0 {
        lemma_num_val_nonneg(s.drop_last());
    }
}

/// Exec test for a decimal digit.
pub fn is_digit_char(c: char) -> (r: bool)
    ensures
        r == is_digit(c),
{
    '0' <= c && c <= '9'
}

/// Reads the digits `s[from..to]` as a decimal number, clamping to
/// `u64::MAX` when the run denotes something larger.
pub(crate) fn parse_number(s: &str, from: usize, to: usize) -> (r: u64)
    requires
        from <= to <= s@.len(),
        forall|j: int| from <= j < to ==> is_digit(#[trigger] s@[j]),
    ensures
        r == sat64(num_val(s@.subrange(from as int, to as int))),
{
    let mut acc: u64 = 0;
    let mut i: usize = from;
    proof {
        assert(s@.subrange(from as int, from as int) =~= Seq::<char>::empty());
    }
    while i < to
        invariant
            from <= i <= to <= s@.len(),
            forall|j: int| from <= j < to ==> is_digit(#[trigger] s@[j]),
            acc == sat64(num_val(s@.subrange(from as int, i as int))),
        decreases to - i,
    {
        let c = s.get_char(i);
        let d: u64 = (c as u32 - '0' as u32) as u64;
        let ghost p = s@.subrange(from as int, i as int);
        let ghost p2 = s@.subrange(from as int, i + 1);
        proof {
            assert(p2.drop_last() =~= p);
            assert(p2.last() == s@[i as int]);
            assert(num_val(p2) == num_val(p) * 10 + digit_val(s@[i as int]));
            lemma_num_val_nonneg(p);
            lemma_num_val_nonneg(p2);
            assert(0 <= digit_val(s@[i as int]) <= 9);
        }
        if acc > (u64::MAX - d) / 10 {
            proof {
                let m = u64::MAX as int;
                let di = d as int;
                let q = (m - di) / 10;
                assert(m - di == q * 10 + (m - di) % 10) by (nonlinear_arith)
                    requires
                        q == (m - di) / 10,
                        0 <= di <= 9,
                ;
                assert(acc as int >= q + 1);
                assert(acc as int * 10 >= (q + 1) * 10) by (nonlinear_arith)
                    requires
                        acc as int >= q + 1,
                ;
                if num_val(p) > m {
                    assert(num_val(p) * 10 + digit_val(s@[i as int]) > m) by (nonlinear_arith)
                        requires
                            num_val(p) > m,
                            m > 0,
                            digit_val(s@[i as int]) >= 0,
                    ;
                } else {
                    assert(acc as int == num_val(p));
                    assert(num_val(p2) > m);
                }
            }
            acc = u64::MAX;
        } else {
            proof {
                let m = u64::MAX as int;
                let di = d as int;
                let q = (m - di) / 10;
                assert(m - di == q * 10 + (m - di) % 10) by (nonlinear_arith)
                    requires
                        q == (m - di) / 10,
                        0 <= di <= 9,
                ;
                assert(acc as int <= q);
                assert(acc as int * 10 <= q * 10) by (nonlinear_arith)
                    requires
                        acc as int <= q,
                ;
                assert(num_val(p) <= m);
                assert(acc as int == num_val(p));
            }
            acc = acc * 10 + d;
        }
        i += 1;
    }
    acc
}

/// The end of the run of digits beginning at `i`: the first position at or
/// after `i` holding a non-digit, or the end of the string.
pub open spec fn digit_run_end(s: Seq<char>, i: int) -> int
    recommends
        0 <= i <= s.len(),
    decreases s.len() - i when 0 <= i <= s.len()
{
    if i >= s.len() || !is_digit(s[i]) {
        i
    } else {
        digit_run_end(s, i + 1)
    }
}

proof fn lemma_digit_run_end(s: Seq<char>, i: int)
    requires
        0 <= i <= s.len(),
    ensures
        i <= digit_run_end(s, i) <= s.len(),
        forall|j: int| i <= j < digit_run_end(s, i) ==> is_digit(#[trigger] s[j]),
        digit_run_end(s, i) == s.len() || !is_digit(s[digit_run_end(s, i)]),
    decreases s.len() - i,
{
    if i < s.len() && is_digit(s[i]) {
        lemma_digit_run_end(s, i + 1);
    }
}

/// Computes `digit_run_end` executably.
fn digit_run_end_from(s: &str, i: usize) -> (j: usize)
    requires
        i <= s@.len(),
    ensures
        j == digit_run_end(s@, i as int),
        i <= j <= s@.len(),
{
    let len = s.unicode_len();
    let mut j = i;
    while j < len
        invariant
            i <= j <= len,
            len == s@.len(),
            digit_run_end(s@, i as int) == digit_run_end(s@, j as int),
        decreases len - j,
    {
        let c = s.get_char(j);
        if !is_digit_char(c) {
            return j;
        }
        j += 1;
    }
    j
}

/// A `major.minor.patch` digit pattern begins at position `i`: a nonempty
/// digit run, a dot, a nonempty digit run, a dot, a nonempty digit run.
pub open spec fn ver_match_at(s: Seq<char>, i: int) -> bool
    recommends
        0 <= i <= s.len(),
{
    let e1 = digit_run_end(s, i);
    e1 > i && e1 < s.len() && s[e1] == '.' && {
        let e2 = digit_run_end(s, e1 + 1);
        e2 > e1 + 1 && e2 < s.len() && s[e2] == '.' && digit_run_end(s, e2 + 1) > e2 + 1
    }
}

/// A `-<digits>` revision pattern begins at position `i`.
pub open spec fn rev_match_at(s: Seq<char>, i: int) -> bool
    recommends
        0 <= i <= s.len(),
{
    i < s.len() && s[i] == '-' && i + 1 < s.len() && is_digit(s[i + 1])
}

/// The first position at or after `i` where a version pattern begins, or the
/// length of the string when there is none.
pub open spec fn first_ver_pos(s: Seq<char>, i: int) -> int
    recommends
        0 <= i <= s.len(),
    decreases s.len() - i when 0 <= i <= s.len()
{
    if i >= s.len() {
        s.len() as int
    } else if ver_match_at(s, i) {
        i
    } else {
        first_ver_pos(s, i + 1)
    }
}

/// The first position at or after `i` where a revision pattern begins, or the
/// length of the string when there is none.
pub open spec fn first_rev_pos(s: Seq<char>, i: int) -> int
    recommends
        0 <= i <= s.len(),
    decreases s.len() - i when 0 <= i <= s.len()
{
    if i >= s.len() {
        s.len() as int
    } else if rev_match_at(s, i) {
        i
    } else {
        first_rev_pos(s, i + 1)
    }
}

/// Checks for a version pattern at `i` and hands back the three run ends.
fn ver_match_at_from(s: &str, i: usize) -> (r: Option<(usize, usize, usize)>)
    requires
        i <= s@.len(),
    ensures
        match r {
            Some(e) => ver_match_at(s@, i as int) && e.0 == digit_run_end(s@, i as int) && e.1
                == digit_run_end(s@, e.0 + 1) && e.2 == digit_run_end(s@, e.1 + 1) && i < e.0 < e.1
                < e.2 <= s@.len(),
            None => !ver_match_at(s@, i as int),
        },
{
    let len = s.unicode_len();
    let e1 = digit_run_end_from(s, i);
    if !(e1 > i && e1 < len) {
        return None;
    }
    if s.get_char(e1) != '.' {
        return None;
    }
    let e2 = digit_run_end_from(s, e1 + 1);
    if !(e2 > e1 + 1 && e2 < len) {
        return None;
    }
    if s.get_char(e2) != '.' {
        return None;
    }
    let e3 = digit_run_end_from(s, e2 + 1);
    if !(e3 > e2 + 1) {
        return None;
    }
    Some((e1, e2, e3))
}

/// When the characters from `i` up to `j` are digits and `j` sits at the end
/// of the string or before a non-digit, the digit run beginning at `i` ends
/// exactly at `j`.
proof fn lemma_run_exact(s: Seq<char>, i: int, j: int)
    requires
        0 <= i <= j <= s.len(),
        forall|t: int| i <= t < j ==> is_digit(#[trigger] s[t]),
        j == s.len() || !is_digit(s[j]),
    ensures
        digit_run_end(s, i) == j,
    decreases j - i,
{
    if i < j {
        lemma_run_exact(s, i + 1, j);
    }
}

/// When no version pattern begins before `p` and one begins at `p`, the
/// first version position from `i` is `p`.
proof fn lemma_first_ver_pos_step(s: Seq<char>, i: int, p: int)
    requires
        0 <= i <= p <= s.len(),
        forall|k: int| i <= k < p ==> !ver_match_at(s, k),
        p == s.len() || ver_match_at(s, p),
    ensures
        first_ver_pos(s, i) == if p < s.len() {
            p
        } else {
            s.len() as int
        },
    decreases p - i,
{
    if i < p {
        lemma_first_ver_pos_step(s, i + 1, p);
    }
}

/// The counterpart of `lemma_first_ver_pos_step` for revision patterns.
proof fn lemma_first_rev_pos_step(s: Seq<char>, i: int, p: int)
    requires
        0 <= i <= p <= s.len(),
        forall|k: int| i <= k < p ==> !rev_match_at(s, k),
        p == s.len() || rev_match_at(s, p),
    ensures
        first_rev_pos(s, i) == if p < s.len() {
            p
        } else {
            s.len() as int
        },
    decreases p - i,
{
    if i < p {
        lemma_first_rev_pos_step(s, i + 1, p);
    }
}

/// The `(major, minor, patch)` part of a name's ordering key: the values of
/// the three digit runs of the first version pattern, `(0, 0, 0)` when the
/// name holds none.
pub open spec fn spec_version_tuple(s: Seq<char>) -> (u64, u64, u64) {
    let i = first_ver_pos(s, 0);
    if i == s.len() {
        (0u64, 0u64, 0u64)
    } else {
        let e1 = digit_run_end(s, i);
        let e2 = digit_run_end(s, e1 + 1);
        let e3 = digit_run_end(s, e2 + 1);
        (
            sat64(num_val(s.subrange(i, e1))),
            sat64(num_val(s.subrange(e1 + 1, e2))),
            sat64(num_val(s.subrange(e2 + 1, e3))),
        )
    }
}

/// The position right after the first version pattern, where the search for
/// the revision counter begins; the start of the name when there is none.
pub open spec fn version_end(s: Seq<char>) -> int {
    let i = first_ver_pos(s, 0);
    if i == s.len() {
        0
    } else {
        digit_run_end(s, digit_run_end(s, digit_run_end(s, i) + 1) + 1)
    }
}

/// The revision part of a name's ordering key: the value of the digit run of
/// the first `-<digits>` pattern at or after the version pattern, `0` when
/// there is none.
pub open spec fn spec_revision(s: Seq<char>) -> u64 {
    let j = first_rev_pos(s, version_end(s));
    if j == s.len() {
        0u64
    } else {
        sat64(num_val(s.subrange(j + 1, digit_run_end(s, j + 1))))
    }
}

/// For every directory name of the shape `<pre>a.b.c-d<post>` — digit runs
/// `a`, `b`, `c`, `d`, no digit anywhere in `<pre>`, no digit right at the
/// start of `<post>` — the extracted ordering key is exactly
/// `(a, b, c, d)`.
pub proof fn lemma_version_key_extraction(
    s: Seq<char>,
    pre: Seq<char>,
    a: Seq<char>,
    b: Seq<char>,
    c: Seq<char>,
    d: Seq<char>,
    post: Seq<char>,
)
    requires
        s == pre + a + seq!['.'] + b + seq!['.'] + c + seq!['-'] + d + post,
        a.len() > 0,
        b.len() > 0,
        c.len() > 0,
        d.len() > 0,
        forall|j: int| 0 <= j < a.len() ==> is_digit(#[trigger] a[j]),
        forall|j: int| 0 <= j < b.len() ==> is_digit(#[trigger] b[j]),
        forall|j: int| 0 <= j < c.len() ==> is_digit(#[trigger] c[j]),
        forall|j: int| 0 <= j < d.len() ==> is_digit(#[trigger] d[j]),
        forall|j: int| 0 <= j < pre.len() ==> !is_digit(#[trigger] pre[j]),
        post.len() > 0 ==> !is_digit(post[0]),
    ensures
        spec_version_tuple(s).0 == sat64(num_val(a)),
        spec_version_tuple(s).1 == sat64(num_val(b)),
        spec_version_tuple(s).2 == sat64(num_val(c)),
        spec_revision(s) == sat64(num_val(d)),
{
    let p0 = pre.len() as int;
    let q1 = p0 + a.len();
    let p1 = q1 + 1;
    let q2 = p1 + b.len();
    let p2 = q2 + 1;
    let q3 = p2 + c.len();
    let p3 = q3 + 1;
    let q4 = p3 + d.len();
    let n = s.len() as int;
    assert(n == q4 + post.len());
    assert forall|j: int| 0 <= j < p0 implies #[trigger] s[j] == pre[j] by {}
    assert forall|j: int| p0 <= j < q1 implies #[trigger] s[j] == a[j - p0] by {}
    assert(s[q1] == '.');
    assert forall|j: int| p1 <= j < q2 implies #[trigger] s[j] == b[j - p1] by {}
    assert(s[q2] == '.');
    assert forall|j: int| p2 <= j < q3 implies #[trigger] s[j] == c[j - p2] by {}
    assert(s[q3] == '-');
    assert forall|j: int| p3 <= j < q4 implies #[trigger] s[j] == d[j - p3] by {}
    assert(post.len() > 0 ==> s[q4] == post[0]);

    lemma_run_exact(s, p0, q1);
    lemma_run_exact(s, p1, q2);
    lemma_run_exact(s, p2, q3);
    lemma_run_exact(s, p3, q4);
    assert(ver_match_at(s, p0));
    assert forall|k: int| 0 <= k < p0 implies !ver_match_at(s, k) by {
        assert(!is_digit(s[k]));
        lemma_run_exact(s, k, k);
    }
    lemma_first_ver_pos_step(s, 0, p0);
    assert(first_ver_pos(s, 0) == p0);
    assert(s.subrange(p0, q1) =~= a);
    assert(s.subrange(p1, q2) =~= b);
    assert(s.subrange(p2, q3) =~= c);
    assert(version_end(s) == q3);
    assert(rev_match_at(s, q3));
    lemma_first_rev_pos_step(s, q3, q3);
    assert(first_rev_pos(s, q3) == q3);
    assert(s.subrange(p3, q4) =~= d);
}

/// A name with no digit at all keeps every part of the key at its default:
/// the ordering key is `(0, 0, 0, 0)`.
pub proof fn lemma_no_digits_default(s: Seq<char>)
    requires
        forall|j: int| 0 <= j < s.len() ==> !is_digit(#[trigger] s[j]),
    ensures
        spec_version_tuple(s).0 == 0,
        spec_version_tuple(s).1 == 0,
        spec_version_tuple(s).2 == 0,
        spec_revision(s) == 0,
{
    let n = s.len() as int;
    assert forall|k: int| 0 <= k < n implies !ver_match_at(s, k) by {
        lemma_run_exact(s, k, k);
    }
    lemma_first_ver_pos_step(s, 0, n);
    assert(first_ver_pos(s, 0) == n);
    assert forall|k: int| 0 <= k < n implies !rev_match_at(s, k) by {}
    lemma_first_rev_pos_step(s, 0, n);
    assert(first_rev_pos(s, 0) == n);
}

/// One installed kernel: the module directory's exact name, and the ordering
/// key derived from it.
pub struct KernelVersion {
    pub major: u64,
    pub minor: u64,
    pub patch: u64,
    pub revision: u64,
    pub full_name: String,
}

/// The key parsed correctly from the name it carries.
pub open spec fn version_wf(kv: KernelVersion) -> bool {
    kv.major == spec_version_tuple(kv.full_name@).0 && kv.minor == spec_version_tuple(
        kv.full_name@,
    ).1 && kv.patch == spec_version_tuple(kv.full_name@).2 && kv.revision == spec_revision(
        kv.full_name@,
    )
}

/// Strict lexicographic order on ordering keys.
pub open spec fn key_lt(a: KernelVersion, b: KernelVersion) -> bool {
    a.major < b.major || (a.major == b.major && (a.minor < b.minor || (a.minor == b.minor && (
    a.patch < b.patch || (a.patch == b.patch && a.revision < b.revision)))))
}

/// Strict lexicographic order on the keys two names denote.
pub open spec fn name_key_lt(x: Seq<char>, y: Seq<char>) -> bool {
    let xt = spec_version_tuple(x);
    let yt = spec_version_tuple(y);
    xt.0 < yt.0 || (xt.0 == yt.0 && (xt.1 < yt.1 || (xt.1 == yt.1 && (xt.2 < yt.2 || (xt.2 == yt.2
        && spec_revision(x) < spec_revision(y))))))
}

/// On well-formed versions, the struct-level order agrees with the order of
/// the names they were parsed from.
pub proof fn lemma_key_lt_names(x: KernelVersion, y: KernelVersion)
    requires
        version_wf(x),
        version_wf(y),
    ensures
        key_lt(x, y) == name_key_lt(x.full_name@, y.full_name@),
{
}

/// Finds the first version pattern: its start and the three run ends.
fn find_version(s: &str) -> (r: Option<(usize, usize, usize, usize)>)
    ensures
        match r {
            Some(e) => first_ver_pos(s@, 0) == e.0 && e.0 < s@.len() && e.1 == digit_run_end(
                s@,
                e.0 as int,
            ) && e.2 == digit_run_end(s@, e.1 + 1) && e.3 == digit_run_end(s@, e.2 + 1) && e.0
                < e.1 < e.2 < e.3 <= s@.len(),
            None => first_ver_pos(s@, 0) == s@.len(),
        },
{
    let len = s.unicode_len();
    let mut i: usize = 0;
    while i < len
        invariant
            0 <= i <= len,
            len == s@.len(),
            first_ver_pos(s@, 0) == first_ver_pos(s@, i as int),
        decreases len - i,
    {
        match ver_match_at_from(s, i) {
            Some(e) => {
                return Some((i, e.0, e.1, e.2));
            },
            None => {
                i += 1;
            },
        }
    }
    None
}

/// Finds the first revision pattern at or after `from`: the position of its
/// `-` and the end of its digit run.
fn find_revision(s: &str, from: usize) -> (r: Option<(usize, usize)>)
    requires
        from <= s@.len(),
    ensures
        match r {
            Some(e) => first_rev_pos(s@, from as int) == e.0 && e.0 + 1 < s@.len() && e.1
                == digit_run_end(s@, e.0 + 1) && e.0 + 1 < e.1 <= s@.len(),
            None => first_rev_pos(s@, from as int) == s@.len(),
        },
{
    let len = s.unicode_len();
    let mut i: usize = from;
    while i < len
        invariant
            from <= i <= len,
            len == s@.len(),
            first_rev_pos(s@, from as int) == first_rev_pos(s@, i as int),
        decreases len - i,
    {
        if s.get_char(i) == '-' && i + 1 < len {
            let c = s.get_char(i + 1);
            if is_digit_char(c) {
                let e = digit_run_end_from(s, i + 1);
                proof {
                    lemma_digit_run_end(s@, i + 1);
                }
                return Some((i, e));
            }
        }
        i += 1;
    }
    None
}

impl KernelVersion {
    /// Derives the ordering key from a module-directory name. The name is
    /// kept as `full_name`; the key is the first `major.minor.patch` run and
    /// the first `-<digits>` revision counter after it, each part defaulting
    /// to zero when absent.
    pub fn parse(name: &str) -> (kv: KernelVersion)
        ensures
            kv.full_name@ == name@,
            version_wf(kv),
    {
        let mut major: u64 = 0;
        let mut minor: u64 = 0;
        let mut patch: u64 = 0;
        let mut revision: u64 = 0;
        let rev_from: usize = match find_version(name) {
            Some(e) => {
                proof {
                    lemma_digit_run_end(name@, e.0 as int);
                    lemma_digit_run_end(name@, e.1 + 1);
                    lemma_digit_run_end(name@, e.2 + 1);
                }
                major = parse_number(name, e.0, e.1);
                minor = parse_number(name, e.1 + 1, e.2);
                patch = parse_number(name, e.2 + 1, e.3);
                e.3
            },
            None => 0,
        };
        match find_revision(name, rev_from) {
            Some(e) => {
                proof {
                    lemma_digit_run_end(name@, e.0 + 1);
                }
                revision = parse_number(name, e.0 + 1, e.1);
            },
            None => {},
        }
        KernelVersion { major, minor, patch, revision, full_name: name.to_owned() }
    }

    /// Strictly newer under the `(major, minor, patch, revision)` order.
    pub fn is_newer_than(&self, other: &KernelVersion) -> (r: bool)
        ensures
            r == key_lt(*other, *self),
    {
        if self.major != other.major {
            return self.major > other.major;
        }
        if self.minor != other.minor {
            return self.minor > other.minor;
        }
        if self.patch != other.patch {
            return self.patch > other.patch;
        }
        self.revision > other.revision
    }
}

} // verus!
