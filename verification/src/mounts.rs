//! Reading the live mount table: given the text of a mounts listing (one
//! mount per line, fields separated by single spaces, device first and mount
//! point second), find where a device is mounted.

use vstd::prelude::*;

use crate::strutil::str_eq;

verus! {

/// The first position at or after `i` holding `c`, or the length of the
/// string when there is none.
pub open spec fn find_char_from(s: Seq<char>, c: char, i: int) -> int
    recommends
        0 <= i <= s.len(),
    decreases s.len() - i when 0 <= i <= s.len()
{
    if i >= s.len() {
        s.len() as int
    } else if s[i] == c {
        i
    } else {
        find_char_from(s, c, i + 1)
    }
}

proof fn lemma_find_exact(s: Seq<char>, c: char, i: int, p: int)
    requires
        0 <= i <= p <= s.len(),
        forall|t: int| i <= t < p ==> s[t] != c,
        p == s.len() || s[p] == c,
    ensures
        find_char_from(s, c, i) == p,
    decreases p - i,
{
    if i < p {
        lemma_find_exact(s, c, i + 1, p);
    }
}

/// What one mounts line says for a device: its second field, when its first
/// field is the device and a second field exists.
pub open spec fn line_mount_point(line: Seq<char>, dev: Seq<char>) -> Option<Seq<char>> {
    let a = find_char_from(line, ' ', 0);
    if a == line.len() {
        None
    } else if line.take(a) == dev {
        let rest = line.skip(a + 1);
        Some(rest.take(find_char_from(rest, ' ', 0)))
    } else {
        None
    }
}

/// The mount point of the first line matching the device, scanning the
/// newline-separated content from position `i` on.
pub open spec fn mount_dir_from(content: Seq<char>, dev: Seq<char>, i: int) -> Option<Seq<char>>
    recommends
        0 <= i <= content.len(),
    decreases content.len() - i when 0 <= i <= content.len()
{
    let j = find_char_from(content, '\n', i);
    if j < i || j > content.len() {
        // never reached: the scan stays within the string
        None
    } else {
        let line = content.subrange(i, j);
        match line_mount_point(line, dev) {
            Some(mp) => Some(mp),
            None => if j >= content.len() {
                None
            } else {
                mount_dir_from(content, dev, j + 1)
            },
        }
    }
}

/// The mount point recorded for a device in a mounts listing, if any.
pub open spec fn spec_mount_dir(content: Seq<char>, dev: Seq<char>) -> Option<Seq<char>> {
    mount_dir_from(content, dev, 0)
}

/// Scans `s[from..to]` for the first `c`; hands back its position, or `to`
/// when the range holds none.
fn scan_char(s: &str, c: char, from: usize, to: usize) -> (r: usize)
    requires
        from <= to <= s@.len(),
    ensures
        from <= r <= to,
        forall|t: int| from <= t < r ==> s@[t] != c,
        r == to || s@[r as int] == c,
{
    let mut k = from;
    while k < to
        invariant
            from <= k <= to <= s@.len(),
            forall|t: int| from <= t < k ==> s@[t] != c,
        decreases to - k,
    {
        if s.get_char(k) == c {
            return k;
        }
        k += 1;
    }
    k
}

/// Looks a device up in the text of a mounts listing and hands back its
/// mount point: the second field of the first line whose first field equals
/// `device`. A line without a second field matches no device.
pub fn get_mount_dir(mounts: &str, device: &str) -> (r: Option<String>)
    ensures
        match r {
            Some(mp) => spec_mount_dir(mounts@, device@) == Some(mp@),
            None => spec_mount_dir(mounts@, device@) is None,
        },
{
    let len = mounts.unicode_len();
    let mut i: usize = 0;
    while i <= len
        invariant
            0 <= i <= len + 1,
            len == mounts@.len(),
            i <= len ==> spec_mount_dir(mounts@, device@) == mount_dir_from(
                mounts@,
                device@,
                i as int,
            ),
            i == len + 1 ==> spec_mount_dir(mounts@, device@) is None,
        decreases len + 1 - i,
    {
        let j = scan_char(mounts, '\n', i, len);
        let ghost line = mounts@.subrange(i as int, j as int);
        proof {
            lemma_find_exact(mounts@, '\n', i as int, j as int);
        }
        let a = scan_char(mounts, ' ', i, j);
        proof {
            assert forall|t: int| 0 <= t < a - i implies line[t] != ' ' by {
                assert(line[t] == mounts@[i + t]);
            }
            if a < j {
                assert(line[a - i] == mounts@[a as int]);
            }
            lemma_find_exact(line, ' ', 0, a - i);
        }
        if a < j {
            let first_field = mounts.substring_char(i, a);
            proof {
                assert(first_field@ =~= line.take(a - i));
            }
            if str_eq(first_field, device) {
                let b = scan_char(mounts, ' ', a + 1, j);
                let ghost rest = line.skip(a - i + 1);
                proof {
                    assert forall|t: int| 0 <= t < b - (a + 1) implies rest[t] != ' ' by {
                        assert(rest[t] == mounts@[a + 1 + t]);
                    }
                    if b < j {
                        assert(rest[b - (a + 1)] == mounts@[b as int]);
                    }
                    lemma_find_exact(rest, ' ', 0, b - (a + 1));
                }
                let mp = mounts.substring_char(a + 1, b);
                proof {
                    assert(mp@ =~= rest.take(b - (a + 1)));
                    assert(line_mount_point(line, device@) == Some(mp@));
                }
                return Some(mp.to_owned());
            }
        }
        proof {
            assert(line_mount_point(line, device@) is None);
        }
        if j == len {
            return None;
        }
        i = j + 1;
    }
    None
}

} // verus!
