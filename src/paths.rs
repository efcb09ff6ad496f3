//! Paths as byte strings: exclusion patterns, joining, and the check that an
//! entry path stays inside the destination.

use vstd::prelude::*;

verus! {

/// The path separator.
pub const SEP: u8 = 0x2f;

/// The separator that Windows also accepts.
pub const BACKSLASH: u8 = 0x5c;

/// Whether `b` separates path components on some platform.
pub open spec fn is_sep(b: u8) -> bool {
    b == SEP || b == BACKSLASH
}

/// Whether `p` begins with a drive prefix such as `C:`.
pub open spec fn has_drive_prefix(p: Seq<u8>) -> bool {
    p.len() >= 2 && p[1] == 0x3a
}

/// Whether `b` is a UTF-8 continuation byte.
pub open spec fn is_cont(b: u8) -> bool {
    0x80 <= b && b <= 0xbf
}

/// Length of the well-formed UTF-8 sequence that starts `s`, or 0 where
/// none does.
pub open spec fn utf8_char_len(s: Seq<u8>) -> int {
    if s.len() == 0 {
        0
    } else if s[0] <= 0x7f {
        1
    } else if 0xc2 <= s[0] && s[0] <= 0xdf {
        if s.len() >= 2 && is_cont(s[1]) {
            2
        } else {
            0
        }
    } else if 0xe0 <= s[0] && s[0] <= 0xef {
        let lo: u8 = if s[0] == 0xe0 { 0xa0 } else { 0x80 };
        let hi: u8 = if s[0] == 0xed { 0x9f } else { 0xbf };
        if s.len() >= 3 && lo <= s[1] && s[1] <= hi && is_cont(s[2]) {
            3
        } else {
            0
        }
    } else if 0xf0 <= s[0] && s[0] <= 0xf4 {
        let lo: u8 = if s[0] == 0xf0 { 0x90 } else { 0x80 };
        let hi: u8 = if s[0] == 0xf4 { 0x8f } else { 0xbf };
        if s.len() >= 4 && lo <= s[1] && s[1] <= hi && is_cont(s[2]) && is_cont(s[3]) {
            4
        } else {
            0
        }
    } else {
        0
    }
}

/// Whether `s` is well-formed UTF-8.
pub open spec fn is_utf8(s: Seq<u8>) -> bool
    decreases s.len(),
{
    if s.len() == 0 {
        true
    } else {
        let n = utf8_char_len(s);
        n > 0 && is_utf8(s.subrange(n, s.len() as int))
    }
}

/// Whether `pat` occurs in `s` at `i`.
pub open spec fn occurs_at(s: Seq<u8>, pat: Seq<u8>, i: int) -> bool {
    0 <= i && i + pat.len() <= s.len() && s.subrange(i, i + pat.len()) == pat
}

/// Whether `pat` is a substring of `s`.
pub open spec fn contains(s: Seq<u8>, pat: Seq<u8>) -> bool {
    exists|i: int| occurs_at(s, pat, i)
}

/// Whether some pattern of `pats` is a substring of `path`.
pub open spec fn excluded(path: Seq<u8>, pats: Seq<Seq<u8>>) -> bool {
    exists|j: int| 0 <= j < pats.len() && contains(path, #[trigger] pats[j])
}

/// `name` placed under `dir`, with one separator between them.
pub open spec fn join(dir: Seq<u8>, name: Seq<u8>) -> Seq<u8> {
    dir + seq![SEP] + name
}

/// A component `..` starts at `i`, with `/` or `\\` as separators.
pub open spec fn parent_component_at(p: Seq<u8>, i: int) -> bool {
    0 <= i && i + 2 <= p.len() && p[i] == 0x2e && p[i + 1] == 0x2e && (i == 0 || is_sep(p[i - 1]))
        && (i + 2 == p.len() || is_sep(p[i + 2]))
}

/// A relative path that cannot leave the directory it is joined to, on any
/// platform: not empty, not starting with a separator or a drive prefix, and
/// with no `..` component.
pub open spec fn is_contained_path(p: Seq<u8>) -> bool {
    p.len() > 0 && !is_sep(p[0]) && !has_drive_prefix(p) && !(exists|i: int| parent_component_at(p, i))
}

/// A component `.` starts at `i`.
pub open spec fn dot_component_at(p: Seq<u8>, i: int) -> bool {
    0 <= i < p.len() && p[i] == 0x2e && (i == 0 || p[i - 1] == SEP) && (i + 1 == p.len() || p[i
        + 1] == SEP)
}

/// A separator at `i` that starts or ends the path, or doubles another.
pub open spec fn stray_sep_at(p: Seq<u8>, i: int) -> bool {
    0 <= i < p.len() && p[i] == SEP && (i == 0 || i + 1 == p.len() || p[i + 1] == SEP)
}

/// A path in the form that a tar archive stores unchanged: contained, made
/// of non-empty components joined by single `/`, none of them `.`, and with
/// no NUL or `\\` byte.
pub open spec fn is_archive_path(p: Seq<u8>) -> bool {
    &&& is_contained_path(p)
    &&& forall|i: int| 0 <= i < p.len() ==> #[trigger] p[i] != 0 && p[i] != BACKSLASH
    &&& !(exists|i: int| stray_sep_at(p, i))
    &&& !(exists|i: int| dot_component_at(p, i))
}

fn occurs(s: &[u8], pat: &[u8], i: usize) -> (r: bool)
    requires
        i + pat@.len() <= s@.len(),
    ensures
        r == occurs_at(s@, pat@, i as int),
{
    let n = s.len();
    let mut k: usize = 0;
    while k < pat.len()
        invariant
            k <= pat@.len(),
            i + pat@.len() <= s@.len(),
            n == s@.len(),
            forall|m: int| 0 <= m < k ==> s@[i + m] == pat@[m],
        decreases pat@.len() - k,
    {
        if s[i + k] != pat[k] {
            assert(s@.subrange(i as int, i + pat@.len())[k as int] != pat@[k as int]);
            return false;
        }
        k += 1;
    }
    assert(s@.subrange(i as int, i + pat@.len()) =~= pat@);
    true
}

/// Whether `pat` is a substring of `s`; the empty pattern is in every path.
pub fn path_contains(s: &[u8], pat: &[u8]) -> (r: bool)
    ensures
        r == contains(s@, pat@),
{
    if pat.len() > s.len() {
        assert(forall|i: int| !occurs_at(s@, pat@, i));
        return false;
    }
    let last = s.len() - pat.len();
    let mut i: usize = 0;
    while i < last
        invariant
            i <= last,
            last + pat@.len() == s@.len(),
            forall|m: int| 0 <= m < i ==> !occurs_at(s@, pat@, m),
        decreases last - i,
    {
        if occurs(s, pat, i) {
            return true;
        }
        i += 1;
    }
    let r = occurs(s, pat, last);
    assert(r ==> occurs_at(s@, pat@, last as int));
    assert(!r ==> forall|m: int| !occurs_at(s@, pat@, m));
    r
}

/// Whether some pattern of `pats` is a substring of `path`.
pub fn is_excluded(path: &[u8], pats: &Vec<Vec<u8>>) -> (r: bool)
    ensures
        r == excluded(path@, pats@.map_values(|v: Vec<u8>| v@)),
{
    let ghost pv = pats@.map_values(|v: Vec<u8>| v@);
    let mut j: usize = 0;
    while j < pats.len()
        invariant
            j <= pats@.len(),
            pv == pats@.map_values(|v: Vec<u8>| v@),
            forall|m: int| 0 <= m < j ==> !contains(path@, #[trigger] pv[m]),
        decreases pats@.len() - j,
    {
        if path_contains(path, pats[j].as_slice()) {
            assert(contains(path@, pv[j as int]));
            return true;
        }
        j += 1;
    }
    false
}

/// A pattern found in a directory's path is found in the path of everything
/// below it, so excluding the directory excludes its whole subtree.
pub proof fn lemma_exclusion_covers_subtree(dir: Seq<u8>, rest: Seq<u8>, pats: Seq<Seq<u8>>)
    requires
        excluded(dir, pats),
    ensures
        excluded(join(dir, rest), pats),
{
    let j = choose|j: int| 0 <= j < pats.len() && contains(dir, #[trigger] pats[j]);
    let i = choose|i: int| occurs_at(dir, pats[j], i);
    let full = join(dir, rest);
    assert(full.subrange(i, i + pats[j].len()) =~= dir.subrange(i, i + pats[j].len()));
    assert(occurs_at(full, pats[j], i));
    assert(contains(full, pats[j]));
}

/// Appends `src` to `dst`.
pub fn append_bytes(dst: &mut Vec<u8>, src: &[u8])
    ensures
        final(dst)@ == old(dst)@ + src@,
{
    let mut i: usize = 0;
    while i < src.len()
        invariant
            i <= src@.len(),
            dst@ == old(dst)@ + src@.subrange(0, i as int),
        decreases src@.len() - i,
    {
        assert(src@.subrange(0, i + 1) == src@.subrange(0, i as int).push(src@[i as int]));
        dst.push(src[i]);
        i += 1;
    }
    assert(src@.subrange(0, src@.len() as int) == src@);
}

/// An owned copy of `s`.
pub fn copy_bytes(s: &[u8]) -> (r: Vec<u8>)
    ensures
        r@ == s@,
{
    let mut v: Vec<u8> = Vec::new();
    append_bytes(&mut v, s);
    v
}

/// `name` placed under `dir`.
pub fn join_path(dir: &[u8], name: &[u8]) -> (r: Vec<u8>)
    ensures
        r@ == join(dir@, name@),
{
    let mut p: Vec<u8> = Vec::new();
    append_bytes(&mut p, dir);
    p.push(SEP);
    append_bytes(&mut p, name);
    p
}

fn parent_at(p: &[u8], i: usize) -> (r: bool)
    requires
        i < p@.len(),
    ensures
        r == parent_component_at(p@, i as int),
{
    p.len() - i >= 2 && p[i] == 0x2e && p[i + 1] == 0x2e && (i == 0 || p[i - 1] == SEP || p[i - 1]
        == BACKSLASH) && (p.len() - i == 2 || p[i + 2] == SEP || p[i + 2] == BACKSLASH)
}

/// Whether an entry path stays inside the directory it is unpacked into.
pub fn is_contained(p: &[u8]) -> (r: bool)
    ensures
        r == is_contained_path(p@),
{
    if p.len() == 0 || p[0] == SEP || p[0] == BACKSLASH || (p.len() >= 2 && p[1] == 0x3a) {
        return false;
    }
    let mut i: usize = 0;
    while i < p.len()
        invariant
            i <= p@.len(),
            forall|m: int| 0 <= m < i ==> !parent_component_at(p@, m),
        decreases p@.len() - i,
    {
        if parent_at(p, i) {
            return false;
        }
        i += 1;
    }
    assert(forall|m: int| !parent_component_at(p@, m));
    true
}

/// A single path component on any platform: not empty, not `.` or `..`,
/// without separators, NUL or a drive prefix.
pub open spec fn is_plain_name(n: Seq<u8>) -> bool {
    &&& n.len() > 0
    &&& n != seq![0x2eu8]
    &&& n != seq![0x2eu8, 0x2eu8]
    &&& !has_drive_prefix(n)
    &&& forall|k: int| 0 <= k < n.len() ==> #[trigger] n[k] != SEP && n[k] != BACKSLASH && n[k] != 0
}

/// Joining two contained paths gives a contained path.
pub proof fn lemma_join_contained(dir: Seq<u8>, rel: Seq<u8>)
    requires
        is_contained_path(dir),
        is_contained_path(rel),
    ensures
        is_contained_path(join(dir, rel)),
{
    let p = join(dir, rel);
    let n = dir.len() as int;
    assert(p[0] == dir[0]);
    assert forall|i: int| !parent_component_at(p, i) by {
        if parent_component_at(p, i) {
            if i + 1 < n {
                assert(p[i] == dir[i] && p[i + 1] == dir[i + 1]);
                if i > 0 {
                    assert(p[i - 1] == dir[i - 1]);
                }
                if i + 2 < n {
                    assert(p[i + 2] == dir[i + 2]);
                } else {
                    assert(p[i + 2] == SEP);
                }
                assert(parent_component_at(dir, i));
            } else if i + 1 == n {
                assert(p[i + 1] == SEP);
            } else if i == n {
                assert(p[n] == SEP);
            } else {
                let j = i - n - 1;
                assert(p[i] == rel[j]);
                assert(p[i + 1] == rel[j + 1]);
                if j > 0 {
                    assert(p[i - 1] == rel[j - 1]);
                }
                if i + 2 < p.len() {
                    assert(p[i + 2] == rel[j + 2]);
                }
                assert(parent_component_at(rel, j));
            }
        }
    }
}

/// A plain name is a contained path on its own.
pub proof fn lemma_plain_name_contained(n: Seq<u8>)
    requires
        is_plain_name(n),
    ensures
        is_contained_path(n),
{
    assert forall|i: int| !parent_component_at(n, i) by {
        if parent_component_at(n, i) {
            if i > 0 {
                assert(n[i - 1] != SEP);
            }
            if i + 2 < n.len() {
                assert(n[i + 2] != SEP);
            }
            assert(n =~= seq![0x2eu8, 0x2eu8]);
        }
    }
}

/// A plain name is also a path that an archive stores unchanged.
pub proof fn lemma_plain_name_archived(n: Seq<u8>)
    requires
        is_plain_name(n),
    ensures
        is_archive_path(n),
{
    lemma_plain_name_contained(n);
    assert forall|i: int| !dot_component_at(n, i) by {
        if dot_component_at(n, i) {
            if i > 0 {
                assert(n[i - 1] != SEP);
            }
            if i + 1 < n.len() {
                assert(n[i + 1] != SEP);
            }
            assert(n =~= seq![0x2eu8]);
        }
    }
    assert forall|i: int| !stray_sep_at(n, i) by {
        if 0 <= i < n.len() {
            assert(n[i] != SEP);
        }
    }
}

/// Joining two paths that an archive stores unchanged gives another one.
pub proof fn lemma_join_archived(dir: Seq<u8>, rel: Seq<u8>)
    requires
        is_archive_path(dir),
        is_archive_path(rel),
    ensures
        is_archive_path(join(dir, rel)),
{
    let p = join(dir, rel);
    let n = dir.len() as int;
    lemma_join_contained(dir, rel);
    assert forall|i: int| 0 <= i < p.len() implies #[trigger] p[i] != 0 && p[i] != BACKSLASH by {
        if i < n {
            assert(p[i] == dir[i]);
        } else if i > n {
            assert(p[i] == rel[i - n - 1]);
        }
    }
    assert forall|i: int| !stray_sep_at(p, i) by {
        if stray_sep_at(p, i) {
            if i < n {
                assert(p[i] == dir[i]);
                if i + 1 < n {
                    assert(p[i + 1] == dir[i + 1]);
                }
                assert(stray_sep_at(dir, i));
            } else if i == n {
                assert(p[n + 1] == rel[0]);
            } else {
                let j = i - n - 1;
                assert(p[i] == rel[j]);
                if i + 1 < p.len() {
                    assert(p[i + 1] == rel[j + 1]);
                }
                assert(stray_sep_at(rel, j));
            }
        }
    }
    assert forall|i: int| !dot_component_at(p, i) by {
        if dot_component_at(p, i) {
            if i < n {
                assert(p[i] == dir[i]);
                if i > 0 {
                    assert(p[i - 1] == dir[i - 1]);
                }
                if i + 1 < n {
                    assert(p[i + 1] == dir[i + 1]);
                }
                assert(dot_component_at(dir, i));
            } else if i == n {
                assert(p[n] == SEP);
            } else {
                let j = i - n - 1;
                assert(p[i] == rel[j]);
                if j > 0 {
                    assert(p[i - 1] == rel[j - 1]);
                }
                if i + 1 < p.len() {
                    assert(p[i + 1] == rel[j + 1]);
                }
                assert(dot_component_at(rel, j));
            }
        }
    }
}

} // verus!
