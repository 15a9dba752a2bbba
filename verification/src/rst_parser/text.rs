//! Character-level scanning primitives shared by the two transforms.
//!
//! Texts are modelled as `Seq<char>` and manipulated in executable code as
//! `Vec<char>`. Every scanning primitive exists twice: a spec function that
//! defines it, and an executable function proved to compute exactly it.

use vstd::prelude::*;

verus! {

/// The least index `k` with `i <= k < t.len()` and `t[k] == c`, or `t.len()`
/// if `c` does not occur at or after `i`.
pub open spec fn find_from(t: Seq<char>, i: int, c: char) -> int
    decreases t.len() - i,
{
    if i < 0 || i >= t.len() {
        t.len() as int
    } else if t[i] == c {
        i
    } else {
        find_from(t, i + 1, c)
    }
}

pub proof fn lemma_find_from(t: Seq<char>, i: int, c: char)
    requires
        0 <= i <= t.len(),
    ensures
        i <= find_from(t, i, c) <= t.len(),
        find_from(t, i, c) < t.len() ==> t[find_from(t, i, c)] == c,
        forall|j: int| i <= j < find_from(t, i, c) ==> t[j] != c,
    decreases t.len() - i,
{
    if i < t.len() && t[i] != c {
        lemma_find_from(t, i + 1, c);
    }
}

/// The greatest index `m` with `lo <= m`, `m + 2 <= hi`, `t[m] == c0` and
/// `t[m + 1] == c1`, or `-1` if no such index exists.
pub open spec fn rfind_pair(t: Seq<char>, lo: int, hi: int, c0: char, c1: char) -> int
    decreases hi - lo,
{
    if hi - lo < 2 || hi > t.len() || lo < 0 {
        -1
    } else if t[hi - 2] == c0 && t[hi - 1] == c1 {
        hi - 2
    } else {
        rfind_pair(t, lo, hi - 1, c0, c1)
    }
}

pub proof fn lemma_rfind_pair(t: Seq<char>, lo: int, hi: int, c0: char, c1: char)
    requires
        0 <= lo,
        hi <= t.len(),
    ensures
        rfind_pair(t, lo, hi, c0, c1) == -1 || (lo <= rfind_pair(t, lo, hi, c0, c1)
            && rfind_pair(t, lo, hi, c0, c1) + 2 <= hi
            && t[rfind_pair(t, lo, hi, c0, c1)] == c0
            && t[rfind_pair(t, lo, hi, c0, c1) + 1] == c1),
        forall|j: int|
            lo <= j && j + 2 <= hi && j > rfind_pair(t, lo, hi, c0, c1) ==> !(#[trigger] t[j] == c0
                && t[j + 1] == c1),
    decreases hi - lo,
{
    if hi - lo >= 2 && !(t[hi - 2] == c0 && t[hi - 1] == c1) {
        lemma_rfind_pair(t, lo, hi - 1, c0, c1);
    }
}

/// The least index `k` with `i <= k` such that `k == t.len()` or
/// `t[k] != ' '`: where a run of spaces starting at `i` ends.
pub open spec fn skip_spaces(t: Seq<char>, i: int) -> int
    decreases t.len() - i,
{
    if i < 0 || i >= t.len() {
        t.len() as int
    } else if t[i] == ' ' {
        skip_spaces(t, i + 1)
    } else {
        i
    }
}

pub proof fn lemma_skip_spaces(t: Seq<char>, i: int)
    requires
        0 <= i <= t.len(),
    ensures
        i <= skip_spaces(t, i) <= t.len(),
        skip_spaces(t, i) < t.len() ==> t[skip_spaces(t, i)] != ' ',
        forall|j: int| i <= j < skip_spaces(t, i) ==> t[j] == ' ',
    decreases t.len() - i,
{
    if i < t.len() && t[i] == ' ' {
        lemma_skip_spaces(t, i + 1);
    }
}

/// `n` occurs in `h` as a contiguous run.
pub open spec fn has_substring(h: Seq<char>, n: Seq<char>) -> bool {
    exists|k: int| 0 <= k && k + n.len() <= h.len() && #[trigger] h.subrange(k, k + n.len()) == n
}

pub proof fn lemma_has_substring_at(h: Seq<char>, n: Seq<char>, k: int)
    requires
        0 <= k,
        k + n.len() <= h.len(),
        h.subrange(k, k + n.len()) == n,
    ensures
        has_substring(h, n),
{
}

/// A run found in `h` is still found after any text is prepended.
pub proof fn lemma_has_substring_extend_left(p: Seq<char>, h: Seq<char>, n: Seq<char>)
    requires
        has_substring(h, n),
    ensures
        has_substring(p + h, n),
{
    let k = choose|k: int|
        0 <= k && k + n.len() <= h.len() && #[trigger] h.subrange(k, k + n.len()) == n;
    assert((p + h).subrange(p.len() + k, p.len() + k + n.len()) =~= h.subrange(k, k + n.len()));
    lemma_has_substring_at(p + h, n, p.len() + k);
}

/// Executable counterpart of [`find_from`].
pub fn find_from_exec(t: &Vec<char>, i: usize, c: char) -> (r: usize)
    requires
        i <= t@.len(),
    ensures
        r as int == find_from(t@, i as int, c),
        i <= r <= t@.len(),
{
    let mut j = i;
    while j < t.len()
        invariant
            i <= j <= t@.len(),
            find_from(t@, i as int, c) == find_from(t@, j as int, c),
        decreases t@.len() - j,
    {
        if t[j] == c {
            return j;
        }
        j = j + 1;
    }
    j
}

/// Executable counterpart of [`rfind_pair`].
pub fn rfind_pair_exec(t: &Vec<char>, lo: usize, hi: usize, c0: char, c1: char) -> (r: Option<
    usize,
>)
    requires
        hi <= t@.len(),
    ensures
        r is None ==> rfind_pair(t@, lo as int, hi as int, c0, c1) == -1,
        r matches Some(m) ==> m as int == rfind_pair(t@, lo as int, hi as int, c0, c1) && lo <= m
            && m + 2 <= hi,
{
    if hi <= lo || hi - lo < 2 {
        return None;
    }
    let mut h = hi;
    while h - lo >= 2
        invariant
            lo <= h <= hi <= t@.len(),
            rfind_pair(t@, lo as int, hi as int, c0, c1) == rfind_pair(t@, lo as int, h as int, c0, c1),
        decreases h,
    {
        if t[h - 2] == c0 && t[h - 1] == c1 {
            return Some(h - 2);
        }
        h = h - 1;
    }
    None
}

/// Executable counterpart of [`skip_spaces`].
pub fn skip_spaces_exec(t: &Vec<char>, i: usize) -> (r: usize)
    requires
        i <= t@.len(),
    ensures
        r as int == skip_spaces(t@, i as int),
        i <= r <= t@.len(),
{
    let mut j = i;
    while j < t.len()
        invariant
            i <= j <= t@.len(),
            skip_spaces(t@, i as int) == skip_spaces(t@, j as int),
        decreases t@.len() - j,
    {
        if t[j] != ' ' {
            return j;
        }
        j = j + 1;
    }
    j
}

/// The characters of `s`, as a vector.
pub fn str_to_chars(s: &str) -> (r: Vec<char>)
    ensures
        r@ == s@,
{
    let n = s.unicode_len();
    let mut r: Vec<char> = Vec::new();
    let mut i: usize = 0;
    while i < n
        invariant
            i <= n == s@.len(),
            r@ == s@.subrange(0, i as int),
        decreases n - i,
    {
        r.push(s.get_char(i));
        assert(r@ =~= s@.subrange(0, i + 1));
        i = i + 1;
    }
    assert(r@ =~= s@);
    r
}

/// Relies on `String::push`: appends exactly the one character `c` to `s`.
#[verifier::external_body]
fn push_char(s: &mut String, c: char)
    ensures
        final(s)@ == old(s)@.push(c),
{
    s.push(c);
}

/// The string holding exactly the characters of `v`.
pub fn chars_to_string(v: &Vec<char>) -> (r: String)
    ensures
        r@ == v@,
{
    let mut r = String::new();
    let mut i: usize = 0;
    while i < v.len()
        invariant
            i <= v@.len(),
            r@ == v@.subrange(0, i as int),
        decreases v@.len() - i,
    {
        push_char(&mut r, v[i]);
        assert(r@ =~= v@.subrange(0, i + 1));
        i = i + 1;
    }
    assert(r@ =~= v@);
    r
}

/// Appends the characters of `s` to `out`.
pub fn push_str_chars(out: &mut Vec<char>, s: &str)
    ensures
        final(out)@ == old(out)@ + s@,
{
    let n = s.unicode_len();
    let mut i: usize = 0;
    while i < n
        invariant
            i <= n == s@.len(),
            out@ == old(out)@ + s@.subrange(0, i as int),
        decreases n - i,
    {
        out.push(s.get_char(i));
        assert(out@ =~= old(out)@ + s@.subrange(0, i + 1));
        i = i + 1;
    }
    assert(out@ =~= old(out)@ + s@);
}

/// Appends the characters of `src` to `out`.
pub fn append_chars(out: &mut Vec<char>, src: &Vec<char>)
    ensures
        final(out)@ == old(out)@ + src@,
{
    let mut i: usize = 0;
    while i < src.len()
        invariant
            i <= src@.len(),
            out@ == old(out)@ + src@.subrange(0, i as int),
        decreases src@.len() - i,
    {
        out.push(src[i]);
        assert(out@ =~= old(out)@ + src@.subrange(0, i + 1));
        i = i + 1;
    }
    assert(out@ =~= old(out)@ + src@);
}

/// The characters of `t` from `lo` (inclusive) to `hi` (exclusive).
pub fn copy_range(t: &Vec<char>, lo: usize, hi: usize) -> (r: Vec<char>)
    requires
        lo <= hi <= t@.len(),
    ensures
        r@ == t@.subrange(lo as int, hi as int),
{
    let mut r: Vec<char> = Vec::new();
    let mut i = lo;
    while i < hi
        invariant
            lo <= i <= hi <= t@.len(),
            r@ == t@.subrange(lo as int, i as int),
        decreases hi - i,
    {
        r.push(t[i]);
        assert(r@ =~= t@.subrange(lo as int, i + 1));
        i = i + 1;
    }
    r
}

/// Whether two character vectors hold the same characters.
pub fn chars_eq(a: &Vec<char>, b: &Vec<char>) -> (r: bool)
    ensures
        r == (a@ == b@),
{
    if a.len() != b.len() {
        return false;
    }
    let mut i: usize = 0;
    while i < a.len()
        invariant
            i <= a@.len() == b@.len(),
            forall|j: int| 0 <= j < i ==> a@[j] == b@[j],
        decreases a@.len() - i,
    {
        if a[i] != b[i] {
            return false;
        }
        i = i + 1;
    }
    assert(a@ =~= b@);
    true
}

} // verus!
