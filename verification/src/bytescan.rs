//! Byte-sequence scanning primitives shared by the HTTP request parser:
//! whitespace tokenization, substring search, and prefix tests.

use vstd::prelude::*;

verus! {

/// ASCII space or horizontal tab: the separators of the request line.
pub open spec fn is_space(b: u8) -> bool {
    b == 32 || b == 9
}

/// First index at or after `i` holding a line feed, or the length if none.
pub open spec fn find_lf(s: Seq<u8>, i: int) -> int
    decreases s.len() - i,
{
    if i < 0 || i >= s.len() {
        s.len() as int
    } else if s[i] == 10 {
        i
    } else {
        find_lf(s, i + 1)
    }
}

/// First index at or after `i` holding something other than a slash,
/// or the length if none.
pub open spec fn skip_slashes(s: Seq<u8>, i: int) -> int
    decreases s.len() - i,
{
    if i < 0 || i >= s.len() {
        s.len() as int
    } else if s[i] == 47 {
        skip_slashes(s, i + 1)
    } else {
        i
    }
}

/// End of the whitespace-free run starting at `i`: the first index at or
/// after `i` holding a space or tab, or the length if none.
pub open spec fn token_end(s: Seq<u8>, i: int) -> int
    decreases s.len() - i,
{
    if i < 0 || i >= s.len() {
        s.len() as int
    } else if is_space(s[i]) {
        i
    } else {
        token_end(s, i + 1)
    }
}

pub proof fn lemma_find_lf_bounds(s: Seq<u8>, i: int)
    requires
        0 <= i <= s.len(),
    ensures
        i <= find_lf(s, i) <= s.len(),
        forall|k: int| i <= k < find_lf(s, i) ==> s[k] != 10,
        find_lf(s, i) < s.len() ==> s[find_lf(s, i)] == 10,
    decreases s.len() - i,
{
    if i < s.len() && s[i] != 10 {
        lemma_find_lf_bounds(s, i + 1);
    }
}

pub proof fn lemma_skip_slashes_bounds(s: Seq<u8>, i: int)
    requires
        0 <= i <= s.len(),
    ensures
        i <= skip_slashes(s, i) <= s.len(),
        forall|k: int| i <= k < skip_slashes(s, i) ==> s[k] == 47,
        skip_slashes(s, i) < s.len() ==> s[skip_slashes(s, i)] != 47,
    decreases s.len() - i,
{
    if i < s.len() && s[i] == 47 {
        lemma_skip_slashes_bounds(s, i + 1);
    }
}

pub proof fn lemma_token_end_bounds(s: Seq<u8>, i: int)
    requires
        0 <= i <= s.len(),
    ensures
        i <= token_end(s, i) <= s.len(),
        forall|k: int| i <= k < token_end(s, i) ==> !is_space(s[k]),
        token_end(s, i) < s.len() ==> is_space(s[token_end(s, i)]),
    decreases s.len() - i,
{
    if i < s.len() && !is_space(s[i]) {
        lemma_token_end_bounds(s, i + 1);
    }
}

/// The request line's tokens from position `i` on: maximal whitespace-free
/// runs, in order, with separating whitespace dropped.
pub open spec fn tokens_from(s: Seq<u8>, i: int) -> Seq<Seq<u8>>
    decreases s.len() - i,
    when 0 <= i <= s.len()
    via tokens_from_decreases
{
    if i >= s.len() {
        Seq::empty()
    } else if is_space(s[i]) {
        tokens_from(s, i + 1)
    } else {
        seq![s.subrange(i, token_end(s, i))] + tokens_from(s, token_end(s, i))
    }
}

#[via_fn]
proof fn tokens_from_decreases(s: Seq<u8>, i: int) {
    if 0 <= i < s.len() && !is_space(s[i]) {
        lemma_token_end_bounds(s, i);
    }
}

/// `p` occurs at the front of `s`.
pub open spec fn starts_with(s: Seq<u8>, p: Seq<u8>) -> bool {
    p.len() <= s.len() && s.subrange(0, p.len() as int) == p
}

/// `s` holds two consecutive dots somewhere.
pub open spec fn contains_dotdot(s: Seq<u8>) -> bool {
    exists|k: int| 0 <= k && k + 2 <= s.len() && #[trigger] s[k] == 46 && s[k + 1] == 46
}

/// Pins `token_end` down from a description of the whitespace-free run.
pub proof fn lemma_token_end_exact(s: Seq<u8>, i: int, j: int)
    requires
        0 <= i <= j <= s.len(),
        forall|k: int| i <= k < j ==> !is_space(s[k]),
        j == s.len() || is_space(s[j]),
    ensures
        token_end(s, i) == j,
    decreases j - i,
{
    if i < j {
        lemma_token_end_exact(s, i + 1, j);
    }
}

/// Pins `find_lf` down from a description of the line feed's position.
pub proof fn lemma_find_lf_exact(s: Seq<u8>, i: int, j: int)
    requires
        0 <= i <= j <= s.len(),
        forall|k: int| i <= k < j ==> s[k] != 10,
        j == s.len() || s[j] == 10,
    ensures
        find_lf(s, i) == j,
    decreases j - i,
{
    if i < j {
        lemma_find_lf_exact(s, i + 1, j);
    }
}

/// Pins `skip_slashes` down from a description of the slash run.
pub proof fn lemma_skip_slashes_exact(s: Seq<u8>, i: int, j: int)
    requires
        0 <= i <= j <= s.len(),
        forall|k: int| i <= k < j ==> s[k] == 47,
        j == s.len() || s[j] != 47,
    ensures
        skip_slashes(s, i) == j,
    decreases j - i,
{
    if i < j {
        lemma_skip_slashes_exact(s, i + 1, j);
    }
}

pub fn eq_bytes(a: &[u8], b: &[u8]) -> (r: bool)
    ensures
        r == (a@ == b@),
{
    if a.len() != b.len() {
        assert(a@.len() != b@.len());
        return false;
    }
    let mut i: usize = 0;
    while i < a.len()
        invariant
            i <= a.len(),
            a@.len() == b@.len(),
            forall|k: int| 0 <= k < i ==> a@[k] == b@[k],
        decreases a.len() - i,
    {
        if a[i] != b[i] {
            assert(a@[i as int] != b@[i as int]);
            return false;
        }
        i += 1;
    }
    assert(a@ =~= b@);
    true
}

/// Index of the first line feed at or after `from`, or `s.len()` if none.
pub fn scan_lf(s: &[u8], from: usize) -> (j: usize)
    requires
        from <= s@.len(),
    ensures
        j == find_lf(s@, from as int),
        from <= j <= s@.len(),
{
    proof {
        lemma_find_lf_bounds(s@, from as int);
    }
    let mut i: usize = from;
    while i < s.len()
        invariant
            from <= i <= s@.len(),
            forall|k: int| from <= k < i ==> s@[k] != 10,
            find_lf(s@, from as int) == find_lf(s@, i as int),
        decreases s@.len() - i,
    {
        if s[i] == 10 {
            return i;
        }
        i += 1;
    }
    i
}

/// Index of the first non-slash byte at or after `from`, or `s.len()` if none.
pub fn scan_non_slash(s: &[u8], from: usize) -> (j: usize)
    requires
        from <= s@.len(),
    ensures
        j == skip_slashes(s@, from as int),
        from <= j <= s@.len(),
{
    proof {
        lemma_skip_slashes_bounds(s@, from as int);
    }
    let mut i: usize = from;
    while i < s.len()
        invariant
            from <= i <= s@.len(),
            forall|k: int| from <= k < i ==> s@[k] == 47,
            skip_slashes(s@, from as int) == skip_slashes(s@, i as int),
        decreases s@.len() - i,
    {
        if s[i] != 47 {
            return i;
        }
        i += 1;
    }
    i
}

/// Index of the first space or tab at or after `from`, or `s.len()` if none.
pub fn scan_token_end(s: &[u8], from: usize) -> (j: usize)
    requires
        from <= s@.len(),
    ensures
        j == token_end(s@, from as int),
        from <= j <= s@.len(),
{
    proof {
        lemma_token_end_bounds(s@, from as int);
    }
    let mut i: usize = from;
    while i < s.len()
        invariant
            from <= i <= s@.len(),
            forall|k: int| from <= k < i ==> !is_space(s@[k]),
            token_end(s@, from as int) == token_end(s@, i as int),
        decreases s@.len() - i,
    {
        if s[i] == 32 || s[i] == 9 {
            return i;
        }
        i += 1;
    }
    i
}

/// Whether `s` holds `..` anywhere.
pub fn has_dotdot(s: &[u8]) -> (r: bool)
    ensures
        r == contains_dotdot(s@),
{
    if s.len() < 2 {
        return false;
    }
    let mut i: usize = 0;
    while i < s.len() - 1
        invariant
            s@.len() >= 2,
            i <= s@.len() - 1,
            forall|k: int| 0 <= k && k + 2 <= s@.len() && k < i ==> !(#[trigger] s@[k] == 46 && s@[k + 1] == 46),
        decreases s@.len() - i,
    {
        if s[i] == 46 && s[i + 1] == 46 {
            assert(contains_dotdot(s@));
            return true;
        }
        i += 1;
    }
    false
}

/// Whether `s` begins with `p`.
pub fn is_prefix(s: &[u8], p: &[u8]) -> (r: bool)
    ensures
        r == starts_with(s@, p@),
{
    if p.len() > s.len() {
        return false;
    }
    let mut i: usize = 0;
    while i < p.len()
        invariant
            i <= p@.len() <= s@.len(),
            forall|k: int| 0 <= k < i ==> s@[k] == p@[k],
        decreases p@.len() - i,
    {
        if s[i] != p[i] {
            assert(s@.subrange(0, p@.len() as int)[i as int] != p@[i as int]);
            return false;
        }
        i += 1;
    }
    assert(s@.subrange(0, p@.len() as int) =~= p@);
    true
}

/// Copies `src` onto the end of `dst`.
pub fn push_all(dst: &mut Vec<u8>, src: &[u8])
    ensures
        final(dst)@ == old(dst)@ + src@,
{
    let mut i: usize = 0;
    while i < src.len()
        invariant
            i <= src@.len(),
            dst@ == old(dst)@ + src@.subrange(0, i as int),
        decreases src@.len() - i,
    {
        dst.push(src[i]);
        assert(dst@ =~= old(dst)@ + src@.subrange(0, i + 1 as int));
        i += 1;
    }
    assert(dst@ =~= old(dst)@ + src@);
}

/// Copies the range `[from, to)` of `src` into a fresh vector.
pub fn copy_range(src: &[u8], from: usize, to: usize) -> (v: Vec<u8>)
    requires
        from <= to <= src@.len(),
    ensures
        v@ == src@.subrange(from as int, to as int),
{
    let mut v: Vec<u8> = Vec::new();
    let mut i: usize = from;
    while i < to
        invariant
            from <= i <= to <= src@.len(),
            v@ == src@.subrange(from as int, i as int),
        decreases to - i,
    {
        v.push(src[i]);
        assert(v@ =~= src@.subrange(from as int, i + 1 as int));
        i += 1;
    }
    v
}

} // verus!
