//! The core split operations on byte slices, with their specifications.
use vstd::prelude::*;
use vstd::slice::slice_subrange;

verus! {

broadcast use vstd::slice::group_slice_axioms;

/// The pattern occurs in `s` at offset `i`: every byte of `pat` agrees with
/// the byte of `s` that stands `i` places further right.
pub open spec fn match_at(s: Seq<u8>, pat: Seq<u8>, i: int) -> bool {
    &&& 0 <= i
    &&& i + pat.len() <= s.len()
    &&& forall|k: int| 0 <= k < pat.len() ==> s[i + k] == #[trigger] pat[k]
}

/// `s` begins with `pat`, byte for byte.
pub open spec fn begins_with(s: Seq<u8>, pat: Seq<u8>) -> bool {
    match_at(s, pat, 0)
}

/// Compares `pattern` against the bytes of `source` starting at `start`.
fn matches_at(source: &[u8], pattern: &[u8], start: usize) -> (b: bool)
    requires
        start + pattern@.len() <= source@.len(),
    ensures
        b == match_at(source@, pattern@, start as int),
{
    proof {
        vstd::slice::axiom_spec_len(source);
    }
    let mut k: usize = 0;
    while k < pattern.len()
        invariant
            0 <= k <= pattern@.len(),
            start + pattern@.len() <= source@.len(),
            source@.len() <= usize::MAX,
            forall|j: int| 0 <= j < k ==> source@[start + j] == #[trigger] pattern@[j],
        decreases pattern@.len() - k,
    {
        if source[start + k] != pattern[k] {
            return false;
        }
        k += 1;
    }
    true
}

/// Scans `source` left to right for the first offset where `pattern` occurs.
/// On success the remainder still carries the pattern itself: the split is
/// placed just before the match. Fails exactly when no offset matches.
pub fn take_until<'a>(source: &'a [u8], pattern: &[u8]) -> (r: Result<
    (&'a [u8], &'a [u8]),
    (),
>)
    ensures
        match r {
            Ok((before, from_match)) => {
                &&& before@ == source@.subrange(0, before@.len() as int)
                &&& from_match@ == source@.subrange(before@.len() as int, source@.len() as int)
                &&& before@ + from_match@ == source@
                &&& match_at(source@, pattern@, before@.len() as int)
                &&& forall|j: int| 0 <= j < before@.len() ==> !match_at(source@, pattern@, j)
            },
            Err(_) => forall|j: int| !match_at(source@, pattern@, j),
        },
{
    if source.len() < pattern.len() {
        return Err(());
    }
    let last: usize = source.len() - pattern.len();
    let mut i: usize = 0;
    loop
        invariant
            0 <= i <= last,
            last + pattern@.len() == source@.len(),
            forall|j: int| 0 <= j < i ==> !match_at(source@, pattern@, j),
        decreases last - i,
    {
        if matches_at(source, pattern, i) {
            let before = slice_subrange(source, 0, i);
            let from_match = slice_subrange(source, i, source.len());
            proof {
                assert(before@ + from_match@ =~= source@);
            }
            return Ok((before, from_match));
        }
        if i == last {
            return Err(());
        }
        i += 1;
    }
}

/// `take_until`, reporting a caller-supplied error value instead of the
/// generic failure marker.
pub fn take_until_err<'a, E>(source: &'a [u8], pattern: &[u8], err: E) -> (r: Result<
    (&'a [u8], &'a [u8]),
    E,
>)
    ensures
        match r {
            Ok((before, from_match)) => {
                &&& before@ == source@.subrange(0, before@.len() as int)
                &&& from_match@ == source@.subrange(before@.len() as int, source@.len() as int)
                &&& before@ + from_match@ == source@
                &&& match_at(source@, pattern@, before@.len() as int)
                &&& forall|j: int| 0 <= j < before@.len() ==> !match_at(source@, pattern@, j)
            },
            Err(e) => {
                &&& e == err
                &&& forall|j: int| !match_at(source@, pattern@, j)
            },
        },
{
    match take_until(source, pattern) {
        Ok(split) => Ok(split),
        Err(_) => Err(err),
    }
}

/// Returns the first `count` bytes of `source` and the rest.
/// Fails exactly when fewer than `count` bytes are available.
pub fn take_exact<'a>(source: &'a [u8], count: usize) -> (r: Result<(&'a [u8], &'a [u8]), ()>)
    ensures
        match r {
            Ok((head, tail)) => {
                &&& count <= source@.len()
                &&& head@ == source@.subrange(0, count as int)
                &&& head@.len() == count
                &&& tail@ == source@.subrange(count as int, source@.len() as int)
                &&& head@ + tail@ == source@
            },
            Err(_) => count > source@.len(),
        },
{
    if source.len() < count {
        return Err(());
    }
    let head = slice_subrange(source, 0, count);
    let tail = slice_subrange(source, count, source.len());
    proof {
        assert(head@ + tail@ =~= source@);
    }
    Ok((head, tail))
}

/// `take_exact`, reporting a caller-supplied error value instead of the
/// generic failure marker.
pub fn take_exact_err<'a, E>(source: &'a [u8], count: usize, err: E) -> (r: Result<
    (&'a [u8], &'a [u8]),
    E,
>)
    ensures
        match r {
            Ok((head, tail)) => {
                &&& count <= source@.len()
                &&& head@ == source@.subrange(0, count as int)
                &&& head@.len() == count
                &&& tail@ == source@.subrange(count as int, source@.len() as int)
                &&& head@ + tail@ == source@
            },
            Err(e) => {
                &&& e == err
                &&& count > source@.len()
            },
        },
{
    match take_exact(source, count) {
        Ok(split) => Ok(split),
        Err(_) => Err(err),
    }
}

/// Succeeds only if `source` begins with exactly `pattern`; the matched view
/// then equals the pattern's bytes and the tail is the rest. On mismatch the
/// error carries the original, unconsumed view.
pub fn take_expect<'a>(source: &'a [u8], pattern: &[u8]) -> (r: Result<
    (&'a [u8], &'a [u8]),
    &'a [u8],
>)
    ensures
        match r {
            Ok((matched, tail)) => {
                &&& begins_with(source@, pattern@)
                &&& matched@ == pattern@
                &&& tail@ == source@.subrange(pattern@.len() as int, source@.len() as int)
                &&& matched@ + tail@ == source@
            },
            Err(e) => {
                &&& !begins_with(source@, pattern@)
                &&& e@ == source@
            },
        },
{
    if source.len() < pattern.len() {
        return Err(source);
    }
    if !matches_at(source, pattern, 0) {
        return Err(source);
    }
    let matched = slice_subrange(source, 0, pattern.len());
    let tail = slice_subrange(source, pattern.len(), source.len());
    proof {
        assert(matched@ =~= pattern@);
        assert(matched@ + tail@ =~= source@);
    }
    Ok((matched, tail))
}

/// `take_expect`, reporting a caller-supplied error value instead of the
/// unconsumed view.
pub fn take_expect_err<'a, E>(source: &'a [u8], pattern: &[u8], err: E) -> (r: Result<
    (&'a [u8], &'a [u8]),
    E,
>)
    ensures
        match r {
            Ok((matched, tail)) => {
                &&& begins_with(source@, pattern@)
                &&& matched@ == pattern@
                &&& tail@ == source@.subrange(pattern@.len() as int, source@.len() as int)
                &&& matched@ + tail@ == source@
            },
            Err(e) => {
                &&& e == err
                &&& !begins_with(source@, pattern@)
            },
        },
{
    match take_expect(source, pattern) {
        Ok(split) => Ok(split),
        Err(_) => Err(err),
    }
}

/// Non-failing variant of `take_expect`: an optional matched view, and the
/// tail on success or the original view on mismatch.
pub fn maybe_expect<'a>(source: &'a [u8], pattern: &[u8]) -> (r: (Option<&'a [u8]>, &'a [u8]))
    ensures
        match r.0 {
            Some(matched) => {
                &&& begins_with(source@, pattern@)
                &&& matched@ == pattern@
                &&& r.1@ == source@.subrange(pattern@.len() as int, source@.len() as int)
                &&& matched@ + r.1@ == source@
            },
            None => {
                &&& !begins_with(source@, pattern@)
                &&& r.1@ == source@
            },
        },
{
    match take_expect(source, pattern) {
        Ok((matched, tail)) => (Some(matched), tail),
        Err(original) => (None, original),
    }
}

/// The least candidate offset of a predicate-driven scan: `min_size`, or 1
/// when `min_size` is 0. A split with an empty matched prefix is never
/// produced, so the empty prefix is not a candidate even when the caller
/// places no lower bound on the scan.
pub open spec fn scan_floor(min_size: int) -> int {
    if min_size < 1 {
        1
    } else {
        min_size
    }
}

/// Some run of the predicate on a slice holding the first `i` bytes of `s`
/// can return `true`.
pub open spec fn scan_hit<F: Fn(&[u8]) -> bool>(f: F, s: Seq<u8>, i: int) -> bool {
    exists|x: &[u8]| #[trigger] call_ensures(f, (x,), true) && x@ == s.subrange(0, i)
}

/// Some run of the predicate on a slice holding the first `i` bytes of `s`
/// can return `false`.
pub open spec fn scan_miss<F: Fn(&[u8]) -> bool>(f: F, s: Seq<u8>, i: int) -> bool {
    exists|x: &[u8]| #[trigger] call_ensures(f, (x,), false) && x@ == s.subrange(0, i)
}

/// What a successful smallest-prefix scan establishes about its split offset
/// `i`: the offset lies in the scan range, the predicate accepted the prefix
/// of length `i`, and it rejected every shorter candidate in range.
pub open spec fn smallest_split<F: Fn(&[u8]) -> bool>(
    f: F,
    s: Seq<u8>,
    min_size: int,
    i: int,
) -> bool {
    &&& scan_floor(min_size) <= i < s.len()
    &&& scan_hit(f, s, i)
    &&& forall|j: int| scan_floor(min_size) <= j < i ==> #[trigger] scan_miss(f, s, j)
}

/// What a successful largest-prefix scan establishes about its split offset
/// `i`: the offset lies in the scan range, the predicate accepted the prefix
/// of length `i`, and it rejected every longer candidate in range.
pub open spec fn largest_split<F: Fn(&[u8]) -> bool>(
    f: F,
    s: Seq<u8>,
    min_size: int,
    i: int,
) -> bool {
    &&& scan_floor(min_size) <= i < s.len()
    &&& scan_hit(f, s, i)
    &&& forall|j: int| i < j < s.len() ==> #[trigger] scan_miss(f, s, j)
}

/// What a failed predicate scan establishes: the predicate rejected every
/// candidate offset in the scan range.
pub open spec fn scan_exhausted<F: Fn(&[u8]) -> bool>(f: F, s: Seq<u8>, min_size: int) -> bool {
    forall|j: int| scan_floor(min_size) <= j < s.len() ==> #[trigger] scan_miss(f, s, j)
}

/// Splits at the first candidate offset whose prefix the predicate accepts:
/// it runs the predicate until the first time it is true. Candidate offsets
/// run from `min_size`, or 1 whichever is greater, up to but excluding the
/// full length, so both returned views are non-empty. Fails with the given
/// error when the predicate rejects every candidate in that range.
pub fn take_smallest_err<'a, E, F: Fn(&[u8]) -> bool>(
    source: &'a [u8],
    f: F,
    min_size: usize,
    err: E,
) -> (r: Result<(&'a [u8], &'a [u8]), E>)
    requires
        forall|x: &[u8]| x@.len() < source@.len() ==> #[trigger] call_requires(f, (x,)),
    ensures
        match r {
            Ok((prefix, rest)) => {
                &&& prefix@ == source@.subrange(0, prefix@.len() as int)
                &&& rest@ == source@.subrange(prefix@.len() as int, source@.len() as int)
                &&& prefix@ + rest@ == source@
                &&& call_ensures(f, (prefix,), true)
                &&& smallest_split(f, source@, min_size as int, prefix@.len() as int)
            },
            Err(e) => {
                &&& e == err
                &&& scan_exhausted(f, source@, min_size as int)
            },
        },
{
    let mut i: usize = if min_size < 1 { 1 } else { min_size };
    while i < source.len()
        invariant
            scan_floor(min_size as int) <= i,
            forall|x: &[u8]| x@.len() < source@.len() ==> #[trigger] call_requires(f, (x,)),
            forall|j: int| scan_floor(min_size as int) <= j < i ==> #[trigger] scan_miss(f, source@, j),
        decreases source@.len() - i,
    {
        let candidate = slice_subrange(source, 0, i);
        if f(candidate) {
            let rest = slice_subrange(source, i, source.len());
            proof {
                assert(candidate@ + rest@ =~= source@);
            }
            return Ok((candidate, rest));
        }
        proof {
            assert(scan_miss(f, source@, i as int));
        }
        i += 1;
    }
    Err(err)
}

/// Splits at the last candidate offset whose prefix the predicate accepts:
/// it runs the predicate until the last time it is true, scanning the whole
/// range since the predicate need not be monotonic. Candidate offsets run
/// from `min_size`, or 1 whichever is greater, up to but excluding the full
/// length, so both returned views are non-empty. Fails with the given error
/// when the predicate rejects every candidate in that range.
pub fn take_largest_err<'a, E, F: Fn(&[u8]) -> bool>(
    source: &'a [u8],
    f: F,
    min_size: usize,
    err: E,
) -> (r: Result<(&'a [u8], &'a [u8]), E>)
    requires
        forall|x: &[u8]| x@.len() < source@.len() ==> #[trigger] call_requires(f, (x,)),
    ensures
        match r {
            Ok((prefix, rest)) => {
                &&& prefix@ == source@.subrange(0, prefix@.len() as int)
                &&& rest@ == source@.subrange(prefix@.len() as int, source@.len() as int)
                &&& prefix@ + rest@ == source@
                &&& call_ensures(f, (prefix,), true)
                &&& largest_split(f, source@, min_size as int, prefix@.len() as int)
            },
            Err(e) => {
                &&& e == err
                &&& scan_exhausted(f, source@, min_size as int)
            },
        },
{
    let mut best: Option<&'a [u8]> = None;
    let mut i: usize = if min_size < 1 { 1 } else { min_size };
    while i < source.len()
        invariant
            scan_floor(min_size as int) <= i,
            forall|x: &[u8]| x@.len() < source@.len() ==> #[trigger] call_requires(f, (x,)),
            match best {
                Some(b) => {
                    &&& scan_floor(min_size as int) <= b@.len() < i
                    &&& b@.len() < source@.len()
                    &&& b@ == source@.subrange(0, b@.len() as int)
                    &&& call_ensures(f, (b,), true)
                    &&& forall|j: int|
                        b@.len() < j < i ==> #[trigger] scan_miss(f, source@, j)
                },
                None => forall|j: int|
                    scan_floor(min_size as int) <= j < i ==> #[trigger] scan_miss(f, source@, j),
            },
        decreases source@.len() - i,
    {
        let candidate = slice_subrange(source, 0, i);
        if f(candidate) {
            best = Some(candidate);
        } else {
            proof {
                assert(scan_miss(f, source@, i as int));
            }
        }
        i += 1;
    }
    match best {
        Some(prefix) => {
            let rest = slice_subrange(source, prefix.len(), source.len());
            proof {
                assert(prefix@ + rest@ =~= source@);
            }
            Ok((prefix, rest))
        },
        None => Err(err),
    }
}

/// Law: suppose the predicate is deterministic, behaving as the prefix
/// property `p`, and `p` holds of a prefix of `s` with length in the scan
/// range exactly when that length lies in the contiguous range `[lo, hi)`.
/// Then a smallest-prefix scan can only split at offset `lo`, a
/// largest-prefix scan can only split at offset `hi - 1`, and neither scan
/// can fail.
pub proof fn lemma_smallest_largest_duality<F: Fn(&[u8]) -> bool>(
    f: F,
    p: spec_fn(Seq<u8>) -> bool,
    s: Seq<u8>,
    min_size: int,
    lo: int,
    hi: int,
)
    requires
        forall|x: &[u8], b: bool| #[trigger] call_ensures(f, (x,), b) ==> b == p(x@),
        scan_floor(min_size) <= lo < hi <= s.len(),
        forall|j: int|
            scan_floor(min_size) <= j < s.len() ==> (p(s.subrange(0, j)) <==> lo <= j < hi),
    ensures
        forall|i: int| smallest_split(f, s, min_size, i) ==> i == lo,
        forall|i: int| largest_split(f, s, min_size, i) ==> i == hi - 1,
        !scan_exhausted(f, s, min_size),
{
    assert forall|i: int| smallest_split(f, s, min_size, i) implies i == lo by {
        lemma_hit_in_range(f, p, s, min_size, lo, hi, i);
        if i > lo {
            assert(scan_miss(f, s, lo));
            lemma_miss_off_range(f, p, s, min_size, lo, hi, lo);
        }
    }
    assert forall|i: int| largest_split(f, s, min_size, i) implies i == hi - 1 by {
        lemma_hit_in_range(f, p, s, min_size, lo, hi, i);
        if i < hi - 1 {
            assert(scan_miss(f, s, hi - 1));
            lemma_miss_off_range(f, p, s, min_size, lo, hi, hi - 1);
        }
    }
    if scan_exhausted(f, s, min_size) {
        assert(scan_miss(f, s, lo));
        lemma_miss_off_range(f, p, s, min_size, lo, hi, lo);
    }
}

/// A deterministic predicate that behaves as `p` can accept a prefix whose
/// length lies in the scan range only where `p` holds, that is, in `[lo, hi)`.
proof fn lemma_hit_in_range<F: Fn(&[u8]) -> bool>(
    f: F,
    p: spec_fn(Seq<u8>) -> bool,
    s: Seq<u8>,
    min_size: int,
    lo: int,
    hi: int,
    i: int,
)
    requires
        forall|x: &[u8], b: bool| #[trigger] call_ensures(f, (x,), b) ==> b == p(x@),
        forall|j: int|
            scan_floor(min_size) <= j < s.len() ==> (p(s.subrange(0, j)) <==> lo <= j < hi),
        scan_floor(min_size) <= i < s.len(),
        scan_hit(f, s, i),
    ensures
        lo <= i < hi,
{
    let x = choose|x: &[u8]| #[trigger] call_ensures(f, (x,), true) && x@ == s.subrange(0, i);
    assert(p(s.subrange(0, i)));
}

/// A deterministic predicate that behaves as `p` can reject a prefix whose
/// length lies in the scan range only where `p` fails, that is, outside
/// `[lo, hi)`.
proof fn lemma_miss_off_range<F: Fn(&[u8]) -> bool>(
    f: F,
    p: spec_fn(Seq<u8>) -> bool,
    s: Seq<u8>,
    min_size: int,
    lo: int,
    hi: int,
    i: int,
)
    requires
        forall|x: &[u8], b: bool| #[trigger] call_ensures(f, (x,), b) ==> b == p(x@),
        forall|j: int|
            scan_floor(min_size) <= j < s.len() ==> (p(s.subrange(0, j)) <==> lo <= j < hi),
        scan_floor(min_size) <= i < s.len(),
        scan_miss(f, s, i),
    ensures
        !(lo <= i < hi),
{
    let x = choose|x: &[u8]| #[trigger] call_ensures(f, (x,), false) && x@ == s.subrange(0, i);
    assert(!p(s.subrange(0, i)));
}

} // verus!
