//! Byte-sequence scanning primitives for hand-written parsers.
//!
//! Every operation splits a read-only byte view into a matched prefix and
//! the remaining suffix, or reports a failure; nothing is copied or owned.
//! The operations are attachable to any byte-sequence-like value through
//! the [`ParseHelper`] trait, and the stateless core lives in [`scan`] as
//! free functions on slices.
use vstd::prelude::*;

pub mod scan;

use crate::scan::begins_with;
use crate::scan::largest_split;
use crate::scan::match_at;
use crate::scan::scan_exhausted;
use crate::scan::smallest_split;
use vstd::string::StringSliceAdditionalSpecFns;

verus! {

/// A capability implemented for everything that can be read as a sequence
/// of bytes. Each operation is a pure function of that sequence: it either
/// splits the view into a matched prefix and the remaining suffix, both
/// borrowed from the underlying buffer, or reports a failure.
pub trait ParseHelper {
    /// The sequence of bytes this value presents to the scanner.
    spec fn view_bytes(&self) -> Seq<u8>;

    /// A borrowed slice holding exactly those bytes.
    fn bytes(&self) -> (r: &[u8])
        ensures
            r@ == self.view_bytes(),
    ;

    /// Skips a prefix of the view until the pattern is found: splits just
    /// before the first occurrence, so the remainder still carries the
    /// pattern itself. Fails exactly when no offset matches.
    fn take_until(&self, pattern: &[u8]) -> (r: Result<(&[u8], &[u8]), ()>)
        ensures
            match r {
                Ok((before, from_match)) => {
                    &&& before@ == self.view_bytes().subrange(0, before@.len() as int)
                    &&& from_match@ == self.view_bytes().subrange(
                        before@.len() as int,
                        self.view_bytes().len() as int,
                    )
                    &&& before@ + from_match@ == self.view_bytes()
                    &&& match_at(self.view_bytes(), pattern@, before@.len() as int)
                    &&& forall|j: int|
                        0 <= j < before@.len() ==> !match_at(self.view_bytes(), pattern@, j)
                },
                Err(_) => forall|j: int| !match_at(self.view_bytes(), pattern@, j),
            },
    {
        scan::take_until(self.bytes(), pattern)
    }

    /// `take_until`, reporting the provided error value on failure.
    fn take_until_err<E: core::fmt::Debug>(&self, pattern: &[u8], err: E) -> (r: Result<
        (&[u8], &[u8]),
        E,
    >)
        ensures
            match r {
                Ok((before, from_match)) => {
                    &&& before@ == self.view_bytes().subrange(0, before@.len() as int)
                    &&& from_match@ == self.view_bytes().subrange(
                        before@.len() as int,
                        self.view_bytes().len() as int,
                    )
                    &&& before@ + from_match@ == self.view_bytes()
                    &&& match_at(self.view_bytes(), pattern@, before@.len() as int)
                    &&& forall|j: int|
                        0 <= j < before@.len() ==> !match_at(self.view_bytes(), pattern@, j)
                },
                Err(e) => {
                    &&& e == err
                    &&& forall|j: int| !match_at(self.view_bytes(), pattern@, j)
                },
            },
    {
        scan::take_until_err(self.bytes(), pattern, err)
    }

    /// Returns the first `count` bytes of the view and the rest. Fails
    /// exactly when fewer than `count` bytes are available; `count == 0`
    /// is legal and returns an empty head.
    fn take_exact(&self, count: usize) -> (r: Result<(&[u8], &[u8]), ()>)
        ensures
            match r {
                Ok((head, tail)) => {
                    &&& count <= self.view_bytes().len()
                    &&& head@ == self.view_bytes().subrange(0, count as int)
                    &&& head@.len() == count
                    &&& tail@ == self.view_bytes().subrange(
                        count as int,
                        self.view_bytes().len() as int,
                    )
                    &&& head@ + tail@ == self.view_bytes()
                },
                Err(_) => count > self.view_bytes().len(),
            },
    {
        scan::take_exact(self.bytes(), count)
    }

    /// `take_exact`, reporting the provided error value on failure.
    fn take_exact_err<E: core::fmt::Debug>(&self, count: usize, err: E) -> (r: Result<
        (&[u8], &[u8]),
        E,
    >)
        ensures
            match r {
                Ok((head, tail)) => {
                    &&& count <= self.view_bytes().len()
                    &&& head@ == self.view_bytes().subrange(0, count as int)
                    &&& head@.len() == count
                    &&& tail@ == self.view_bytes().subrange(
                        count as int,
                        self.view_bytes().len() as int,
                    )
                    &&& head@ + tail@ == self.view_bytes()
                },
                Err(e) => {
                    &&& e == err
                    &&& count > self.view_bytes().len()
                },
            },
    {
        scan::take_exact_err(self.bytes(), count, err)
    }

    /// Succeeds only if the view begins with exactly the pattern, byte for
    /// byte; the matched view then equals the pattern's bytes and the tail
    /// is the rest. On mismatch the error carries the original, unconsumed
    /// view, so the caller can attempt an alternative parse path.
    fn take_expect(&self, pattern: &[u8]) -> (r: Result<(&[u8], &[u8]), &[u8]>)
        ensures
            match r {
                Ok((matched, tail)) => {
                    &&& begins_with(self.view_bytes(), pattern@)
                    &&& matched@ == pattern@
                    &&& tail@ == self.view_bytes().subrange(
                        pattern@.len() as int,
                        self.view_bytes().len() as int,
                    )
                    &&& matched@ + tail@ == self.view_bytes()
                },
                Err(e) => {
                    &&& !begins_with(self.view_bytes(), pattern@)
                    &&& e@ == self.view_bytes()
                },
            },
    {
        scan::take_expect(self.bytes(), pattern)
    }

    /// `take_expect`, reporting the provided error value on failure.
    fn take_expect_err<E: core::fmt::Debug>(&self, pattern: &[u8], err: E) -> (r: Result<
        (&[u8], &[u8]),
        E,
    >)
        ensures
            match r {
                Ok((matched, tail)) => {
                    &&& begins_with(self.view_bytes(), pattern@)
                    &&& matched@ == pattern@
                    &&& tail@ == self.view_bytes().subrange(
                        pattern@.len() as int,
                        self.view_bytes().len() as int,
                    )
                    &&& matched@ + tail@ == self.view_bytes()
                },
                Err(e) => {
                    &&& e == err
                    &&& !begins_with(self.view_bytes(), pattern@)
                },
            },
    {
        scan::take_expect_err(self.bytes(), pattern, err)
    }

    /// Non-failing variant of `take_expect`, for patterns that are optional
    /// in the grammar: an optional matched view, and the tail on success or
    /// the original view on mismatch.
    fn maybe_expect(&self, pattern: &[u8]) -> (r: (Option<&[u8]>, &[u8]))
        ensures
            match r.0 {
                Some(matched) => {
                    &&& begins_with(self.view_bytes(), pattern@)
                    &&& matched@ == pattern@
                    &&& r.1@ == self.view_bytes().subrange(
                        pattern@.len() as int,
                        self.view_bytes().len() as int,
                    )
                    &&& matched@ + r.1@ == self.view_bytes()
                },
                None => {
                    &&& !begins_with(self.view_bytes(), pattern@)
                    &&& r.1@ == self.view_bytes()
                },
            },
    {
        scan::maybe_expect(self.bytes(), pattern)
    }

    /// Splits at the first candidate offset whose prefix the predicate
    /// accepts: it runs the predicate until the first time it is true.
    /// Candidate offsets run from `min_size`, or 1 whichever is greater,
    /// up to but excluding the full length, so both returned views are
    /// non-empty. Fails with the provided error when the predicate rejects
    /// every candidate in that range.
    fn take_smallest_err<E: core::fmt::Debug, F: Fn(&[u8]) -> bool>(
        &self,
        f: F,
        min_size: usize,
        err: E,
    ) -> (r: Result<(&[u8], &[u8]), E>)
        requires
            forall|x: &[u8]|
                x@.len() < self.view_bytes().len() ==> #[trigger] call_requires(f, (x,)),
        ensures
            match r {
                Ok((prefix, rest)) => {
                    &&& prefix@ == self.view_bytes().subrange(0, prefix@.len() as int)
                    &&& rest@ == self.view_bytes().subrange(
                        prefix@.len() as int,
                        self.view_bytes().len() as int,
                    )
                    &&& prefix@ + rest@ == self.view_bytes()
                    &&& call_ensures(f, (prefix,), true)
                    &&& smallest_split(f, self.view_bytes(), min_size as int, prefix@.len() as int)
                },
                Err(e) => {
                    &&& e == err
                    &&& scan_exhausted(f, self.view_bytes(), min_size as int)
                },
            },
    {
        scan::take_smallest_err(self.bytes(), f, min_size, err)
    }

    /// Splits at the last candidate offset whose prefix the predicate
    /// accepts: it runs the predicate until the last time it is true,
    /// scanning the whole range since the predicate need not be monotonic.
    /// Candidate offsets run from `min_size`, or 1 whichever is greater,
    /// up to but excluding the full length, so both returned views are
    /// non-empty. Fails with the provided error when the predicate rejects
    /// every candidate in that range.
    fn take_largest_err<E: core::fmt::Debug, F: Fn(&[u8]) -> bool>(
        &self,
        f: F,
        min_size: usize,
        err: E,
    ) -> (r: Result<(&[u8], &[u8]), E>)
        requires
            forall|x: &[u8]|
                x@.len() < self.view_bytes().len() ==> #[trigger] call_requires(f, (x,)),
        ensures
            match r {
                Ok((prefix, rest)) => {
                    &&& prefix@ == self.view_bytes().subrange(0, prefix@.len() as int)
                    &&& rest@ == self.view_bytes().subrange(
                        prefix@.len() as int,
                        self.view_bytes().len() as int,
                    )
                    &&& prefix@ + rest@ == self.view_bytes()
                    &&& call_ensures(f, (prefix,), true)
                    &&& largest_split(f, self.view_bytes(), min_size as int, prefix@.len() as int)
                },
                Err(e) => {
                    &&& e == err
                    &&& scan_exhausted(f, self.view_bytes(), min_size as int)
                },
            },
    {
        scan::take_largest_err(self.bytes(), f, min_size, err)
    }
}

impl ParseHelper for [u8] {
    open spec fn view_bytes(&self) -> Seq<u8> {
        self@
    }

    fn bytes(&self) -> (r: &[u8]) {
        self
    }
}

impl ParseHelper for &[u8] {
    open spec fn view_bytes(&self) -> Seq<u8> {
        self@
    }

    fn bytes(&self) -> (r: &[u8]) {
        self
    }
}

impl ParseHelper for Vec<u8> {
    open spec fn view_bytes(&self) -> Seq<u8> {
        self@
    }

    fn bytes(&self) -> (r: &[u8]) {
        self.as_slice()
    }
}

impl ParseHelper for &str {
    open spec fn view_bytes(&self) -> Seq<u8> {
        self.spec_bytes()
    }

    fn bytes(&self) -> (r: &[u8]) {
        self.as_bytes()
    }
}

} // verus!
