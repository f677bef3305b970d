use byte_scan::scan;
use byte_scan::ParseHelper;

#[test]
fn split_completeness() {
    let source = b"one,two;three";

    let (a, b) = source.take_until(b";").unwrap();
    let mut joined = a.to_vec();
    joined.extend_from_slice(b);
    assert_eq!(joined, source.to_vec());
    assert_eq!(a.len() + b.len(), source.len());

    let (a, b) = source.take_exact(4).unwrap();
    let mut joined = a.to_vec();
    joined.extend_from_slice(b);
    assert_eq!(joined, source.to_vec());
    assert_eq!(a.len() + b.len(), source.len());

    let (a, b) = source.take_expect(b"one").unwrap();
    let mut joined = a.to_vec();
    joined.extend_from_slice(b);
    assert_eq!(joined, source.to_vec());
    assert_eq!(a.len() + b.len(), source.len());

    let (a, b) = source.take_smallest_err(|s: &[u8]| s.len() >= 2, 0, ()).unwrap();
    let mut joined = a.to_vec();
    joined.extend_from_slice(b);
    assert_eq!(joined, source.to_vec());
    assert_eq!(a.len() + b.len(), source.len());
}

#[test]
fn take_until_finds_first_occurrence() {
    let source = b"abcbc";
    let (before, from_match) = source.take_until(b"bc").unwrap();
    assert_eq!(before, b"a");
    assert_eq!(from_match, b"bcbc");
}

#[test]
fn take_until_fails_without_occurrence() {
    assert!(b"hello".take_until(b"xyz").is_err());
    // a pattern longer than the view can never occur
    assert!(b"hi".take_until(b"hi there").is_err());
}

#[test]
fn take_until_empty_pattern_splits_at_start() {
    let (before, from_match) = b"abc".take_until(b"").unwrap();
    assert_eq!(before, b"");
    assert_eq!(from_match, b"abc");
}

#[test]
fn take_exact_zero_is_legal() {
    let (head, tail) = b"abc".take_exact(0).unwrap();
    assert_eq!(head, b"");
    assert_eq!(tail, b"abc");
}

#[test]
fn take_exact_fails_when_too_short() {
    assert!(b"abc".take_exact(4).is_err());
    let (head, tail) = b"abc".take_exact(3).unwrap();
    assert_eq!(head, b"abc");
    assert_eq!(tail, b"");
}

#[test]
fn take_expect_mismatch_returns_original_view() {
    let source = b"hello world";
    let err = source.take_expect(b"help").unwrap_err();
    assert_eq!(err, source.as_slice());

    let err = source.take_expect(b"hello world and more").unwrap_err();
    assert_eq!(err, source.as_slice());
}

#[test]
fn maybe_expect_present_and_absent() {
    let source = b"hello world";
    let (matched, rest) = source.maybe_expect(b"hello ");
    assert_eq!(matched, Some(b"hello ".as_slice()));
    assert_eq!(rest, b"world");

    let (matched, rest) = source.maybe_expect(b"goodbye");
    assert_eq!(matched, None);
    assert_eq!(rest, source.as_slice());
}

#[test]
fn error_customizing_variants() {
    let source = b"hello world";

    let err = source.take_until_err(b"xyz", "no marker").unwrap_err();
    assert_eq!(err, "no marker");
    let (before, after) = source.take_until_err(b" ", "no marker").unwrap();
    assert_eq!(before, b"hello");
    assert_eq!(after, b" world");

    let err = source.take_exact_err(100, 7u32).unwrap_err();
    assert_eq!(err, 7u32);
    let (head, tail) = source.take_exact_err(5, 7u32).unwrap();
    assert_eq!(head, b"hello");
    assert_eq!(tail, b" world");

    let err = source.take_expect_err(b"nope", "expected greeting").unwrap_err();
    assert_eq!(err, "expected greeting");
    let (matched, tail) = source.take_expect_err(b"hello", "expected greeting").unwrap();
    assert_eq!(matched, b"hello");
    assert_eq!(tail, b" world");
}

#[test]
fn predicate_scan_excludes_full_length() {
    // documented boundary: the candidate offsets stop just short of the
    // full view length, so a predicate first true there is never seen
    let source = b"ab";
    let whole = |s: &[u8]| s.len() == 2;
    assert!(source.take_smallest_err(whole, 0, ()).is_err());
    assert!(source.take_largest_err(whole, 0, ()).is_err());
}

#[test]
fn predicate_scan_skips_empty_prefix() {
    // the matched prefix of a predicate scan is never empty: even with no
    // lower bound, a predicate true of the empty prefix splits at offset 1
    let source = b"abc";
    let always = |_s: &[u8]| true;
    let (prefix, rest) = source.take_smallest_err(always, 0, ()).unwrap();
    assert_eq!(prefix, b"a");
    assert_eq!(rest, b"bc");
}

#[test]
fn predicate_scan_honours_min_size() {
    let source = b"abcdef";
    let always = |_s: &[u8]| true;
    let (prefix, rest) = source.take_smallest_err(always, 3, ()).unwrap();
    assert_eq!(prefix, b"abc");
    assert_eq!(rest, b"def");
}

#[test]
fn smallest_and_largest_on_contiguous_range() {
    // the predicate holds exactly for prefix lengths in [2, 5)
    let source = b"0123456";
    let in_range = |s: &[u8]| 2 <= s.len() && s.len() < 5;
    let (prefix, rest) = source.take_smallest_err(in_range, 0, ()).unwrap();
    assert_eq!(prefix, b"01");
    assert_eq!(rest, b"23456");
    let (prefix, rest) = source.take_largest_err(in_range, 0, ()).unwrap();
    assert_eq!(prefix, b"0123");
    assert_eq!(rest, b"456");
}

#[test]
fn works_on_every_byte_container() {
    let owned: Vec<u8> = b"key=value".to_vec();
    let (key, rest) = owned.take_until(b"=").unwrap();
    assert_eq!(key, b"key");
    assert_eq!(rest, b"=value");

    let text = "key=value";
    let (key, rest) = text.take_until(b"=").unwrap();
    assert_eq!(key, b"key");
    assert_eq!(rest, b"=value");

    let slice: &[u8] = b"key=value";
    let (key, rest) = slice.take_until(b"=").unwrap();
    assert_eq!(key, b"key");
    assert_eq!(rest, b"=value");
}

#[test]
fn free_functions_match_trait_methods() {
    let source = b"hello world";
    let (before, after) = scan::take_until(source, b" ").unwrap();
    assert_eq!(before, b"hello");
    assert_eq!(after, b" world");

    let (head, tail) = scan::take_exact(source, 5).unwrap();
    assert_eq!(head, b"hello");
    assert_eq!(tail, b" world");

    let err = scan::take_expect(source, b"nope").unwrap_err();
    assert_eq!(err, source.as_slice());

    let (matched, rest) = scan::maybe_expect(source, b"hello ");
    assert_eq!(matched, Some(b"hello ".as_slice()));
    assert_eq!(rest, b"world");
}
