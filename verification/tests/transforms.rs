use anystr::coerce::BigIntArg;
use anystr::coerce::saturate_to_isize;
use anystr::ranges::{IndexRange, StringRange, adjust_indices};
use anystr::args::{SplitArgs, SplitLinesArgs, ExpandTabsArgs};
use anystr::pad::{py_add, py_pad, py_center, py_ljust, py_rjust, py_zfill, zfill};
use anystr::search::{py_find, py_count, find_sub, count_sub};
use anystr::strip::{py_strip, py_removeprefix, py_removesuffix, starts_with_bytes};
use anystr::split::{py_split, py_split_whitespace, py_rsplit_whitespace};
use anystr::lines::py_bytes_splitlines;
use anystr::join::{py_join, py_partition};
use anystr::case::{py_iscase, py_cformat};

fn owned(parts: &[&[u8]]) -> Vec<Vec<u8>> {
    parts.iter().map(|p| p.to_vec()).collect()
}

#[test]
fn saturate_fits_and_extremes() {
    assert_eq!(saturate_to_isize(BigIntArg::Fits(5)), 5);
    assert_eq!(saturate_to_isize(BigIntArg::Fits(-7)), -7);
    assert_eq!(saturate_to_isize(BigIntArg::BelowMin), isize::MIN);
    assert_eq!(saturate_to_isize(BigIntArg::AboveMax), isize::MAX);
}

#[test]
fn adjust_indices_negative_start() {
    let r = adjust_indices(Some(BigIntArg::Fits(-2)), None, 5);
    assert_eq!(r, IndexRange { start: 3, end: 5 });
    assert!(r.is_normal());
}

#[test]
fn adjust_indices_start_past_end() {
    let r = adjust_indices(Some(BigIntArg::Fits(10)), None, 5);
    assert_eq!(r, IndexRange { start: 10, end: 5 });
    assert!(!r.is_normal());
}

#[test]
fn adjust_indices_clamps_end_both_ways() {
    let r = adjust_indices(None, Some(BigIntArg::Fits(99)), 5);
    assert_eq!(r, IndexRange { start: 0, end: 5 });
    let r = adjust_indices(None, Some(BigIntArg::Fits(-2)), 5);
    assert_eq!(r, IndexRange { start: 0, end: 3 });
    let r = adjust_indices(None, Some(BigIntArg::Fits(-9)), 5);
    assert_eq!(r, IndexRange { start: 0, end: 0 });
}

#[test]
fn adjust_indices_saturates_huge_bounds() {
    let r = adjust_indices(Some(BigIntArg::BelowMin), Some(BigIntArg::AboveMax), 5);
    assert_eq!(r, IndexRange { start: 0, end: 5 });
}

#[test]
fn split_on_separator_unlimited() {
    let args = SplitArgs { sep: Some(b",".to_vec()), maxsplit: -1 };
    let r = py_split(b"a,b,,c", args).unwrap();
    assert_eq!(r, owned(&[b"a", b"b", b"", b"c"]));
}

#[test]
fn split_on_separator_capped() {
    let args = SplitArgs { sep: Some(b",".to_vec()), maxsplit: 1 };
    let r = py_split(b"a,b,,c", args).unwrap();
    assert_eq!(r, owned(&[b"a", b"b,,c"]));
}

#[test]
fn split_empty_subject_is_fine() {
    let args = SplitArgs { sep: Some(b",".to_vec()), maxsplit: -1 };
    let r = py_split(b"", args).unwrap();
    assert_eq!(r, owned(&[b""]));
}

#[test]
fn split_empty_separator_is_value_error() {
    let args = SplitArgs { sep: Some(Vec::new()), maxsplit: -1 };
    let e = py_split(b"abc", args).unwrap_err();
    assert!(e.is_value_error());
    assert_eq!(e.message(), "empty separator");
}

#[test]
fn split_whitespace_runs() {
    let r = py_split_whitespace(b"  a b  c ", -1);
    assert_eq!(r, owned(&[b"a", b"b", b"c"]));
    let args = SplitArgs { sep: None, maxsplit: -1 };
    let r = py_split(b"  a b  c ", args).unwrap();
    assert_eq!(r, owned(&[b"a", b"b", b"c"]));
}

#[test]
fn split_whitespace_capped_keeps_tail() {
    let r = py_split_whitespace(b" a b  c ", 1);
    assert_eq!(r, owned(&[b"a", b"b  c "]));
    let r = py_split_whitespace(b" a b ", 0);
    assert_eq!(r, owned(&[b"a b "]));
}

#[test]
fn rsplit_whitespace_counts_from_the_right() {
    let r = py_rsplit_whitespace(b"  a b  c ", -1);
    assert_eq!(r, owned(&[b"a", b"b", b"c"]));
    let r = py_rsplit_whitespace(b"  a b  c ", 1);
    assert_eq!(r, owned(&[b"  a b", b"c"]));
}

#[test]
fn center_parity_examples() {
    assert_eq!(py_center(b"abc", 6, b' ', 3), b" abc  ".to_vec());
    assert_eq!(py_center(b"ab", 5, b' ', 2), b"  ab ".to_vec());
    assert_eq!(py_center(b"abc", 7, b' ', 3), b"  abc  ".to_vec());
    assert_eq!(py_center(b"a", 4, b' ', 1), b" a  ".to_vec());
    assert_eq!(py_center(b"ab", 2, b' ', 2), b"ab".to_vec());
}

#[test]
fn pad_and_justify() {
    assert_eq!(py_pad(b"x", 2, 3, b'-'), b"--x---".to_vec());
    assert_eq!(py_ljust(b"ab", 5, b'.', 2), b"ab...".to_vec());
    assert_eq!(py_rjust(b"ab", 5, b'.', 2), b"...ab".to_vec());
}

#[test]
fn add_concatenates() {
    let r: Vec<u8> = py_add(b"ab", b"cd");
    assert_eq!(r, b"abcd".to_vec());
}

#[test]
fn splitlines_drops_terminators() {
    let r = py_bytes_splitlines(b"a\r\nb\rc\nd", SplitLinesArgs { keepends: false });
    assert_eq!(r, owned(&[b"a", b"b", b"c", b"d"]));
}

#[test]
fn splitlines_keeps_terminators() {
    let r = py_bytes_splitlines(b"a\r\nb\rc\nd", SplitLinesArgs { keepends: true });
    assert_eq!(r, owned(&[b"a\r\n", b"b\r", b"c\n", b"d"]));
}

#[test]
fn splitlines_empty_input_has_no_fragments() {
    let r = py_bytes_splitlines(b"", SplitLinesArgs { keepends: false });
    assert!(r.is_empty());
    let r = py_bytes_splitlines(b"\n", SplitLinesArgs { keepends: true });
    assert_eq!(r, owned(&[b"\n"]));
}

#[test]
fn removeprefix_is_idempotent_once_gone() {
    let once = py_removeprefix(b"abcdef", b"abc");
    assert_eq!(once, b"def");
    assert_eq!(py_removeprefix(once, b"abc"), b"def");
    assert_eq!(py_removeprefix(b"xyz", b"abc"), b"xyz");
}

#[test]
fn removeprefix_strips_one_layer_at_a_time() {
    assert_eq!(py_removeprefix(b"aa", b"a"), b"a");
    assert_eq!(py_removeprefix(py_removeprefix(b"aa", b"a"), b"a"), b"");
}

#[test]
fn removesuffix_trims_only_when_present() {
    assert_eq!(py_removesuffix(b"abcdef", b"def"), b"abc");
    assert_eq!(py_removesuffix(b"abcdef", b"xyz"), b"abcdef");
    assert_eq!(py_removesuffix(b"", b"x"), b"");
}

#[test]
fn strip_whitespace_by_default() {
    assert_eq!(py_strip(b"  hi \t\r\n", None), b"hi");
    assert_eq!(py_strip(b"  hi ", Some(None)), b"hi");
    assert_eq!(py_strip(b"   ", None), b"");
}

#[test]
fn strip_custom_charset() {
    assert_eq!(py_strip(b"xyhixx", Some(Some(&b"xy"[..]))), b"hi");
    assert_eq!(py_strip(b" hi ", Some(Some(&b""[..]))), b" hi ");
}

#[test]
fn find_offsets_into_original() {
    let s = b"hello world";
    assert_eq!(py_find(s, b"o", IndexRange { start: 0, end: 11 }), Some(4));
    assert_eq!(py_find(s, b"o", IndexRange { start: 6, end: 11 }), Some(7));
    assert_eq!(py_find(s, b"z", IndexRange { start: 0, end: 11 }), None);
    assert_eq!(py_find(s, b"o", IndexRange { start: 10, end: 5 }), None);
    assert_eq!(find_sub(b"abc", b""), Some(0));
}

#[test]
fn count_is_non_overlapping() {
    assert_eq!(py_count(b"aaaa", b"aa", IndexRange { start: 0, end: 4 }), 2);
    assert_eq!(count_sub(b"aaa", b"aa"), 1);
    assert_eq!(py_count(b"abc", b"", IndexRange { start: 0, end: 3 }), 4);
    assert_eq!(py_count(b"abc", b"b", IndexRange { start: 9, end: 2 }), 0);
}

#[test]
fn zfill_inserts_after_sign() {
    assert_eq!(py_zfill(b"-42", 5), b"-0042".to_vec());
    assert_eq!(py_zfill(b"+3", 4), b"+003".to_vec());
    assert_eq!(py_zfill(b"abc", 5), b"00abc".to_vec());
    assert_eq!(py_zfill(b"abc", 2), b"abc".to_vec());
    assert_eq!(py_zfill(b"42", -3), b"42".to_vec());
    assert_eq!(zfill(b"-1", 4), b"-001".to_vec());
}

#[test]
fn tabsize_clamps_negative_to_zero() {
    assert_eq!(ExpandTabsArgs::new(8).tabsize(), 8);
    assert_eq!(ExpandTabsArgs::new(0).tabsize(), 0);
    assert_eq!(ExpandTabsArgs::new(-5).tabsize(), 0);
}

#[test]
fn iscase_needs_a_cased_element() {
    let lower = |c: u8| c.is_ascii_lowercase();
    let upper = |c: u8| c.is_ascii_uppercase();
    assert!(py_iscase(b"abc1", lower, upper));
    assert!(!py_iscase(b"aBc", lower, upper));
    assert!(!py_iscase(b"123", lower, upper));
    assert!(!py_iscase(b"", lower, upper));
    assert!(py_iscase(b"AB2", upper, lower));
}

#[test]
fn join_with_separator() {
    let mut items: Vec<Result<Vec<u8>, u32>> =
        vec![Ok(b"a".to_vec()), Ok(b"b".to_vec()), Ok(b"c".to_vec())];
    assert_eq!(py_join(b", ", &mut items).unwrap(), b"a, b, c".to_vec());
    assert!(items.is_empty());
    let mut empty: Vec<Result<Vec<u8>, u32>> = Vec::new();
    assert_eq!(py_join(b", ", &mut empty).unwrap(), Vec::<u8>::new());
}

#[test]
fn join_propagates_third_failure() {
    let mut items: Vec<Result<Vec<u8>, u32>> =
        vec![Ok(b"a".to_vec()), Ok(b"b".to_vec()), Err(7), Ok(b"d".to_vec())];
    assert_eq!(py_join(b"-", &mut items).unwrap_err(), 7);
}

#[test]
fn partition_around_first_occurrence() {
    let (front, has, back) = py_partition(b"a=b=c", b"=").unwrap();
    assert_eq!((front, has, back), (b"a".to_vec(), true, b"b=c".to_vec()));
    let (front, has, back) = py_partition(b"abc", b"=").unwrap();
    assert_eq!((front, has, back), (b"abc".to_vec(), false, Vec::new()));
    let e = py_partition(b"abc", b"").unwrap_err();
    assert!(e.is_value_error());
    assert_eq!(e.message(), "empty separator");
}

#[test]
fn cformat_delegates_to_the_formatter() {
    let f = |s: &str| -> Result<String, u8> { Ok(format!("[{}]", s)) };
    assert_eq!(py_cformat("x%s", &f).unwrap(), "[x%s]");
    let g = |_s: &str| -> Result<String, u8> { Err(3) };
    assert_eq!(py_cformat("x", &g).unwrap_err(), 3);
}

#[test]
fn starts_with_bytes_checks_prefix() {
    assert!(starts_with_bytes(b"cdef", b"cd"));
    assert!(!starts_with_bytes(b"cdef", b"ef"));
    assert!(starts_with_bytes(b"cdef", b""));
}
