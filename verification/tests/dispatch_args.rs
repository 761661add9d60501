use anystr::coerce::BigIntArg;
use anystr::dispatch::{AffixValue, single_or_tuple_any, py_startsendswith};
use anystr::args::StartsEndsWithArgs;
use anystr::strip::{starts_with_bytes, ends_with_bytes};

fn single(s: &[u8]) -> AffixValue<Vec<u8>> {
    AffixValue::Single(s.to_vec())
}

#[test]
fn tuple_any_matches_second_candidate() {
    let subject: &[u8] = b"cdef";
    let affix = AffixValue::Tuple(vec![single(b"ab"), single(b"cd")]);
    let pred = |p: &Vec<u8>| starts_with_bytes(subject, p.as_slice());
    let message = |name: &str| name.to_string();
    assert_eq!(single_or_tuple_any(&affix, &pred, &message).unwrap(), true);
}

#[test]
fn tuple_any_rejects_non_matching_tuple() {
    let subject: &[u8] = b"cdef";
    let affix = AffixValue::Tuple(vec![single(b"xy"), single(b"zz")]);
    let pred = |p: &Vec<u8>| starts_with_bytes(subject, p.as_slice());
    let message = |name: &str| name.to_string();
    assert_eq!(single_or_tuple_any(&affix, &pred, &message).unwrap(), false);
}

#[test]
fn tuple_any_recurses_into_nested_tuples() {
    let subject: &[u8] = b"cdef";
    let inner = AffixValue::Tuple(vec![single(b"zz"), single(b"cd")]);
    let affix = AffixValue::Tuple(vec![single(b"ab"), inner]);
    let pred = |p: &Vec<u8>| starts_with_bytes(subject, p.as_slice());
    let message = |name: &str| name.to_string();
    assert_eq!(single_or_tuple_any(&affix, &pred, &message).unwrap(), true);
}

#[test]
fn tuple_any_foreign_value_is_type_error() {
    let subject: &[u8] = b"cdef";
    let affix: AffixValue<Vec<u8>> = AffixValue::Other("int".to_string());
    let pred = |p: &Vec<u8>| starts_with_bytes(subject, p.as_slice());
    let message = |name: &str| format!("bad type {}", name);
    let e = single_or_tuple_any(&affix, &pred, &message).unwrap_err();
    assert!(e.is_type_error());
    assert_eq!(e.message(), "bad type int");
}

#[test]
fn startsendswith_formats_the_type_error() {
    let subject: &[u8] = b"cdef";
    let affix: AffixValue<Vec<u8>> = AffixValue::Tuple(vec![
        single(b"zz"),
        AffixValue::Other("int".to_string()),
    ]);
    let pred = |p: &Vec<u8>| starts_with_bytes(subject, p.as_slice());
    let e = py_startsendswith(&affix, "startswith", "str", &pred).unwrap_err();
    assert!(e.is_type_error());
    assert_eq!(
        e.message(),
        "startswith first arg must be str or a tuple of str, not int",
    );
}

#[test]
fn startsendswith_accepts_single_affix() {
    let subject: &[u8] = b"cdef";
    let affix = single(b"cd");
    let pred = |p: &Vec<u8>| starts_with_bytes(subject, p.as_slice());
    assert_eq!(py_startsendswith(&affix, "startswith", "str", &pred).unwrap(), true);
    let epred = |p: &Vec<u8>| ends_with_bytes(subject, p.as_slice());
    assert_eq!(py_startsendswith(&affix, "endswith", "str", &epred).unwrap(), false);
}

#[test]
fn startsendswith_args_without_bounds_take_whole_subject() {
    let subject: &[u8] = b"hello";
    let args = StartsEndsWithArgs { affix: single(b"he"), start: None, end: None };
    let (_affix, sub) = args.prepare(subject, 5).unwrap();
    assert_eq!(sub, b"hello");
}

#[test]
fn startsendswith_args_slice_the_subject() {
    let subject: &[u8] = b"hello";
    let args = StartsEndsWithArgs {
        affix: single(b"el"),
        start: Some(BigIntArg::Fits(1)),
        end: Some(BigIntArg::Fits(-1)),
    };
    let (_affix, sub) = args.prepare(subject, 5).unwrap();
    assert_eq!(sub, b"ell");
}

#[test]
fn startsendswith_args_abnormal_range_is_none() {
    let subject: &[u8] = b"hello";
    let args = StartsEndsWithArgs {
        affix: single(b"el"),
        start: Some(BigIntArg::Fits(9)),
        end: None,
    };
    assert!(args.prepare(subject, 5).is_none());
}

#[test]
fn startsendswith_args_get_value_reports_range() {
    let args = StartsEndsWithArgs {
        affix: single(b"x"),
        start: Some(BigIntArg::Fits(-2)),
        end: None,
    };
    let (_affix, range) = args.get_value(5);
    let range = range.unwrap();
    assert_eq!(range.start, 3);
    assert_eq!(range.end, 5);
    let args = StartsEndsWithArgs { affix: single(b"x"), start: None, end: None };
    let (_affix, range) = args.get_value(5);
    assert!(range.is_none());
}
