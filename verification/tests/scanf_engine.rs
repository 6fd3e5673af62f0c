use fizzle::scanf::{
    is_space, match_param, match_whitespace, param_ty, scan_incremental, ParamType,
};
use fizzle::scanf_model::{MatchFailure, PointerType};

#[test]
fn c_locale_whitespace() {
    for c in [b' ', b'\t', b'\n', 0x0b, 0x0c, b'\r'] {
        assert!(is_space(c));
    }
    for c in [b'a', b'0', b'%', 0u8, 0x85, 0xa0] {
        assert!(!is_space(c));
    }
}

#[test]
fn whitespace_runs() {
    assert_eq!(match_whitespace(b"  x"), Some(2));
    assert_eq!(match_whitespace(b"abc"), Some(0));
    assert_eq!(match_whitespace(b" \t\n"), None);
    assert_eq!(match_whitespace(b""), None);
}

#[test]
fn conversion_specs() {
    let p = param_ty(b"d").unwrap();
    assert!(matches!(p.ty, ParamType::SignedDecimal));
    assert_eq!(p.consumed, 1);
    assert_eq!(p.max_field_width, None);
    assert!(!p.masked);

    let p = param_ty(b"5s rest").unwrap();
    assert!(matches!(p.ty, ParamType::Sequence));
    assert_eq!(p.max_field_width, Some(5));
    assert_eq!(p.param_idx, None);
    assert_eq!(p.consumed, 2);

    let p = param_ty(b"2$d").unwrap();
    assert_eq!(p.param_idx, Some(2));
    assert_eq!(p.consumed, 3);

    let p = param_ty(b"hhd").unwrap();
    assert_eq!(p.ptr_ty, Some(PointerType::Char));
    assert_eq!(p.consumed, 3);

    let p = param_ty(b"lld").unwrap();
    assert_eq!(p.ptr_ty, Some(PointerType::LongLong));

    let p = param_ty(b"ld").unwrap();
    assert_eq!(p.ptr_ty, Some(PointerType::Long));

    let p = param_ty(b"*d").unwrap();
    assert!(p.masked);
    assert_eq!(p.consumed, 2);

    let p = param_ty(b"ms").unwrap();
    assert!(p.do_alloc);

    let p = param_ty(b"[^x]").unwrap();
    match p.ty {
        ParamType::NotCharset(set) => assert_eq!(set, b"x"),
        _ => panic!("expected a negated set"),
    }
    assert_eq!(p.consumed, 4);

    // The closing bracket of a plain set ends it; every byte before it is a member.
    let p = param_ty(b"[abc]").unwrap();
    match p.ty {
        ParamType::Charset(set) => assert_eq!(set, b"abc"),
        _ => panic!("expected a set"),
    }
    assert_eq!(p.consumed, 5);

    assert!(param_ty(b"y").is_none());
    assert!(param_ty(b"$d").is_none());
    assert!(param_ty(b"**d").is_none());
    assert!(param_ty(b"").is_none());
}

#[test]
fn minimum_lengths() {
    assert_eq!(param_ty(b"d").unwrap().min_length(), 1);
    assert_eq!(param_ty(b"5c").unwrap().min_length(), 5);
    assert_eq!(param_ty(b"c").unwrap().min_length(), 1);
    assert_eq!(param_ty(b"n").unwrap().min_length(), 0);
    assert_eq!(param_ty(b"%").unwrap().min_length(), 1);
}

#[test]
fn modifier_widths() {
    assert_eq!(PointerType::Char.width(), 1);
    assert_eq!(PointerType::Short.width(), 2);
    assert_eq!(PointerType::LongLong.width(), 8);
    assert_eq!(PointerType::IntMax.width(), 8);
}

#[test]
fn single_parameters() {
    // A decimal number is its digits; the byte that ends it is left.
    let s = match_param(b"d", b"12 ").ok().unwrap();
    assert_eq!(s.input_consumed, 2);
    assert_eq!(s.format_consumed, 1);
    assert!(s.assigned);

    // Input that ends inside a number may go on: the minimum further input is asked for.
    assert_eq!(match_param(b"d", b"12").err(), Some(Some(1)));

    assert_eq!(match_param(b"d", b"x").err(), Some(None));

    // An unsigned number cannot begin with a non-digit; with no input yet it needs one.
    assert_eq!(match_param(b"u", b"x").err(), Some(None));
    assert_eq!(match_param(b"u", b"").err(), Some(Some(1)));
    assert_eq!(match_param(b"u", b"7;").ok().unwrap().input_consumed, 1);

    let s = match_param(b"%", b"%").ok().unwrap();
    assert_eq!(s.input_consumed, 1);
    assert!(!s.assigned);

    let s = match_param(b"*d", b"5,").ok().unwrap();
    assert_eq!(s.input_consumed, 1);
    assert_eq!(s.format_consumed, 2);
    assert!(!s.assigned);

    let s = match_param(b"2d", b"123").ok().unwrap();
    assert_eq!(s.input_consumed, 2);
    assert_eq!(s.format_consumed, 2);
}

#[test]
fn integers_of_any_base() {
    // The number is its digits; a `-` after it is not part of it.
    assert_eq!(match_param(b"i", b"12-").ok().unwrap().input_consumed, 2);
    assert_eq!(match_param(b"i", b"-12 ").ok().unwrap().input_consumed, 3);
    assert_eq!(match_param(b"i", b"0x1f;").ok().unwrap().input_consumed, 4);
    assert_eq!(match_param(b"i", b"017 ").ok().unwrap().input_consumed, 3);
    // Octal has no 8 or 9.
    assert_eq!(match_param(b"i", b"019").err(), Some(None));
    // A sign needs a digit after it, and room for one.
    assert_eq!(match_param(b"i", b"-x").err(), Some(None));
    assert_eq!(match_param(b"1i", b"-5").err(), Some(None));
    assert_eq!(match_param(b"i", b"-").err(), Some(Some(1)));
    assert_eq!(match_param(b"i", b"").err(), Some(Some(1)));
}

#[test]
fn octal_hex_and_float_runs() {
    assert_eq!(match_param(b"o", b"0178").ok().unwrap().input_consumed, 3);
    assert_eq!(match_param(b"o", b"9").err(), Some(None));
    assert_eq!(match_param(b"x", b"0x1fg").ok().unwrap().input_consumed, 4);
    assert_eq!(match_param(b"x", b"ff ").ok().unwrap().input_consumed, 2);
    assert_eq!(match_param(b"x", b"g").err(), Some(None));
    assert_eq!(match_param(b"f", b"-1.5e").ok().unwrap().input_consumed, 4);
    assert_eq!(match_param(b"f", b".5").err(), Some(None));
}

#[test]
fn sequences_are_not_empty() {
    assert_eq!(match_param(b"s", b"ab cd").ok().unwrap().input_consumed, 2);
    assert_eq!(match_param(b"s", b" ab").err(), Some(None));
    assert_eq!(match_param(b"s", b"").err(), Some(Some(1)));
    assert_eq!(match_param(b"[abc]", b"cab!").ok().unwrap().input_consumed, 3);
    assert_eq!(match_param(b"[abc]", b"xa").err(), Some(None));
    assert_eq!(match_param(b"[^abc]", b"xyb").ok().unwrap().input_consumed, 2);
    assert_eq!(match_param(b"[^abc]", b"a").err(), Some(None));
}

#[test]
fn whole_scans() {
    assert_eq!(scan_incremental(b"abc", b"abc"), Ok(3));
    assert_eq!(scan_incremental(b"abc", b"abd"), Err(MatchFailure::BadInput(0)));
    assert_eq!(scan_incremental(b"%d", b"12 "), Ok(2));
    assert_eq!(scan_incremental(b"%d %d", b"1 2 "), Ok(3));
    assert_eq!(
        scan_incremental(b"%d", b"12"),
        Err(MatchFailure::Truncated { matched: 0, input_consumed: 0, format_consumed: 0, min_remainder: 1 })
    );
    assert_eq!(
        scan_incremental(b"ab", b"a"),
        Err(MatchFailure::Truncated { matched: 0, input_consumed: 1, format_consumed: 1, min_remainder: 2 })
    );
    // A lone `%` at the end of the format fails with the number of items assigned so far.
    assert_eq!(scan_incremental(b"%d %", b"5 x"), Err(MatchFailure::BadInput(1)));
}
