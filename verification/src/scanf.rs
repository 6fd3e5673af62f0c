//! The incremental `scanf` engine: it decides how many bytes a scan needs
//! before the real conversion runs, so that input can be pulled from an
//! emulated stream one chunk at a time.
use vstd::prelude::*;

use crate::scanf_model::{
    spec_is_space, is_digit, is_octal, is_hex, is_x, digit_run, digits_value, CharClass, in_class,
    run_stop, first_non_space, ParamKind, ParamInfoView, ParamParse, Lead, parse_lead, parse_flags,
    parse_modifier, escaped_close, find_close, parse_set, parse_conversion, parse_tail, param_parse,
    min_len, set_lookup, set_walk, min_int, finish_run, class_directive, match_signed_decimal,
    match_float, match_signed_int, match_hex, directive_match, non_empty,
    ParamSuccessView, param_match, ScanStep, scan_pass, remainder_need, scan_result,
    truncation_report,
};

pub use crate::scanf_model::{MatchFailure, PointerType};

verus! {

broadcast use vstd::layout::layout_of_primitives;

/// Whether `c` is whitespace in the C locale.
pub fn is_space(c: u8) -> (r: bool)
    ensures
        r == spec_is_space(c),
{
    c == 32u8 || (9 <= c && c <= 13)
}

fn is_digit_exec(c: u8) -> (r: bool)
    ensures
        r == is_digit(c),
{
    48u8 <= c && c <= 57u8
}

fn in_class_exec(cl: CharClass, c: u8) -> (r: bool)
    ensures
        r == in_class(cl, c),
{
    match cl {
        CharClass::Digit => 48u8 <= c && c <= 57u8,
        CharClass::Octal => 48u8 <= c && c <= 55u8,
        CharClass::Hex => (48u8 <= c && c <= 57u8) || (97u8 <= c && c <= 102u8) || (65u8 <= c
            && c <= 70u8),
        CharClass::DigitOrDot => (48u8 <= c && c <= 57u8) || c == 46u8,
        CharClass::NonSpace => !is_space(c),
    }
}

/// Returns the index of the first non-whitespace byte of `input`, or `None` when
/// every byte is whitespace.
pub fn match_whitespace(input: &[u8]) -> (r: Option<usize>)
    ensures
        match r {
            Some(i) => i < input@.len() && !spec_is_space(input@[i as int]) && (forall|j: int|
                0 <= j < i ==> spec_is_space(#[trigger] input@[j])),
            None => forall|j: int| 0 <= j < input@.len() ==> spec_is_space(#[trigger] input@[j]),
        },
        r matches Some(i) ==> first_non_space(input@, 0) == Some(i as int),
        r is None ==> first_non_space(input@, 0) is None,
{
    let mut idx: usize = 0;
    while idx < input.len()
        invariant
            idx <= input@.len(),
            forall|j: int| 0 <= j < idx ==> spec_is_space(#[trigger] input@[j]),
            first_non_space(input@, 0) == first_non_space(input@, idx as int),
        decreases input@.len() - idx,
    {
        if !is_space(input[idx]) {
            return Some(idx);
        }
        idx += 1;
    }
    None
}

pub proof fn lemma_digit_run_digits(s: Seq<u8>, i: int)
    ensures
        forall|j: int| 0 <= j < digit_run(s, i) ==> is_digit(#[trigger] s[i + j]),
        digit_run(s, i) > 0 ==> 0 <= i && i + digit_run(s, i) <= s.len(),
    decreases s.len() - i,
{
    if 0 <= i < s.len() && is_digit(s[i]) {
        lemma_digit_run_digits(s, i + 1);
        assert forall|j: int| 0 <= j < digit_run(s, i) implies is_digit(#[trigger] s[i + j]) by {
            if j > 0 {
                assert(s[i + j] == s[(i + 1) + (j - 1)]);
            }
        }
    }
}

pub proof fn lemma_digits_value_mono(s: Seq<u8>, i: int, k: nat, n: nat)
    requires
        k <= n,
        forall|j: int| 0 <= j < n ==> is_digit(#[trigger] s[i + j]),
    ensures
        digits_value(s, i, k) <= digits_value(s, i, n),
    decreases n,
{
    if k < n {
        lemma_digits_value_mono(s, i, k, (n - 1) as nat);
        assert(is_digit(s[i + (n - 1)]));
    }
}

/// Reads the run of decimal digits that starts at `start`: its length and value.
fn read_number(s: &[u8], start: usize) -> (r: (usize, usize))
    requires
        start <= s@.len(),
        digits_value(s@, start as int, digit_run(s@, start as int)) <= usize::MAX,
    ensures
        r.0 == digit_run(s@, start as int),
        r.1 == digits_value(s@, start as int, r.0 as nat),
        start + r.0 <= s@.len(),
{
    let ghost n = digit_run(s@, start as int);
    proof {
        lemma_digit_run_digits(s@, start as int);
    }
    let mut idx = start;
    let mut v: usize = 0;
    while idx < s.len() && is_digit_exec(s[idx])
        invariant
            start <= idx <= s@.len(),
            n == digit_run(s@, start as int),
            digit_run(s@, start as int) == (idx - start) + digit_run(s@, idx as int),
            v == digits_value(s@, start as int, (idx - start) as nat),
            digits_value(s@, start as int, n) <= usize::MAX,
            forall|j: int| 0 <= j < n ==> is_digit(#[trigger] s@[start + j]),
        decreases s@.len() - idx,
    {
        proof {
            assert(digit_run(s@, idx as int) == 1 + digit_run(s@, idx as int + 1));
            lemma_digits_value_mono(s@, start as int, (idx + 1 - start) as nat, n);
            assert(s@[start + (idx - start)] == s@[idx as int]);
        }
        v = v * 10 + (s[idx] - 48u8) as usize;
        idx += 1;
    }
    (idx - start, v)
}


/// What a conversion specifier asks to match.
#[derive(Clone, Copy)]
pub enum ParamType<'a> {
    Percent,
    /// An optionally-signed decimal integer.
    SignedDecimal,
    /// An optionally-signed integer. Read in base-16 if starts with `0x`/`0X`, base 8 if starts with `0`, or base 10 otherwise.
    SignedInt,
    /// An unsigned octal integer.
    UnsignedOctInt,
    /// An unsigned decimal integer.
    UnsignedDecimalInt,
    /// An unsigned hexadecimal integer. Optionally begins with `0x` or `0X`.
    UnsignedHexInt,
    /// An optionally-signed floating-point number.
    Float,
    /// A non-empty sequence of non-whitespace characters.
    Sequence,
    /// A sequence of characters exactly equal to the `maximum field width`.
    CSequence,
    /// A non-empty sequence of characters from the specified set.
    Charset(&'a [u8]),
    /// A non-empty sequence of characters _not_ from the specified set.
    NotCharset(&'a [u8]),
    /// A pointer value (as printed by %p in printf).
    Pointer,
    /// The number of characters consumed thus far from the input.
    Consumed,
}

impl<'a> View for ParamType<'a> {
    type V = ParamKind;

    open spec fn view(&self) -> ParamKind {
        match *self {
            ParamType::Percent => ParamKind::Percent,
            ParamType::SignedDecimal => ParamKind::SignedDecimal,
            ParamType::SignedInt => ParamKind::SignedInt,
            ParamType::UnsignedOctInt => ParamKind::UnsignedOctInt,
            ParamType::UnsignedDecimalInt => ParamKind::UnsignedDecimalInt,
            ParamType::UnsignedHexInt => ParamKind::UnsignedHexInt,
            ParamType::Float => ParamKind::Float,
            ParamType::Sequence => ParamKind::Sequence,
            ParamType::CSequence => ParamKind::CSequence,
            ParamType::Charset(items) => ParamKind::Charset(items@),
            ParamType::NotCharset(items) => ParamKind::NotCharset(items@),
            ParamType::Pointer => ParamKind::Pointer,
            ParamType::Consumed => ParamKind::Consumed,
        }
    }
}

impl PointerType {
    /// The size in bytes of the integer type that the modifier selects.
    pub fn width(&self) -> (r: usize)
        ensures
            r as nat == match *self {
                PointerType::Short => vstd::layout::size_of::<libc::c_short>(),
                PointerType::Char => vstd::layout::size_of::<libc::c_char>(),
                PointerType::IntMax => vstd::layout::size_of::<libc::intmax_t>(),
                PointerType::Long => vstd::layout::size_of::<libc::c_long>(),
                PointerType::LongLong => vstd::layout::size_of::<libc::c_longlong>(),
                PointerType::Ptrdiff => vstd::layout::size_of::<libc::ptrdiff_t>(),
                PointerType::SizeType => vstd::layout::size_of::<libc::size_t>(),
            },
    {
        match self {
            PointerType::Short => core::mem::size_of::<libc::c_short>(),
            PointerType::Char => core::mem::size_of::<libc::c_char>(),
            PointerType::IntMax => core::mem::size_of::<libc::intmax_t>(),
            PointerType::Long => core::mem::size_of::<libc::c_long>(),
            PointerType::LongLong => core::mem::size_of::<libc::c_longlong>(),
            PointerType::Ptrdiff => core::mem::size_of::<libc::ptrdiff_t>(),
            PointerType::SizeType => core::mem::size_of::<libc::size_t>(),
        }
    }
}

/// A parsed conversion specification `%[n$][*]['][m][width][length]conversion`.
pub struct ParamInfo<'a> {
    pub ty: ParamType<'a>,
    pub ptr_ty: Option<PointerType>,
    pub max_field_width: Option<usize>,
    pub param_idx: Option<usize>,
    pub masked: bool,
    pub do_alloc: bool,
    pub consumed: usize,
    pub thousands_separators: bool,
}

impl<'a> View for ParamInfo<'a> {
    type V = ParamInfoView;

    open spec fn view(&self) -> ParamInfoView {
        ParamInfoView {
            ty: self.ty@,
            ptr_ty: self.ptr_ty,
            max_field_width: self.max_field_width,
            param_idx: self.param_idx,
            masked: self.masked,
            do_alloc: self.do_alloc,
            consumed: self.consumed,
            thousands_separators: self.thousands_separators,
        }
    }
}

impl<'a> ParamInfo<'a> {
    /// The least number of input bytes that this directive can match.
    pub fn min_length(&self) -> (r: usize)
        requires
            min_len(self@) is Some,
        ensures
            min_len(self@) == Some(r),
    {
        match &self.ty {
            ParamType::CSequence => match self.max_field_width {
                Some(w) => w,
                None => 1,
            },
            ParamType::Consumed => 0,
            _ => 1,
        }
    }
}

/// The outcome of matching one `%` directive against input.
pub struct ParamSuccess {
    pub input_consumed: usize,
    pub format_consumed: usize,
    pub assigned: bool,
}

impl View for ParamSuccess {
    type V = ParamSuccessView;

    open spec fn view(&self) -> ParamSuccessView {
        ParamSuccessView {
            input_consumed: self.input_consumed,
            format_consumed: self.format_consumed,
            assigned: self.assigned,
        }
    }
}

proof fn lemma_parse_flags_bound(f: Seq<u8>, i: int, masked: bool, seps: bool)
    requires
        0 <= i,
    ensures
        parse_flags(f, i, masked, seps) matches Some((j, m, t)) ==> i <= j,
    decreases f.len() - i,
{
    if 0 <= i < f.len() && (f[i] == 42 || f[i] == 39) {
        lemma_parse_flags_bound(f, i + 1, true, seps);
        lemma_parse_flags_bound(f, i + 1, masked, true);
    }
}

proof fn lemma_find_close_bound(f: Seq<u8>, i: int)
    ensures
        find_close(f, i) matches Some(p) ==> i <= p < f.len() && f[p] == 93,
    decreases f.len() - i,
{
    if !(i < 0 || i >= f.len()) {
        lemma_find_close_bound(f, i + 1);
    }
}

proof fn lemma_conversion_bound(f: Seq<u8>, j: int)
    requires
        0 <= j,
    ensures
        parse_conversion(f, j) matches Some((t, k)) ==> j < k <= f.len(),
{
    if 0 <= j < f.len() && f[j] == 91 {
        let g = j + 1;
        let neg = 0 <= g < f.len() && f[g] == 94;
        let start = if neg { g + 1 } else { g };
        let from = if 0 <= start < f.len() && f[start] == 93 { start + 1 } else { start };
        lemma_find_close_bound(f, from);
    }
}

proof fn lemma_tail_bound(
    f: Seq<u8>,
    i: int,
    width: Option<usize>,
    param_idx: Option<usize>,
    masked: bool,
    do_alloc: bool,
    seps: bool,
)
    requires
        0 <= i,
        f.len() <= usize::MAX,
    ensures
        parse_tail(f, i, width, param_idx, masked, do_alloc, seps) matches ParamParse::Parsed(info)
            ==> 1 <= info.consumed <= f.len(),
{
    let (ptr, j) = parse_modifier(f, i);
    lemma_conversion_bound(f, j);
}

/// A parsed specification consumes at least one byte (the conversion) and no more than
/// the text holds.
pub proof fn lemma_param_parse_bound(f: Seq<u8>)
    requires
        f.len() <= usize::MAX,
    ensures
        param_parse(f) matches ParamParse::Parsed(info) ==> 1 <= info.consumed <= f.len(),
{
    match parse_lead(f) {
        Lead::Flags(p, i) => {
            lemma_parse_flags_bound(f, i, false, false);
            match parse_flags(f, i, false, false) {
                Some((j, masked, seps)) => {
                    let do_alloc = 0 <= j < f.len() && f[j] == 109;
                    let k = if do_alloc { j + 1 } else { j };
                    let n = digit_run(f, k);
                    lemma_tail_bound(f, k, None, p, masked, do_alloc, seps);
                    if n > 0 && digits_value(f, k, n) <= usize::MAX {
                        lemma_tail_bound(f, k + n, Some(digits_value(f, k, n) as usize), p, masked, do_alloc, seps);
                    }
                },
                None => {},
            }
        },
        Lead::Width(w, i) => {
            lemma_tail_bound(f, i, Some(w), None, false, false, false);
        },
        _ => {},
    }
}

fn parse_modifier_exec(f: &[u8], i: usize) -> (r: (Option<PointerType>, usize))
    requires
        i <= f@.len(),
    ensures
        parse_modifier(f@, i as int) == (r.0, r.1 as int),
        i <= r.1 <= f@.len(),
{
    if i < f.len() {
        let c = f[i];
        if c == 104u8 {
            if i + 1 < f.len() && f[i + 1] == 104u8 {
                (Some(PointerType::Char), i + 2)
            } else {
                (Some(PointerType::Short), i + 1)
            }
        } else if c == 106u8 {
            (Some(PointerType::IntMax), i + 1)
        } else if c == 108u8 {
            if i + 1 < f.len() && f[i + 1] == 108u8 {
                (Some(PointerType::LongLong), i + 2)
            } else {
                (Some(PointerType::Long), i + 1)
            }
        } else if c == 76u8 || c == 113u8 {
            (Some(PointerType::LongLong), i + 1)
        } else if c == 116u8 {
            (Some(PointerType::Ptrdiff), i + 1)
        } else if c == 122u8 {
            (Some(PointerType::SizeType), i + 1)
        } else {
            (None, i)
        }
    } else {
        (None, i)
    }
}

fn parse_set_exec<'a>(f: &'a [u8], i: usize) -> (r: Option<(ParamType<'a>, usize)>)
    requires
        1 <= i <= f@.len(),
    ensures
        match r {
            Some((t, k)) => parse_set(f@, i as int) == Some((t@, k as int)) && k <= f@.len(),
            None => parse_set(f@, i as int) is None,
        },
{
    let mut idx = i;
    let mut negation = false;
    let mut start_idx = idx;
    if idx < f.len() && f[idx] == 94u8 {
        negation = true;
        start_idx += 1;
        idx += 1;
    }
    if idx < f.len() && f[idx] == 93u8 {
        idx += 1;
    }
    let ghost from = idx as int;
    while idx < f.len()
        invariant
            from <= idx <= f@.len(),
            1 <= start_idx <= from,
            start_idx == (if negation { i + 1 } else { i as int }),
            negation == (0 <= i < f@.len() && f@[i as int] == 94),
            from == (if 0 <= start_idx < f@.len() && f@[start_idx as int] == 93 {
                start_idx + 1
            } else {
                start_idx as int
            }),
            find_close(f@, from) == find_close(f@, idx as int),
        decreases f@.len() - idx,
    {
        let c = f[idx];
        if c == 93u8 {
            let escaped = f[idx - 1] == 92u8 && !(idx >= 2 && f[idx - 2] == 92u8);
            if !escaped {
                proof {
                    assert(find_close(f@, idx as int) == Some(idx as int));
                }
                if negation {
                    let items = &f[start_idx..idx];
                    return Some((ParamType::NotCharset(items), idx + 1));
                } else {
                    let items = &f[start_idx..idx];
                    return Some((ParamType::Charset(items), idx + 1));
                }
            }
        }
        idx += 1;
    }
    None
}

fn parse_conversion_exec<'a>(f: &'a [u8], i: usize) -> (r: Option<(ParamType<'a>, usize)>)
    requires
        i <= f@.len(),
    ensures
        match r {
            Some((t, k)) => parse_conversion(f@, i as int) == Some((t@, k as int)) && k <= f@.len(),
            None => parse_conversion(f@, i as int) is None,
        },
{
    if i >= f.len() {
        return None;
    }
    let c = f[i];
    if c == 37u8 {
        Some((ParamType::Percent, i + 1))
    } else if c == 100u8 {
        Some((ParamType::SignedDecimal, i + 1))
    } else if c == 105u8 {
        Some((ParamType::SignedInt, i + 1))
    } else if c == 111u8 {
        Some((ParamType::UnsignedOctInt, i + 1))
    } else if c == 117u8 {
        Some((ParamType::UnsignedDecimalInt, i + 1))
    } else if c == 120u8 || c == 88u8 {
        Some((ParamType::UnsignedHexInt, i + 1))
    } else if c == 102u8 || c == 101u8 || c == 103u8 || c == 69u8 || c == 97u8 {
        Some((ParamType::Float, i + 1))
    } else if c == 115u8 {
        Some((ParamType::Sequence, i + 1))
    } else if c == 99u8 {
        Some((ParamType::CSequence, i + 1))
    } else if c == 91u8 {
        parse_set_exec(f, i + 1)
    } else if c == 112u8 {
        Some((ParamType::Pointer, i + 1))
    } else if c == 110u8 {
        Some((ParamType::Consumed, i + 1))
    } else {
        None
    }
}

fn parse_tail_exec<'a>(
    f: &'a [u8],
    i: usize,
    width: Option<usize>,
    param_idx: Option<usize>,
    masked: bool,
    do_alloc: bool,
    seps: bool,
) -> (r: Option<ParamInfo<'a>>)
    requires
        i <= f@.len(),
    ensures
        match r {
            Some(info) => parse_tail(f@, i as int, width, param_idx, masked, do_alloc, seps)
                == ParamParse::Parsed(info@),
            None => parse_tail(f@, i as int, width, param_idx, masked, do_alloc, seps)
                is Invalid,
        },
{
    let (ptr_ty, j) = parse_modifier_exec(f, i);
    match parse_conversion_exec(f, j) {
        None => None,
        Some((ty, k)) => Some(
            ParamInfo {
                ty,
                ptr_ty,
                max_field_width: width,
                param_idx,
                masked,
                do_alloc,
                consumed: k,
                thousands_separators: seps,
            },
        ),
    }
}

/// Parses the conversion specification `format` that follows a `%`.
///
/// Returns `None` when the text is not a valid specification.
pub fn param_ty(format: &[u8]) -> (r: Option<ParamInfo<'_>>)
    requires
        !(param_parse(format@) is Overflow),
    ensures
        match r {
            Some(info) => param_parse(format@) == ParamParse::Parsed(info@),
            None => param_parse(format@) is Invalid,
        },
{
    proof {
        lemma_digit_run_digits(format@, 0);
    }
    let (n1, v1) = read_number(format, 0);
    let mut param_idx: Option<usize> = None;
    let mut idx: usize;
    if n1 == 0 {
        if format.len() > 0 && format[0] == 36u8 {
            return None;
        }
        idx = 0;
    } else if n1 < format.len() && format[n1] == 36u8 {
        param_idx = Some(v1);
        idx = n1 + 1;
    } else if n1 < format.len() {
        // The number was the maximum field width: no flags may follow.
        return parse_tail_exec(format, n1, Some(v1), None, false, false, false);
    } else {
        param_idx = Some(v1);
        idx = n1;
    }
    let ghost lead_idx = idx as int;
    assert(parse_lead(format@) == Lead::Flags(param_idx, lead_idx));
    let mut masked = false;
    let mut seps = false;
    while idx < format.len() && (format[idx] == 42u8 || format[idx] == 39u8)
        invariant
            lead_idx <= idx <= format@.len(),
            parse_flags(format@, lead_idx, false, false) == parse_flags(format@, idx as int, masked, seps),
            parse_lead(format@) == Lead::Flags(param_idx, lead_idx),
        decreases format@.len() - idx,
    {
        if format[idx] == 42u8 {
            if masked {
                assert(parse_flags(format@, idx as int, masked, seps) is None);
                return None;
            }
            masked = true;
        } else {
            if seps {
                assert(parse_flags(format@, idx as int, masked, seps) is None);
                return None;
            }
            seps = true;
        }
        idx += 1;
    }
    assert(parse_flags(format@, lead_idx, false, false) == Some((idx as int, masked, seps)));
    let mut do_alloc = false;
    if idx < format.len() && format[idx] == 109u8 {
        do_alloc = true;
        idx += 1;
    }
    proof {
        lemma_digit_run_digits(format@, idx as int);
    }
    let (n4, v4) = read_number(format, idx);
    if n4 == 0 {
        parse_tail_exec(format, idx, None, param_idx, masked, do_alloc, seps)
    } else {
        parse_tail_exec(format, idx + n4, Some(v4), param_idx, masked, do_alloc, seps)
    }
}


/// `Ok(n)` read as an integer index.
pub open spec fn res_view(r: Result<usize, Option<usize>>) -> Result<int, Option<usize>> {
    match r {
        Ok(n) => Ok(n as int),
        Err(e) => Err(e),
    }
}

proof fn lemma_run_stop_bound(s: Seq<u8>, i: int, end: int, cl: CharClass)
    requires
        i <= end,
    ensures
        i <= run_stop(s, i, end, cl) <= end,
        run_stop(s, i, end, cl) < end ==> !in_class(cl, s[run_stop(s, i, end, cl)]),
    decreases end - i,
{
    if i < end && in_class(cl, s[i]) {
        lemma_run_stop_bound(s, i + 1, end, cl);
    }
}

/// The first index in `[i, end)` whose byte is outside the class, or `end`.
fn run_stop_exec(s: &[u8], i: usize, end: usize, cl: CharClass) -> (r: usize)
    requires
        i <= end <= s@.len(),
    ensures
        r == run_stop(s@, i as int, end as int, cl),
        i <= r <= end,
{
    let mut idx = i;
    while idx < end
        invariant
            i <= idx <= end <= s@.len(),
            run_stop(s@, i as int, end as int, cl) == run_stop(s@, idx as int, end as int, cl),
        decreases end - idx,
    {
        if !in_class_exec(cl, s[idx]) {
            return idx;
        }
        idx += 1;
    }
    idx
}

fn min_usize(a: usize, b: usize) -> (r: usize)
    ensures
        r as int == min_int(a as int, b as int),
{
    if a < b {
        a
    } else {
        b
    }
}

fn class_directive_exec(s: &[u8], i: usize, mw: usize, cl: CharClass) -> (r: Result<usize, Option<usize>>)
    requires
        i <= min_int(s@.len() as int, mw as int),
    ensures
        res_view(r) == class_directive(s@, i as int, mw as int, cl),
{
    let end = min_usize(s.len(), mw);
    let stop = run_stop_exec(s, i, end, cl);
    if !(stop < end) && stop < mw {
        Err(Some(1))
    } else {
        Ok(stop)
    }
}

fn set_lookup_exec(items: &[u8], c: u8) -> (r: bool)
    requires
        set_lookup(items@, c, 0) is Some,
    ensures
        set_lookup(items@, c, 0) == Some(r),
{
    let mut i: usize = 0;
    while i < items.len()
        invariant
            i <= items@.len(),
            set_lookup(items@, c, 0) == set_lookup(items@, c, i as int),
            set_lookup(items@, c, 0) is Some,
        decreases items@.len() - i,
    {
        if items[i] == 45u8 && i + 1 < items.len() {
            assert(false);
        } else if c == items[i] {
            return true;
        }
        i += 1;
    }
    false
}

fn set_walk_exec(items: &[u8], s: &[u8], end: usize, stop_on: bool) -> (r: (usize, bool))
    requires
        end <= s@.len(),
        set_walk(items@, s@, 0, end as int, stop_on) is Some,
    ensures
        set_walk(items@, s@, 0, end as int, stop_on) == Some((r.0 as int, r.1)),
        r.0 <= end,
{
    let mut idx: usize = 0;
    while idx < end
        invariant
            idx <= end <= s@.len(),
            set_walk(items@, s@, 0, end as int, stop_on) == set_walk(items@, s@, idx as int, end as int, stop_on),
            set_walk(items@, s@, 0, end as int, stop_on) is Some,
        decreases end - idx,
    {
        let found = set_lookup_exec(items, s[idx]);
        if found == stop_on {
            return (idx, true);
        }
        idx += 1;
    }
    (idx, false)
}

fn match_signed_decimal_exec(s: &[u8], mw: usize) -> (r: Result<usize, Option<usize>>)
    requires
        mw >= 1,
    ensures
        res_view(r) == match_signed_decimal(s@, mw as int),
{
    let mut idx: usize = 0;
    if s.len() > 0 && s[0] == 45u8 {
        idx = 1;
        if mw == 1 {
            return Err(None);
        }
    }
    if !(idx < s.len() && is_digit_exec(s[idx])) {
        return Err(None);
    }
    class_directive_exec(s, idx + 1, mw, CharClass::Digit)
}

fn match_float_exec(s: &[u8], mw: usize) -> (r: Result<usize, Option<usize>>)
    requires
        mw >= 1,
    ensures
        res_view(r) == match_float(s@, mw as int),
{
    let mut idx: usize = 0;
    if s.len() > 0 && s[0] == 45u8 {
        idx = 1;
        if mw == 1 {
            return Err(None);
        }
    }
    if !(idx < s.len() && is_digit_exec(s[idx])) {
        return Err(None);
    }
    class_directive_exec(s, idx + 1, mw, CharClass::DigitOrDot)
}

fn match_signed_int_exec(s: &[u8], mw: usize) -> (r: Result<usize, Option<usize>>)
    requires
        mw >= 1,
    ensures
        res_view(r) == match_signed_int(s@, mw as int),
{
    if s.len() == 0 {
        return Err(Some(1));
    }
    let c0 = s[0];
    let x1 = s.len() > 1 && (s[1] == 120u8 || s[1] == 88u8);
    if c0 == 45u8 {
        if mw == 1 || (s.len() > 1 && !is_digit_exec(s[1])) {
            Err(None)
        } else {
            class_directive_exec(s, 1, mw, CharClass::Digit)
        }
    } else if c0 == 48u8 && mw == 1 {
        Ok(1)
    } else if c0 == 48u8 && x1 && mw == 2 {
        Err(None)
    } else if c0 == 48u8 && x1 {
        class_directive_exec(s, 2, mw, CharClass::Hex)
    } else if c0 == 48u8 {
        let end = min_usize(s.len(), mw);
        let stop = run_stop_exec(s, 1, end, CharClass::Octal);
        if stop < end && (s[stop] == 56u8 || s[stop] == 57u8) {
            Err(None)
        } else if !(stop < end) && stop < mw {
            Err(Some(1))
        } else {
            Ok(stop)
        }
    } else if 49u8 <= c0 && c0 <= 57u8 {
        class_directive_exec(s, 1, mw, CharClass::Digit)
    } else {
        Err(None)
    }
}

/// Fails a sequence directive whose run is empty (see `non_empty`).
fn non_empty_exec(r: Result<usize, Option<usize>>) -> (r2: Result<usize, Option<usize>>)
    ensures
        res_view(r2) == non_empty(res_view(r)),
{
    match r {
        Ok(0) => Err(None),
        other => other,
    }
}

proof fn lemma_class_directive_bound(s: Seq<u8>, i: int, mw: int, cl: CharClass)
    requires
        0 <= i <= min_int(s.len() as int, mw),
    ensures
        class_directive(s, i, mw, cl) matches Ok(n) ==> i <= n <= s.len(),
{
    lemma_run_stop_bound(s, i, min_int(s.len() as int, mw), cl);
}

proof fn lemma_signed_int_body_bound(s: Seq<u8>, mw: int)
    requires
        mw >= 1,
    ensures
        match_signed_int(s, mw) matches Ok(n) ==> 0 <= n <= s.len(),
{
    let end = min_int(s.len() as int, mw);
    if s.len() > 0 {
        lemma_class_directive_bound(s, 1, mw, CharClass::Digit);
        lemma_run_stop_bound(s, 1, end, CharClass::Octal);
        if s.len() > 1 && mw > 2 {
            lemma_class_directive_bound(s, 2, mw, CharClass::Hex);
        }
    }
}

fn match_hex_exec(s: &[u8], mw: usize) -> (r: Result<usize, Option<usize>>)
    requires
        mw >= 1,
    ensures
        res_view(r) == match_hex(s@, mw as int),
{
    let h0 = s.len() > 0 && in_class_exec(CharClass::Hex, s[0]);
    let ox = s.len() > 1 && s[0] == 48u8 && (s[1] == 120u8 || s[1] == 88u8);
    if h0 && mw == 1 {
        Ok(1)
    } else if ox && mw == 2 {
        Err(None)
    } else if ox {
        class_directive_exec(s, 2, mw, CharClass::Hex)
    } else if h0 {
        class_directive_exec(s, 1, mw, CharClass::Hex)
    } else {
        Err(None)
    }
}

/// Matches the directive whose text (after the `%`) begins `format` against `input`.
///
/// Returns `Err(None)` when the input (or the specification) cannot match, and
/// `Err(Some(n))` when at least `n` more input bytes are needed to decide.
pub fn match_param(format: &[u8], input: &[u8]) -> (r: Result<ParamSuccess, Option<usize>>)
    requires
        param_match(format@, input@) is Some,
    ensures
        match r {
            Ok(p) => param_match(format@, input@) == Some(Ok::<ParamSuccessView, Option<usize>>(p@)),
            Err(e) => param_match(format@, input@) == Some(Err::<ParamSuccessView, Option<usize>>(e)),
        },
{
    let param_info = match param_ty(format) {
        Some(info) => info,
        None => return Err(None),
    };
    let max_width = match param_info.max_field_width {
        Some(w) => w,
        None => usize::MAX,
    };
    if max_width == 0 {
        return Err(None);
    }
    let res: Result<usize, Option<usize>> = match param_info.ty {
        ParamType::Percent => if input.len() > 0 && input[0] == 37u8 {
            Ok(1)
        } else {
            Err(None)
        },
        ParamType::SignedDecimal => match_signed_decimal_exec(input, max_width),
        ParamType::SignedInt => match_signed_int_exec(input, max_width),
        ParamType::UnsignedOctInt => if !(input.len() > 0 && in_class_exec(CharClass::Octal, input[0])) {
            Err(None)
        } else {
            class_directive_exec(input, 1, max_width, CharClass::Octal)
        },
        ParamType::UnsignedDecimalInt => if input.len() == 0 {
            Err(Some(1))
        } else if !is_digit_exec(input[0]) {
            Err(None)
        } else {
            class_directive_exec(input, 1, max_width, CharClass::Digit)
        },
        ParamType::UnsignedHexInt => match_hex_exec(input, max_width),
        ParamType::Float => match_float_exec(input, max_width),
        ParamType::Sequence => non_empty_exec(class_directive_exec(input, 0, max_width, CharClass::NonSpace)),
        ParamType::CSequence => {
            let min = param_info.min_length();
            if input.len() < max_width {
                Err(Some(min - input.len()))
            } else {
                Ok(max_width)
            }
        },
        ParamType::Charset(items) => {
            let end = min_usize(input.len(), max_width);
            let (idx, stopped) = set_walk_exec(items, input, end, false);
            non_empty_exec(if !stopped && idx < max_width {
                Err(Some(1))
            } else {
                Ok(idx)
            })
        },
        ParamType::NotCharset(items) => {
            let end = min_usize(input.len(), max_width);
            let (idx, stopped) = set_walk_exec(items, input, end, true);
            non_empty_exec(if !stopped && idx < max_width {
                Err(Some(1))
            } else {
                Ok(idx)
            })
        },
        ParamType::Pointer => {
            assert(false);
            Err(None)
        },
        ParamType::Consumed => Ok(0),
    };
    assert(directive_match(param_info@, input@, max_width as int) == Some(res_view(res)));
    match res {
        Ok(n) => Ok(
            ParamSuccess {
                input_consumed: n,
                format_consumed: param_info.consumed,
                assigned: !(param_info.masked || matches!(param_info.ty, ParamType::Percent)),
            },
        ),
        Err(e) => Err(e),
    }
}


proof fn lemma_set_walk_bound(items: Seq<u8>, s: Seq<u8>, i: int, end: int, stop_on: bool)
    requires
        i <= end,
    ensures
        set_walk(items, s, i, end, stop_on) matches Some((k, b)) ==> i <= k <= end,
    decreases end - i,
{
    if i < end {
        lemma_set_walk_bound(items, s, i + 1, end, stop_on);
    }
}

proof fn lemma_directive_bound(info: ParamInfoView, s: Seq<u8>, mw: int)
    requires
        1 <= mw,
    ensures
        directive_match(info, s, mw) matches Some(Ok(n)) ==> 0 <= n <= s.len(),
{
    let len = s.len() as int;
    let end = min_int(len, mw);
    match info.ty {
        ParamKind::SignedDecimal => {
            let neg = s.len() > 0 && s[0] == 45;
            let i0: int = if neg { 1 } else { 0 };
            if i0 < s.len() && !(neg && mw == 1) {
                lemma_run_stop_bound(s, i0 + 1, end, CharClass::Digit);
            }
        },
        ParamKind::Float => {
            let neg = s.len() > 0 && s[0] == 45;
            let i0: int = if neg { 1 } else { 0 };
            if i0 < s.len() && !(neg && mw == 1) {
                lemma_class_directive_bound(s, i0 + 1, mw, CharClass::DigitOrDot);
            }
        },
        ParamKind::SignedInt => {
            lemma_signed_int_body_bound(s, mw);
        },
        ParamKind::UnsignedOctInt => {
            if len > 0 {
                lemma_class_directive_bound(s, 1, mw, CharClass::Octal);
            }
        },
        ParamKind::UnsignedDecimalInt => {
            if len > 0 {
                lemma_class_directive_bound(s, 1, mw, CharClass::Digit);
            }
        },
        ParamKind::UnsignedHexInt => {
            if len > 0 {
                lemma_class_directive_bound(s, 1, mw, CharClass::Hex);
            }
            if len > 1 && mw > 2 {
                lemma_class_directive_bound(s, 2, mw, CharClass::Hex);
            }
        },
        ParamKind::Sequence => {
            lemma_class_directive_bound(s, 0, mw, CharClass::NonSpace);
        },
        ParamKind::Charset(items) => {
            lemma_set_walk_bound(items, s, 0, end, false);
        },
        ParamKind::NotCharset(items) => {
            lemma_set_walk_bound(items, s, 0, end, true);
        },
        _ => {},
    }
}

/// A matched directive consumes no more input than there is, and at least one byte of
/// the specification.
pub proof fn lemma_param_match_bound(f: Seq<u8>, s: Seq<u8>)
    requires
        f.len() <= usize::MAX,
        s.len() <= usize::MAX,
    ensures
        param_match(f, s) matches Some(Ok(p)) ==> p.input_consumed <= s.len() && 1
            <= p.format_consumed <= f.len(),
{
    lemma_param_parse_bound(f);
    match param_parse(f) {
        ParamParse::Parsed(info) => {
            let mw: int = match info.max_field_width {
                Some(w) => w as int,
                None => usize::MAX as int,
            };
            if mw >= 1 {
                lemma_directive_bound(info, s, mw);
            }
        },
        _ => {},
    }
}

/// Returns the minimum number of bytes that the given scan operation would consume.
///
/// `Ok(n)` when the whole format matched the first `n` bytes of `input`;
/// `Err(Truncated { .. })` when more input is needed, with how far the scan got and a
/// lower bound on the bytes still needed; `Err(BadInput(k))` when the input cannot match.
pub fn scan_incremental(format: &[u8], input: &[u8]) -> (r: Result<usize, MatchFailure>)
    requires
        scan_result(format@, input@) is Some,
    ensures
        scan_result(format@, input@) == Some(r),
        match r {
            Ok(n) => n <= input@.len(),
            Err(MatchFailure::Truncated { matched, input_consumed, format_consumed, min_remainder }) =>
                input_consumed <= input@.len() && format_consumed < format@.len() && matched <= format_consumed,
            Err(MatchFailure::BadInput(k)) => k <= format@.len(),
        },
{
    let r = scan_pass_exec(format, input);
    let flen = format.len();
    let ilen = input.len();
    proof {
        lemma_scan_bounds(format@, input@);
    }
    r
}

fn scan_pass_exec(format: &[u8], input: &[u8]) -> (r: Result<usize, MatchFailure>)
    requires
        scan_result(format@, input@) is Some,
    ensures
        scan_result(format@, input@) == Some(r),
{
    let ghost f = format@;
    let ghost s = input@;
    let mut format_idx: usize = 0;
    let mut input_idx: usize = 0;
    let mut params_idx: usize = 0;
    let mut needed: usize = 1;
    let mut truncated = false;
    loop
        invariant_except_break
            needed == 1,
            !truncated,
        invariant
            format_idx <= f.len(),
            input_idx <= s.len(),
            params_idx <= format_idx,
            f == format@,
            s == input@,
            scan_result(f, s) is Some,
            scan_pass(f, s, 0, 0, 0) == scan_pass(f, s, format_idx as int, input_idx as int, params_idx),
        ensures
            format_idx <= f.len(),
            input_idx <= s.len(),
            scan_pass(f, s, 0, 0, 0) == (ScanStep::Stop {
                fi: format_idx as int,
                ii: input_idx as int,
                matched: params_idx,
                needed,
                truncated,
            }),
            truncated ==> format_idx < f.len(),
        decreases f.len() - format_idx,
    {
        if !(input_idx < input.len() && format_idx < format.len()) {
            break;
        }
        if is_space(format[format_idx]) {
            match match_whitespace(&input[input_idx..input.len()]) {
                Some(consumed) => {
                    proof {
                        lemma_first_non_space_shift(s, input_idx as int, consumed as int);
                    }
                    input_idx += consumed;
                    format_idx += 1;
                },
                None => {
                    proof {
                        lemma_first_non_space_none(s, input_idx as int);
                    }
                    truncated = true;
                    break;
                },
            }
        } else if format[format_idx] == 37u8 {
            if format_idx + 1 == format.len() {
                return Err(MatchFailure::BadInput(params_idx));
            }
            let fsub = &format[format_idx + 1..format.len()];
            let isub = &input[input_idx..input.len()];
            proof {
                lemma_param_match_bound(fsub@, isub@);
            }
            match match_param(fsub, isub) {
                Ok(success) => {
                    input_idx += success.input_consumed;
                    format_idx += 1 + success.format_consumed;
                    if success.assigned {
                        params_idx += 1;
                    }
                },
                Err(Some(needed_for_param)) => {
                    needed = needed_for_param;
                    truncated = true;
                    break;
                },
                Err(None) => {
                    return Err(MatchFailure::BadInput(params_idx));
                },
            }
        } else {
            if input[input_idx] != format[format_idx] {
                return Err(MatchFailure::BadInput(params_idx));
            }
            input_idx += 1;
            format_idx += 1;
        }
    }
    if format_idx < format.len() {
        truncated = true;
    }
    if !truncated {
        return Ok(input_idx);
    }
    // Estimate how many more bytes the rest of the format needs.

    let mut tmp_fmt_idx = format_idx;
    if format[tmp_fmt_idx] == 37u8 {
        tmp_fmt_idx += 1;
        if tmp_fmt_idx == format.len() {
            return Err(MatchFailure::BadInput(params_idx));
        }
        let param = match param_ty(&format[tmp_fmt_idx..format.len()]) {
            Some(p) => p,
            None => return Err(MatchFailure::BadInput(params_idx)),
        };
        proof {
            lemma_param_parse_bound(format@.subrange(tmp_fmt_idx as int, format@.len() as int));
        }
        tmp_fmt_idx += param.consumed;
    }
    let ghost t0 = tmp_fmt_idx as int;
    let ghost n0 = needed as int;
    while tmp_fmt_idx < format.len()
        invariant
            format_idx < f.len(),
            input_idx <= s.len(),
            f == format@,
            s == input@,
            t0 <= tmp_fmt_idx <= f.len(),
            remainder_need(f, t0, n0, params_idx) == remainder_need(f, tmp_fmt_idx as int, needed as int, params_idx),
            remainder_need(f, t0, n0, params_idx) != Err::<int, Option<usize>>(None),
            scan_result(f, s) == truncation_report(remainder_need(f, t0, n0, params_idx), params_idx, input_idx as int, format_idx as int),
        decreases f.len() - tmp_fmt_idx,
    {
        if format[tmp_fmt_idx] == 37u8 {
            tmp_fmt_idx += 1;
            if tmp_fmt_idx == format.len() {
                return Err(MatchFailure::BadInput(params_idx));
            }
            let param = match param_ty(&format[tmp_fmt_idx..format.len()]) {
                Some(p) => p,
                None => return Err(MatchFailure::BadInput(params_idx)),
            };
            proof {
                lemma_param_parse_bound(format@.subrange(tmp_fmt_idx as int, format@.len() as int));
            }
            tmp_fmt_idx += param.consumed;
            needed += param.min_length();
        } else if is_space(format[tmp_fmt_idx]) {
            tmp_fmt_idx += 1;
        } else {
            tmp_fmt_idx += 1;
            needed += 1;
        }
    }
    Err(
        MatchFailure::Truncated {
            matched: params_idx,
            input_consumed: input_idx,
            format_consumed: format_idx,
            min_remainder: needed,
        },
    )
}

proof fn lemma_first_non_space_shift(s: Seq<u8>, i: int, k: int)
    requires
        0 <= i <= s.len(),
        first_non_space(s.subrange(i, s.len() as int), 0) == Some(k),
    ensures
        first_non_space(s, i) == Some(i + k),
    decreases s.len() - i,
{
    let t = s.subrange(i, s.len() as int);
    if k > 0 {
        assert(t[0] == s[i]);
        lemma_first_non_space_offset(s, i, 0);
    } else {
        assert(t[0] == s[i]);
    }
    lemma_first_non_space_offset(s, i, 0);
}

/// Searching a suffix of `s` is searching `s` from the suffix's start.
proof fn lemma_first_non_space_offset(s: Seq<u8>, i: int, j: int)
    requires
        0 <= i <= s.len(),
        0 <= j,
    ensures
        first_non_space(s.subrange(i, s.len() as int), j) == match first_non_space(s, i + j) {
            Some(p) => Some(p - i),
            None => None::<int>,
        },
    decreases s.len() - i - j,
{
    let t = s.subrange(i, s.len() as int);
    if j < t.len() {
        assert(t[j] == s[i + j]);
        lemma_first_non_space_offset(s, i, j + 1);
    }
}

proof fn lemma_first_non_space_none(s: Seq<u8>, i: int)
    requires
        0 <= i <= s.len(),
        first_non_space(s.subrange(i, s.len() as int), 0) is None,
    ensures
        first_non_space(s, i) is None,
{
    lemma_first_non_space_offset(s, i, 0);
}


proof fn lemma_scan_pass_bounds(f: Seq<u8>, s: Seq<u8>, fi: int, ii: int, m: usize)
    requires
        0 <= fi <= f.len() <= usize::MAX,
        0 <= ii <= s.len() <= usize::MAX,
        m <= fi,
    ensures
        match scan_pass(f, s, fi, ii, m) {
            ScanStep::Stop { fi: fi2, ii: ii2, matched, needed, truncated } => fi <= fi2 <= f.len()
                && 0 <= ii2 <= s.len() && matched <= fi2 && (truncated ==> fi2 < f.len()),
            ScanStep::Bad(k) => k <= f.len(),
            ScanStep::Undefined => true,
        },
    decreases f.len() - fi,
{
    if ii < s.len() && fi < f.len() {
        if spec_is_space(f[fi]) {
            match first_non_space(s, ii) {
                Some(j) => {
                    lemma_first_non_space_range(s, ii);
                    lemma_scan_pass_bounds(f, s, fi + 1, j, m);
                },
                None => {},
            }
        } else if f[fi] == 37 {
            if fi + 1 < f.len() {
                let fs = f.subrange(fi + 1, f.len() as int);
                let ss = s.subrange(ii, s.len() as int);
                lemma_param_match_bound(fs, ss);
                match param_match(fs, ss) {
                    Some(Ok(p)) => {
                        if fi + 1 + p.format_consumed <= f.len() {
                            lemma_scan_pass_bounds(
                                f,
                                s,
                                fi + 1 + p.format_consumed,
                                ii + p.input_consumed,
                                if p.assigned {
                                    (m + 1) as usize
                                } else {
                                    m
                                },
                            );
                        }
                    },
                    _ => {},
                }
            }
        } else if s[ii] == f[fi] {
            lemma_scan_pass_bounds(f, s, fi + 1, ii + 1, m);
        }
    }
}

proof fn lemma_first_non_space_range(s: Seq<u8>, i: int)
    requires
        0 <= i,
    ensures
        first_non_space(s, i) matches Some(j) ==> i <= j < s.len(),
    decreases s.len() - i,
{
    if i < s.len() {
        lemma_first_non_space_range(s, i + 1);
    }
}

proof fn lemma_remainder_bad_bound(f: Seq<u8>, i: int, needed: int, m: usize)
    ensures
        remainder_need(f, i, needed, m) matches Err(Some(k)) ==> k == m,
    decreases f.len() - i,
{
    if 0 <= i < f.len() {
        if f[i] == 37 {
            if i + 1 < f.len() {
                match param_parse(f.subrange(i + 1, f.len() as int)) {
                    ParamParse::Parsed(info) => match min_len(info) {
                        Some(mm) => if !(needed + mm > usize::MAX || i + 1 + info.consumed > f.len()) {
                            lemma_remainder_bad_bound(f, i + 1 + info.consumed, needed + mm, m);
                        },
                        None => {},
                    },
                    _ => {},
                }
            }
        } else if spec_is_space(f[i]) {
            lemma_remainder_bad_bound(f, i + 1, needed, m);
        } else {
            lemma_remainder_bad_bound(f, i + 1, needed + 1, m);
        }
    }
}

/// What a scan reports stays within its inputs: a complete match consumes at most the
/// input there is; a truncated scan stopped inside the input, before the end of the
/// format, having assigned no more items than format bytes it read; and a failure
/// reports no more than the format's length.
pub proof fn lemma_scan_bounds(f: Seq<u8>, s: Seq<u8>)
    requires
        f.len() <= usize::MAX,
        s.len() <= usize::MAX,
    ensures
        match scan_result(f, s) {
            Some(Ok(n)) => n <= s.len(),
            Some(Err(MatchFailure::Truncated { matched, input_consumed, format_consumed, min_remainder })) =>
                input_consumed <= s.len() && format_consumed < f.len() && matched <= format_consumed,
            Some(Err(MatchFailure::BadInput(k))) => k <= f.len(),
            None => true,
        },
{
    lemma_scan_pass_bounds(f, s, 0, 0, 0);
    match scan_pass(f, s, 0, 0, 0) {
        ScanStep::Stop { fi, ii, matched, needed, truncated } => {
            if truncated || fi < f.len() {
                if f[fi] == 37 {
                    if fi + 1 < f.len() {
                        match param_parse(f.subrange(fi + 1, f.len() as int)) {
                            ParamParse::Parsed(info) => {
                                lemma_remainder_bad_bound(f, fi + 1 + info.consumed, needed as int, matched);
                            },
                            _ => {},
                        }
                    }
                } else {
                    lemma_remainder_bad_bound(f, fi, needed as int, matched);
                }
            }
        },
        _ => {},
    }
}

} // verus!
