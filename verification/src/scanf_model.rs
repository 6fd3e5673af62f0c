//! The mathematical model of the incremental `scanf` engine: what a
//! conversion specification parses to, how one directive matches input, and
//! what a whole scan reports.
use vstd::prelude::*;

verus! {

/// Whitespace of the C locale: space, `\t`, `\n`, `\v`, `\f`, `\r`.
pub open spec fn spec_is_space(c: u8) -> bool {
    c == 32 || (9 <= c && c <= 13)
}

pub open spec fn is_digit(c: u8) -> bool {
    48 <= c && c <= 57
}

pub open spec fn is_octal(c: u8) -> bool {
    48 <= c && c <= 55
}

pub open spec fn is_hex(c: u8) -> bool {
    (48 <= c && c <= 57) || (97 <= c && c <= 102) || (65 <= c && c <= 70)
}

/// Length of the run of decimal digits of `s` that begins at `i`.
pub open spec fn digit_run(s: Seq<u8>, i: int) -> nat
    decreases s.len() - i,
{
    if 0 <= i < s.len() && is_digit(s[i]) {
        1 + digit_run(s, i + 1)
    } else {
        0
    }
}

/// Decimal value of the `n` digits `s[i..i + n]`.
pub open spec fn digits_value(s: Seq<u8>, i: int, n: nat) -> nat
    decreases n,
{
    if n == 0 {
        0
    } else {
        digits_value(s, i, (n - 1) as nat) * 10 + (s[i + n - 1] - 48) as nat
    }
}

/// The integer type that a length modifier (`hh`, `h`, `j`, `l`, `ll`, `L`, `q`, `t`, `z`)
/// selects for the converted value.
#[derive(Clone, Copy, Debug, PartialEq, Eq, Structural)]
pub enum PointerType {
    Short,
    Char,
    IntMax,
    Long,
    LongLong,
    Ptrdiff,
    SizeType,
}

/// What a conversion specifier asks to match, with the set of a `%[...]` directive.
pub enum ParamKind {
    Percent,
    SignedDecimal,
    SignedInt,
    UnsignedOctInt,
    UnsignedDecimalInt,
    UnsignedHexInt,
    Float,
    Sequence,
    CSequence,
    Charset(Seq<u8>),
    NotCharset(Seq<u8>),
    Pointer,
    Consumed,
}

/// A parsed conversion specification.
pub struct ParamInfoView {
    pub ty: ParamKind,
    pub ptr_ty: Option<PointerType>,
    pub max_field_width: Option<usize>,
    pub param_idx: Option<usize>,
    pub masked: bool,
    pub do_alloc: bool,
    pub consumed: usize,
    pub thousands_separators: bool,
}

/// The result of parsing the text that follows a `%`.
pub enum ParamParse {
    /// A number in the specification does not fit in `usize`.
    Overflow,
    /// The text is not a valid conversion specification.
    Invalid,
    Parsed(ParamInfoView),
}

/// The first step of a conversion specification: an optional `n$` position, or a
/// field width given right after the `%`.
pub enum Lead {
    Reject,
    Overflow,
    /// Continue with the flags at the given index, with the given position.
    Flags(Option<usize>, int),
    /// A field width was read; continue with the length modifier at the given index.
    Width(usize, int),
}

pub open spec fn parse_lead(f: Seq<u8>) -> Lead {
    let n = digit_run(f, 0);
    if n == 0 {
        if f.len() > 0 && f[0] == 36 {
            Lead::Reject
        } else {
            Lead::Flags(None, 0)
        }
    } else if digits_value(f, 0, n) > usize::MAX {
        Lead::Overflow
    } else if n < f.len() && f[n as int] == 36 {
        Lead::Flags(Some(digits_value(f, 0, n) as usize), (n + 1) as int)
    } else if n < f.len() {
        Lead::Width(digits_value(f, 0, n) as usize, n as int)
    } else {
        Lead::Flags(Some(digits_value(f, 0, n) as usize), n as int)
    }
}

/// The `*` and `'` flags, each at most once, in any order: `(index, masked, separators)`,
/// or `None` when one of them repeats.
pub open spec fn parse_flags(f: Seq<u8>, i: int, masked: bool, seps: bool) -> Option<(int, bool, bool)>
    decreases f.len() - i,
{
    if 0 <= i < f.len() && f[i] == 42 {
        if masked {
            None
        } else {
            parse_flags(f, i + 1, true, seps)
        }
    } else if 0 <= i < f.len() && f[i] == 39 {
        if seps {
            None
        } else {
            parse_flags(f, i + 1, masked, true)
        }
    } else {
        Some((i, masked, seps))
    }
}

/// The optional length modifier at `i`: the type it selects and the index after it.
pub open spec fn parse_modifier(f: Seq<u8>, i: int) -> (Option<PointerType>, int) {
    if 0 <= i < f.len() {
        let c = f[i];
        if c == 104 {
            if i + 1 < f.len() && f[i + 1] == 104 {
                (Some(PointerType::Char), i + 2)
            } else {
                (Some(PointerType::Short), i + 1)
            }
        } else if c == 106 {
            (Some(PointerType::IntMax), i + 1)
        } else if c == 108 {
            if i + 1 < f.len() && f[i + 1] == 108 {
                (Some(PointerType::LongLong), i + 2)
            } else {
                (Some(PointerType::Long), i + 1)
            }
        } else if c == 76 || c == 113 {
            (Some(PointerType::LongLong), i + 1)
        } else if c == 116 {
            (Some(PointerType::Ptrdiff), i + 1)
        } else if c == 122 {
            (Some(PointerType::SizeType), i + 1)
        } else {
            (None, i)
        }
    } else {
        (None, i)
    }
}

/// A `]` at `p` that a single backslash escapes.
pub open spec fn escaped_close(f: Seq<u8>, p: int) -> bool {
    &&& p >= 1
    &&& f[p - 1] == 92
    &&& !(p >= 2 && f[p - 2] == 92)
}

/// The first unescaped `]` at or after `i`.
pub open spec fn find_close(f: Seq<u8>, i: int) -> Option<int>
    decreases f.len() - i,
{
    if i < 0 || i >= f.len() {
        None
    } else if f[i] == 93 && !escaped_close(f, i) {
        Some(i)
    } else {
        find_close(f, i + 1)
    }
}

/// The set of a `%[` directive whose set starts at `i`: its kind and the index after the `]`.
pub open spec fn parse_set(f: Seq<u8>, i: int) -> Option<(ParamKind, int)> {
    let neg = 0 <= i < f.len() && f[i] == 94;
    let start = if neg { i + 1 } else { i };
    let from = if 0 <= start < f.len() && f[start] == 93 { start + 1 } else { start };
    match find_close(f, from) {
        None => None,
        Some(p) => if neg {
            Some((ParamKind::NotCharset(f.subrange(start, p)), p + 1))
        } else {
            Some((ParamKind::Charset(f.subrange(start, p)), p + 1))
        },
    }
}

/// The conversion specifier at `i`: its kind and the index after it.
pub open spec fn parse_conversion(f: Seq<u8>, i: int) -> Option<(ParamKind, int)> {
    if i < 0 || i >= f.len() {
        None
    } else {
        let c = f[i];
        if c == 37 {
            Some((ParamKind::Percent, i + 1))
        } else if c == 100 {
            Some((ParamKind::SignedDecimal, i + 1))
        } else if c == 105 {
            Some((ParamKind::SignedInt, i + 1))
        } else if c == 111 {
            Some((ParamKind::UnsignedOctInt, i + 1))
        } else if c == 117 {
            Some((ParamKind::UnsignedDecimalInt, i + 1))
        } else if c == 120 || c == 88 {
            Some((ParamKind::UnsignedHexInt, i + 1))
        } else if c == 102 || c == 101 || c == 103 || c == 69 || c == 97 {
            Some((ParamKind::Float, i + 1))
        } else if c == 115 {
            Some((ParamKind::Sequence, i + 1))
        } else if c == 99 {
            Some((ParamKind::CSequence, i + 1))
        } else if c == 91 {
            parse_set(f, i + 1)
        } else if c == 112 {
            Some((ParamKind::Pointer, i + 1))
        } else if c == 110 {
            Some((ParamKind::Consumed, i + 1))
        } else {
            None
        }
    }
}

/// Length modifier and conversion, after the width.
pub open spec fn parse_tail(
    f: Seq<u8>,
    i: int,
    width: Option<usize>,
    param_idx: Option<usize>,
    masked: bool,
    do_alloc: bool,
    seps: bool,
) -> ParamParse {
    let (ptr_ty, j) = parse_modifier(f, i);
    match parse_conversion(f, j) {
        None => ParamParse::Invalid,
        Some((ty, k)) => ParamParse::Parsed(
            ParamInfoView {
                ty,
                ptr_ty,
                max_field_width: width,
                param_idx,
                masked,
                do_alloc,
                consumed: k as usize,
                thousands_separators: seps,
            },
        ),
    }
}

/// Parses the text `f` that follows a `%`:
/// `[n$][*]['][m][width][length modifier]conversion`.
pub open spec fn param_parse(f: Seq<u8>) -> ParamParse {
    match parse_lead(f) {
        Lead::Reject => ParamParse::Invalid,
        Lead::Overflow => ParamParse::Overflow,
        Lead::Width(w, i) => parse_tail(f, i, Some(w), None, false, false, false),
        Lead::Flags(param_idx, i) => match parse_flags(f, i, false, false) {
            None => ParamParse::Invalid,
            Some((j, masked, seps)) => {
                let do_alloc = 0 <= j < f.len() && f[j] == 109;
                let k = if do_alloc { j + 1 } else { j };
                let n = digit_run(f, k);
                if n == 0 {
                    parse_tail(f, k, None, param_idx, masked, do_alloc, seps)
                } else if digits_value(f, k, n) > usize::MAX {
                    ParamParse::Overflow
                } else {
                    parse_tail(
                        f,
                        k + n,
                        Some(digits_value(f, k, n) as usize),
                        param_idx,
                        masked,
                        do_alloc,
                        seps,
                    )
                }
            },
        },
    }
}

/// The least number of input bytes a directive can match, where it is defined
/// (`None` for `%p`, whose matching is not implemented).
pub open spec fn min_len(info: ParamInfoView) -> Option<usize> {
    match info.ty {
        ParamKind::CSequence => Some(
            match info.max_field_width {
                Some(w) => w,
                None => 1,
            },
        ),
        ParamKind::Pointer => None,
        ParamKind::Consumed => Some(0),
        _ => Some(1),
    }
}

/// Character classes that a numeric or string directive accepts.
#[derive(Clone, Copy, Debug, PartialEq, Eq, Structural)]
pub enum CharClass {
    Digit,
    Octal,
    Hex,
    DigitOrDot,
    NonSpace,
}

pub open spec fn in_class(cl: CharClass, c: u8) -> bool {
    match cl {
        CharClass::Digit => is_digit(c),
        CharClass::Octal => is_octal(c),
        CharClass::Hex => is_hex(c),
        CharClass::DigitOrDot => is_digit(c) || c == 46,
        CharClass::NonSpace => !spec_is_space(c),
    }
}

/// The first index in `[i, end)` whose byte is outside the class, or `end`.
pub open spec fn run_stop(s: Seq<u8>, i: int, end: int, cl: CharClass) -> int
    decreases end - i,
{
    if i >= end {
        end
    } else if !in_class(cl, s[i]) {
        i
    } else {
        run_stop(s, i + 1, end, cl)
    }
}

/// Looks `c` up in the set `items` from index `i`: `Some(true)` when found, `Some(false)`
/// when not, and `None` when a `-` range is reached first (ranges are not implemented).
pub open spec fn set_lookup(items: Seq<u8>, c: u8, i: int) -> Option<bool>
    decreases items.len() - i,
{
    if i < 0 || i >= items.len() {
        Some(false)
    } else if items[i] == 45 && i + 1 < items.len() {
        None
    } else if c == items[i] {
        Some(true)
    } else {
        set_lookup(items, c, i + 1)
    }
}

/// Walks the input from `i` until a byte whose set membership is `stop_on`, or `end`:
/// the index reached and whether such a byte stopped the walk; `None` when a lookup is undefined.
pub open spec fn set_walk(items: Seq<u8>, s: Seq<u8>, i: int, end: int, stop_on: bool) -> Option<(int, bool)>
    decreases end - i,
{
    if i >= end {
        Some((i, false))
    } else {
        match set_lookup(items, s[i], 0) {
            None => None,
            Some(b) => if b == stop_on {
                Some((i, true))
            } else {
                set_walk(items, s, i + 1, end, stop_on)
            },
        }
    }
}

pub open spec fn min_int(a: int, b: int) -> int {
    if a < b {
        a
    } else {
        b
    }
}

/// A run that ended at `idx` without reaching a terminating byte is truncated when the
/// field width still allowed more bytes.
pub open spec fn finish_run(idx: int, success: bool, mw: int, min: usize) -> Result<int, Option<usize>> {
    if !success && idx < mw {
        Err(Some(min))
    } else {
        Ok(idx)
    }
}

/// Matches a run of a class starting at `i`, ending with the first byte outside it.
pub open spec fn class_directive(s: Seq<u8>, i: int, mw: int, cl: CharClass) -> Result<int, Option<usize>> {
    let end = min_int(s.len() as int, mw);
    let stop = run_stop(s, i, end, cl);
    finish_run(stop, stop < end, mw, 1)
}

pub open spec fn is_x(c: u8) -> bool {
    c == 120 || c == 88
}

/// `%d`: an optionally signed decimal integer, an optional `-` and then digits; the byte
/// that ends it is not part of it.
pub open spec fn match_signed_decimal(s: Seq<u8>, mw: int) -> Result<int, Option<usize>> {
    let neg = s.len() > 0 && s[0] == 45;
    let i0: int = if neg { 1 } else { 0 };
    if neg && mw == 1 {
        Err(None)
    } else if !(i0 < s.len() && is_digit(s[i0])) {
        Err(None)
    } else {
        class_directive(s, i0 + 1, mw, CharClass::Digit)
    }
}

/// `%f` and friends: an optional `-`, a digit, then digits and dots.
pub open spec fn match_float(s: Seq<u8>, mw: int) -> Result<int, Option<usize>> {
    let neg = s.len() > 0 && s[0] == 45;
    let i0: int = if neg { 1 } else { 0 };
    if neg && mw == 1 {
        Err(None)
    } else if !(i0 < s.len() && is_digit(s[i0])) {
        Err(None)
    } else {
        class_directive(s, i0 + 1, mw, CharClass::DigitOrDot)
    }
}

/// `%i`: an optionally signed integer, read as hexadecimal after `0x`, as octal after
/// `0`, and as decimal otherwise. A `-` must be followed by a digit (a width of 1 leaves
/// no room for one); the byte that ends the number is not part of it.
pub open spec fn match_signed_int(s: Seq<u8>, mw: int) -> Result<int, Option<usize>> {
    if s.len() == 0 {
        Err(Some(1))
    } else {
        let c0 = s[0];
        let x1 = s.len() > 1 && is_x(s[1]);
        if c0 == 45 {
            if mw == 1 || (s.len() > 1 && !is_digit(s[1])) {
                Err(None)
            } else {
                class_directive(s, 1, mw, CharClass::Digit)
            }
        } else if c0 == 48 && mw == 1 {
            Ok(1)
        } else if c0 == 48 && x1 && mw == 2 {
            Err(None)
        } else if c0 == 48 && x1 {
            class_directive(s, 2, mw, CharClass::Hex)
        } else if c0 == 48 {
            let end = min_int(s.len() as int, mw);
            let stop = run_stop(s, 1, end, CharClass::Octal);
            if stop < end && (s[stop] == 56 || s[stop] == 57) {
                Err(None)
            } else {
                finish_run(stop, stop < end, mw, 1)
            }
        } else if 49 <= c0 && c0 <= 57 {
            class_directive(s, 1, mw, CharClass::Digit)
        } else {
            Err(None)
        }
    }
}

/// A sequence directive whose run is empty fails: the sequence must not be empty.
pub open spec fn non_empty(r: Result<int, Option<usize>>) -> Result<int, Option<usize>> {
    if r == Ok::<int, Option<usize>>(0) {
        Err(None)
    } else {
        r
    }
}

/// `%x`: hexadecimal digits, optionally after `0x`.
pub open spec fn match_hex(s: Seq<u8>, mw: int) -> Result<int, Option<usize>> {
    let h0 = s.len() > 0 && is_hex(s[0]);
    let ox = s.len() > 1 && s[0] == 48 && is_x(s[1]);
    if h0 && mw == 1 {
        Ok(1)
    } else if ox && mw == 2 {
        Err(None)
    } else if ox {
        class_directive(s, 2, mw, CharClass::Hex)
    } else if h0 {
        class_directive(s, 1, mw, CharClass::Hex)
    } else {
        Err(None)
    }
}

/// Matches one directive of the given kind and width limit against the input `s`:
/// `Some(Ok(n))` when it matches `n` bytes, `Some(Err(None))` when the input cannot
/// match, `Some(Err(Some(k)))` when at least `k` more bytes are needed, and `None` where
/// the matching is not defined (`%p`, set ranges, and `%c` without a width on more than
/// one byte of input).
pub open spec fn directive_match(info: ParamInfoView, s: Seq<u8>, mw: int) -> Option<Result<int, Option<usize>>> {
    let len = s.len() as int;
    match info.ty {
        ParamKind::Percent => Some(
            if len > 0 && s[0] == 37 {
                Ok(1)
            } else {
                Err(None)
            },
        ),
        ParamKind::SignedDecimal => Some(match_signed_decimal(s, mw)),
        ParamKind::SignedInt => Some(match_signed_int(s, mw)),
        ParamKind::UnsignedOctInt => Some(
            if !(len > 0 && is_octal(s[0])) {
                Err(None)
            } else {
                class_directive(s, 1, mw, CharClass::Octal)
            },
        ),
        ParamKind::UnsignedDecimalInt => Some(
            if len == 0 {
                Err(Some(1))
            } else if !is_digit(s[0]) {
                Err(None)
            } else {
                class_directive(s, 1, mw, CharClass::Digit)
            },
        ),
        ParamKind::UnsignedHexInt => Some(match_hex(s, mw)),
        ParamKind::Float => Some(match_float(s, mw)),
        ParamKind::Sequence => Some(non_empty(class_directive(s, 0, mw, CharClass::NonSpace))),
        ParamKind::CSequence => {
            let min: int = match info.max_field_width {
                Some(w) => w as int,
                None => 1,
            };
            if len < mw {
                if min >= len {
                    Some(Err(Some((min - len) as usize)))
                } else {
                    None
                }
            } else {
                Some(Ok(mw))
            }
        },
        ParamKind::Charset(items) => match set_walk(items, s, 0, min_int(len, mw), false) {
            None => None,
            Some((idx, stopped)) => Some(non_empty(finish_run(idx, stopped, mw, 1))),
        },
        ParamKind::NotCharset(items) => match set_walk(items, s, 0, min_int(len, mw), true) {
            None => None,
            Some((idx, stopped)) => Some(non_empty(finish_run(idx, stopped, mw, 1))),
        },
        ParamKind::Pointer => None,
        ParamKind::Consumed => Some(Ok(0)),
    }
}

/// The outcome of matching one `%` directive.
pub struct ParamSuccessView {
    pub input_consumed: usize,
    pub format_consumed: usize,
    pub assigned: bool,
}

/// Matches the directive whose text (after the `%`) begins `f` against the input `s`.
/// `None` where the matching is not defined (see `directive_match`) or a number in the
/// specification overflows `usize`.
pub open spec fn param_match(f: Seq<u8>, s: Seq<u8>) -> Option<Result<ParamSuccessView, Option<usize>>> {
    match param_parse(f) {
        ParamParse::Overflow => None,
        ParamParse::Invalid => Some(Err(None)),
        ParamParse::Parsed(info) => {
            let mw: int = match info.max_field_width {
                Some(w) => w as int,
                None => usize::MAX as int,
            };
            if mw == 0 {
                Some(Err(None))
            } else {
                match directive_match(info, s, mw) {
                    None => None,
                    Some(Ok(n)) => Some(
                        Ok(
                            ParamSuccessView {
                                input_consumed: n as usize,
                                format_consumed: info.consumed,
                                assigned: !(info.masked || info.ty is Percent),
                            },
                        ),
                    ),
                    Some(Err(e)) => Some(Err(e)),
                }
            }
        },
    }
}

/// The first byte of `s` at or after `i` that is not whitespace.
pub open spec fn first_non_space(s: Seq<u8>, i: int) -> Option<int>
    decreases s.len() - i,
{
    if i < 0 || i >= s.len() {
        None
    } else if !spec_is_space(s[i]) {
        Some(i)
    } else {
        first_non_space(s, i + 1)
    }
}

/// How the directive-by-directive pass over the format ended.
pub enum ScanStep {
    /// Undefined matching was reached.
    Undefined,
    /// A directive failed to match, with the number reported.
    Bad(usize),
    /// The pass stopped at format index `fi` and input index `ii` with `matched`
    /// assignments; `needed` and `truncated` describe why it stopped.
    Stop { fi: int, ii: int, matched: usize, needed: usize, truncated: bool },
}

/// The pass over the format from format index `fi` and input index `ii`.
pub open spec fn scan_pass(f: Seq<u8>, s: Seq<u8>, fi: int, ii: int, matched: usize) -> ScanStep
    decreases f.len() - fi,
{
    if !(ii < s.len() && fi < f.len()) || fi < 0 || ii < 0 {
        ScanStep::Stop { fi, ii, matched, needed: 1, truncated: false }
    } else if spec_is_space(f[fi]) {
        match first_non_space(s, ii) {
            Some(j) => scan_pass(f, s, fi + 1, j, matched),
            None => ScanStep::Stop { fi, ii, matched, needed: 1, truncated: true },
        }
    } else if f[fi] == 37 {
        if fi + 1 == f.len() {
            ScanStep::Bad(matched)
        } else {
            match param_match(f.subrange(fi + 1, f.len() as int), s.subrange(ii, s.len() as int)) {
                None => ScanStep::Undefined,
                Some(Ok(p)) => if fi + 1 + p.format_consumed > f.len() {
                    ScanStep::Undefined
                } else {
                    scan_pass(
                        f,
                        s,
                        fi + 1 + p.format_consumed,
                        ii + p.input_consumed,
                        if p.assigned {
                            (matched + 1) as usize
                        } else {
                            matched
                        },
                    )
                },
                Some(Err(Some(n))) => ScanStep::Stop { fi, ii, matched, needed: n, truncated: true },
                Some(Err(None)) => ScanStep::Bad(matched),
            }
        }
    } else if s[ii] != f[fi] {
        ScanStep::Bad(matched)
    } else {
        scan_pass(f, s, fi + 1, ii + 1, matched)
    }
}

/// Sums the least input the rest of the format needs, from format index `i`:
/// `Ok(total)`, `Err(Some(k))` when a directive there is invalid (reported as `k`),
/// `Err(None)` where the estimate is undefined or overflows `usize`.
pub open spec fn remainder_need(f: Seq<u8>, i: int, needed: int, matched: usize) -> Result<int, Option<usize>>
    decreases f.len() - i,
{
    if i < 0 || i >= f.len() {
        Ok(needed)
    } else if f[i] == 37 {
        if i + 1 == f.len() {
            Err(Some(matched))
        } else {
            match param_parse(f.subrange(i + 1, f.len() as int)) {
                ParamParse::Overflow => Err(None),
                ParamParse::Invalid => Err(Some(matched)),
                ParamParse::Parsed(info) => match min_len(info) {
                    None => Err(None),
                    Some(m) => if needed + m > usize::MAX || i + 1 + info.consumed > f.len() {
                        Err(None)
                    } else {
                        remainder_need(f, i + 1 + info.consumed, needed + m, matched)
                    },
                },
            }
        }
    } else if spec_is_space(f[i]) {
        remainder_need(f, i + 1, needed, matched)
    } else if needed + 1 > usize::MAX {
        Err(None)
    } else {
        remainder_need(f, i + 1, needed + 1, matched)
    }
}

/// Why an incremental scan could not complete.
#[derive(Clone, Copy, Debug, PartialEq, Eq, Structural)]
pub enum MatchFailure {
    Truncated {
        /// The number of parameters successfully matched.
        matched: usize,
        /// The number of bytes of input consumed by the scan operation.
        input_consumed: usize,
        /// The number of bytes of the formatter consumed by the scan operation.
        format_consumed: usize,
        /// The minimum number of additional characters that would be needed for a successful match.
        min_remainder: usize,
    },
    /// An invalid character was reached for the given formatter.
    ///
    /// The value returned indicates the number of items successfully matched and assigned.
    BadInput(usize),
}

/// What a scan of input `s` against format `f` reports; `None` where undefined.
pub open spec fn scan_result(f: Seq<u8>, s: Seq<u8>) -> Option<Result<usize, MatchFailure>> {
    match scan_pass(f, s, 0, 0, 0) {
        ScanStep::Undefined => None,
        ScanStep::Bad(k) => Some(Err(MatchFailure::BadInput(k))),
        ScanStep::Stop { fi, ii, matched, needed, truncated } => {
            if !truncated && fi >= f.len() {
                Some(Ok(ii as usize))
            } else {
                let start: Result<int, Option<usize>> = if f[fi] == 37 {
                    if fi + 1 == f.len() {
                        Err(Some(matched))
                    } else {
                        match param_parse(f.subrange(fi + 1, f.len() as int)) {
                            ParamParse::Overflow => Err(None),
                            ParamParse::Invalid => Err(Some(matched)),
                            ParamParse::Parsed(info) => Ok(fi + 1 + info.consumed),
                        }
                    }
                } else {
                    Ok(fi)
                };
                match start {
                    Err(None) => None,
                    Err(Some(k)) => Some(Err(MatchFailure::BadInput(k))),
                    Ok(t) => truncation_report(remainder_need(f, t, needed as int, matched), matched, ii, fi),
                }
            }
        },
    }
}

/// The report of a truncated scan, from the estimate of the input still needed.
pub open spec fn truncation_report(
    need: Result<int, Option<usize>>,
    matched: usize,
    ii: int,
    fi: int,
) -> Option<Result<usize, MatchFailure>> {
    match need {
        Err(None) => None,
        Err(Some(k)) => Some(Err(MatchFailure::BadInput(k))),
        Ok(total) => Some(
            Err(
                MatchFailure::Truncated {
                    matched,
                    input_consumed: ii as usize,
                    format_consumed: fi as usize,
                    min_remainder: total as usize,
                },
            ),
        ),
    }
}

/// Every byte of `s[from..to]` is in the class.
pub open spec fn all_in(s: Seq<u8>, from: int, to: int, cl: CharClass) -> bool {
    forall|i: int| from <= i < to ==> #[trigger] in_class(cl, s[i])
}

/// A match of `n` bytes ends at the width `mw`, or before a byte outside the class.
pub open spec fn run_ends(s: Seq<u8>, n: int, mw: int, cl: CharClass) -> bool {
    n == mw || (n < s.len() && !in_class(cl, s[n]))
}

proof fn lemma_run_stop_props(s: Seq<u8>, i: int, end: int, cl: CharClass)
    requires
        0 <= i <= end <= s.len(),
    ensures
        i <= run_stop(s, i, end, cl) <= end,
        all_in(s, i, run_stop(s, i, end, cl), cl),
        run_stop(s, i, end, cl) < end ==> !in_class(cl, s[run_stop(s, i, end, cl)]),
    decreases end - i,
{
    if i < end && in_class(cl, s[i]) {
        lemma_run_stop_props(s, i + 1, end, cl);
    }
}

/// What a class run that matched `n` bytes is: from `i` on, every byte is in the class,
/// and the run ends at the width or before a byte outside it.
proof fn lemma_class_directive_props(s: Seq<u8>, i: int, mw: int, cl: CharClass, n: int)
    requires
        mw >= 1,
        0 <= i <= min_int(s.len() as int, mw),
        class_directive(s, i, mw, cl) == Ok::<int, Option<usize>>(n),
    ensures
        i <= n <= s.len(),
        n <= mw,
        all_in(s, i, n, cl),
        run_ends(s, n, mw, cl),
{
    lemma_run_stop_props(s, i, min_int(s.len() as int, mw), cl);
}

/// `%d` matches an optionally signed decimal integer: an optional `-`, then at least one
/// digit and only digits, ending at the width or before a byte that is no digit.
pub proof fn lemma_decimal_match_is_an_integer(s: Seq<u8>, mw: int, n: int)
    requires
        mw >= 1,
        match_signed_decimal(s, mw) == Ok::<int, Option<usize>>(n),
    ensures
        s.len() > 0,
        ({
            let i0: int = if s[0] == 45 { 1 } else { 0 };
            &&& i0 < n <= s.len()
            &&& n <= mw
            &&& all_in(s, i0, n, CharClass::Digit)
            &&& run_ends(s, n, mw, CharClass::Digit)
        }),
{
    let i0: int = if s[0] == 45 { 1 } else { 0 };
    lemma_class_directive_props(s, i0 + 1, mw, CharClass::Digit, n);
}

/// `%u` matches an unsigned decimal integer: at least one digit and only digits, ending
/// at the width or before a byte that is no digit.
pub proof fn lemma_unsigned_match_is_an_integer(info: ParamInfoView, s: Seq<u8>, mw: int, n: int)
    requires
        mw >= 1,
        info.ty is UnsignedDecimalInt,
        directive_match(info, s, mw) == Some(Ok::<int, Option<usize>>(n)),
    ensures
        0 < n <= s.len(),
        n <= mw,
        all_in(s, 0, n, CharClass::Digit),
        run_ends(s, n, mw, CharClass::Digit),
{
    lemma_class_directive_props(s, 1, mw, CharClass::Digit, n);
}

/// `%i` matches an optionally signed integer: a `-` and decimal digits, `0x` or `0X` and
/// hexadecimal digits, `0` and octal digits, or decimal digits that begin with 1 to 9;
/// each ending at the width or before a byte that cannot continue it.
pub proof fn lemma_int_match_is_an_integer(s: Seq<u8>, mw: int, n: int)
    requires
        mw >= 1,
        match_signed_int(s, mw) == Ok::<int, Option<usize>>(n),
    ensures
        0 < n <= s.len(),
        n <= mw,
        ({
            ||| s[0] == 45 && n >= 2 && all_in(s, 1, n, CharClass::Digit) && run_ends(s, n, mw, CharClass::Digit)
            ||| n >= 2 && s[0] == 48 && is_x(s[1]) && all_in(s, 2, n, CharClass::Hex) && run_ends(
                s,
                n,
                mw,
                CharClass::Hex,
            )
            ||| s[0] == 48 && all_in(s, 1, n, CharClass::Octal) && run_ends(s, n, mw, CharClass::Octal)
            ||| 49 <= s[0] <= 57 && all_in(s, 0, n, CharClass::Digit) && run_ends(s, n, mw, CharClass::Digit)
        }),
{
    let c0 = s[0];
    let x1 = s.len() > 1 && is_x(s[1]);
    if c0 == 45 {
        lemma_class_directive_props(s, 1, mw, CharClass::Digit, n);
    } else if c0 == 48 && mw == 1 {
    } else if c0 == 48 && x1 {
        lemma_class_directive_props(s, 2, mw, CharClass::Hex, n);
    } else if c0 == 48 {
        lemma_run_stop_props(s, 1, min_int(s.len() as int, mw), CharClass::Octal);
    } else {
        lemma_class_directive_props(s, 1, mw, CharClass::Digit, n);
    }
}

/// `%o` matches an unsigned octal integer: at least one octal digit and only octal
/// digits, ending at the width or before a byte that is no octal digit.
pub proof fn lemma_octal_match_is_an_integer(info: ParamInfoView, s: Seq<u8>, mw: int, n: int)
    requires
        mw >= 1,
        info.ty is UnsignedOctInt,
        directive_match(info, s, mw) == Some(Ok::<int, Option<usize>>(n)),
    ensures
        0 < n <= s.len(),
        n <= mw,
        all_in(s, 0, n, CharClass::Octal),
        run_ends(s, n, mw, CharClass::Octal),
{
    lemma_class_directive_props(s, 1, mw, CharClass::Octal, n);
}

/// `%x` matches hexadecimal digits, optionally after `0x` or `0X`, ending at the width or
/// before a byte that is no hexadecimal digit.
pub proof fn lemma_hex_match_is_an_integer(s: Seq<u8>, mw: int, n: int)
    requires
        mw >= 1,
        match_hex(s, mw) == Ok::<int, Option<usize>>(n),
    ensures
        0 < n <= s.len(),
        n <= mw,
        all_in(s, 0, n, CharClass::Hex) || (n >= 2 && s[0] == 48 && is_x(s[1]) && all_in(s, 2, n, CharClass::Hex)),
        run_ends(s, n, mw, CharClass::Hex),
{
    let h0 = s.len() > 0 && is_hex(s[0]);
    let ox = s.len() > 1 && s[0] == 48 && is_x(s[1]);
    if h0 && mw == 1 {
    } else if ox {
        lemma_class_directive_props(s, 2, mw, CharClass::Hex, n);
    } else {
        lemma_class_directive_props(s, 1, mw, CharClass::Hex, n);
    }
}

/// `%f` matches an optionally signed number of digits and dots: an optional `-`, then a
/// digit, then digits and dots, ending at the width or before any other byte.
pub proof fn lemma_float_match_is_a_number(s: Seq<u8>, mw: int, n: int)
    requires
        mw >= 1,
        match_float(s, mw) == Ok::<int, Option<usize>>(n),
    ensures
        s.len() > 0,
        ({
            let i0: int = if s[0] == 45 { 1 } else { 0 };
            &&& i0 < n <= s.len()
            &&& n <= mw
            &&& is_digit(s[i0])
            &&& all_in(s, i0, n, CharClass::DigitOrDot)
            &&& run_ends(s, n, mw, CharClass::DigitOrDot)
        }),
{
    let i0: int = if s[0] == 45 { 1 } else { 0 };
    lemma_class_directive_props(s, i0 + 1, mw, CharClass::DigitOrDot, n);
}

/// `%s` matches a non-empty sequence of bytes that are not whitespace, ending at the
/// width or before whitespace.
pub proof fn lemma_sequence_match_is_non_empty(info: ParamInfoView, s: Seq<u8>, mw: int, n: int)
    requires
        mw >= 1,
        info.ty is Sequence,
        directive_match(info, s, mw) == Some(Ok::<int, Option<usize>>(n)),
    ensures
        0 < n <= s.len(),
        n <= mw,
        all_in(s, 0, n, CharClass::NonSpace),
        run_ends(s, n, mw, CharClass::NonSpace),
{
    lemma_class_directive_props(s, 0, mw, CharClass::NonSpace, n);
}

proof fn lemma_set_lookup_member(items: Seq<u8>, c: u8, i: int)
    requires
        0 <= i <= items.len(),
        set_lookup(items, c, i) is Some,
    ensures
        set_lookup(items, c, i) == Some(items.subrange(i, items.len() as int).contains(c)),
    decreases items.len() - i,
{
    let whole = items.subrange(i, items.len() as int);
    if i < items.len() {
        if c == items[i] {
            assert(whole[0] == c);
        } else {
            lemma_set_lookup_member(items, c, i + 1);
            let rest = items.subrange(i + 1, items.len() as int);
            if rest.contains(c) {
                let j = choose|j: int| 0 <= j < rest.len() && rest[j] == c;
                assert(whole[j + 1] == c);
            }
            if whole.contains(c) {
                let j = choose|j: int| 0 <= j < whole.len() && whole[j] == c;
                assert(j != 0);
                assert(rest[j - 1] == c);
            }
        }
    } else {
        assert(whole.len() == 0);
    }
}

proof fn lemma_set_walk_props(items: Seq<u8>, s: Seq<u8>, i: int, end: int, stop_on: bool)
    requires
        0 <= i <= end <= s.len(),
        set_walk(items, s, i, end, stop_on) is Some,
    ensures
        ({
            let (k, stopped) = set_walk(items, s, i, end, stop_on)->Some_0;
            &&& i <= k <= end
            &&& forall|j: int| i <= j < k ==> items.contains(#[trigger] s[j]) != stop_on
            &&& stopped ==> k < end && items.contains(s[k]) == stop_on
            &&& !stopped ==> k == end
        }),
    decreases end - i,
{
    if i < end {
        lemma_set_lookup_member(items, s[i], 0);
        assert(items.subrange(0, items.len() as int) =~= items);
        if set_lookup(items, s[i], 0) != Some(stop_on) {
            lemma_set_walk_props(items, s, i + 1, end, stop_on);
        }
    }
}

/// `%[set]` matches a non-empty run of bytes from the set, ending at the width or before
/// a byte outside it; `%[^set]` a non-empty run of bytes outside the set, ending at the
/// width or before a byte of it.
pub proof fn lemma_charset_match_is_non_empty(info: ParamInfoView, s: Seq<u8>, mw: int, n: int)
    requires
        mw >= 1,
        info.ty is Charset || info.ty is NotCharset,
        directive_match(info, s, mw) == Some(Ok::<int, Option<usize>>(n)),
    ensures
        ({
            let (items, member) = match info.ty {
                ParamKind::Charset(items) => (items, true),
                ParamKind::NotCharset(items) => (items, false),
                _ => (Seq::<u8>::empty(), true),
            };
            &&& 0 < n <= s.len()
            &&& n <= mw
            &&& forall|j: int| 0 <= j < n ==> items.contains(#[trigger] s[j]) == member
            &&& n == mw || (n < s.len() && items.contains(s[n]) != member)
        }),
{
    let end = min_int(s.len() as int, mw);
    match info.ty {
        ParamKind::Charset(items) => {
            lemma_set_walk_props(items, s, 0, end, false);
        },
        ParamKind::NotCharset(items) => {
            lemma_set_walk_props(items, s, 0, end, true);
        },
        _ => {},
    }
}

/// `%x` reads every hexadecimal digit, `0` to `9`, `a` to `f` and `A` to `F`, that follows:
/// a match that stops short of the width stops before a byte that is none of them, every
/// byte it took after an optional `0x` or `0X` is one of them, and input that begins with
/// one of them (other than a bare `0x` in a width of 2) is never refused.
pub proof fn lemma_hex_match_takes_every_hex_digit(info: ParamInfoView, s: Seq<u8>, mw: int, n: int)
    requires
        mw >= 1,
        info.ty is UnsignedHexInt,
    ensures
        directive_match(info, s, mw) == Some(Ok::<int, Option<usize>>(n)) ==> {
            &&& n < mw ==> n < s.len() && !((48 <= s[n] <= 57) || (97 <= s[n] <= 102) || (65 <= s[n] <= 70))
            &&& forall|j: int|
                (if n >= 2 && s[0] == 48 && (s[1] == 120 || s[1] == 88) { 2int } else { 0int }) <= j < n ==> ((48
                    <= #[trigger] s[j] <= 57) || (97 <= s[j] <= 102) || (65 <= s[j] <= 70))
        },
        s.len() > 0 && ((48 <= s[0] <= 57) || (97 <= s[0] <= 102) || (65 <= s[0] <= 70)) && !(mw == 2 && s.len()
            > 1 && s[0] == 48 && (s[1] == 120 || s[1] == 88)) ==> directive_match(info, s, mw) != Some(
            Err::<int, Option<usize>>(None),
        ),
        directive_match(info, s, mw) == Some(Ok::<int, Option<usize>>(n)) && mw >= 3 && s.len() > 2 && s[0] == 48
            && (s[1] == 120 || s[1] == 88) && ((48 <= s[2] <= 57) || (97 <= s[2] <= 102) || (65 <= s[2] <= 70))
            ==> n >= 3,
{
    if directive_match(info, s, mw) == Some(Ok::<int, Option<usize>>(n)) {
        lemma_hex_match_is_an_integer(s, mw, n);
        let lo: int = if n >= 2 && s[0] == 48 && (s[1] == 120 || s[1] == 88) { 2 } else { 0 };
        assert forall|j: int| lo <= j < n implies ((48 <= #[trigger] s[j] <= 57) || (97 <= s[j] <= 102) || (65
            <= s[j] <= 70)) by {
            assert(in_class(CharClass::Hex, s[j]));
        }
    }
    let h0 = s.len() > 0 && is_hex(s[0]);
    let ox = s.len() > 1 && s[0] == 48 && is_x(s[1]);
    if h0 && !(mw == 2 && ox) && !(mw == 1) {
        if ox {
            lemma_run_stop_props(s, 2, min_int(s.len() as int, mw), CharClass::Hex);
        } else {
            lemma_run_stop_props(s, 1, min_int(s.len() as int, mw), CharClass::Hex);
        }
    }
}

/// `%i` after `0x` or `0X` reads every hexadecimal digit, `0` to `9`, `a` to `f` and `A` to
/// `F`, that follows: a match that stops short of the width stops before a byte that is
/// none of them, and every byte it took after the prefix is one of them.
pub proof fn lemma_int_hex_match_takes_every_hex_digit(info: ParamInfoView, s: Seq<u8>, mw: int, n: int)
    requires
        mw >= 1,
        info.ty is SignedInt,
        s.len() > 1,
        s[0] == 48,
        s[1] == 120 || s[1] == 88,
        directive_match(info, s, mw) == Some(Ok::<int, Option<usize>>(n)),
    ensures
        n < mw ==> n < s.len() && !((48 <= s[n] <= 57) || (97 <= s[n] <= 102) || (65 <= s[n] <= 70)),
        forall|j: int| 2 <= j < n ==> ((48 <= #[trigger] s[j] <= 57) || (97 <= s[j] <= 102) || (65 <= s[j] <= 70)),
        mw >= 3 && s.len() > 2 && ((48 <= s[2] <= 57) || (97 <= s[2] <= 102) || (65 <= s[2] <= 70)) ==> n >= 3,
{
    if mw >= 3 {
        lemma_class_directive_props(s, 2, mw, CharClass::Hex, n);
        assert forall|j: int| 2 <= j < n implies ((48 <= #[trigger] s[j] <= 57) || (97 <= s[j] <= 102) || (65
            <= s[j] <= 70)) by {
            assert(in_class(CharClass::Hex, s[j]));
        }
    }
}

/// Length modifiers: a single `h` selects `short` and only `hh` selects `char`; a single
/// `l` selects `long` and `ll` `long long`; `j` selects `intmax_t`, `z` `size_t`, `t`
/// `ptrdiff_t`, and `L` and `q` `long long`. Each is consumed whole, and any other byte is
/// no modifier.
pub proof fn lemma_length_modifiers(f: Seq<u8>, i: int)
    requires
        0 <= i < f.len(),
    ensures
        f[i] == 104 && !(i + 1 < f.len() && f[i + 1] == 104) ==> parse_modifier(f, i) == (
        Some(PointerType::Short), i + 1),
        f[i] == 104 && i + 1 < f.len() && f[i + 1] == 104 ==> parse_modifier(f, i) == (
        Some(PointerType::Char), i + 2),
        f[i] == 108 && !(i + 1 < f.len() && f[i + 1] == 108) ==> parse_modifier(f, i) == (
        Some(PointerType::Long), i + 1),
        f[i] == 108 && i + 1 < f.len() && f[i + 1] == 108 ==> parse_modifier(f, i) == (
        Some(PointerType::LongLong), i + 2),
        f[i] == 106 ==> parse_modifier(f, i) == (Some(PointerType::IntMax), i + 1),
        f[i] == 122 ==> parse_modifier(f, i) == (Some(PointerType::SizeType), i + 1),
        f[i] == 116 ==> parse_modifier(f, i) == (Some(PointerType::Ptrdiff), i + 1),
        f[i] == 76 || f[i] == 113 ==> parse_modifier(f, i) == (Some(PointerType::LongLong), i + 1),
        !(f[i] == 104 || f[i] == 108 || f[i] == 106 || f[i] == 122 || f[i] == 116 || f[i] == 76 || f[i] == 113)
            ==> parse_modifier(f, i) == (None::<PointerType>, i),
{
}

/// An integer conversion (`d`, `i`, `o`, `u`, `x`, `X` or `n`) right after a single `h`
/// converts into a `short`: the specification is those two bytes.
pub proof fn lemma_short_conversion(f: Seq<u8>)
    requires
        f.len() >= 2,
        f[0] == 104,
        f[1] == 100 || f[1] == 105 || f[1] == 111 || f[1] == 117 || f[1] == 120 || f[1] == 88 || f[1] == 110,
    ensures
        param_parse(f) matches ParamParse::Parsed(info) && info.ptr_ty == Some(PointerType::Short)
            && info.consumed == 2 && info.max_field_width is None && !info.masked,
{
}

} // verus!
