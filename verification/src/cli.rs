//! Decisions of the command-line front end: argument values, backend choice
//! and GPU failure policy.
use vstd::prelude::*;
use crate::text::{chars_of, decimal, digit_char, owned, push_str};
use vstd::arithmetic::div_mod::lemma_fundamental_div_mod_converse;

verus! {

// ---------------------------------------------------------------------------
// Unsigned decimal numbers, as `usize::from_str` reads them.

/// `c` is one of `'0'..='9'`.
pub open spec fn is_decimal_digit(c: char) -> bool {
    '0' <= c && c <= '9'
}

/// The value of a decimal digit character.
pub open spec fn decimal_digit_value(c: char) -> nat {
    (c as int - '0' as int) as nat
}

/// The value of a string of decimal digits, most significant first.
pub open spec fn decimal_value(d: Seq<char>) -> nat
    decreases d.len(),
{
    if d.len() == 0 {
        0
    } else {
        decimal_value(d.drop_last()) * 10 + decimal_digit_value(d.last())
    }
}

/// The digits of an unsigned number: a single leading `'+'` is allowed.
pub open spec fn unsigned_digits(t: Seq<char>) -> Seq<char> {
    if t.len() > 0 && t[0] == '+' {
        t.drop_first()
    } else {
        t
    }
}

/// The number `t` denotes, when it is a non-empty run of decimal digits after
/// an optional `'+'` (the form `usize::from_str` accepts, before its range check).
pub open spec fn unsigned_decimal(t: Seq<char>) -> Option<nat> {
    let d = unsigned_digits(t);
    if d.len() > 0 && (forall|i: int| 0 <= i < d.len() ==> is_decimal_digit(#[trigger] d[i])) {
        Some(decimal_value(d))
    } else {
        None
    }
}

/// What `usize::from_str` returns for `t`: the number, when it is well formed
/// and fits in a `usize`.
pub open spec fn usize_from_str(t: Seq<char>) -> Option<nat> {
    match unsigned_decimal(t) {
        Some(v) => if v <= usize::MAX { Some(v) } else { None },
        None => None,
    }
}

proof fn lemma_decimal_value_monotone(d: Seq<char>, k: int)
    requires
        0 <= k <= d.len(),
    ensures
        decimal_value(d.take(k)) <= decimal_value(d),
    decreases d.len() - k,
{
    if k < d.len() {
        lemma_decimal_value_monotone(d, k + 1);
        assert(d.take(k + 1).drop_last() =~= d.take(k));
    } else {
        assert(d.take(k) =~= d);
    }
}

/// Parses `s[from..to]` as `usize::from_str` does.
fn parse_usize(s: &Vec<char>, from: usize, to: usize) -> (r: Option<usize>)
    requires
        from <= to <= s@.len(),
    ensures
        r == (match usize_from_str(s@.subrange(from as int, to as int)) {
            Some(v) => Some(v as usize),
            None => None,
        }),
{
    let ghost t = s@.subrange(from as int, to as int);
    let mut start = from;
    if from < to && s[from] == '+' {
        start = from + 1;
    }
    let ghost d = s@.subrange(start as int, to as int);
    assert(d =~= unsigned_digits(t));
    if start == to {
        return None;
    }
    let mut acc: usize = 0;
    let mut i = start;
    while i < to
        invariant
            start <= i <= to <= s@.len(),
            start < to,
            d == s@.subrange(start as int, to as int),
            d == unsigned_digits(t),
            t == s@.subrange(from as int, to as int),
            forall|j: int| 0 <= j < i - start ==> is_decimal_digit(#[trigger] d[j]),
            acc as nat == decimal_value(d.take(i - start)),
        decreases to - i,
    {
        let c = s[i];
        if !('0' <= c && c <= '9') {
            assert(!is_decimal_digit(d[i - start]));
            return None;
        }
        let digit = (c as u32 - '0' as u32) as usize;
        assert(d.take(i - start + 1).drop_last() =~= d.take(i - start));
        assert(d.take(i - start + 1).last() == c);
        assert(digit as nat == decimal_digit_value(c));
        assert(decimal_value(d.take(i - start + 1)) == acc * 10 + digit);
        let next = match acc.checked_mul(10) {
            Some(m) => m.checked_add(digit),
            None => None,
        };
        match next {
            Some(v) => {
                acc = v;
            },
            None => {
                proof {
                    if forall|j: int| 0 <= j < d.len() ==> is_decimal_digit(#[trigger] d[j]) {
                        lemma_decimal_value_monotone(d, i - start + 1);
                    }
                }
                return None;
            },
        }
        i = i + 1;
    }
    assert(d.take(to - start) =~= d);
    Some(acc)
}

// ---------------------------------------------------------------------------
// `--frame WIDTHxHEIGHT`

/// Position of the first `c` in `s`.
pub open spec fn position_of(s: Seq<char>, c: char) -> Option<nat>
    decreases s.len(),
{
    if s.len() == 0 {
        None
    } else if s[0] == c {
        Some(0)
    } else {
        match position_of(s.drop_first(), c) {
            Some(p) => Some(p + 1),
            None => None,
        }
    }
}

proof fn lemma_position_of(s: Seq<char>, c: char, i: int)
    requires
        0 <= i <= s.len(),
        forall|j: int| 0 <= j < i ==> s[j] != c,
    ensures
        i < s.len() && s[i] == c ==> position_of(s, c) == Some(i as nat),
        i == s.len() ==> position_of(s, c) is None,
    decreases i,
{
    if i > 0 {
        lemma_position_of(s.drop_first(), c, i - 1);
    } else if s.len() > 0 && s[0] != c {
    }
}

/// Largest frame dimension accepted by `--frame`.
pub const MAX_FRAME_DIMENSION: usize = 256;

/// Message for a `--frame` value without an `x`.
pub open spec fn frame_format_message() -> Seq<char> {
    "expected WIDTHxHEIGHT (for example 8x10)"@
}

/// Message for a malformed width.
pub open spec fn frame_width_message() -> Seq<char> {
    "frame width must be a positive integer"@
}

/// Message for a malformed height.
pub open spec fn frame_height_message() -> Seq<char> {
    "frame height must be a positive integer"@
}

/// Message for a width or height outside `1..=256`.
pub open spec fn frame_range_message() -> Seq<char> {
    "frame dimensions must each be from 1 to 256"@
}

/// The outcome of parsing a `--frame` value: split at the first `x`, read
/// both sides as `usize`, and require each to be from 1 to 256.
pub open spec fn frame_size_outcome(s: Seq<char>) -> Result<(nat, nat), Seq<char>> {
    match position_of(s, 'x') {
        None => Err(frame_format_message()),
        Some(i) => match usize_from_str(s.take(i as int)) {
            None => Err(frame_width_message()),
            Some(w) => match usize_from_str(s.skip(i + 1 as int)) {
                None => Err(frame_height_message()),
                Some(h) => if w == 0 || h == 0 || w > 256 || h > 256 {
                    Err(frame_range_message())
                } else {
                    Ok((w, h))
                },
            },
        },
    }
}

/// Parse a `--frame` value of the form `WIDTHxHEIGHT`, each from 1 to 256.
pub fn parse_frame_size(value: &str) -> (r: Result<(usize, usize), String>)
    ensures
        match frame_size_outcome(value@) {
            Ok((w, h)) => r == Ok::<(usize, usize), String>((w as usize, h as usize)),
            Err(m) => r matches Err(e) && e@ == m,
        },
{
    let s = chars_of(value);
    let n = s.len();
    let mut i: usize = 0;
    while i < n && s[i] != 'x'
        invariant
            i <= n,
            n == s@.len(),
            forall|j: int| 0 <= j < i ==> s@[j] != 'x',
        decreases n - i,
    {
        i = i + 1;
    }
    proof {
        lemma_position_of(s@, 'x', i as int);
    }
    if i == n {
        return Err(owned("expected WIDTHxHEIGHT (for example 8x10)"));
    }
    assert(s@.take(i as int) =~= s@.subrange(0, i as int));
    assert(s@.skip(i + 1) =~= s@.subrange(i + 1, n as int));
    let width = match parse_usize(&s, 0, i) {
        Some(w) => w,
        None => {
            return Err(owned("frame width must be a positive integer"));
        },
    };
    let height = match parse_usize(&s, i + 1, n) {
        Some(h) => h,
        None => {
            return Err(owned("frame height must be a positive integer"));
        },
    };
    if width == 0 || height == 0 || width > MAX_FRAME_DIMENSION || height > MAX_FRAME_DIMENSION {
        return Err(owned("frame dimensions must each be from 1 to 256"));
    }
    Ok((width, height))
}

proof fn lemma_decimal_reads_back(n: nat)
    ensures
        decimal(n).len() > 0,
        forall|i: int| 0 <= i < decimal(n).len() ==> is_decimal_digit(#[trigger] decimal(n)[i]),
        decimal(n)[0] != '+',
        decimal(n)[0] != 'x',
        forall|i: int| 0 <= i < decimal(n).len() ==> #[trigger] decimal(n)[i] != 'x',
        decimal_value(decimal(n)) == n,
    decreases n,
{
    if n < 10 {
        assert(decimal(n) =~= seq![digit_char(n)]);
        assert(decimal(n).drop_last() =~= Seq::<char>::empty());
        assert(decimal_digit_value(digit_char(n)) == n);
        assert(decimal_value(Seq::<char>::empty()) == 0);
        assert(decimal(n).last() == digit_char(n));
    } else {
        assert(decimal_digit_value(digit_char(n % 10)) == n % 10);
        assert(n == (n / 10) * 10 + n % 10) by {
            vstd::arithmetic::div_mod::lemma_fundamental_div_mod(n as int, 10);
        }
        lemma_decimal_reads_back(n / 10);
        let d = decimal(n);
        assert(d.drop_last() =~= decimal(n / 10));
        assert(d.last() == digit_char(n % 10));
        assert forall|i: int| 0 <= i < d.len() implies is_decimal_digit(#[trigger] d[i]) && d[i] != 'x' by {
            if i < d.len() - 1 {
                assert(d[i] == decimal(n / 10)[i]);
            }
        }
        assert(d[0] == decimal(n / 10)[0]);
        assert(decimal_value(d) == decimal_value(d.drop_last()) * 10 + decimal_digit_value(d.last()));
    }
}

/// A frame size written as `WIDTHxHEIGHT` in decimal, each from 1 to 256,
/// is read back as the same size.
pub proof fn lemma_frame_size_reads_back(width: nat, height: nat)
    requires
        1 <= width <= 256,
        1 <= height <= 256,
    ensures
        frame_size_outcome(decimal(width) + "x"@ + decimal(height)) == Ok::<(nat, nat), Seq<char>>((width, height)),
{
    reveal_strlit("x");
    let dw = decimal(width);
    let dh = decimal(height);
    let s = dw + "x"@ + dh;
    lemma_decimal_reads_back(width);
    lemma_decimal_reads_back(height);
    assert forall|j: int| 0 <= j < dw.len() implies s[j] != 'x' by {
        assert(s[j] == dw[j]);
    }
    assert(s[dw.len() as int] == 'x');
    lemma_position_of(s, 'x', dw.len() as int);
    assert(s.take(dw.len() as int) =~= dw);
    assert(s.skip(dw.len() + 1 as int) =~= dh);
    assert(unsigned_digits(dw) == dw);
    assert(unsigned_digits(dh) == dh);
}

// ---------------------------------------------------------------------------
// `--fg` / `--bg` hex colors

/// The value of a hexadecimal digit (either case), if `c` is one.
pub open spec fn hex_digit_value(c: char) -> Option<nat> {
    if '0' <= c && c <= '9' {
        Some((c as int - '0' as int) as nat)
    } else if 'a' <= c && c <= 'f' {
        Some((c as int - 'a' as int + 10) as nat)
    } else if 'A' <= c && c <= 'F' {
        Some((c as int - 'A' as int + 10) as nat)
    } else {
        None
    }
}

/// The value of a string of hexadecimal digits, most significant first.
pub open spec fn hex_value(d: Seq<char>) -> nat
    decreases d.len(),
{
    if d.len() == 0 {
        0
    } else {
        hex_value(d.drop_last()) * 16 + match hex_digit_value(d.last()) {
            Some(v) => v,
            None => 0,
        }
    }
}

/// `s` without one leading `'#'`.
pub open spec fn strip_hash(s: Seq<char>) -> Seq<char> {
    if s.len() > 0 && s[0] == '#' {
        s.drop_first()
    } else {
        s
    }
}

/// The 24-bit value of a color written as exactly six hex digits (either
/// case) after an optional `'#'`.
pub open spec fn hex_color_value(s: Seq<char>) -> Option<nat> {
    let t = strip_hash(s);
    if t.len() == 6 && (forall|i: int| 0 <= i < t.len() ==> (#[trigger] hex_digit_value(t[i])) is Some) {
        Some(hex_value(t))
    } else {
        None
    }
}

/// The `#` before a hex color is optional: a value reads the same with one
/// `#` in front.
pub proof fn lemma_leading_hash_optional(s: Seq<char>)
    requires
        s.len() == 0 || s[0] != '#',
    ensures
        hex_color_value(seq!['#'] + s) == hex_color_value(s),
{
    assert((seq!['#'] + s).drop_first() =~= s);
}

/// `c` in upper case, for ASCII letters.
pub open spec fn ascii_upper(c: char) -> char {
    if 'a' <= c && c <= 'z' {
        ((c as int) - 32) as char
    } else {
        c
    }
}

/// `s` in upper case, for ASCII letters.
pub open spec fn upper_case(s: Seq<char>) -> Seq<char> {
    s.map_values(|c: char| ascii_upper(c))
}

proof fn lemma_hex_value_same_digits(a: Seq<char>, b: Seq<char>)
    requires
        a.len() == b.len(),
        forall|i: int| 0 <= i < a.len() ==> hex_digit_value(#[trigger] a[i]) == hex_digit_value(b[i]),
    ensures
        hex_value(a) == hex_value(b),
    decreases a.len(),
{
    if a.len() > 0 {
        lemma_hex_value_same_digits(a.drop_last(), b.drop_last());
        assert(hex_digit_value(a[a.len() - 1]) == hex_digit_value(b[b.len() - 1]));
    }
}

/// Hex colors are read without regard to case: a value and its upper-case
/// spelling read the same (so `AABBCC` is `aabbcc`, which reads back as
/// written by `lemma_hex_color_reads_back`).
pub proof fn lemma_hex_color_case_insensitive(s: Seq<char>)
    ensures
        hex_color_value(upper_case(s)) == hex_color_value(s),
{
    let u = upper_case(s);
    assert forall|c: char| #[trigger] hex_digit_value(ascii_upper(c)) == hex_digit_value(c) by {
        if 'a' <= c && c <= 'z' {
            assert(('A' as int) <= (c as int) - 32);
        }
    }
    let t = strip_hash(s);
    let tu = strip_hash(u);
    if s.len() > 0 && s[0] == '#' {
        assert(u[0] == '#');
        assert(tu =~= upper_case(t));
    } else {
        if s.len() > 0 {
            assert(u[0] != '#');
        }
        assert(tu =~= upper_case(t));
    }
    assert forall|i: int| 0 <= i < t.len() implies hex_digit_value(#[trigger] tu[i]) == hex_digit_value(t[i]) by {
        assert(tu[i] == ascii_upper(t[i]));
    }
    assert(tu.len() == t.len());
    if forall|i: int| 0 <= i < t.len() ==> (#[trigger] hex_digit_value(t[i])) is Some {
        assert forall|i: int| 0 <= i < tu.len() implies (#[trigger] hex_digit_value(tu[i])) is Some by {
            assert(hex_digit_value(t[i]) is Some);
        }
    }
    if forall|i: int| 0 <= i < tu.len() ==> (#[trigger] hex_digit_value(tu[i])) is Some {
        assert forall|i: int| 0 <= i < t.len() implies (#[trigger] hex_digit_value(t[i])) is Some by {
            assert(hex_digit_value(tu[i]) is Some);
        }
    }
    lemma_hex_value_same_digits(tu, t);
}

/// The red, green and blue bytes of a 24-bit color value.
pub open spec fn rgb_bytes(v: nat) -> [u8; 3] {
    [((v / 65536) % 256) as u8, ((v / 256) % 256) as u8, (v % 256) as u8]
}

/// The lowercase hexadecimal digit for a value below sixteen.
pub open spec fn hex_digit_char(v: nat) -> char {
    if v < 10 {
        (('0' as nat) + v) as char
    } else {
        (('a' as nat) + v - 10) as char
    }
}

/// A color written as six lowercase hex digits, red first (as in `ff6600`).
pub open spec fn hex_of(c: [u8; 3]) -> Seq<char> {
    seq![
        hex_digit_char(c[0] as nat / 16),
        hex_digit_char(c[0] as nat % 16),
        hex_digit_char(c[1] as nat / 16),
        hex_digit_char(c[1] as nat % 16),
        hex_digit_char(c[2] as nat / 16),
        hex_digit_char(c[2] as nat % 16),
    ]
}

proof fn lemma_hex_digit_reads_back(v: nat)
    requires
        v < 16,
    ensures
        hex_digit_value(hex_digit_char(v)) == Some(v),
{
}

/// A color written as six hex digits reads back as the same color.
pub proof fn lemma_hex_color_reads_back(c: [u8; 3])
    ensures
        hex_color_value(hex_of(c)) matches Some(v) && rgb_bytes(v) == c,
{
    let d = hex_of(c);
    let (r, g, b) = (c[0] as nat, c[1] as nat, c[2] as nat);
    lemma_hex_digit_reads_back(r / 16);
    lemma_hex_digit_reads_back(r % 16);
    lemma_hex_digit_reads_back(g / 16);
    lemma_hex_digit_reads_back(g % 16);
    lemma_hex_digit_reads_back(b / 16);
    lemma_hex_digit_reads_back(b % 16);
    assert(strip_hash(d) == d);
    assert(forall|i: int| 0 <= i < d.len() ==> (#[trigger] hex_digit_value(d[i])) is Some);
    assert(hex_value(d) == r * 65536 + g * 256 + b) by {
        reveal_with_fuel(hex_value, 7);
        assert(d.drop_last().drop_last().drop_last().drop_last().drop_last().drop_last() =~= Seq::<char>::empty());
        assert(r == (r / 16) * 16 + r % 16 && g == (g / 16) * 16 + g % 16 && b == (b / 16) * 16 + b % 16)
            by (nonlinear_arith);
        assert(((((r / 16) * 16 + r % 16) * 16 + g / 16) * 16 + g % 16) * 16 * 16 + (b / 16) * 16 + b % 16
            == r * 65536 + g * 256 + b) by (nonlinear_arith)
            requires
                r == (r / 16) * 16 + r % 16,
                g == (g / 16) * 16 + g % 16,
                b == (b / 16) * 16 + b % 16,
        ;
    }
    let v = r * 65536 + g * 256 + b;
    lemma_fundamental_div_mod_converse(v as int, 65536, r as int, (g * 256 + b) as int);
    lemma_fundamental_div_mod_converse(v as int, 256, (r * 256 + g) as int, b as int);
    lemma_fundamental_div_mod_converse(r as int, 256, 0, r as int);
    lemma_fundamental_div_mod_converse((r * 256 + g) as int, 256, r as int, g as int);
    assert(rgb_bytes(v) =~= c);
}

/// `16^k`.
pub open spec fn pow16(k: nat) -> nat
    decreases k,
{
    if k == 0 {
        1
    } else {
        pow16((k - 1) as nat) * 16
    }
}

proof fn lemma_pow16_bound(k: nat)
    requires
        k <= 6,
    ensures
        pow16(k) <= 0x1000000,
    decreases 6 - k,
{
    if k < 6 {
        lemma_pow16_bound(k + 1);
        assert(pow16(k + 1) == pow16(k) * 16);
    } else {
        reveal_with_fuel(pow16, 7);
    }
}

/// Message for a malformed hex color.
pub open spec fn hex_color_message() -> Seq<char> {
    "expected 6 hex digits (e.g. ff6600)"@
}

fn hex_digit(c: char) -> (r: Option<u32>)
    ensures
        r == (match hex_digit_value(c) {
            Some(v) => Some(v as u32),
            None => None,
        }),
{
    if '0' <= c && c <= '9' {
        Some(c as u32 - '0' as u32)
    } else if 'a' <= c && c <= 'f' {
        Some(c as u32 - 'a' as u32 + 10)
    } else if 'A' <= c && c <= 'F' {
        Some(c as u32 - 'A' as u32 + 10)
    } else {
        None
    }
}

/// Parse a color given as six hex digits, with or without a leading `#`,
/// into its red, green and blue bytes.
pub fn parse_hex_rgb(value: &str) -> (r: Result<[u8; 3], String>)
    ensures
        match hex_color_value(value@) {
            Some(v) => r == Ok::<[u8; 3], String>(rgb_bytes(v)),
            None => r matches Err(e) && e@ == hex_color_message(),
        },
{
    let s = chars_of(value);
    let n = s.len();
    let mut from: usize = 0;
    if n > 0 && s[0] == '#' {
        from = 1;
    }
    let ghost t = s@.subrange(from as int, n as int);
    assert(t =~= strip_hash(value@));
    if n - from != 6 {
        return Err(owned("expected 6 hex digits (e.g. ff6600)"));
    }
    let mut acc: u32 = 0;
    let mut i = from;
    while i < n
        invariant
            from <= i <= n,
            n == s@.len(),
            n - from == 6,
            t == s@.subrange(from as int, n as int),
            t == strip_hash(value@),
            t.len() == 6,
            forall|j: int| 0 <= j < i - from ==> (#[trigger] hex_digit_value(t[j])) is Some,
            acc as nat == hex_value(t.take(i - from)),
            acc < pow16((i - from) as nat),
        decreases n - i,
    {
        match hex_digit(s[i]) {
            Some(v) => {
                assert(t.take(i - from + 1).drop_last() =~= t.take(i - from));
                assert(t.take(i - from + 1).last() == s@[i as int]);
                proof {
                    lemma_pow16_bound((i - from + 1) as nat);
                    assert(pow16((i - from + 1) as nat) == pow16((i - from) as nat) * 16);
                }
                acc = acc * 16 + v;
            },
            None => {
                assert(hex_digit_value(t[i - from]) is None);
                return Err(owned("expected 6 hex digits (e.g. ff6600)"));
            },
        }
        i = i + 1;
    }
    assert(t.take(n - from) =~= t);
    proof {
        lemma_pow16_bound((n - from) as nat);
    }
    Ok([(acc / 65536 % 256) as u8, (acc / 256 % 256) as u8, (acc % 256) as u8])
}

/// Color output is on when asked for, and whenever a foreground or background
/// color is given (`--fg` and `--bg` imply `--color`).
pub fn color_enabled(color: bool, fg_given: bool, bg_given: bool) -> (r: bool)
    ensures
        r == (color || fg_given || bg_given),
{
    color || fg_given || bg_given
}

// ---------------------------------------------------------------------------
// Backend choice

/// A measured frame time, in whole nanoseconds.
#[derive(Clone, Copy, Debug, PartialEq, Eq)]
pub struct FrameTime {
    /// Nanoseconds.
    pub nanos: u128,
}

impl FrameTime {
    /// A frame time of `nanos` nanoseconds.
    pub fn from_nanos(nanos: u128) -> (r: FrameTime)
        ensures
            r.nanos == nanos,
    {
        FrameTime { nanos }
    }

    /// A frame time of `millis` milliseconds.
    pub fn from_millis(millis: u64) -> (r: FrameTime)
        ensures
            r.nanos == millis * 1_000_000,
    {
        FrameTime { nanos: millis as u128 * 1_000_000 }
    }
}

/// Use the GPU renderer only when its measured frame time is strictly faster;
/// a tie keeps the CPU renderer.
pub fn prefer_gpu(cpu_frame_time: FrameTime, gpu_frame_time: FrameTime) -> (r: bool)
    ensures
        r == (gpu_frame_time.nanos < cpu_frame_time.nanos),
{
    gpu_frame_time.nanos < cpu_frame_time.nanos
}

/// Measuring time after which a startup benchmark may stop.
pub const BENCHMARK_TARGET_NANOS: u128 = 10_000_000;
/// Fewest frames a startup benchmark measures.
pub const BENCHMARK_MIN_FRAMES: u32 = 3;
/// Most frames a startup benchmark measures.
pub const BENCHMARK_MAX_FRAMES: u32 = 30;

/// Whether a startup benchmark that has measured `frames` frames in `elapsed`
/// has seen enough: at least the minimum number of frames, and either the
/// target time or the maximum number of frames.
pub fn benchmark_finished(frames: u32, elapsed: FrameTime) -> (r: bool)
    ensures
        r == (frames >= BENCHMARK_MIN_FRAMES && (elapsed.nanos >= BENCHMARK_TARGET_NANOS
            || frames >= BENCHMARK_MAX_FRAMES)),
{
    frames >= BENCHMARK_MIN_FRAMES && (elapsed.nanos >= BENCHMARK_TARGET_NANOS
        || frames >= BENCHMARK_MAX_FRAMES)
}

/// The text of the error raised when a forced GPU backend fails.
pub open spec fn gpu_failure_message(error: Seq<char>) -> Seq<char> {
    "GPU rendering failed: "@ + error
}

/// GPU failure policy: with an explicitly requested GPU (`forced`) a GPU error
/// is fatal and is returned with the message `"GPU rendering failed: <error>"`;
/// in automatic mode it is absorbed (`Ok`) and the caller continues on the CPU
/// renderer.
pub fn handle_gpu_error(forced: bool, error: String) -> (r: Result<(), String>)
    ensures
        forced ==> (r matches Err(m) && m@ == gpu_failure_message(error@)),
        !forced ==> r is Ok,
{
    if forced {
        let mut text = owned("GPU rendering failed: ");
        push_str(&mut text, error.as_str());
        Err(text)
    } else {
        Ok(())
    }
}

} // verus!
