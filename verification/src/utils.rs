//! Number parsing and throughput arithmetic shared across the library.

use vstd::prelude::*;

verus! {

/// Whether `c` is an ASCII decimal digit.
pub open spec fn is_ascii_digit(c: char) -> bool {
    48 <= c as u32 <= 57
}

/// The value of a digit character.
pub open spec fn digit_val(c: char) -> int {
    c as u32 - 48
}

/// Whether every character of `s` is an ASCII decimal digit.
pub open spec fn digits_only(s: Seq<char>) -> bool {
    forall|i: int| 0 <= i < s.len() ==> is_ascii_digit(#[trigger] s[i])
}

/// The number a digit string denotes, most significant digit first.
pub open spec fn digits_val(s: Seq<char>) -> int
    decreases s.len(),
{
    if s.len() == 0 {
        0
    } else {
        digits_val(s.drop_last()) * 10 + digit_val(s.last())
    }
}

/// A digit string's value never shrinks as digits are appended.
pub proof fn lemma_digits_val_prefix_le(s: Seq<char>, m: int)
    requires
        digits_only(s),
        0 <= m <= s.len(),
    ensures
        digits_val(s.subrange(0, m)) <= digits_val(s),
        digits_val(s) >= 0,
    decreases s.len() - m,
{
    if m == s.len() {
        assert(s.subrange(0, m) =~= s);
        lemma_digits_val_nonneg(s);
    } else {
        lemma_digits_val_prefix_le(s, m + 1);
        let shorter = s.subrange(0, m);
        let longer = s.subrange(0, m + 1);
        assert(longer.drop_last() =~= shorter);
        lemma_digits_val_nonneg(shorter);
        assert(digits_val(longer) == digits_val(shorter) * 10 + digit_val(longer.last()));
        assert(digits_val(shorter) * 10 >= digits_val(shorter)) by (nonlinear_arith)
            requires
                digits_val(shorter) >= 0,
        ;
    }
}

/// The value of a digit string is non-negative.
pub proof fn lemma_digits_val_nonneg(s: Seq<char>)
    requires
        digits_only(s),
    ensures
        digits_val(s) >= 0,
    decreases s.len(),
{
    if s.len() > 0 {
        assert(digits_only(s.drop_last()));
        lemma_digits_val_nonneg(s.drop_last());
        assert(digits_val(s.drop_last()) * 10 >= 0) by (nonlinear_arith)
            requires
                digits_val(s.drop_last()) >= 0,
        ;
    }
}

/// What parsing an unsigned decimal integer returns: the value of the
/// digits after an optional leading `+`, provided there is at least one
/// digit, nothing else follows, and the value fits in a `u64`; `None`
/// otherwise.
pub open spec fn spec_parse_u64(s: Seq<char>) -> Option<u64> {
    let body = if s.len() > 0 && s[0] == '+' {
        s.drop_first()
    } else {
        s
    };
    if body.len() > 0 && digits_only(body) && digits_val(body) <= u64::MAX {
        Some(digits_val(body) as u64)
    } else {
        None
    }
}

/// The digit value of `c`, or `None` for any other character.
pub fn char_digit(c: char) -> (r: Option<u8>)
    ensures
        (r is Some) == is_ascii_digit(c),
        r matches Some(d) ==> d == digit_val(c),
{
    let u = c as u32;
    if 48 <= u && u <= 57 {
        Some((u - 48) as u8)
    } else {
        None
    }
}

/// Parses an unsigned decimal integer exactly as [`spec_parse_u64`]
/// describes: an optional `+`, then digits, rejected on any other
/// character, an empty digit string, or a value past `u64::MAX`.
pub fn parse_u64(s: &str) -> (r: Option<u64>)
    ensures
        r == spec_parse_u64(s@),
{
    let len = s.unicode_len();
    let start: usize = if len > 0 && s.get_char(0) == '+' {
        1
    } else {
        0
    };
    let ghost body = if s@.len() > 0 && s@[0] == '+' {
        s@.drop_first()
    } else {
        s@
    };
    proof {
        assert(body =~= s@.subrange(start as int, len as int));
    }
    if start == len {
        return None;
    }
    let mut acc: u64 = 0;
    let mut j: usize = start;
    while j < len
        invariant
            start <= j <= len,
            len == s@.len(),
            start < len,
            body == (if s@.len() > 0 && s@[0] == '+' {
                s@.drop_first()
            } else {
                s@
            }),
            body == s@.subrange(start as int, len as int),
            digits_only(body.subrange(0, j - start)),
            acc == digits_val(body.subrange(0, j - start)),
        decreases len - j,
    {
        let c = s.get_char(j);
        proof {
            assert(body[j - start] == s@[j as int]);
        }
        match char_digit(c) {
            None => {
                assert(!digits_only(body));
                return None;
            },
            Some(d) => {
                let ghost prefix = body.subrange(0, j - start);
                let ghost extended = body.subrange(0, j + 1 - start);
                proof {
                    assert(extended.drop_last() =~= prefix);
                    assert(extended.last() == body[j - start]);
                }
                if acc > (u64::MAX - d as u64) / 10 {
                    proof {
                        vstd::arithmetic::div_mod::lemma_fundamental_div_mod(
                            (u64::MAX - d) as int,
                            10,
                        );
                        assert(digits_val(extended) > u64::MAX);
                        if digits_only(body) {
                            lemma_digits_val_prefix_le(body, j + 1 - start);
                        }
                    }
                    return None;
                }
                acc = acc * 10 + d as u64;
            },
        }
        j = j + 1;
    }
    proof {
        assert(body.subrange(0, len - start) =~= body);
    }
    Some(acc)
}

/// Ten to the `k`th power (one for `k <= 0`).
pub open spec fn pow10(k: int) -> int
    decreases k,
{
    if k <= 0 {
        1
    } else {
        10 * pow10(k - 1)
    }
}

/// A string of `n` digits denotes a number below ten to the `n`th.
pub proof fn lemma_digits_val_upper(s: Seq<char>)
    requires
        digits_only(s),
    ensures
        0 <= digits_val(s) < pow10(s.len() as int),
    decreases s.len(),
{
    if s.len() > 0 {
        assert(digits_only(s.drop_last()));
        lemma_digits_val_upper(s.drop_last());
        let p = pow10(s.len() - 1);
        assert(digits_val(s.drop_last()) * 10 <= (p - 1) * 10) by (nonlinear_arith)
            requires
                digits_val(s.drop_last()) <= p - 1,
        ;
    }
}

/// Microunit value of the fraction digits `s`: the number its first six
/// digits denote, scaled as if zero-padded out to six places. Digits past
/// the sixth are below microdegree resolution and do not contribute.
pub open spec fn frac_micro(s: Seq<char>) -> int {
    let m = if s.len() < 6 {
        s.len() as int
    } else {
        6
    };
    digits_val(s.subrange(0, m)) * pow10(6 - m)
}

/// Whether `d` splits `s` into a non-empty run of digits, a decimal point,
/// and a (possibly empty) run of fraction digits. At most one position can:
/// a digit run cannot hold the point.
pub open spec fn dot_decomp(s: Seq<char>, d: int) -> bool {
    &&& 0 < d < s.len()
    &&& s[d] == '.'
    &&& digits_only(s.subrange(0, d))
    &&& digits_only(s.subrange(d + 1, s.len() as int))
}

/// Microunit value of an unsigned decimal numeral: a run of digits with an
/// optional point and fraction, and `None` for anything else.
pub open spec fn spec_unsigned_micro(s: Seq<char>) -> Option<int> {
    if s.len() > 0 && digits_only(s) {
        Some(digits_val(s) * 1000000)
    } else if exists|d: int| dot_decomp(s, d) {
        let d = choose|d: int| dot_decomp(s, d);
        Some(digits_val(s.subrange(0, d)) * 1000000 + frac_micro(s.subrange(d + 1, s.len() as int)))
    } else {
        None
    }
}

/// What parsing a signed decimal into microunits returns: the value of the
/// numeral after an optional sign, in millionths, truncated below the sixth
/// fraction digit; `None` when the text is not such a numeral or the value
/// falls outside `±i64::MAX`.
pub open spec fn spec_parse_micro(s: Seq<char>) -> Option<i64> {
    let neg = s.len() > 0 && s[0] == '-';
    let body = if s.len() > 0 && (s[0] == '-' || s[0] == '+') {
        s.drop_first()
    } else {
        s
    };
    match spec_unsigned_micro(body) {
        Some(v) => if v <= i64::MAX {
            Some(
                (if neg {
                    -v
                } else {
                    v
                }) as i64,
            )
        } else {
            None
        },
        None => None,
    }
}

/// Position of the first decimal point of `s`, if any.
fn find_first_dot(s: &str) -> (r: Option<usize>)
    ensures
        r matches Some(d) ==> d < s@.len() && s@[d as int] == '.' && (forall|t: int|
            0 <= t < d ==> s@[t] != '.'),
        r is None ==> forall|t: int| 0 <= t < s@.len() ==> s@[t] != '.',
{
    let len = s.unicode_len();
    for j in 0..len
        invariant
            len == s@.len(),
            forall|t: int| 0 <= t < j ==> s@[t] != '.',
    {
        if s.get_char(j) == '.' {
            return Some(j);
        }
    }
    None
}

/// Whether characters `from..to` of `s` are all digits.
fn all_digits(s: &str, from: usize, to: usize) -> (b: bool)
    requires
        from <= to <= s@.len(),
    ensures
        b == digits_only(s@.subrange(from as int, to as int)),
{
    let ghost span = s@.subrange(from as int, to as int);
    let mut j = from;
    while j < to
        invariant
            from <= j <= to <= s@.len(),
            span == s@.subrange(from as int, to as int),
            forall|t: int| 0 <= t < j - from ==> is_ascii_digit(#[trigger] span[t]),
        decreases to - j,
    {
        let c = s.get_char(j);
        proof {
            assert(span[j - from] == s@[j as int]);
        }
        if char_digit(c).is_none() {
            return false;
        }
        j = j + 1;
    }
    true
}

/// The number characters `from..to` of `s` denote, all of them digits, or
/// `None` where it would not fit a `u64`.
fn digits_value_u64(s: &str, from: usize, to: usize) -> (r: Option<u64>)
    requires
        from <= to <= s@.len(),
        digits_only(s@.subrange(from as int, to as int)),
    ensures
        r matches Some(v) ==> v == digits_val(s@.subrange(from as int, to as int)),
        r is None ==> digits_val(s@.subrange(from as int, to as int)) > u64::MAX,
{
    let ghost span = s@.subrange(from as int, to as int);
    let mut acc: u64 = 0;
    let mut j = from;
    while j < to
        invariant
            from <= j <= to <= s@.len(),
            span == s@.subrange(from as int, to as int),
            digits_only(span),
            acc == digits_val(span.subrange(0, j - from)),
        decreases to - j,
    {
        let c = s.get_char(j);
        proof {
            assert(span[j - from] == s@[j as int]);
        }
        let d = match char_digit(c) {
            Some(d) => d,
            // the span holds digits only, so this arm cannot run
            None => {
                proof {
                    assert(false);
                }
                0
            },
        };
        let ghost prefix = span.subrange(0, j - from);
        let ghost extended = span.subrange(0, j + 1 - from);
        proof {
            assert(extended.drop_last() =~= prefix);
            assert(extended.last() == span[j - from]);
        }
        if acc > (u64::MAX - d as u64) / 10 {
            proof {
                vstd::arithmetic::div_mod::lemma_fundamental_div_mod((u64::MAX - d) as int, 10);
                assert(digits_val(extended) > u64::MAX);
                lemma_digits_val_prefix_le(span, j + 1 - from);
            }
            return None;
        }
        acc = acc * 10 + d as u64;
        j = j + 1;
    }
    proof {
        assert(span.subrange(0, to - from) =~= span);
    }
    Some(acc)
}

/// Largest whole-unit count whose microunit value still fits an `i64`.
const MICRO_WHOLE_LIMIT: u64 = 9223372036854;

/// Parses a signed decimal numeral into microunits, exactly as
/// [`spec_parse_micro`] describes: an optional sign, digits, and an
/// optional point with fraction digits, of which the first six count.
#[verifier::rlimit(30)]
pub fn parse_micro(s: &str) -> (r: Option<i64>)
    ensures
        r == spec_parse_micro(s@),
{
    let len = s.unicode_len();
    let mut neg = false;
    let mut start: usize = 0;
    if len > 0 {
        let c0 = s.get_char(0);
        if c0 == '-' {
            neg = true;
            start = 1;
        } else if c0 == '+' {
            start = 1;
        }
    }
    let ghost body = if s@.len() > 0 && (s@[0] == '-' || s@[0] == '+') {
        s@.drop_first()
    } else {
        s@
    };
    proof {
        assert(body =~= s@.subrange(start as int, len as int));
    }
    if start == len {
        return None;
    }

    let dot = find_first_dot(s);
    let (ip_end, frac_from, frac_to): (usize, usize, usize) = match dot {
        None => (len, len, len),
        Some(dp) => {
            if dp < start {
                // a sign directly followed by nothing parseable: the point
                // would sit before any digit, so no decomposition exists
                proof {
                    assert forall|d: int| !dot_decomp(body, d) by {
                        if 0 < d < body.len() && body[d] == '.' {
                            assert(s@[d + start] == '.');
                        }
                    }
                }
                return None;
            }
            if dp == start {
                proof {
                    assert(body[0] == '.');
                    assert(!is_ascii_digit('.'));
                    assert forall|d: int| !dot_decomp(body, d) by {
                        if 0 < d < body.len() {
                            assert(body.subrange(0, d)[0] == body[0]);
                        }
                    }
                }
                return None;
            }
            (dp, dp + 1, len)
        },
    };

    let ghost ip = s@.subrange(start as int, ip_end as int);
    let ghost frac = s@.subrange(frac_from as int, frac_to as int);

    if !all_digits(s, start, ip_end) {
        proof {
            lemma_no_parse_bad_integer_part(s@, body, start as int, ip_end as int, dot);
        }
        return None;
    }
    if frac_from < len {
        if !all_digits(s, frac_from, frac_to) {
            proof {
                lemma_no_parse_bad_fraction(s@, body, start as int, ip_end as int);
            }
            return None;
        }
    }

    proof {
        if ip_end == len {
            assert(body =~= ip);
            assert(frac =~= Seq::<char>::empty());
        } else {
            assert(body.subrange(0, ip_end - start) =~= ip);
            assert(body.subrange(ip_end - start + 1, body.len() as int) =~= frac);
            assert(body[ip_end - start] == s@[ip_end as int]);
            assert(dot_decomp(body, ip_end - start));
            lemma_dot_decomp_value(body, ip_end - start);
        }
        lemma_frac_micro_bounds(frac);
    }

    let ip_value = match digits_value_u64(s, start, ip_end) {
        Some(v) => v,
        None => {
            proof {
                lemma_micro_value_large(digits_val(ip), frac_micro(frac));
            }
            return None;
        },
    };
    if ip_value > MICRO_WHOLE_LIMIT {
        proof {
            lemma_micro_value_large(digits_val(ip), frac_micro(frac));
        }
        return None;
    }

    let fval = fraction_micro_value(s, frac_from, frac_to);

    let total: u64 = ip_value * 1000000 + fval;
    if total > i64::MAX as u64 {
        return None;
    }
    if neg {
        Some(-(total as i64))
    } else {
        Some(total as i64)
    }
}

/// Microunit value of the fraction digits at `from..to` of `s`: the first
/// six digits, scaled to six places.
fn fraction_micro_value(s: &str, frac_from: usize, frac_to: usize) -> (fval: u64)
    requires
        frac_from <= frac_to <= s@.len(),
        digits_only(s@.subrange(frac_from as int, frac_to as int)),
    ensures
        fval == frac_micro(s@.subrange(frac_from as int, frac_to as int)),
        fval < 1000000,
{
    let ghost frac = s@.subrange(frac_from as int, frac_to as int);
    // value of the first six fraction digits, scaled to six places
    let frac_six_end: usize = if frac_to - frac_from > 6 {
        frac_from + 6
    } else {
        frac_to
    };
    let mut fval: u64 = 0;
    let mut k = frac_from;
    while k < frac_six_end
        invariant
            frac_from <= k <= frac_six_end <= frac_to <= s@.len(),
            frac_six_end - frac_from <= 6,
            frac == s@.subrange(frac_from as int, frac_to as int),
            digits_only(frac),
            fval == digits_val(frac.subrange(0, k - frac_from)),
            fval < 1000000,
        decreases frac_six_end - k,
    {
        let c = s.get_char(k);
        proof {
            assert(frac[k - frac_from] == s@[k as int]);
        }
        let d = match char_digit(c) {
            Some(d) => d,
            // the span holds digits only, so this arm cannot run
            None => {
                proof {
                    assert(false);
                }
                0
            },
        };
        let ghost prefix = frac.subrange(0, k - frac_from);
        let ghost extended = frac.subrange(0, k + 1 - frac_from);
        proof {
            assert(extended.drop_last() =~= prefix);
            assert(extended.last() == frac[k - frac_from]);
            assert(digits_only(extended));
            lemma_digits_val_upper(extended);
            assert(pow10(extended.len() as int) <= pow10(6)) by {
                lemma_pow10_le(extended.len() as int, 6);
            }
            assert(pow10(6) == 1000000) by {
                reveal_with_fuel(pow10, 7);
            }
        }
        fval = fval * 10 + d as u64;
        k = k + 1;
    }
    let ghost m = (if frac.len() < 6 {
        frac.len() as int
    } else {
        6
    });
    proof {
        assert(frac.subrange(0, frac_six_end - frac_from) =~= frac.subrange(0, m));
    }
    let mut scale = frac_six_end - frac_from;
    while scale < 6
        invariant
            scale <= 6,
            fval == digits_val(frac.subrange(0, m)) * pow10(scale - m),
            scale >= m,
            digits_only(frac.subrange(0, m)),
            frac.subrange(0, m).len() == m,
            fval < 1000000,
        decreases 6 - scale,
    {
        proof {
            lemma_digits_val_upper(frac.subrange(0, m));
            assert(digits_val(frac.subrange(0, m)) * pow10(scale + 1 - m) < pow10(6)) by {
                lemma_scaled_digits_bound(frac.subrange(0, m), scale + 1 - m);
            }
            assert(pow10(6) == 1000000) by {
                reveal_with_fuel(pow10, 7);
            }
            assert(digits_val(frac.subrange(0, m)) * pow10(scale + 1 - m) == (digits_val(
                frac.subrange(0, m),
            ) * pow10(scale - m)) * 10) by (nonlinear_arith)
                requires
                    pow10(scale + 1 - m) == 10 * pow10(scale - m),
            ;
        }
        fval = fval * 10;
        scale = scale + 1;
    }
    fval
}

/// The fraction contribution is a non-negative count of microunits below
/// one whole unit.
proof fn lemma_frac_micro_bounds(s: Seq<char>)
    requires
        digits_only(s),
    ensures
        0 <= frac_micro(s) < 1000000,
{
    let m = if s.len() < 6 {
        s.len() as int
    } else {
        6
    };
    assert(digits_only(s.subrange(0, m)));
    lemma_scaled_digits_bound(s.subrange(0, m), 6 - m);
    lemma_digits_val_upper(s.subrange(0, m));
    lemma_pow10_pos(6 - m);
    assert(digits_val(s.subrange(0, m)) * pow10(6 - m) >= 0) by (nonlinear_arith)
        requires
            digits_val(s.subrange(0, m)) >= 0,
            pow10(6 - m) >= 1,
    ;
    assert(pow10(6) == 1000000) by {
        reveal_with_fuel(pow10, 7);
    }
}

/// The microunit value of a numeral with these parts exceeds `i64::MAX`
/// once the whole part passes [`MICRO_WHOLE_LIMIT`].
proof fn lemma_micro_value_large(ipv: int, fv: int)
    requires
        ipv > MICRO_WHOLE_LIMIT,
        fv >= 0,
    ensures
        ipv * 1000000 + fv > i64::MAX,
{
    assert(ipv * 1000000 >= (MICRO_WHOLE_LIMIT + 1) * 1000000) by (nonlinear_arith)
        requires
            ipv >= MICRO_WHOLE_LIMIT + 1,
    ;
}

/// `pow10` is monotone.
proof fn lemma_pow10_le(a: int, b: int)
    requires
        a <= b,
    ensures
        pow10(a) <= pow10(b),
        pow10(a) >= 1,
    decreases b - a,
{
    if a < b {
        lemma_pow10_le(a, b - 1);
    } else if a == b {
        lemma_pow10_pos(a);
    }
}

/// `pow10` is positive.
proof fn lemma_pow10_pos(a: int)
    ensures
        pow10(a) >= 1,
    decreases a,
{
    if a > 0 {
        lemma_pow10_pos(a - 1);
    }
}

/// Digits scaled by at most their missing places stay under `pow10(6)`.
proof fn lemma_scaled_digits_bound(s: Seq<char>, k: int)
    requires
        digits_only(s),
        0 <= k,
        s.len() + k <= 6,
    ensures
        digits_val(s) * pow10(k) < pow10(6),
{
    lemma_digits_val_upper(s);
    lemma_pow10_pos(k);
    assert(digits_val(s) * pow10(k) <= (pow10(s.len() as int) - 1) * pow10(k)) by (nonlinear_arith)
        requires
            digits_val(s) <= pow10(s.len() as int) - 1,
            pow10(k) >= 1,
    ;
    assert((pow10(s.len() as int) - 1) * pow10(k) == pow10(s.len() as int) * pow10(k) - pow10(k))
        by (nonlinear_arith);
    assert(pow10(s.len() as int) * pow10(k) == pow10(s.len() as int + k)) by {
        lemma_pow10_mul(s.len() as int, k);
    }
    lemma_pow10_le(s.len() as int + k, 6);
}

/// `pow10` turns addition into multiplication.
proof fn lemma_pow10_mul(a: int, b: int)
    requires
        0 <= a,
        0 <= b,
    ensures
        pow10(a) * pow10(b) == pow10(a + b),
    decreases a,
{
    if a == 0 {
    } else {
        lemma_pow10_mul(a - 1, b);
        assert(pow10(a) * pow10(b) == 10 * (pow10(a - 1) * pow10(b))) by (nonlinear_arith)
            requires
                pow10(a) == 10 * pow10(a - 1),
        ;
    }
}

/// With the first point at `ip_end` and a digit run before it, the one
/// candidate decomposition of `body` is at `ip_end - start`; its value is
/// what [`spec_unsigned_micro`] chooses.
proof fn lemma_dot_decomp_value(body: Seq<char>, d: int)
    requires
        dot_decomp(body, d),
    ensures
        !(body.len() > 0 && digits_only(body)),
        spec_unsigned_micro(body) == Some(
            digits_val(body.subrange(0, d)) * 1000000 + frac_micro(
                body.subrange(d + 1, body.len() as int),
            ),
        ),
{
    assert(!is_ascii_digit('.'));
    assert(!digits_only(body));
    let chosen = choose|e: int| dot_decomp(body, e);
    assert(dot_decomp(body, chosen));
    if chosen < d {
        assert(body.subrange(0, d)[chosen] == body[chosen]);
        assert(is_ascii_digit(body[chosen]));
    } else if chosen > d {
        assert(body.subrange(0, chosen)[d] == body[d]);
        assert(is_ascii_digit(body[d]));
    }
}

/// When the run before the first point (or before the end) has a non-digit,
/// no decomposition of the numeral exists.
proof fn lemma_no_parse_bad_integer_part(
    s: Seq<char>,
    body: Seq<char>,
    start: int,
    ip_end: int,
    dot: Option<usize>,
)
    requires
        0 <= start <= ip_end <= s.len(),
        start < s.len(),
        body == s.subrange(start, s.len() as int),
        !digits_only(s.subrange(start, ip_end)),
        dot matches Some(dp) ==> start < dp < s.len() && ip_end == dp && s[dp as int] == '.' && (
        forall|t: int| 0 <= t < dp ==> s[t] != '.'),
        dot is None ==> ip_end == s.len() && (forall|t: int| 0 <= t < s.len() ==> s[t] != '.'),
    ensures
        spec_unsigned_micro(body) is None,
{
    let ip = s.subrange(start, ip_end);
    let bad = choose|t: int| 0 <= t < ip.len() && !is_ascii_digit(ip[t]);
    assert(!is_ascii_digit(body[bad]));
    assert(!digits_only(body));
    assert forall|d: int| !dot_decomp(body, d) by {
        if 0 < d < body.len() && body[d] == '.' {
            assert(s[d + start] == '.');
            assert(d + start >= ip_end);
            assert(body.subrange(0, d)[bad] == body[bad]);
        }
    }
}

/// When the run after the first point has a non-digit, no decomposition of
/// the numeral exists either.
proof fn lemma_no_parse_bad_fraction(s: Seq<char>, body: Seq<char>, start: int, ip_end: int)
    requires
        0 <= start < ip_end < s.len(),
        body == s.subrange(start, s.len() as int),
        digits_only(s.subrange(start, ip_end)),
        s[ip_end] == '.',
        forall|t: int| 0 <= t < ip_end ==> s[t] != '.',
        !digits_only(s.subrange(ip_end + 1, s.len() as int)),
    ensures
        spec_unsigned_micro(body) is None,
{
    let frac = s.subrange(ip_end + 1, s.len() as int);
    let bad = choose|t: int| 0 <= t < frac.len() && !is_ascii_digit(frac[t]);
    let dd = ip_end - start;
    assert(body[dd] == '.');
    assert(!is_ascii_digit('.'));
    assert(!digits_only(body));
    assert forall|d: int| !dot_decomp(body, d) by {
        if 0 < d < body.len() && body[d] == '.' {
            assert(s[d + start] == '.');
            if d < dd {
                assert(s[d + start] != '.');
            } else if d == dd {
                assert(body.subrange(d + 1, body.len() as int)[bad] == frac[bad]);
            } else {
                assert(body.subrange(0, d)[dd] == body[dd]);
            }
        }
    }
}

/// The value [`parse_micro`] yields, with the documented default of zero
/// for a malformed or out-of-range attribute.
pub open spec fn spec_parse_micro_or_zero(s: Seq<char>) -> i64 {
    match spec_parse_micro(s) {
        Some(v) => v,
        None => 0,
    }
}

/// Parses a signed decimal into microunits, defaulting to zero on failure.
pub fn parse_micro_or_zero(s: &str) -> (r: i64)
    ensures
        r == spec_parse_micro_or_zero(s@),
{
    match parse_micro(s) {
        Some(v) => v,
        None => 0,
    }
}

/// The value [`parse_u64`] yields, with the documented default of zero for
/// a malformed or out-of-range attribute.
pub open spec fn spec_parse_u64_or_zero(s: Seq<char>) -> u64 {
    match spec_parse_u64(s) {
        Some(v) => v,
        None => 0,
    }
}

/// Parses an unsigned decimal integer, defaulting to zero on any failure:
/// a malformed attribute keeps its documented zero value while the rest of
/// the document goes on parsing.
pub fn parse_u64_or_zero(s: &str) -> (r: u64)
    ensures
        r == spec_parse_u64_or_zero(s@),
{
    match parse_u64(s) {
        Some(v) => v,
        None => 0,
    }
}

/// What `str::to_lowercase` returns for a string with these characters: its
/// result depends on the characters alone.
pub uninterp spec fn lower_of(s: Seq<char>) -> Seq<char>;

/// Relies on str::to_lowercase: the Unicode lowercase form of the string,
/// a function of its characters alone.
#[verifier::external_body]
pub fn lowercase(s: &str) -> (r: String)
    ensures
        r@ == lower_of(s@),
{
    s.to_lowercase()
}

/// Whether `x` occurs in `v`.
pub fn contains_u64(v: &Vec<u64>, x: u64) -> (b: bool)
    ensures
        b == v@.contains(x),
{
    for i in 0..v.len()
        invariant
            forall|j: int| 0 <= j < i ==> v@[j] != x,
    {
        if v[i] == x {
            return true;
        }
    }
    false
}

/// Throughput of a transfer, in thousandths of a megabit per second.
///
/// A transfer of `total_bytes` bytes over `total_time_in_millis` milliseconds
/// runs at `total_bytes * 8 / (total_time_in_millis / 1000) / 1_000_000`
/// megabits per second, which comes to `total_bytes * 8 / total_time_in_millis`
/// thousandths of a megabit per second. The result is that quotient, rounded
/// toward zero.
pub fn compute_speed_in_mbps(total_bytes: u64, total_time_in_millis: u64) -> (r: u64)
    requires
        total_time_in_millis > 0,
        total_bytes * 8 <= u64::MAX,
    ensures
        r == (total_bytes * 8) / (total_time_in_millis as int),
{
    let total_bits: u64 = total_bytes * 8;
    total_bits / total_time_in_millis
}

} // verus!
