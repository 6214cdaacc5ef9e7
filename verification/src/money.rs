//! Fixed-point money: amounts are counts of mills (thousandths of a
//! currency unit), so two-decimal cent values and the three-decimal
//! inputs the rounding rule distinguishes are all exact.
use crate::text::{find_char, lemma_find_char_at, lemma_find_char_none, push_char};
use vstd::prelude::*;
use vstd::string::{StrSliceExecFns, StringExecFns};

verus! {

/// Largest magnitude (in mills) a money field may hold.
pub const MONEY_MAX: i64 = 1_000_000_000_000_000_000;

/// A money amount the ledger accepts.
pub open spec fn money_in_range(m: int) -> bool {
    -(MONEY_MAX as int) <= m <= MONEY_MAX as int
}

/// Rounding of a mill amount to whole cents, half away from zero.
pub open spec fn round_cent(m: int) -> int {
    if m >= 0 {
        ((m + 5) / 10) * 10
    } else {
        -(((-m + 5) / 10) * 10)
    }
}

/// Rounds a mill amount to the nearest cent, half away from zero.
pub fn money_round(m: i64) -> (r: i64)
    requires
        money_in_range(m as int),
    ensures
        r == round_cent(m as int),
        money_in_range(r as int),
{
    if m >= 0 {
        ((m + 5) / 10) * 10
    } else {
        -((-m + 5) / 10) * 10
    }
}

/// `c` is a decimal digit.
pub open spec fn is_digit(c: char) -> bool {
    48 <= c as u32 <= 57
}

/// Numeric value of a digit character.
pub open spec fn digit_val(c: char) -> int {
    c as u32 - 48
}

/// Digit character for a value below ten.
pub open spec fn digit_char(d: int) -> char {
    if d == 0 {
        '0'
    } else if d == 1 {
        '1'
    } else if d == 2 {
        '2'
    } else if d == 3 {
        '3'
    } else if d == 4 {
        '4'
    } else if d == 5 {
        '5'
    } else if d == 6 {
        '6'
    } else if d == 7 {
        '7'
    } else if d == 8 {
        '8'
    } else {
        '9'
    }
}

pub proof fn lemma_digit_char_val(d: int)
    requires
        0 <= d < 10,
    ensures
        is_digit(digit_char(d)),
        digit_val(digit_char(d)) == d,
        digit_char(d) != '.',
        digit_char(d) != '-',
        digit_char(d) != ',',
        digit_char(d) != '\n',
{
}

/// Decimal digits of `n`, most significant first; empty for zero.
pub open spec fn u_digits(n: nat) -> Seq<char>
    decreases n,
{
    if n == 0 {
        Seq::empty()
    } else {
        u_digits(n / 10).push(digit_char((n % 10) as int))
    }
}

/// Decimal rendering of `n` ("0" for zero, no leading zeros otherwise).
pub open spec fn u_dec_str(n: nat) -> Seq<char> {
    if n == 0 {
        seq!['0']
    } else {
        u_digits(n)
    }
}

/// The canonical text of a money amount: optional minus sign, the whole
/// units, and one to three fraction digits with trailing zeros dropped.
pub open spec fn money_string(m: int) -> Seq<char> {
    let a = if m < 0 {
        -m
    } else {
        m
    };
    let units = a / 1000;
    let f = a % 1000;
    let sign: Seq<char> = if m < 0 {
        seq!['-']
    } else {
        Seq::empty()
    };
    sign + u_dec_str(units as nat) + money_frac_string(f)
}

/// Fraction part of the canonical money text, for `f` in mills below one unit.
pub open spec fn money_frac_string(f: int) -> Seq<char> {
    if f == 0 {
        Seq::empty()
    } else if f % 10 != 0 {
        seq!['.', digit_char(f / 100), digit_char((f / 10) % 10), digit_char(f % 10)]
    } else if f % 100 != 0 {
        seq!['.', digit_char(f / 100), digit_char((f / 10) % 10)]
    } else {
        seq!['.', digit_char(f / 100)]
    }
}

/// Every character of `s` is a decimal digit.
pub open spec fn all_digits(s: Seq<char>) -> bool {
    forall|i: int| 0 <= i < s.len() ==> is_digit(#[trigger] s[i])
}

/// Value of a digit string read in base ten.
pub open spec fn digits_val(s: Seq<char>) -> int
    decreases s.len(),
{
    if s.len() == 0 {
        0
    } else {
        digits_val(s.drop_last()) * 10 + digit_val(s.last())
    }
}

pub proof fn lemma_digits_val_nonneg(s: Seq<char>)
    requires
        all_digits(s),
    ensures
        digits_val(s) >= 0,
    decreases s.len(),
{
    if s.len() > 0 {
        assert(all_digits(s.drop_last())) by {
            assert(forall|i: int|
                0 <= i < s.len() - 1 ==> #[trigger] s.drop_last()[i] == s[i]);
        }
        lemma_digits_val_nonneg(s.drop_last());
    }
}

pub proof fn lemma_u_digits_digits(n: nat)
    ensures
        all_digits(u_digits(n)),
        digits_val(u_digits(n)) == n,
        n > 0 ==> u_digits(n).len() > 0,
    decreases n,
{
    if n > 0 {
        lemma_u_digits_digits(n / 10);
        lemma_digit_char_val((n % 10) as int);
        let s = u_digits(n);
        assert(s.drop_last() =~= u_digits(n / 10));
        assert(s.last() == digit_char((n % 10) as int));
        assert(digits_val(s) == (n / 10) * 10 + (n % 10));
    }
}

pub proof fn lemma_u_dec_str_digits(n: nat)
    ensures
        all_digits(u_dec_str(n)),
        digits_val(u_dec_str(n)) == n,
        u_dec_str(n).len() >= 1,
{
    if n == 0 {
        lemma_digit_char_val(0);
        let s = u_dec_str(0);
        assert(s.len() == 1);
        assert(s.last() == '0');
        assert(s.drop_last().len() == 0);
        assert(digits_val(s.drop_last()) == 0);
        assert(digits_val(s) == digits_val(s.drop_last()) * 10 + digit_val(s.last()));
    } else {
        lemma_u_digits_digits(n);
    }
}

/// The unsigned money grammar: digits with at most one dot and one to
/// three fraction digits; a dot needs at least one digit beside it.
pub open spec fn money_body_valid(s: Seq<char>) -> bool {
    let d = find_char(s, '.');
    if d == -1 {
        s.len() >= 1 && all_digits(s)
    } else {
        s.len() >= 2 && all_digits(s.take(d)) && all_digits(s.skip(d + 1)) && s.len() - d - 1 <= 3
    }
}

/// Scale that brings `k` fraction digits to mills.
pub open spec fn frac_scale(k: int) -> int {
    if k == 1 {
        100
    } else if k == 2 {
        10
    } else {
        1
    }
}

/// Mill value of a valid unsigned money text.
pub open spec fn money_body_val(s: Seq<char>) -> int {
    let d = find_char(s, '.');
    if d == -1 {
        digits_val(s) * 1000
    } else {
        digits_val(s.take(d)) * 1000 + digits_val(s.skip(d + 1)) * frac_scale(s.len() - d - 1)
    }
}

/// The whole signed grammar holds and the value is storable.
pub open spec fn spec_money_valid(s: Seq<char>) -> bool {
    if s.len() > 0 && s[0] == '-' {
        money_body_valid(s.drop_first()) && money_body_val(s.drop_first()) <= MONEY_MAX as int
    } else {
        money_body_valid(s) && money_body_val(s) <= MONEY_MAX as int
    }
}

/// Mill value of a money text; zero when malformed or out of range,
/// as a malformed numeric field defaults rather than failing.
pub open spec fn spec_parse_money(s: Seq<char>) -> int {
    if !spec_money_valid(s) {
        0
    } else if s.len() > 0 && s[0] == '-' {
        -money_body_val(s.drop_first())
    } else {
        money_body_val(s)
    }
}

/// Digit character of a value below ten.
pub fn digit_to_char(d: u8) -> (c: char)
    requires
        d < 10,
    ensures
        c == digit_char(d as int),
{
    if d == 0 {
        '0'
    } else if d == 1 {
        '1'
    } else if d == 2 {
        '2'
    } else if d == 3 {
        '3'
    } else if d == 4 {
        '4'
    } else if d == 5 {
        '5'
    } else if d == 6 {
        '6'
    } else if d == 7 {
        '7'
    } else if d == 8 {
        '8'
    } else {
        '9'
    }
}

/// Appends the decimal digits of `n` ("0" for zero) to `out`.
fn push_u_dec(out: &mut String, n: u64)
    ensures
        final(out)@ == old(out)@ + u_dec_str(n as nat),
{
    if n == 0 {
        push_char(out, '0');
        assert(out@ =~= old(out)@ + u_dec_str(0));
        return ;
    }
    let mut rev: Vec<char> = Vec::new();
    let mut cur: u64 = n;
    while cur > 0
        invariant
            u_digits(n as nat) == u_digits(cur as nat) + rev@.reverse(),
        decreases cur,
    {
        let d = (cur % 10) as u8;
        let c = digit_to_char(d);
        let ghost prev = cur;
        let ghost prev_rev = rev@;
        rev.push(c);
        cur = cur / 10;
        proof {
            assert(u_digits(prev as nat) == u_digits(cur as nat).push(c));
            assert(rev@.reverse() =~= seq![c] + prev_rev.reverse());
            assert(u_digits(cur as nat) + (seq![c] + prev_rev.reverse()) =~= (u_digits(
                cur as nat,
            ).push(c)) + prev_rev.reverse());
        }
    }
    assert(u_digits(n as nat) =~= rev@.reverse()) by {
        assert(u_digits(0nat) + rev@.reverse() =~= rev@.reverse());
    }
    let m = rev.len();
    let mut k: usize = 0;
    while k < m
        invariant
            m == rev@.len(),
            0 <= k <= m,
            out@ == old(out)@ + rev@.reverse().take(k as int),
        decreases m - k,
    {
        push_char(out, rev[m - 1 - k]);
        proof {
            assert(rev@.reverse()[k as int] == rev@[m - 1 - k]);
            assert(old(out)@ + rev@.reverse().take(k as int) + seq![rev@.reverse()[k as int]]
                =~= old(out)@ + rev@.reverse().take(k + 1));
        }
        k += 1;
    }
    assert(out@ =~= old(out)@ + u_dec_str(n as nat)) by {
        assert(rev@.reverse().take(m as int) =~= rev@.reverse());
    }
}

/// Renders a mill amount as its canonical money text.
pub fn money_to_string(m: i64) -> (r: String)
    requires
        money_in_range(m as int),
    ensures
        r@ == money_string(m as int),
{
    let neg = m < 0;
    let a: u64 = if neg {
        (-m) as u64
    } else {
        m as u64
    };
    let units: u64 = a / 1000;
    let f: u64 = a % 1000;
    let mut s = String::new();
    if neg {
        push_char(&mut s, '-');
    }
    let ghost sign: Seq<char> = if neg {
        seq!['-']
    } else {
        Seq::empty()
    };
    assert(s@ =~= sign);
    push_u_dec(&mut s, units);
    if f != 0 {
        push_char(&mut s, '.');
        let d1 = (f / 100) as u8;
        let d2 = ((f / 10) % 10) as u8;
        let d3 = (f % 10) as u8;
        if d3 != 0 {
            push_char(&mut s, digit_to_char(d1));
            push_char(&mut s, digit_to_char(d2));
            push_char(&mut s, digit_to_char(d3));
        } else if d2 != 0 {
            push_char(&mut s, digit_to_char(d1));
            push_char(&mut s, digit_to_char(d2));
        } else {
            push_char(&mut s, digit_to_char(d1));
        }
    }
    assert(s@ =~= money_string(m as int));
    s
}

/// Parses the digit run `s`: `None` when a character is not a digit,
/// otherwise the value, or a flag in place of a value past the cap.
fn parse_digit_run(s: &str) -> (r: Option<(u128, bool)>)
    ensures
        match r {
            Some((v, big)) => all_digits(s@) && (if big {
                v == 0 && digits_val(s@) > MONEY_MAX as int
            } else {
                v == digits_val(s@) && v <= MONEY_MAX as u128
            }),
            None => !all_digits(s@),
        },
{
    let n = s.unicode_len();
    let mut acc: u128 = 0;
    let mut big = false;
    let mut j: usize = 0;
    while j < n
        invariant
            n == s@.len(),
            0 <= j <= n,
            forall|k: int| 0 <= k < j ==> is_digit(#[trigger] s@[k]),
            big ==> digits_val(s@.take(j as int)) > MONEY_MAX as int,
            !big ==> acc == digits_val(s@.take(j as int)) && acc <= MONEY_MAX as u128,
        decreases n - j,
    {
        let c = s.get_char(j);
        let u = c as u32;
        if u < 48 || u > 57 {
            assert(!is_digit(s@[j as int]));
            return None;
        }
        let d = (u - 48) as u128;
        proof {
            assert(s@.take(j + 1).drop_last() =~= s@.take(j as int));
            assert(s@.take(j + 1).last() == s@[j as int]);
            assert(all_digits(s@.take(j as int)));
        }
        if big {
            proof {
                lemma_digits_val_nonneg(s@.take(j as int));
                assert(digits_val(s@.take(j + 1)) == digits_val(s@.take(j as int)) * 10
                    + digit_val(s@[j as int]));
                assert(digits_val(s@.take(j as int)) * 10 >= digits_val(s@.take(j as int)));
            }
        } else if acc > MONEY_MAX as u128 {
            big = true;
            proof {
                assert(digits_val(s@.take(j + 1)) == digits_val(s@.take(j as int)) * 10
                    + digit_val(s@[j as int]));
                assert(digits_val(s@.take(j as int)) * 10 >= digits_val(s@.take(j as int)));
            }
        } else {
            acc = acc * 10 + d;
            proof {
                assert(digits_val(s@.take(j + 1)) == digits_val(s@.take(j as int)) * 10
                    + digit_val(s@[j as int]));
            }
            if acc > MONEY_MAX as u128 {
                big = true;
            }
        }
        j += 1;
    }
    assert(s@.take(n as int) =~= s@);
    if big {
        Some((0, true))
    } else {
        Some((acc, false))
    }
}

/// Parses a money text into mills when the grammar holds and the value
/// is storable; `None` otherwise.
pub fn parse_money_checked(s: &str) -> (r: Option<i64>)
    ensures
        r is Some <==> spec_money_valid(s@),
        r is Some ==> r->Some_0 == spec_parse_money(s@) && money_in_range(r->Some_0 as int),
{
    let n = s.unicode_len();
    let neg = n > 0 && s.get_char(0) == '-';
    let start: usize = if neg {
        1
    } else {
        0
    };
    let body = s.substring_char(start, n);
    proof {
        if neg {
            assert(body@ =~= s@.drop_first());
        } else {
            assert(body@ =~= s@);
        }
    }
    let bn = body.unicode_len();
    // locate the first dot, if any
    let mut dot: usize = 0;
    let mut has_dot = false;
    let mut i: usize = 0;
    while i < bn
        invariant
            bn == body@.len(),
            0 <= i <= bn,
            has_dot ==> 0 <= dot < i && body@[dot as int] == '.' && (forall|k: int|
                0 <= k < dot ==> body@[k] != '.'),
            !has_dot ==> forall|k: int| 0 <= k < i ==> body@[k] != '.',
        decreases bn - i,
    {
        if !has_dot && body.get_char(i) == '.' {
            dot = i;
            has_dot = true;
        }
        i += 1;
    }
    if !has_dot {
        proof {
            lemma_find_char_none(body@, '.');
        }
        if bn == 0 {
            return None;
        }
        let run = parse_digit_run(body);
        match run {
            None => None,
            Some((v, big)) => {
                proof {
                    if big {
                        assert(digits_val(body@) * 1000 > MONEY_MAX as int) by {
                            lemma_digits_val_nonneg(body@);
                            assert(digits_val(body@) * 1000 >= digits_val(body@)) by (nonlinear_arith)
                                requires
                                    digits_val(body@) >= 0,
                            ;
                        }
                    }
                }
                if big || v > (MONEY_MAX / 1000) as u128 {
                    proof {
                        if !big && v > (MONEY_MAX / 1000) as u128 {
                            assert(digits_val(body@) * 1000 > MONEY_MAX as int);
                        }
                    }
                    None
                } else {
                    let val = (v as i64) * 1000;
                    if neg {
                        Some(-val)
                    } else {
                        Some(val)
                    }
                }
            },
        }
    } else {
        proof {
            lemma_find_char_at(body@, '.', dot as int);
        }
        if bn < 2 || bn - dot - 1 > 3 {
            return None;
        }
        let int_part = body.substring_char(0, dot);
        let frac_part = body.substring_char(dot + 1, bn);
        proof {
            assert(int_part@ =~= body@.take(dot as int));
            assert(frac_part@ =~= body@.skip(dot + 1));
        }
        let run_i = parse_digit_run(int_part);
        let run_f = parse_digit_run(frac_part);
        match (run_i, run_f) {
            (Some((vi, big_i)), Some((vf, big_f))) => {
                let fl = bn - dot - 1;
                proof {
                    assert(frac_part@.len() <= 3);
                    if big_f {
                        lemma_digits_small(frac_part@);
                    }
                }
                // a three-digit run cannot exceed the cap, so big_f is impossible
                let scaled: u128 = if fl == 1 {
                    vf * 100
                } else if fl == 2 {
                    vf * 10
                } else {
                    vf
                };
                proof {
                    assert(scaled == vf * frac_scale(bn - dot - 1));
                }
                let total: u128 = vi * 1000 + scaled;
                proof {
                    if big_i {
                        lemma_digits_val_nonneg(frac_part@);
                        assert(digits_val(int_part@) * 1000 > MONEY_MAX as int) by (nonlinear_arith)
                            requires
                                digits_val(int_part@) > MONEY_MAX as int,
                        ;
                        assert(digits_val(frac_part@) * frac_scale(bn - dot - 1) >= 0) by (nonlinear_arith)
                            requires
                                digits_val(frac_part@) >= 0,
                                frac_scale(bn - dot - 1) >= 1,
                        ;
                    }
                }
                if big_i || total > MONEY_MAX as u128 {
                    None
                } else {
                    let val = total as i64;
                    if neg {
                        Some(-val)
                    } else {
                        Some(val)
                    }
                }
            },
            _ => None,
        }
    }
}

/// A digit run of at most three characters stays below one thousand.
proof fn lemma_digits_small(s: Seq<char>)
    requires
        all_digits(s),
        s.len() <= 3,
    ensures
        digits_val(s) < 1000,
        digits_val(s) >= 0,
    decreases s.len(),
{
    if s.len() == 0 {
    } else {
        assert(all_digits(s.drop_last())) by {
            assert(forall|i: int| 0 <= i < s.len() - 1 ==> #[trigger] s.drop_last()[i] == s[i]);
        }
        lemma_digits_small(s.drop_last());
        assert(is_digit(s.last()));
        if s.len() == 1 {
            assert(digits_val(s.drop_last()) == 0);
        } else if s.len() == 2 {
            assert(digits_val(s.drop_last()) <= 9) by {
                lemma_digits_at_most(s.drop_last());
            }
        } else {
            assert(digits_val(s.drop_last()) <= 99) by {
                lemma_digits_at_most(s.drop_last());
            }
        }
    }
}

/// A digit run of `k` characters is below ten to the `k`.
proof fn lemma_digits_at_most(s: Seq<char>)
    requires
        all_digits(s),
        s.len() <= 2,
    ensures
        s.len() == 1 ==> digits_val(s) <= 9,
        s.len() == 2 ==> digits_val(s) <= 99,
        digits_val(s) >= 0,
    decreases s.len(),
{
    if s.len() > 0 {
        assert(all_digits(s.drop_last())) by {
            assert(forall|i: int| 0 <= i < s.len() - 1 ==> #[trigger] s.drop_last()[i] == s[i]);
        }
        lemma_digits_at_most(s.drop_last());
        assert(is_digit(s.last()));
    }
}

/// Parses a money text into mills; malformed or out-of-range text
/// yields zero, the default for a bad numeric field.
pub fn parse_money(s: &str) -> (r: i64)
    ensures
        r == spec_parse_money(s@),
        money_in_range(r as int),
{
    match parse_money_checked(s) {
        Some(v) => v,
        None => 0,
    }
}

/// What interactive money entry yields: the text as given, else the
/// text with ".0" appended, else zero.
pub open spec fn spec_try_into_money(s: Seq<char>) -> int {
    if spec_money_valid(s) {
        spec_parse_money(s)
    } else if spec_money_valid(s + ".0"@) {
        spec_parse_money(s + ".0"@)
    } else {
        0
    }
}

/// Best-effort money entry: retries once with ".0" appended before
/// defaulting to zero.
pub fn try_into_money(s: &String) -> (r: i64)
    ensures
        r == spec_try_into_money(s@),
        money_in_range(r as int),
{
    match parse_money_checked(s.as_str()) {
        Some(v) => v,
        None => {
            let mut retry = s.clone();
            retry.append(".0");
            match parse_money_checked(retry.as_str()) {
                Some(v) => v,
                None => 0,
            }
        },
    }
}


/// A digit character is not a separator of the line format.
pub proof fn lemma_digit_excludes(c: char)
    ensures
        is_digit(c) ==> c != ',' && c != '\n' && c != '-' && c != '.',
{
    assert(',' as u32 == 44);
    assert('\n' as u32 == 10);
    assert('-' as u32 == 45);
    assert('.' as u32 == 46);
}

/// Every character of a canonical money text is a digit, a minus sign,
/// or a dot; in particular no separator of the line format occurs.
pub proof fn lemma_money_string_charset(m: int)
    requires
        money_in_range(m),
    ensures
        forall|i: int|
            0 <= i < money_string(m).len() ==> (is_digit(#[trigger] money_string(m)[i])
                || money_string(m)[i] == '-' || money_string(m)[i] == '.'),
        money_string(m).len() >= 1,
{
    let a = if m < 0 { -m } else { m };
    let units = a / 1000;
    let f = a % 1000;
    lemma_u_dec_str_digits(units as nat);
    let sign: Seq<char> = if m < 0 { seq!['-'] } else { Seq::empty() };
    let us = u_dec_str(units as nat);
    let fs = money_frac_string(f);
    if f != 0 {
        lemma_digit_char_val(f / 100);
        lemma_digit_char_val((f / 10) % 10);
        lemma_digit_char_val(f % 10);
    }
    assert forall|i: int| 0 <= i < money_string(m).len() implies (is_digit(
        #[trigger] money_string(m)[i],
    ) || money_string(m)[i] == '-' || money_string(m)[i] == '.') by {
        let s = money_string(m);
        if i < sign.len() {
            assert(s[i] == '-');
        } else if i < sign.len() + us.len() {
            assert(s[i] == us[i - sign.len()]);
        } else {
            assert(s[i] == fs[i - sign.len() - us.len()]);
        }
    }
}

/// Round trip: the canonical text of a storable amount parses back to
/// exactly that amount.
pub proof fn lemma_money_round_trip(m: int)
    requires
        money_in_range(m),
    ensures
        spec_money_valid(money_string(m)),
        spec_parse_money(money_string(m)) == m,
{
    let a = if m < 0 { -m } else { m };
    let units = a / 1000;
    let f = a % 1000;
    assert(a == units * 1000 + f);
    lemma_u_dec_str_digits(units as nat);
    let us = u_dec_str(units as nat);
    let fs = money_frac_string(f);
    let body = us + fs;
    let s = money_string(m);
    if m < 0 {
        assert(s.drop_first() =~= body);
    } else {
        assert(s =~= body);
    }
    assert(is_digit(us[0]));
    assert(body[0] == us[0]);
    assert(body[0] != '-');
    if f == 0 {
        assert(body =~= us);
        lemma_find_char_none(body, '.');
        assert(money_body_valid(body));
        assert(money_body_val(body) == units * 1000);
        assert(money_body_val(body) == a);
    } else {
        lemma_digit_char_val(f / 100);
        lemma_digit_char_val((f / 10) % 10);
        lemma_digit_char_val(f % 10);
        assert(body[us.len() as int] == '.');
        assert(forall|k: int| 0 <= k < us.len() ==> #[trigger] body[k] == us[k]);
        lemma_find_char_at(body, '.', us.len() as int);
        assert(body.take(us.len() as int) =~= us);
        let frac = body.skip(us.len() as int + 1);
        assert(frac =~= fs.drop_first());
        let fl = frac.len() as int;
        if f % 10 != 0 {
            assert(fl == 3);
            assert(frac[0] == digit_char(f / 100));
            assert(frac[1] == digit_char((f / 10) % 10));
            assert(frac[2] == digit_char(f % 10));
            assert(all_digits(frac));
            assert(digits_val(frac) == (digit_val(frac[0]) * 10 + digit_val(frac[1])) * 10
                + digit_val(frac[2])) by {
                let e = Seq::<char>::empty();
                assert(frac =~= e.push(frac[0]).push(frac[1]).push(frac[2]));
                lemma_digits_val_push(e, frac[0]);
                lemma_digits_val_push(e.push(frac[0]), frac[1]);
                lemma_digits_val_push(e.push(frac[0]).push(frac[1]), frac[2]);
            }
            assert(digits_val(frac) == (f / 100) * 100 + ((f / 10) % 10) * 10 + f % 10);
            lemma_three_digit_recompose(f);
            assert(digits_val(frac) * frac_scale(fl) == f);
        } else if f % 100 != 0 {
            assert(fl == 2);
            assert(frac[0] == digit_char(f / 100));
            assert(frac[1] == digit_char((f / 10) % 10));
            assert(all_digits(frac));
            assert(digits_val(frac) == digit_val(frac[0]) * 10 + digit_val(frac[1])) by {
                let e = Seq::<char>::empty();
                assert(frac =~= e.push(frac[0]).push(frac[1]));
                lemma_digits_val_push(e, frac[0]);
                lemma_digits_val_push(e.push(frac[0]), frac[1]);
            }
            assert(digits_val(frac) == (f / 100) * 10 + (f / 10) % 10);
            lemma_three_digit_recompose(f);
            assert(((f / 100) * 10 + (f / 10) % 10) * 10 == (f / 100) * 100 + ((f / 10) % 10) * 10);
            assert(digits_val(frac) * frac_scale(fl) == f);
        } else {
            assert(fl == 1);
            assert(frac[0] == digit_char(f / 100));
            assert(all_digits(frac));
            assert(digits_val(frac) == digit_val(frac[0])) by {
                let e = Seq::<char>::empty();
                assert(frac =~= e.push(frac[0]));
                lemma_digits_val_push(e, frac[0]);
            }
            lemma_three_digit_recompose(f);
            assert(digits_val(frac) * frac_scale(fl) == f);
        }
        assert(money_body_valid(body));
        assert(money_body_val(body) == units * 1000 + digits_val(frac) * frac_scale(fl));
        assert(money_body_val(body) == a);
    }
    if m < 0 {
        assert(s[0] == '-');
        assert(spec_parse_money(s) == -money_body_val(body));
    } else {
        assert(s[0] != '-');
        assert(spec_parse_money(s) == money_body_val(body));
    }
}

/// Appending one digit multiplies the value by ten and adds the digit.
pub proof fn lemma_digits_val_push(s: Seq<char>, c: char)
    ensures
        digits_val(s.push(c)) == digits_val(s) * 10 + digit_val(c),
{
    assert(s.push(c).drop_last() =~= s);
    assert(s.push(c).last() == c);
}

/// A value below one thousand is its hundreds, tens, and ones digits.
proof fn lemma_three_digit_recompose(f: int)
    requires
        0 <= f < 1000,
    ensures
        f == (f / 100) * 100 + ((f / 10) % 10) * 10 + f % 10,
        f % 10 == 0 && f % 100 != 0 ==> f == (f / 100) * 100 + ((f / 10) % 10) * 10,
        f % 100 == 0 ==> f == (f / 100) * 100,
        0 <= f / 100 < 10,
        0 <= (f / 10) % 10 < 10,
        0 <= f % 10 < 10,
{
    assert(f == (f / 100) * 100 + ((f / 10) % 10) * 10 + f % 10) by (nonlinear_arith)
        requires
            0 <= f < 1000,
    ;
    assert(0 <= f / 100 < 10) by (nonlinear_arith)
        requires
            0 <= f < 1000,
    ;
}

} // verus!


