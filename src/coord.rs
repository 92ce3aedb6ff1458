use vstd::prelude::*;

use crate::text::{chars_of, string_of};

verus! {

/// True for the ASCII decimal digits.
pub open spec fn is_digit(c: char) -> bool {
    '0' <= c && c <= '9'
}

/// The value of a decimal digit.
pub open spec fn digit_val(c: char) -> nat {
    (c as int - '0' as int) as nat
}

/// `10` to the power `n`.
pub open spec fn pow10(n: nat) -> nat
    decreases n,
{
    if n == 0 {
        1
    } else {
        10 * pow10((n - 1) as nat)
    }
}

/// The number written by a string of decimal digits, most significant first.
pub open spec fn digits_value(d: Seq<char>) -> nat
    decreases d.len(),
{
    if d.len() == 0 {
        0
    } else {
        digits_value(d.drop_last()) * 10 + digit_val(d.last())
    }
}

/// How many digits follow one another in `s` from index `i` on.
pub open spec fn digit_run(s: Seq<char>, i: int) -> nat
    decreases s.len() - i,
{
    if 0 <= i < s.len() && is_digit(s[i]) {
        1 + digit_run(s, i + 1)
    } else {
        0
    }
}

/// How many `'0'` follow one another in `d` from index `i` on.
pub open spec fn zero_run(d: Seq<char>, i: int) -> nat
    decreases d.len() - i,
{
    if 0 <= i < d.len() && d[i] == '0' {
        1 + zero_run(d, i + 1)
    } else {
        0
    }
}

/// How many `'0'` stand one after another in `d` just before index `j`.
pub open spec fn back_zero_run(d: Seq<char>, j: int) -> nat
    decreases j,
{
    if 0 < j <= d.len() && d[j - 1] == '0' {
        1 + back_zero_run(d, j - 1)
    } else {
        0
    }
}

// The grammar of a decimal number: an optional sign, digits, an optional
// point with digits, at least one digit over both, and an optional exponent
// (`e` or `E`, an optional sign, at least one digit).

pub open spec fn sign_len(s: Seq<char>) -> int {
    if s.len() > 0 && (s[0] == '+' || s[0] == '-') {
        1
    } else {
        0
    }
}

pub open spec fn is_negative(s: Seq<char>) -> bool {
    s.len() > 0 && s[0] == '-'
}

pub open spec fn int_len(s: Seq<char>) -> int {
    digit_run(s, sign_len(s)) as int
}

pub open spec fn int_end(s: Seq<char>) -> int {
    sign_len(s) + int_len(s)
}

pub open spec fn has_point(s: Seq<char>) -> bool {
    int_end(s) < s.len() && s[int_end(s)] == '.'
}

pub open spec fn frac_len(s: Seq<char>) -> int {
    if has_point(s) {
        digit_run(s, int_end(s) + 1) as int
    } else {
        0
    }
}

pub open spec fn mant_end(s: Seq<char>) -> int {
    if has_point(s) {
        int_end(s) + 1 + frac_len(s)
    } else {
        int_end(s)
    }
}

pub open spec fn has_exp(s: Seq<char>) -> bool {
    mant_end(s) < s.len() && (s[mant_end(s)] == 'e' || s[mant_end(s)] == 'E')
}

pub open spec fn exp_sign_len(s: Seq<char>) -> int {
    if has_exp(s) && mant_end(s) + 1 < s.len() && (s[mant_end(s) + 1] == '+' || s[mant_end(
        s,
    ) + 1] == '-') {
        1
    } else {
        0
    }
}

pub open spec fn exp_start(s: Seq<char>) -> int {
    mant_end(s) + 1 + exp_sign_len(s)
}

pub open spec fn exp_len(s: Seq<char>) -> int {
    digit_run(s, exp_start(s)) as int
}

/// `s` is a decimal number in the grammar above.
pub open spec fn is_number_text(s: Seq<char>) -> bool {
    &&& int_len(s) + frac_len(s) >= 1
    &&& if has_exp(s) {
        exp_len(s) >= 1 && exp_start(s) + exp_len(s) == s.len()
    } else {
        mant_end(s) == s.len()
    }
}

/// All digits of the number, those before the point and those after it.
pub open spec fn mantissa(s: Seq<char>) -> Seq<char> {
    if has_point(s) {
        s.subrange(sign_len(s), int_end(s)) + s.subrange(int_end(s) + 1, mant_end(s))
    } else {
        s.subrange(sign_len(s), int_end(s))
    }
}

/// The exponent, `0` where there is none.
pub open spec fn exp_value(s: Seq<char>) -> int {
    if !has_exp(s) {
        0
    } else {
        let v = digits_value(s.subrange(exp_start(s), exp_start(s) + exp_len(s))) as int;
        if exp_sign_len(s) == 1 && s[mant_end(s) + 1] == '-' {
            -v
        } else {
            v
        }
    }
}

pub open spec fn lead_zeros(s: Seq<char>) -> int {
    zero_run(mantissa(s), 0) as int
}

pub open spec fn trail_zeros(s: Seq<char>) -> int {
    back_zero_run(mantissa(s), mantissa(s).len() as int) as int
}

/// The number is zero: its mantissa holds no digit but `0`.
pub open spec fn is_zero_text(s: Seq<char>) -> bool {
    lead_zeros(s) == mantissa(s).len()
}

/// The significant digits: the mantissa without leading and trailing zeros.
pub open spec fn sig_len(s: Seq<char>) -> int {
    mantissa(s).len() - lead_zeros(s) - trail_zeros(s)
}

pub open spec fn sig_digits(s: Seq<char>) -> Seq<char> {
    mantissa(s).subrange(lead_zeros(s), lead_zeros(s) + sig_len(s))
}

/// Where the decimal point stands, counted from the first significant digit:
/// the value is `0.d1 d2 ... dk` times `10` to this power.
pub open spec fn lead_point(s: Seq<char>) -> int {
    int_len(s) + exp_value(s) - lead_zeros(s)
}

/// The length of the shortest plain decimal text of the number's absolute
/// value: no sign, no exponent, no leading zero but the one before a point,
/// no trailing zero after the point.
pub open spec fn abs_text_len(s: Seq<char>) -> int {
    if is_zero_text(s) {
        1
    } else if lead_point(s) <= 0 {
        2 - lead_point(s) + sig_len(s)
    } else if lead_point(s) < sig_len(s) {
        sig_len(s) + 1
    } else {
        lead_point(s)
    }
}

/// The number in millionths, where it is a whole number of them.
pub open spec fn micro_of(s: Seq<char>) -> int {
    let m = digits_value(sig_digits(s)) * pow10((lead_point(s) - sig_len(s) + 6) as nat);
    if is_negative(s) {
        -(m as int)
    } else {
        m as int
    }
}

/// `s`, after an optional sign, is `lower` with each letter in either case.
pub open spec fn matches_word(s: Seq<char>, at: int, lower: Seq<char>, upper: Seq<char>) -> bool {
    &&& s.len() - at == lower.len()
    &&& forall|i: int| 0 <= i < lower.len() ==> (s[at + i] == lower[i] || s[at + i] == upper[i])
}

/// `s` names an infinity or not-a-number, as a floating-point reader takes it.
pub open spec fn is_special_text(s: Seq<char>) -> bool {
    ||| matches_word(s, sign_len(s), seq!['i', 'n', 'f'], seq!['I', 'N', 'F'])
    ||| matches_word(
        s,
        sign_len(s),
        seq!['i', 'n', 'f', 'i', 'n', 'i', 't', 'y'],
        seq!['I', 'N', 'F', 'I', 'N', 'I', 'T', 'Y'],
    )
    ||| matches_word(s, sign_len(s), seq!['n', 'a', 'n'], seq!['N', 'A', 'N'])
}

/// An angle in millionths of a degree.
#[derive(Clone, Copy, Debug, PartialEq, Eq, Structural)]
pub struct Angle {
    pub micro: i64,
}

/// What one line of input gives when a coordinate is asked for.
#[derive(Clone, Copy, Debug, PartialEq, Eq, Structural)]
pub enum Reading {
    /// The line is no number.
    NotANumber,
    /// A number whose absolute value is not written in 7 or 8 characters.
    BadFormat,
    /// A number in the expected format.
    Accepted(Angle),
}

/// What `read_coordinate` returns for the text `s`.
pub open spec fn reading_of(s: Seq<char>) -> Reading {
    if is_number_text(s) {
        if 7 <= abs_text_len(s) <= 8 {
            Reading::Accepted(Angle { micro: micro_of(s) as i64 })
        } else {
            Reading::BadFormat
        }
    } else if is_special_text(s) {
        Reading::BadFormat
    } else {
        Reading::NotANumber
    }
}

/// The index just after the digits that start at `i`.
fn skip_digits(cs: &Vec<char>, i: usize) -> (j: usize)
    requires
        i <= cs@.len(),
    ensures
        j == i + digit_run(cs@, i as int),
        j <= cs@.len(),
        forall|k: int| i <= k < j ==> is_digit(#[trigger] cs@[k]),
{
    let mut j: usize = i;
    while j < cs.len() && '0' <= cs[j] && cs[j] <= '9'
        invariant
            i <= j <= cs@.len(),
            digit_run(cs@, i as int) == (j - i) + digit_run(cs@, j as int),
            forall|k: int| i <= k < j ==> is_digit(#[trigger] cs@[k]),
        decreases cs@.len() - j,
    {
        j = j + 1;
    }
    j
}


proof fn lemma_pow10_values()
    ensures
        pow10(1) == 10,
        pow10(8) == 100000000,
        pow10(14) == 100000000000000,
{
    reveal_with_fuel(pow10, 15);
}

proof fn lemma_pow10_mono(a: nat, b: nat)
    requires
        a <= b,
    ensures
        pow10(a) <= pow10(b),
    decreases b,
{
    if a < b {
        lemma_pow10_mono(a, (b - 1) as nat);
    }
}

proof fn lemma_digits_value_bound(d: Seq<char>)
    requires
        forall|k: int| 0 <= k < d.len() ==> is_digit(#[trigger] d[k]),
    ensures
        digits_value(d) < pow10(d.len()),
    decreases d.len(),
{
    if d.len() > 0 {
        let e = d.drop_last();
        assert forall|k: int| 0 <= k < e.len() implies is_digit(#[trigger] e[k]) by {
            assert(e[k] == d[k]);
        }
        lemma_digits_value_bound(e);
        assert(is_digit(d[d.len() - 1]));
    }
}

proof fn lemma_back_run_bound(d: Seq<char>, j: int, i: int)
    requires
        0 <= i < j <= d.len(),
        d[i] != '0',
    ensures
        back_zero_run(d, j) <= j - i - 1,
    decreases j,
{
    if d[j - 1] == '0' {
        lemma_back_run_bound(d, j - 1, i);
    }
}

/// The number of `'0'` at the front of `d`.
fn count_lead_zeros(d: &Vec<char>) -> (k: usize)
    ensures
        k == zero_run(d@, 0),
        k <= d@.len(),
        k < d@.len() ==> d@[k as int] != '0',
{
    let mut k: usize = 0;
    while k < d.len() && d[k] == '0'
        invariant
            k <= d@.len(),
            zero_run(d@, 0) == k + zero_run(d@, k as int),
        decreases d@.len() - k,
    {
        k = k + 1;
    }
    k
}

/// The number of `'0'` at the back of `d`.
fn count_trail_zeros(d: &Vec<char>) -> (k: usize)
    ensures
        k == back_zero_run(d@, d@.len() as int),
        k <= d@.len(),
{
    let mut j: usize = d.len();
    while j > 0 && d[j - 1] == '0'
        invariant
            j <= d@.len(),
            back_zero_run(d@, d@.len() as int) == (d@.len() - j) + back_zero_run(d@, j as int),
        decreases j,
    {
        j = j - 1;
    }
    d.len() - j
}

/// The number written by the digits `d[from..to]`, at most eight of them.
fn value_of(d: &Vec<char>, from: usize, to: usize) -> (r: u64)
    requires
        from <= to <= d@.len(),
        to - from <= 8,
        forall|k: int| from <= k < to ==> is_digit(#[trigger] d@[k]),
    ensures
        r == digits_value(d@.subrange(from as int, to as int)),
        r < pow10((to - from) as nat),
{
    let mut acc: u64 = 0;
    let mut k: usize = from;
    proof {
        lemma_pow10_values();
        assert(d@.subrange(from as int, from as int).len() == 0);
    }
    while k < to
        invariant
            from <= k <= to,
            to <= d@.len(),
            to - from <= 8,
            forall|k: int| from <= k < to ==> is_digit(#[trigger] d@[k]),
            acc == digits_value(d@.subrange(from as int, k as int)),
            acc < pow10((k - from) as nat),
            pow10(8) == 100000000,
        decreases to - k,
    {
        let ghost prev = d@.subrange(from as int, k as int);
        let ghost next = d@.subrange(from as int, k + 1);
        assert(next.drop_last() =~= prev);
        assert(next.last() == d@[k as int]);
        assert(is_digit(d@[k as int]));
        proof {
            lemma_pow10_mono((k - from) as nat, 7);
            reveal_with_fuel(pow10, 9);
        }
        let v = (d[k] as u32 - '0' as u32) as u64;
        acc = acc * 10 + v;
        k = k + 1;
    }
    acc
}

/// Whether `cs`, from `at` on, is `lower` with each letter in either case.
fn word_at(cs: &Vec<char>, at: usize, lower: &Vec<char>, upper: &Vec<char>) -> (r: bool)
    requires
        at <= cs@.len(),
        lower@.len() == upper@.len(),
    ensures
        r == matches_word(cs@, at as int, lower@, upper@),
{
    if cs.len() - at != lower.len() {
        return false;
    }
    let mut i: usize = 0;
    while i < lower.len()
        invariant
            at <= cs@.len() <= usize::MAX,
            cs@.len() - at == lower@.len(),
            lower@.len() == upper@.len(),
            i <= lower@.len(),
            forall|j: int|
                0 <= j < i ==> (cs@[at + j] == lower@[j] || cs@[at + j] == upper@[j]),
        decreases lower@.len() - i,
    {
        if cs[at + i] != lower[i] && cs[at + i] != upper[i] {
            return false;
        }
        i = i + 1;
    }
    true
}

/// `BadFormat` for an infinity or not-a-number, else `NotANumber`.
fn reading_of_word(cs: &Vec<char>, sl: usize) -> (r: Reading)
    requires
        sl == sign_len(cs@),
    ensures
        r == (if is_special_text(cs@) {
            Reading::BadFormat
        } else {
            Reading::NotANumber
        }),
{
    let inf_l = vec!['i', 'n', 'f'];
    let inf_u = vec!['I', 'N', 'F'];
    let infinity_l = vec!['i', 'n', 'f', 'i', 'n', 'i', 't', 'y'];
    let infinity_u = vec!['I', 'N', 'F', 'I', 'N', 'I', 'T', 'Y'];
    let nan_l = vec!['n', 'a', 'n'];
    let nan_u = vec!['N', 'A', 'N'];
    assert(inf_l@ =~= seq!['i', 'n', 'f']);
    assert(inf_u@ =~= seq!['I', 'N', 'F']);
    assert(infinity_l@ =~= seq!['i', 'n', 'f', 'i', 'n', 'i', 't', 'y']);
    assert(infinity_u@ =~= seq!['I', 'N', 'F', 'I', 'N', 'I', 'T', 'Y']);
    assert(nan_l@ =~= seq!['n', 'a', 'n']);
    assert(nan_u@ =~= seq!['N', 'A', 'N']);
    if word_at(cs, sl, &inf_l, &inf_u) || word_at(cs, sl, &infinity_l, &infinity_u) || word_at(
        cs,
        sl,
        &nan_l,
        &nan_u,
    ) {
        Reading::BadFormat
    } else {
        Reading::NotANumber
    }
}

/// Above this an exponent decides the format alone.
const EXP_CAP: u128 = 1000000000000000000000000000000;

/// The value of the digits `cs[from..to]` where it is at most `EXP_CAP`;
/// `None` where it is larger.
fn exponent_of(cs: &Vec<char>, from: usize, to: usize) -> (r: Option<u128>)
    requires
        from <= to <= cs@.len(),
        forall|k: int| from <= k < to ==> is_digit(#[trigger] cs@[k]),
    ensures
        match r {
            Some(e) => e == digits_value(cs@.subrange(from as int, to as int)) && e <= EXP_CAP,
            None => digits_value(cs@.subrange(from as int, to as int)) > EXP_CAP,
        },
{
    let mut acc: u128 = 0;
    let mut big = false;
    let mut k: usize = from;
    assert(cs@.subrange(from as int, from as int).len() == 0);
    while k < to
        invariant
            from <= k <= to,
            to <= cs@.len(),
            forall|k: int| from <= k < to ==> is_digit(#[trigger] cs@[k]),
            !big ==> acc == digits_value(cs@.subrange(from as int, k as int)) && acc <= EXP_CAP,
            big ==> digits_value(cs@.subrange(from as int, k as int)) > EXP_CAP,
        decreases to - k,
    {
        let ghost prev = cs@.subrange(from as int, k as int);
        let ghost next = cs@.subrange(from as int, k + 1);
        assert(next.drop_last() =~= prev);
        assert(next.last() == cs@[k as int]);
        assert(is_digit(cs@[k as int]));
        if !big {
            let v = (cs[k] as u32 - '0' as u32) as u128;
            let n = acc * 10 + v;
            if n > EXP_CAP {
                big = true;
            } else {
                acc = n;
            }
        }
        k = k + 1;
    }
    if big {
        None
    } else {
        Some(acc)
    }
}

/// The digits of `cs[sl..ie]`, then those of `cs[ie + 1..me]` where a point stands at `ie`.
fn collect_mantissa(cs: &Vec<char>, sl: usize, ie: usize, hp: bool, me: usize) -> (d: Vec<char>)
    requires
        sl == sign_len(cs@),
        ie == int_end(cs@),
        hp == has_point(cs@),
        me == mant_end(cs@),
        sl <= ie <= me <= cs@.len(),
    ensures
        d@ == mantissa(cs@),
{
    let ghost s = cs@;
    let mut d: Vec<char> = Vec::new();
    let mut k: usize = sl;
    while k < ie
        invariant
            sl <= k <= ie,
            ie <= s.len(),
            cs@ == s,
            d@ == s.subrange(sl as int, k as int),
        decreases ie - k,
    {
        d.push(cs[k]);
        k = k + 1;
    }
    if hp {
        let ghost head = d@;
        k = ie + 1;
        while k < me
            invariant
                ie + 1 <= k <= me,
                me <= s.len(),
                cs@ == s,
                d@ == head + s.subrange(ie + 1, k as int),
            decreases me - k,
        {
            d.push(cs[k]);
            k = k + 1;
        }
    }
    assert(d@ =~= mantissa(s));
    d
}

/// `sv` times `10` to the power `shift`, kept under `10` to the power `14`.
fn scale_up(sv: u64, sig: usize, shift: usize) -> (r: u64)
    requires
        sv < pow10(sig as nat),
        sig + shift <= 14,
    ensures
        r == sv * pow10(shift as nat),
        r < pow10(14),
{
    let mut acc: u64 = sv;
    let mut t: usize = 0;
    proof {
        lemma_pow10_values();
        assert(pow10(0) == 1);
    }
    while t < shift
        invariant
            t <= shift,
            sig + shift <= 14,
            acc == sv * pow10(t as nat),
            acc < pow10((sig + t) as nat),
            pow10(14) == 100000000000000,
        decreases shift - t,
    {
        proof {
            lemma_pow10_mono((sig + t) as nat, 13);
            assert(acc * 10 == sv * (10 * pow10(t as nat))) by (nonlinear_arith)
                requires
                    acc == sv * pow10(t as nat),
            ;
        }
        acc = acc * 10;
        t = t + 1;
    }
    proof {
        lemma_pow10_mono((sig + shift) as nat, 14);
    }
    acc
}

/// Reads one line given for a coordinate: a decimal number whose absolute
/// value, written out in plain decimal, takes 7 or 8 characters (such as
/// `12.3456` or `-123.4567`) is accepted, as the number of millionths of a
/// degree that it writes.
///
/// The number is taken exactly as written, every digit counted. A reader
/// that first rounds the text to a 64-bit float counts the digits of the
/// rounded value instead; the two differ only on texts with more than about
/// 17 significant digits (`1.2345670000000000001` rounds to `1.234567`,
/// which such a reader takes, while here it is `BadFormat`).
#[verifier::rlimit(40)]
pub fn read_coordinate(text: &str) -> (r: Reading)
    ensures
        r == reading_of(text@),
{
    let cs = chars_of(text);
    let ghost s = cs@;
    let n = cs.len();
    let sl: usize = if n > 0 && (cs[0] == '+' || cs[0] == '-') {
        1
    } else {
        0
    };
    let ie = skip_digits(&cs, sl);
    let hp = ie < n && cs[ie] == '.';
    let me = if hp {
        skip_digits(&cs, ie + 1)
    } else {
        ie
    };
    assert(ie == int_end(s));
    assert(hp == has_point(s));
    assert(me == mant_end(s));
    let fl = if hp {
        me - ie - 1
    } else {
        0
    };
    if ie - sl == 0 && fl == 0 {
        return reading_of_word(&cs, sl);
    }
    let he = me < n && (cs[me] == 'e' || cs[me] == 'E');
    assert(he == has_exp(s));
    let mut exp: Option<u128> = Some(0);
    let mut exp_neg = false;
    if he {
        let esl: usize = if me + 1 < n && (cs[me + 1] == '+' || cs[me + 1] == '-') {
            1
        } else {
            0
        };
        let es = me + 1 + esl;
        assert(es == exp_start(s));
        let ee = skip_digits(&cs, es);
        if ee == es || ee != n {
            return reading_of_word(&cs, sl);
        }
        exp = exponent_of(&cs, es, ee);
        exp_neg = esl == 1 && cs[me + 1] == '-';
    } else if me != n {
        return reading_of_word(&cs, sl);
    }
    assert(is_number_text(s));
    let d = collect_mantissa(&cs, sl, ie, hp, me);
    assert forall|k: int| 0 <= k < d@.len() implies is_digit(#[trigger] d@[k]) by {
        if k < ie - sl {
            assert(d@[k] == s[sl + k]);
        } else {
            assert(d@[k] == s[ie + 1 + k - (ie - sl)]);
        }
    }
    let neg = n > 0 && cs[0] == '-';
    proof {
        if he {
            if exp_neg {
                assert(exp_value(s) == -digits_value(
                    s.subrange(exp_start(s), exp_start(s) + exp_len(s)),
                ));
            }
        }
    }
    decide(&d, ie - sl, exp, exp_neg, neg, Ghost(s))
}

/// The reading of a number text `s` from its mantissa `d`, the number `il`
/// of digits before the point, and its exponent.
#[verifier::rlimit(40)]
fn decide(
    d: &Vec<char>,
    il: usize,
    exp: Option<u128>,
    exp_neg: bool,
    neg: bool,
    Ghost(s): Ghost<Seq<char>>,
) -> (r: Reading)
    requires
        is_number_text(s),
        d@ == mantissa(s),
        forall|k: int| 0 <= k < d@.len() ==> is_digit(#[trigger] d@[k]),
        il == int_len(s),
        neg == is_negative(s),
        match exp {
            Some(e) => (if exp_neg {
                -(e as int)
            } else {
                e as int
            }) == exp_value(s) && e <= EXP_CAP,
            None => if exp_neg {
                exp_value(s) < -EXP_CAP
            } else {
                exp_value(s) > EXP_CAP
            },
        },
    ensures
        r == reading_of(s),
{
    proof {
        lemma_pow10_values();
    }
    let m = d.len();
    let lz = count_lead_zeros(&d);
    if lz == m {
        return Reading::BadFormat;
    }
    let tz = count_trail_zeros(&d);
    proof {
        lemma_back_run_bound(d@, m as int, lz as int);
    }
    let sig = m - lz - tz;
    match exp {
        None => {
            // an exponent this large leaves the point far from every digit
            assert(abs_text_len(s) > 8);
            Reading::BadFormat
        },
        Some(e) => {
            let ev: i128 = if exp_neg {
                -(e as i128)
            } else {
                e as i128
            };
            let lp: i128 = il as i128 + ev - lz as i128;
            let len: i128 = if lp <= 0 {
                2 - lp + sig as i128
            } else if lp < sig as i128 {
                sig as i128 + 1
            } else {
                lp
            };
            assert(len == abs_text_len(s));
            if len < 7 || len > 8 {
                return Reading::BadFormat;
            }
            let sv = value_of(&d, lz, lz + sig);
            let shift = (lp - sig as i128 + 6) as usize;
            let acc = scale_up(sv, sig, shift);
            assert(sig_digits(s) == d@.subrange(lz as int, (lz + sig) as int));
            let micro: i64 = if neg {
                -(acc as i64)
            } else {
                acc as i64
            };
            Reading::Accepted(Angle { micro })
        },
    }
}

/// A latitude is taken only strictly between -90 and 90 degrees.
pub open spec fn latitude_ok(a: Angle) -> bool {
    -90000000 < a.micro < 90000000
}

/// A longitude is taken only strictly between -180 and 180 degrees.
pub open spec fn longitude_ok(a: Angle) -> bool {
    -180000000 < a.micro < 180000000
}

/// Whether `a` is a latitude: strictly between -90 and 90 degrees.
pub fn latitude_in_range(a: Angle) -> (r: bool)
    ensures
        r == latitude_ok(a),
{
    -90000000 < a.micro && a.micro < 90000000
}

/// Whether `a` is a longitude: strictly between -180 and 180 degrees.
pub fn longitude_in_range(a: Angle) -> (r: bool)
    ensures
        r == longitude_ok(a),
{
    -180000000 < a.micro && a.micro < 180000000
}

/// The character of the digit `v`.
pub open spec fn digit_char_of(v: nat) -> char {
    seq!['0', '1', '2', '3', '4', '5', '6', '7', '8', '9'][v as int]
}

/// The decimal digits of `n`, `"0"` for zero.
pub open spec fn nat_text(n: nat) -> Seq<char>
    decreases n,
{
    if n < 10 {
        seq![digit_char_of(n)]
    } else {
        nat_text(n / 10).push(digit_char_of(n % 10))
    }
}

/// The last `w` decimal digits of `f`, with leading zeros.
pub open spec fn padded_text(f: nat, w: nat) -> Seq<char>
    decreases w,
{
    if w == 0 {
        Seq::empty()
    } else {
        padded_text(f / 10, (w - 1) as nat).push(digit_char_of(f % 10))
    }
}

/// The digits after the point of the fraction `f / 10^w`, without trailing zeros.
pub open spec fn fraction_text(f: nat, w: nat) -> Seq<char>
    decreases w,
{
    if w == 0 || f == 0 {
        Seq::empty()
    } else if f % 10 == 0 {
        fraction_text(f / 10, (w - 1) as nat)
    } else {
        padded_text(f, w)
    }
}

pub open spec fn abs_micro(a: Angle) -> nat {
    if a.micro < 0 {
        (-a.micro) as nat
    } else {
        a.micro as nat
    }
}

/// The shortest plain decimal text of the angle in degrees: a minus sign
/// where it is negative, the whole degrees, and where the fraction is not
/// zero a point and its digits without trailing zeros.
pub open spec fn angle_text(a: Angle) -> Seq<char> {
    let sign = if a.micro < 0 {
        seq!['-']
    } else {
        Seq::empty()
    };
    let whole = nat_text(abs_micro(a) / 1000000);
    let frac = abs_micro(a) % 1000000;
    if frac == 0 {
        sign + whole
    } else {
        sign + whole + seq!['.'] + fraction_text(frac, 6)
    }
}

fn digit_of(v: u64) -> (c: char)
    requires
        v < 10,
    ensures
        c == digit_char_of(v as nat),
{
    match v {
        0 => '0',
        1 => '1',
        2 => '2',
        3 => '3',
        4 => '4',
        5 => '5',
        6 => '6',
        7 => '7',
        8 => '8',
        _ => '9',
    }
}

fn push_nat(v: &mut Vec<char>, n: u64)
    ensures
        final(v)@ == old(v)@ + nat_text(n as nat),
    decreases n,
{
    if n < 10 {
        v.push(digit_of(n));
    } else {
        push_nat(v, n / 10);
        v.push(digit_of(n % 10));
        assert(nat_text(n as nat) == nat_text((n / 10) as nat).push(digit_char_of((n % 10) as nat)));
    }
}

fn push_padded(v: &mut Vec<char>, f: u64, w: u64)
    ensures
        final(v)@ == old(v)@ + padded_text(f as nat, w as nat),
    decreases w,
{
    if w == 0 {
        assert(old(v)@ + padded_text(f as nat, 0) =~= old(v)@);
    } else {
        push_padded(v, f / 10, w - 1);
        v.push(digit_of(f % 10));
    }
}

fn push_fraction(v: &mut Vec<char>, f: u64, w: u64)
    ensures
        final(v)@ == old(v)@ + fraction_text(f as nat, w as nat),
    decreases w,
{
    if w == 0 || f == 0 {
        assert(old(v)@ + fraction_text(f as nat, w as nat) =~= old(v)@);
    } else if f % 10 == 0 {
        push_fraction(v, f / 10, w - 1);
    } else {
        push_padded(v, f, w);
    }
}

/// The angle in degrees, as plain decimal text (`-122.4194`).
pub fn angle_string(a: Angle) -> (r: String)
    ensures
        r@ == angle_text(a),
{
    let mut v: Vec<char> = Vec::new();
    if a.micro < 0 {
        v.push('-');
    }
    let am: u64 = if a.micro < 0 {
        (0 - (a.micro as i128)) as u64
    } else {
        a.micro as u64
    };
    push_nat(&mut v, am / 1000000);
    let frac = am % 1000000;
    if frac != 0 {
        v.push('.');
        push_fraction(&mut v, frac, 6);
    }
    assert(v@ =~= angle_text(a));
    string_of(&v)
}

} // verus!
