//! Coordinates as fixed-point micro-degrees: reading the decimal strings of
//! a location, moving them by a small random offset, and writing them back
//! with six decimal places.
use vstd::prelude::*;
use crate::text::{chars_of, is_digit};

verus! {

/// The largest offset, in micro-degrees, that a jittered axis moves by.
pub const JITTER: i64 = 150;

pub open spec fn pow10(n: nat) -> int
    decreases n,
{
    if n == 0 {
        1
    } else {
        10 * pow10((n - 1) as nat)
    }
}

pub open spec fn digit_val(c: char) -> int {
    c as int - '0' as int
}

pub open spec fn digit_char(d: int) -> char {
    (d + '0' as int) as char
}

/// The number that a string of decimal digits writes.
pub open spec fn digits_value(s: Seq<char>) -> int
    decreases s.len(),
{
    if s.len() == 0 {
        0
    } else {
        digits_value(s.drop_last()) * 10 + digit_val(s.last())
    }
}

pub open spec fn all_digits(s: Seq<char>) -> bool {
    forall|i: int| 0 <= i < s.len() ==> is_digit(#[trigger] s[i])
}

/// The length of the sign in front of `s`: one for `-` or `+`, else none.
pub open spec fn sign_len(s: Seq<char>) -> int {
    if s.len() > 0 && (s[0] == '-' || s[0] == '+') {
        1
    } else {
        0
    }
}

/// The position of the first `.` in `b`, or its length where it has none.
pub open spec fn first_dot(b: Seq<char>) -> int {
    if exists|i: int| 0 <= i < b.len() && b[i] == '.' && forall|j: int| 0 <= j < i ==> b[j] != '.' {
        choose|i: int| 0 <= i < b.len() && b[i] == '.' && forall|j: int| 0 <= j < i ==> b[j] != '.'
    } else {
        b.len() as int
    }
}

/// The digits in front of the point.
pub open spec fn int_part(s: Seq<char>) -> Seq<char> {
    let b = s.skip(sign_len(s));
    b.take(first_dot(b))
}

/// The digits after the point.
pub open spec fn frac_part(s: Seq<char>) -> Seq<char> {
    let b = s.skip(sign_len(s));
    if first_dot(b) < b.len() {
        b.skip(first_dot(b) + 1)
    } else {
        Seq::empty()
    }
}

/// `s` is a decimal number: an optional sign, digits, and at most one
/// point among them, with at least one digit and at most twelve in front
/// of the point.
pub open spec fn is_decimal(s: Seq<char>) -> bool {
    &&& all_digits(int_part(s))
    &&& all_digits(frac_part(s))
    &&& int_part(s).len() + frac_part(s).len() >= 1
    &&& int_part(s).len() <= 12
}

/// The value of a decimal string in micro-units (millionths), its
/// fraction cut after the sixth digit; 0 for a string that is no decimal.
pub open spec fn micro_of(s: Seq<char>) -> int {
    if is_decimal(s) {
        if sign_len(s) == 1 && s[0] == '-' {
            -micro_abs(s)
        } else {
            micro_abs(s)
        }
    } else {
        0
    }
}

/// How many digits of the fraction count: at most six.
pub open spec fn frac_len(s: Seq<char>) -> nat {
    if frac_part(s).len() <= 6 {
        frac_part(s).len()
    } else {
        6
    }
}

/// The size of a decimal in micro-units.
pub open spec fn micro_abs(s: Seq<char>) -> int {
    digits_value(int_part(s)) * 1_000_000 + digits_value(frac_part(s).take(frac_len(s) as int))
        * pow10((6 - frac_len(s)) as nat)
}

/// The decimal digits of `n`, with no leading zero.
pub open spec fn dec_text(n: nat) -> Seq<char>
    decreases n,
{
    if n < 10 {
        seq![digit_char(n as int)]
    } else {
        dec_text(n / 10) + seq![digit_char((n % 10) as int)]
    }
}

/// `r` written with exactly six digits.
pub open spec fn six_digits(r: nat) -> Seq<char> {
    Seq::new(6, |i: int| digit_char((r as int / pow10((5 - i) as nat)) % 10))
}

/// The text of `m` micro-units as a decimal with exactly six places.
pub open spec fn fixed6(m: int) -> Seq<char> {
    let a = if m < 0 { -m } else { m };
    (if m < 0 { "-"@ } else { ""@ }) + dec_text((a / 1_000_000) as nat) + "."@ + six_digits(
        (a % 1_000_000) as nat,
    )
}

proof fn lemma_digits_bound(s: Seq<char>)
    requires
        all_digits(s),
    ensures
        0 <= digits_value(s) < pow10(s.len()),
    decreases s.len(),
{
    if s.len() > 0 {
        assert(all_digits(s.drop_last())) by {
            assert forall|i: int| 0 <= i < s.drop_last().len() implies is_digit(#[trigger] s.drop_last()[i]) by {
                assert(is_digit(s[i]));
            }
        }
        lemma_digits_bound(s.drop_last());
        assert(is_digit(s[s.len() - 1]));
        let v = digits_value(s.drop_last());
        let p = pow10((s.len() - 1) as nat);
        let d = digit_val(s.last());
        assert(0 <= d <= 9);
        assert(v * 10 + d < p * 10) by (nonlinear_arith)
            requires 0 <= v < p, 0 <= d <= 9;
        assert(0 <= v * 10 + d) by (nonlinear_arith)
            requires 0 <= v, 0 <= d;
    }
}

/// The value of the digits `v[lo..hi]`.
fn digits_exec(v: &Vec<char>, lo: usize, hi: usize) -> (r: i64)
    requires
        lo <= hi <= v.len(),
        hi - lo <= 12,
        all_digits(v@.subrange(lo as int, hi as int)),
    ensures
        r == digits_value(v@.subrange(lo as int, hi as int)),
        0 <= r < pow10((hi - lo) as nat),
{
    let mut k: usize = lo;
    let mut r: i64 = 0;
    proof {
        lemma_pow10_values();
    }
    while k < hi
        invariant
            lo <= k <= hi <= v.len(),
            hi - lo <= 12,
            all_digits(v@.subrange(lo as int, hi as int)),
            pow10(12) == 1_000_000_000_000,
            r == digits_value(v@.subrange(lo as int, k as int)),
            0 <= r < pow10((k - lo) as nat),
        decreases hi - k,
    {
        let ghost pre = v@.subrange(lo as int, k as int);
        let ghost next = v@.subrange(lo as int, k + 1);
        assert(next.drop_last() =~= pre);
        assert(is_digit(v@.subrange(lo as int, hi as int)[k - lo]));
        assert(next.last() == v@[k as int]);
        let d = (v[k] as u32 - '0' as u32) as i64;
        proof {
            let p = pow10((k - lo) as nat);
            assert(p <= pow10(11)) by {
                lemma_pow10_mono((k - lo) as nat, 11);
            }
            lemma_pow10_values();
            assert(r * 10 + d < p * 10) by (nonlinear_arith)
                requires 0 <= r < p, 0 <= d <= 9;
        }
        r = r * 10 + d;
        k = k + 1;
    }
    r
}

proof fn lemma_pow10_values()
    ensures
        pow10(5) == 100_000,
        pow10(6) == 1_000_000,
        pow10(11) == 100_000_000_000,
        pow10(12) == 1_000_000_000_000,
{
    assert(pow10(0) == 1);
    assert(pow10(1) == 10);
    assert(pow10(2) == 100);
    assert(pow10(3) == 1000);
    assert(pow10(4) == 10_000);
    assert(pow10(5) == 100_000);
    assert(pow10(6) == 1_000_000);
    assert(pow10(7) == 10_000_000);
    assert(pow10(8) == 100_000_000);
    assert(pow10(9) == 1_000_000_000);
    assert(pow10(10) == 10_000_000_000);
    assert(pow10(11) == 100_000_000_000);
    assert(pow10(12) == 1_000_000_000_000);
}

proof fn lemma_pow10_mono(a: nat, b: nat)
    requires
        a <= b,
    ensures
        1 <= pow10(a) <= pow10(b),
    decreases b,
{
    if b > 0 {
        if a < b {
            lemma_pow10_mono(a, (b - 1) as nat);
        } else {
            lemma_pow10_mono((a - 1) as nat, (b - 1) as nat);
        }
    }
}

/// Where the parts of the decimal `s` lie in its characters `v`: the sign
/// length, the position of the point (or the end), and where the fraction
/// starts.
fn split_decimal(s: &str, v: &Vec<char>) -> (r: (usize, usize, usize))
    requires
        v@ == s@,
    ensures
        r.0 as int == sign_len(s@),
        r.0 <= r.1 <= v.len(),
        r.2 as int == (if r.1 < v.len() { r.1 + 1 } else { v.len() as int }),
        int_part(s@) == v@.subrange(r.0 as int, r.1 as int),
        frac_part(s@) == v@.subrange(r.2 as int, v.len() as int),
{
    let n = v.len();
    let sl: usize = if n > 0 && (v[0] == '-' || v[0] == '+') {
        1
    } else {
        0
    };
    let ghost b = s@.skip(sl as int);
    let mut d: usize = sl;
    while d < n && v[d] != '.'
        invariant
            v@ == s@,
            n == v@.len(),
            sl <= d <= n,
            forall|j: int| sl <= j < d ==> v@[j] != '.',
        decreases n - d,
    {
        d = d + 1;
    }
    let ghost dd = (d - sl) as int;
    assert(first_dot(b) == dd) by {
        if d < n {
            assert(b[dd] == '.');
            assert forall|j: int| 0 <= j < dd implies b[j] != '.' by {
                assert(b[j] == v@[sl + j]);
            }
            let i = choose|i: int|
                0 <= i < b.len() && b[i] == '.' && forall|j: int| 0 <= j < i ==> b[j] != '.';
            if i < dd {
                assert(b[i] == v@[sl + i]);
            }
            if dd < i {
                assert(b[dd] != '.');
            }
        } else {
            if exists|i: int|
                0 <= i < b.len() && b[i] == '.' && forall|j: int| 0 <= j < i ==> b[j] != '.' {
                let i = choose|i: int|
                    0 <= i < b.len() && b[i] == '.' && forall|j: int| 0 <= j < i ==> b[j] != '.';
                assert(b[i] == v@[sl + i]);
            }
        }
    }
    assert(int_part(s@) =~= v@.subrange(sl as int, d as int));
    let fs: usize = if d < n {
        d + 1
    } else {
        n
    };
    assert(frac_part(s@) =~= v@.subrange(fs as int, n as int));
    (sl, d, fs)
}

/// Whether `v[lo..hi]` holds digits only.
fn digits_only(v: &Vec<char>, lo: usize, hi: usize) -> (r: bool)
    requires
        lo <= hi <= v.len(),
    ensures
        r == all_digits(v@.subrange(lo as int, hi as int)),
{
    let mut k: usize = lo;
    while k < hi
        invariant
            lo <= k <= hi <= v.len(),
            forall|j: int| lo <= j < k ==> is_digit(#[trigger] v@[j]),
        decreases hi - k,
    {
        if !('0' <= v[k] && v[k] <= '9') {
            assert(v@.subrange(lo as int, hi as int)[k - lo] == v@[k as int]);
            return false;
        }
        k = k + 1;
    }
    assert forall|i: int| 0 <= i < hi - lo implies is_digit(#[trigger] v@.subrange(lo as int, hi as int)[i]) by {
        assert(v@.subrange(lo as int, hi as int)[i] == v@[lo + i]);
    }
    true
}

/// The value of a decimal string in micro-units, 0 where it is no decimal.
pub fn parse_micro(s: &str) -> (r: i64)
    ensures
        r == micro_of(s@),
{
    let v = chars_of(s);
    let n = v.len();
    let (sl, d, fs) = split_decimal(s, &v);
    let ok = digits_only(&v, sl, d) && digits_only(&v, fs, n);
    let ilen = d - sl;
    let flen = n - fs;
    if !ok || ilen + flen < 1 || ilen > 12 {
        return 0;
    }
    let ip = digits_exec(&v, sl, d);
    let m: usize = if flen <= 6 {
        flen
    } else {
        6
    };
    proof {
        assert(frac_part(s@).take(m as int) =~= v@.subrange(fs as int, (fs + m) as int));
        assert(all_digits(v@.subrange(fs as int, (fs + m) as int))) by {
            assert forall|i: int| 0 <= i < m implies is_digit(#[trigger] v@.subrange(fs as int, (fs + m) as int)[i]) by {
                assert(frac_part(s@)[i] == v@[fs + i]);
            }
        }
    }
    let fp = digits_exec(&v, fs, fs + m);
    let mut scale: i64 = 1;
    let mut q: usize = m;
    while q < 6
        invariant
            m <= q <= 6,
            scale == pow10((q - m) as nat),
            1 <= scale <= 1_000_000,
        decreases 6 - q,
    {
        proof {
            lemma_pow10_mono((q - m) as nat, 5);
            lemma_pow10_values();
        }
        scale = scale * 10;
        q = q + 1;
    }
    proof {
        lemma_micro_bound(s@);
    }
    let val = ip * 1_000_000 + fp * scale;
    if sl == 1 && v[0] == '-' {
        -val
    } else {
        val
    }
}

/// The text of one decimal digit.
fn digit_str(d: u64) -> (r: &'static str)
    requires
        d < 10,
    ensures
        r@ == seq![digit_char(d as int)],
{
    proof {
        reveal_strlit("0");
        reveal_strlit("1");
        reveal_strlit("2");
        reveal_strlit("3");
        reveal_strlit("4");
        reveal_strlit("5");
        reveal_strlit("6");
        reveal_strlit("7");
        reveal_strlit("8");
        reveal_strlit("9");
    }
    let r = if d == 0 {
        "0"
    } else if d == 1 {
        "1"
    } else if d == 2 {
        "2"
    } else if d == 3 {
        "3"
    } else if d == 4 {
        "4"
    } else if d == 5 {
        "5"
    } else if d == 6 {
        "6"
    } else if d == 7 {
        "7"
    } else if d == 8 {
        "8"
    } else {
        "9"
    };
    assert(r@ =~= seq![digit_char(d as int)]);
    r
}

/// The decimal digits of `n`.
fn dec_string(n: u64) -> (r: String)
    ensures
        r@ == dec_text(n as nat),
    decreases n,
{
    if n < 10 {
        String::from_str(digit_str(n))
    } else {
        dec_string(n / 10).concat(digit_str(n % 10))
    }
}

/// `m` micro-units as a decimal with exactly six places.
pub fn format_micro(m: i64) -> (r: String)
    requires
        m > i64::MIN,
    ensures
        r@ == fixed6(m as int),
{
    let a: u64 = if m < 0 {
        (-m) as u64
    } else {
        m as u64
    };
    let mut r = if m < 0 {
        String::from_str("-")
    } else {
        String::from_str("")
    };
    r = r.concat(dec_string(a / 1_000_000).as_str());
    r = r.concat(".");
    let frac = a % 1_000_000;
    let ghost start = r@;
    let mut p: u64 = 100_000;
    let mut i: usize = 0;
    proof {
        lemma_pow10_values();
    }
    while i < 6
        invariant
            i <= 6,
            frac < 1_000_000,
            p == pow10((5 - i) as nat) || (i == 6 && p == 0),
            i < 6 ==> p == pow10((5 - i) as nat),
            r@ == start + six_digits(frac as nat).take(i as int),
        decreases 6 - i,
    {
        proof {
            lemma_pow10_mono(0, (5 - i) as nat);
        }
        let d = (frac / p) % 10;
        r = r.concat(digit_str(d));
        assert(six_digits(frac as nat).take(i + 1) =~= six_digits(frac as nat).take(i as int) + seq![digit_char(d as int)]);
        proof {
            if i < 5 {
                assert(pow10((5 - i) as nat) == 10 * pow10((5 - (i + 1)) as nat));
            }
        }
        p = p / 10;
        i = i + 1;
    }
    assert(six_digits(frac as nat).take(6) =~= six_digits(frac as nat));
    r
}

/// Relies on rand's `thread_rng` and `Rng::gen_range` over an inclusive
/// range: a value drawn from it.
#[verifier::external_body]
pub(crate) fn random_between(lo: i64, hi: i64) -> (r: i64)
    requires
        lo <= hi,
    ensures
        lo <= r <= hi,
{
    rand::Rng::gen_range(&mut rand::thread_rng(), lo..=hi)
}

/// The text of the decimal `base` moved by `offset` micro-units.
pub fn shifted(base: &str, offset: i64) -> (r: String)
    requires
        -JITTER <= offset <= JITTER,
    ensures
        r@ == fixed6(micro_of(base@) + offset),
{
    let m = parse_micro(base);
    proof {
        if is_decimal(base@) {
            lemma_micro_bound(base@);
        }
    }
    format_micro(m + offset)
}

proof fn lemma_micro_bound(s: Seq<char>)
    requires
        is_decimal(s),
    ensures
        0 <= micro_abs(s) <= 1_000_001_000_000_000_000,
{
    let f = frac_part(s);
    let m = frac_len(s);
    lemma_digits_bound(int_part(s));
    assert(all_digits(f.take(m as int))) by {
        assert forall|i: int| 0 <= i < f.take(m as int).len() implies is_digit(#[trigger] f.take(m as int)[i]) by {
            assert(is_digit(f[i]));
        }
    }
    lemma_digits_bound(f.take(m as int));
    lemma_pow10_mono(int_part(s).len(), 12);
    lemma_pow10_mono(m, 6);
    lemma_pow10_mono((6 - m) as nat, 6);
    lemma_pow10_values();
    let a = digits_value(int_part(s));
    let b = digits_value(f.take(m as int));
    let c = pow10((6 - m) as nat);
    assert(0 <= a * 1_000_000 <= 1_000_000_000_000 * 1_000_000) by (nonlinear_arith)
        requires 0 <= a <= 1_000_000_000_000;
    assert(0 <= b * c <= 1_000_000 * 1_000_000) by (nonlinear_arith)
        requires 0 <= b <= 1_000_000, 0 <= c <= 1_000_000;
}

/// `out` is the text, with six decimal places, of the decimal `base` moved
/// by at most 150 micro-units either way.
pub open spec fn jittered(base: Seq<char>, out: Seq<char>) -> bool {
    exists|a: int| -JITTER <= a <= JITTER && out == #[trigger] fixed6(micro_of(base) + a)
}

/// A fresh jitter of the position `(lat, lng)`: each axis moved by its own
/// random offset of at most 150 micro-degrees and written with six decimal
/// places. A coordinate that is no decimal counts as 0.
pub fn random_coordinate(lat: &str, lng: &str) -> (r: (String, String))
    ensures
        jittered(lat@, r.0@),
        jittered(lng@, r.1@),
{
    let a = random_between(-JITTER, JITTER);
    let b = random_between(-JITTER, JITTER);
    let la = shifted(lat, a);
    let lb = shifted(lng, b);
    assert(la@ == fixed6(micro_of(lat@) + a as int));
    assert(lb@ == fixed6(micro_of(lng@) + b as int));
    (la, lb)
}

proof fn lemma_fixed6_shape(m: int)
    ensures
        fixed6(m).len() >= 8,
        fixed6(m)[fixed6(m).len() - 7] == '.',
        all_digits(fixed6(m).skip(fixed6(m).len() - 6)),
{
    let a = if m < 0 { -m } else { m };
    let r = (a % 1_000_000) as nat;
    let sign = if m < 0 { "-"@ } else { ""@ };
    let head = sign + dec_text((a / 1_000_000) as nat) + "."@;
    reveal_strlit(".");
    reveal_strlit("-");
    reveal_strlit("");
    lemma_dec_text_nonempty((a / 1_000_000) as nat);
    let t = fixed6(m);
    assert(t == head + six_digits(r));
    assert(t.skip(t.len() - 6) =~= six_digits(r));
    assert(t[t.len() - 7] == head.last());
    assert forall|i: int| 0 <= i < 6 implies is_digit(#[trigger] six_digits(r)[i]) by {
        lemma_pow10_mono(0, (5 - i) as nat);
        let d = (r as int / pow10((5 - i) as nat)) % 10;
        assert(0 <= d <= 9);
    }
}

proof fn lemma_dec_text_nonempty(n: nat)
    ensures
        dec_text(n).len() >= 1,
    decreases n,
{
    if n >= 10 {
        lemma_dec_text_nonempty(n / 10);
    }
}

proof fn lemma_dec_text_value(n: nat)
    ensures
        all_digits(dec_text(n)),
        digits_value(dec_text(n)) == n,
        forall|j: int| 0 <= j < dec_text(n).len() ==> #[trigger] dec_text(n)[j] != '.',
    decreases n,
{
    if n < 10 {
        let t = dec_text(n);
        assert(t.drop_last() =~= Seq::<char>::empty());
        assert(digits_value(t.drop_last()) == 0);
        assert(t.last() == digit_char(n as int));
        assert(digit_val(digit_char(n as int)) == n);
        assert(is_digit(t[0]));
    } else {
        lemma_dec_text_value(n / 10);
        let t = dec_text(n);
        assert(t.drop_last() =~= dec_text(n / 10));
        assert(t.last() == digit_char((n % 10) as int));
        assert(digit_val(digit_char((n % 10) as int)) == n % 10);
        assert(n == (n / 10) * 10 + n % 10);
        assert forall|j: int| 0 <= j < t.len() implies is_digit(#[trigger] t[j]) && t[j] != '.' by {
            if j < t.len() - 1 {
                assert(t[j] == dec_text(n / 10)[j]);
            }
        }
    }
}

proof fn lemma_dec_text_len(n: nat, k: nat)
    requires
        k >= 1,
        n < pow10(k),
    ensures
        dec_text(n).len() <= k,
    decreases n,
{
    if n >= 10 {
        assert(k >= 2) by {
            lemma_pow10_values();
            if k == 1 {
                assert(pow10(1) == 10);
            }
        }
        assert(n / 10 < pow10((k - 1) as nat));
        lemma_dec_text_len(n / 10, (k - 1) as nat);
    }
}

proof fn lemma_six_digits_value(r: nat, j: int)
    requires
        r < 1_000_000,
        0 <= j <= 6,
    ensures
        digits_value(six_digits(r).take(j)) == r as int / pow10((6 - j) as nat),
    decreases j,
{
    lemma_pow10_values();
    if j == 0 {
        assert(six_digits(r).take(0) =~= Seq::<char>::empty());
        assert(r < pow10(6));
    } else {
        lemma_six_digits_value(r, j - 1);
        let t = six_digits(r).take(j);
        assert(t.drop_last() =~= six_digits(r).take(j - 1));
        let p = pow10((6 - j) as nat);
        lemma_pow10_mono(0, (6 - j) as nat);
        assert(pow10((6 - (j - 1)) as nat) == 10 * p);
        let d = (r as int / p) % 10;
        assert(digit_val(digit_char(d)) == d);
        let x = r as int;
        assert(t.last() == digit_char(d));
        assert(digits_value(t) == digits_value(six_digits(r).take(j - 1)) * 10 + d);
        vstd::arithmetic::div_mod::lemma_div_denominator(x, p, 10);
        vstd::arithmetic::div_mod::lemma_fundamental_div_mod(x / p, 10);
        assert(p * 10 == 10 * p);
        assert(x / (10 * p) == (x / p) / 10);
        assert(((x / p) / 10) * 10 + d == x / p);
    }
}

/// Reading back a value written with six places gives the value, for any
/// value under a million million whole units.
#[verifier::rlimit(60)]
pub proof fn fixed6_reads_back(m: int)
    requires
        -1_000_000_000_000_000_000 < m < 1_000_000_000_000_000_000,
    ensures
        micro_of(fixed6(m)) == m,
{
    let a = if m < 0 { -m } else { m };
    let q = (a / 1_000_000) as nat;
    let r = (a % 1_000_000) as nat;
    let sign = if m < 0 { "-"@ } else { ""@ };
    reveal_strlit(".");
    reveal_strlit("-");
    reveal_strlit("");
    let dt = dec_text(q);
    lemma_dec_text_value(q);
    lemma_pow10_values();
    assert(q < pow10(12));
    lemma_dec_text_len(q, 12);
    lemma_dec_text_nonempty(q);
    let t = fixed6(m);
    let sd = six_digits(r);
    assert(t =~= sign + dt + seq!['.'] + sd);
    let sl = if m < 0 { 1int } else { 0int };
    assert(sign_len(t) == sl) by {
        if m >= 0 {
            assert(t[0] == dt[0]);
            assert(is_digit(dt[0]));
        }
    }
    let b = t.skip(sl);
    assert(b =~= dt + seq!['.'] + sd);
    let dd = dt.len() as int;
    assert(first_dot(b) == dd) by {
        assert(b[dd] == '.');
        assert forall|j: int| 0 <= j < dd implies b[j] != '.' by {
            assert(b[j] == dt[j]);
        }
        let i = choose|i: int| 0 <= i < b.len() && b[i] == '.' && forall|j: int| 0 <= j < i ==> b[j] != '.';
        if i < dd {
            assert(b[i] == dt[i]);
        }
        if dd < i {
            assert(b[dd] != '.');
        }
    }
    assert(int_part(t) =~= dt);
    assert(frac_part(t) =~= sd);
    assert(all_digits(sd)) by {
        lemma_fixed6_shape(m);
        assert(t.skip(t.len() - 6) =~= sd);
    }
    assert(frac_len(t) == 6);
    assert(sd.take(6) =~= sd);
    lemma_six_digits_value(r, 6);
    assert(pow10(0) == 1);
    assert(a == q * 1_000_000 + r);
}

/// A jittered coordinate is written with a point and exactly six digits
/// after it, and reads back as a value at most 150 micro-units from the
/// value of the coordinate it was drawn from (read to six places), for a
/// coordinate with at most eleven digits in front of its point.
pub proof fn jitter_stays_close(base: Seq<char>, out: Seq<char>)
    requires
        jittered(base, out),
        int_part(base).len() <= 11,
    ensures
        micro_of(base) - JITTER <= micro_of(out) <= micro_of(base) + JITTER,
        out.len() >= 8,
        out[out.len() - 7] == '.',
        all_digits(out.skip(out.len() - 6)),
{
    let a = choose|a: int| -JITTER <= a <= JITTER && out == #[trigger] fixed6(micro_of(base) + a);
    lemma_fixed6_shape(micro_of(base) + a);
    if is_decimal(base) {
        lemma_micro_bound(base);
        lemma_digits_bound(int_part(base));
        lemma_pow10_mono(int_part(base).len(), 11);
        lemma_pow10_values();
        let f = frac_part(base);
        let m = frac_len(base);
        assert(all_digits(f.take(m as int))) by {
            assert forall|i: int| 0 <= i < f.take(m as int).len() implies is_digit(#[trigger] f.take(m as int)[i]) by {
                assert(is_digit(f[i]));
            }
        }
        lemma_digits_bound(f.take(m as int));
        lemma_pow10_mono(m, 6);
        lemma_pow10_mono((6 - m) as nat, 6);
        let x = digits_value(int_part(base));
        let y = digits_value(f.take(m as int));
        let c = pow10((6 - m) as nat);
        assert(x * 1_000_000 <= 100_000_000_000 * 1_000_000) by (nonlinear_arith)
            requires 0 <= x <= 100_000_000_000;
        assert(0 <= y * c <= 1_000_000 * 1_000_000) by (nonlinear_arith)
            requires 0 <= y <= 1_000_000, 0 <= c <= 1_000_000;
    }
    fixed6_reads_back(micro_of(base) + a);
}

} // verus!
