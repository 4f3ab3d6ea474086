//! Verified text conversions for the input and output instructions: the
//! decimal rendering used by the numeric output instruction, and the
//! whitespace-trimming base-10 parse used by the numeric input instruction.

use vstd::prelude::*;
use vstd::string::StrSliceExecFns;

verus! {

/// `10^n`.
pub open spec fn pow10(n: nat) -> int
    decreases n,
{
    if n == 0 {
        1
    } else {
        10 * pow10((n - 1) as nat)
    }
}

/// The decimal digits of `n`, most significant first, as ASCII bytes.
pub open spec fn dec_digits(n: nat) -> Seq<u8>
    decreases n,
{
    if n < 10 {
        seq![(48 + n) as u8]
    } else {
        dec_digits(n / 10).push((48 + n % 10) as u8)
    }
}

/// The bytes the numeric output instruction emits for `v`: its decimal
/// representation, a leading minus sign when negative, followed by one
/// space.
pub open spec fn numeric_output(v: int) -> Seq<u8> {
    if v < 0 {
        seq![45u8] + dec_digits((-v) as nat) + seq![32u8]
    } else {
        dec_digits(v as nat) + seq![32u8]
    }
}

/// Appends the decimal digits of `n` to `out`.
fn push_digits(n: u64, out: &mut Vec<u8>)
    ensures
        final(out)@ == old(out)@ + dec_digits(n as nat),
    decreases n,
{
    if n < 10 {
        out.push(48 + (n as u8));
        proof {
            assert(out@ =~= old(out)@ + dec_digits(n as nat));
        }
    } else {
        push_digits(n / 10, out);
        out.push(48 + ((n % 10) as u8));
        proof {
            assert(out@ =~= old(out)@ + dec_digits(n as nat));
        }
    }
}

/// Renders `v` exactly as the numeric output instruction emits it:
/// decimal digits, a minus sign when negative, and one trailing space.
pub fn render_number(v: i64) -> (r: Vec<u8>)
    ensures
        r@ == numeric_output(v as int),
{
    let mut out: Vec<u8> = Vec::new();
    let mag: u64;
    if v < 0 {
        out.push(45);
        mag = ((-(v + 1)) as u64) + 1;
    } else {
        mag = v as u64;
    }
    push_digits(mag, &mut out);
    out.push(32);
    proof {
        assert(out@ =~= numeric_output(v as int));
    }
    out
}

/// Whether `c` has the Unicode `White_Space` property, the notion of
/// whitespace that surrounding text is stripped of before a numeric parse.
pub open spec fn is_space(c: char) -> bool {
    let n = c as u32;
    (9 <= n && n <= 13) || n == 32 || n == 133 || n == 160 || n == 0x1680 || (0x2000 <= n && n
        <= 0x200A) || n == 0x2028 || n == 0x2029 || n == 0x202F || n == 0x205F || n == 0x3000
}

/// The sequence without its leading whitespace.
pub open spec fn trim_front(s: Seq<char>) -> Seq<char>
    decreases s.len(),
{
    if s.len() > 0 && is_space(s[0]) {
        trim_front(s.drop_first())
    } else {
        s
    }
}

/// The sequence without its trailing whitespace.
pub open spec fn trim_back(s: Seq<char>) -> Seq<char>
    decreases s.len(),
{
    if s.len() > 0 && is_space(s.last()) {
        trim_back(s.drop_last())
    } else {
        s
    }
}

/// The sequence without leading and trailing whitespace.
pub open spec fn trimmed(s: Seq<char>) -> Seq<char> {
    trim_back(trim_front(s))
}

/// Whether `c` is an ASCII decimal digit.
pub open spec fn is_digit(c: char) -> bool {
    48 <= c as u32 && c as u32 <= 57
}

/// The numeric value of an ASCII decimal digit.
pub open spec fn digit_val(c: char) -> int {
    c as u32 - 48
}

/// Whether every character of `s` is an ASCII decimal digit.
pub open spec fn all_digits(s: Seq<char>) -> bool {
    forall|k: int| 0 <= k < s.len() ==> is_digit(s[k])
}

/// The value of a digit string, most significant digit first.
pub open spec fn digits_val(s: Seq<char>) -> int
    decreases s.len(),
{
    if s.len() == 0 {
        0
    } else {
        digits_val(s.drop_last()) * 10 + digit_val(s.last())
    }
}

/// The mathematical integer a piece of trimmed text denotes: an optional
/// single sign followed by at least one ASCII digit. Anything else denotes
/// nothing.
pub open spec fn int_of_text(t: Seq<char>) -> Option<int> {
    if t.len() >= 1 && (t[0] as u32 == 43 || t[0] as u32 == 45) {
        if t.len() >= 2 && all_digits(t.drop_first()) {
            if t[0] as u32 == 45 {
                Some(-digits_val(t.drop_first()))
            } else {
                Some(digits_val(t.drop_first()))
            }
        } else {
            None
        }
    } else if t.len() >= 1 && all_digits(t) {
        Some(digits_val(t))
    } else {
        None
    }
}

/// What the numeric input instruction makes of a raw line: the line is
/// trimmed of surrounding whitespace and read as a base-10 integer; a
/// malformed line, and a value outside the signed 64-bit range, denote
/// nothing.
pub open spec fn parsed(line: Seq<char>) -> Option<i64> {
    match int_of_text(trimmed(line)) {
        Some(v) => if i64::MIN <= v <= i64::MAX {
            Some(v as i64)
        } else {
            None
        },
        None => None,
    }
}

/// Dropping a run of leading whitespace is what `trim_front` does.
proof fn lemma_trim_front_at(s: Seq<char>, k: int)
    requires
        0 <= k <= s.len(),
        forall|m: int| 0 <= m < k ==> is_space(s[m]),
        k == s.len() || !is_space(s[k]),
    ensures
        trim_front(s) == s.subrange(k, s.len() as int),
    decreases k,
{
    if k == 0 {
        assert(s.subrange(0, s.len() as int) =~= s);
    } else {
        let s1 = s.drop_first();
        lemma_trim_front_at(s1, k - 1);
        assert(s1.subrange(k - 1, s1.len() as int) =~= s.subrange(k, s.len() as int));
    }
}

/// Dropping a run of trailing whitespace is what `trim_back` does.
proof fn lemma_trim_back_at(s: Seq<char>, k: int)
    requires
        0 <= k <= s.len(),
        forall|m: int| k <= m < s.len() ==> is_space(s[m]),
        k == 0 || !is_space(s[k - 1]),
    ensures
        trim_back(s) == s.subrange(0, k),
    decreases s.len() - k,
{
    if k == s.len() {
        assert(s.subrange(0, k) =~= s);
    } else {
        let s1 = s.drop_last();
        lemma_trim_back_at(s1, k);
        assert(s1.subrange(0, k) =~= s.subrange(0, k));
    }
}

/// A digit string's value is nonnegative and below `10^len`.
proof fn lemma_digits_val_bounds(s: Seq<char>)
    requires
        all_digits(s),
    ensures
        0 <= digits_val(s) < pow10(s.len()),
    decreases s.len(),
{
    if s.len() > 0 {
        assert(all_digits(s.drop_last()));
        lemma_digits_val_bounds(s.drop_last());
        assert(is_digit(s.last()));
    }
}

/// A digit string that starts with a nonzero digit is at least
/// `10^(len-1)`.
proof fn lemma_digits_val_lower(s: Seq<char>)
    requires
        all_digits(s),
        s.len() >= 1,
        s[0] as u32 != 48,
    ensures
        digits_val(s) >= pow10((s.len() - 1) as nat),
    decreases s.len(),
{
    assert(is_digit(s[0]));
    if s.len() == 1 {
        assert(s.last() == s[0]);
        assert(s.drop_last().len() == 0);
        assert(digits_val(s.drop_last()) == 0);
        assert(pow10(0) == 1);
        assert(digits_val(s) == digit_val(s.last()));
    } else {
        let s1 = s.drop_last();
        assert(all_digits(s1));
        assert(s1[0] == s[0]);
        lemma_digits_val_lower(s1);
        assert(is_digit(s.last()));
        assert(digit_val(s.last()) >= 0);
        assert(pow10((s.len() - 1) as nat) == 10 * pow10((s.len() - 2) as nat));
    }
}

/// Leading zeros do not change a digit string's value.
proof fn lemma_digits_leading_zeros(s: Seq<char>, k: int)
    requires
        0 <= k <= s.len(),
        forall|m: int| 0 <= m < k ==> s[m] as u32 == 48,
    ensures
        digits_val(s) == digits_val(s.subrange(k, s.len() as int)),
    decreases s.len(),
{
    if k == s.len() {
        lemma_digits_all_zero(s);
        assert(s.subrange(k, s.len() as int) =~= Seq::<char>::empty());
    } else if s.len() > 0 {
        let s1 = s.drop_last();
        lemma_digits_leading_zeros(s1, k);
        assert(s.subrange(k, s.len() as int).drop_last() =~= s1.subrange(k, s1.len() as int));
        assert(s.subrange(k, s.len() as int).last() == s.last());
    } else {
        assert(s.subrange(k, s.len() as int) =~= s);
    }
}

/// A string of zero digits has value zero.
proof fn lemma_digits_all_zero(s: Seq<char>)
    requires
        forall|m: int| 0 <= m < s.len() ==> s[m] as u32 == 48,
    ensures
        digits_val(s) == 0,
    decreases s.len(),
{
    if s.len() > 0 {
        lemma_digits_all_zero(s.drop_last());
        assert(s.last() as u32 == 48);
    }
}

/// Ten raised to any power is positive.
proof fn lemma_pow10_pos(n: nat)
    ensures
        pow10(n) >= 1,
    decreases n,
{
    if n > 0 {
        lemma_pow10_pos((n - 1) as nat);
    }
}

/// `pow10` is monotone.
proof fn lemma_pow10_mono(m: nat, n: nat)
    requires
        m <= n,
    ensures
        pow10(m) <= pow10(n),
    decreases n,
{
    if m < n {
        lemma_pow10_mono(m, (n - 1) as nat);
        lemma_pow10_pos((n - 1) as nat);
    }
}

/// Whether `c` has the Unicode `White_Space` property.
fn is_space_char(c: char) -> (r: bool)
    ensures
        r == is_space(c),
{
    let n = c as u32;
    (9 <= n && n <= 13) || n == 32 || n == 133 || n == 160 || n == 0x1680 || (0x2000 <= n && n
        <= 0x200A) || n == 0x2028 || n == 0x2029 || n == 0x202F || n == 0x205F || n == 0x3000
}

/// Whether every cell of `cs` in `[d, b)` is an ASCII decimal digit.
fn check_digits(cs: &Vec<char>, d: usize, b: usize) -> (ok: bool)
    requires
        d <= b <= cs@.len(),
    ensures
        ok == all_digits(cs@.subrange(d as int, b as int)),
{
    let ghost t = cs@.subrange(d as int, b as int);
    let mut m = d;
    while m < b
        invariant
            d <= m <= b <= cs@.len(),
            t == cs@.subrange(d as int, b as int),
            forall|q: int| d <= q < m ==> is_digit(cs@[q]),
        decreases b - m,
    {
        let nq = cs[m] as u32;
        if nq < 48 || nq > 57 {
            proof {
                assert(t[m - d] == cs@[m as int]);
                assert(!is_digit(t[m - d]));
            }
            return false;
        }
        m = m + 1;
    }
    proof {
        assert forall|k: int| 0 <= k < t.len() implies is_digit(t[k]) by {
            assert(t[k] == cs@[d + k]);
        }
    }
    true
}

/// The index of the first cell in `[d, b)` that is not the zero digit.
fn skip_zeros(cs: &Vec<char>, d: usize, b: usize) -> (z: usize)
    requires
        d <= b <= cs@.len(),
    ensures
        d <= z <= b,
        forall|q: int| d <= q < z ==> cs@[q] as u32 == 48,
        z == b || cs@[z as int] as u32 != 48,
{
    let mut z = d;
    while z < b && cs[z] as u32 == 48
        invariant
            d <= z <= b <= cs@.len(),
            forall|q: int| d <= q < z ==> cs@[q] as u32 == 48,
        decreases b - z,
    {
        z = z + 1;
    }
    z
}

/// The value of the digit run `[z, b)` of `cs`; at most 19 digits fit
/// without overflow.
fn digits_value(cs: &Vec<char>, z: usize, b: usize) -> (acc: u64)
    requires
        z <= b <= cs@.len(),
        b - z <= 19,
        all_digits(cs@.subrange(z as int, b as int)),
    ensures
        acc == digits_val(cs@.subrange(z as int, b as int)),
{
    let ghost whole = cs@.subrange(z as int, b as int);
    let mut acc: u64 = 0;
    let mut q = z;
    while q < b
        invariant
            z <= q <= b <= cs@.len(),
            b - z <= 19,
            whole == cs@.subrange(z as int, b as int),
            all_digits(whole),
            acc == digits_val(cs@.subrange(z as int, q as int)),
        decreases b - q,
    {
        let ghost sofar = cs@.subrange(z as int, q as int);
        proof {
            reveal_with_fuel(pow10, 20);
            lemma_digits_val_bounds(sofar);
            lemma_pow10_mono(sofar.len() as nat, 18);
            assert(whole[q - z] == cs@[q as int]);
            assert(is_digit(cs@[q as int]));
            assert(sofar =~= whole.subrange(0, q - z));
            assert forall|k: int| 0 <= k < sofar.len() implies is_digit(sofar[k]) by {
                assert(sofar[k] == whole[k]);
            }
        }
        let dig = (cs[q] as u32 - 48) as u64;
        acc = acc * 10 + dig;
        q = q + 1;
        proof {
            let now = cs@.subrange(z as int, q as int);
            assert(now.drop_last() =~= sofar);
            assert(now.last() == cs@[q - 1]);
        }
    }
    proof {
        assert(cs@.subrange(z as int, b as int) =~= whole);
    }
    acc
}

/// Text with a character that is neither a digit nor a leading sign
/// denotes no integer.
proof fn lemma_int_of_text_none(t: Seq<char>, idx: int)
    requires
        0 <= idx < t.len(),
        !is_digit(t[idx]),
        idx >= 1 || !(t[0] as u32 == 43 || t[0] as u32 == 45),
    ensures
        int_of_text(t) is None,
{
    if t.len() >= 1 && (t[0] as u32 == 43 || t[0] as u32 == 45) {
        if t.len() >= 2 {
            assert(t.drop_first()[idx - 1] == t[idx]);
            assert(!all_digits(t.drop_first()));
        }
    } else {
        assert(!all_digits(t));
    }
}

/// Reads `s` as the numeric input instruction does: trims surrounding
/// whitespace, then parses an optional single sign followed by base-10
/// digits. Yields nothing on malformed text and on values outside the
/// signed 64-bit range.
#[verifier::rlimit(40)]
pub fn parse_i64(s: &str) -> (r: Option<i64>)
    ensures
        r == parsed(s@),
{
    let n = s.unicode_len();
    let mut cs: Vec<char> = Vec::new();
    let mut k: usize = 0;
    while k < n
        invariant
            k <= n,
            n == s@.len(),
            cs@ == s@.subrange(0, k as int),
        decreases n - k,
    {
        let c = s.get_char(k);
        cs.push(c);
        k = k + 1;
        proof {
            assert(cs@ =~= s@.subrange(0, k as int));
        }
    }
    proof {
        assert(cs@ =~= s@);
    }
    let mut a: usize = 0;
    while a < n && is_space_char(cs[a])
        invariant
            a <= n,
            n == s@.len(),
            cs@ == s@,
            forall|m: int| 0 <= m < a ==> is_space(s@[m]),
        decreases n - a,
    {
        a = a + 1;
    }
    let mut b: usize = n;
    while b > a && is_space_char(cs[b - 1])
        invariant
            a <= b <= n,
            n == s@.len(),
            cs@ == s@,
            forall|m: int| b <= m < n ==> is_space(s@[m]),
        decreases b,
    {
        b = b - 1;
    }
    let ghost t = s@.subrange(a as int, b as int);
    proof {
        lemma_trim_front_at(s@, a as int);
        let tf = s@.subrange(a as int, n as int);
        lemma_trim_back_at(tf, b - a);
        assert(tf.subrange(0, b - a) =~= t);
        assert(trimmed(s@) == t);
    }
    if a == b {
        return None;
    }
    let n0 = cs[a] as u32;
    let neg: bool;
    let d: usize;
    if n0 == 45 {
        neg = true;
        d = a + 1;
    } else if n0 == 43 {
        neg = false;
        d = a + 1;
    } else {
        neg = false;
        d = a;
    }
    proof {
        assert(t[0] == s@[a as int]);
    }
    if d == b {
        return None;
    }
    let ghost digits = s@.subrange(d as int, b as int);
    proof {
        if d == a {
            assert(digits =~= t);
        } else {
            assert(digits =~= t.drop_first());
        }
    }
    if !check_digits(&cs, d, b) {
        proof {
            let bad = choose|k: int| 0 <= k < digits.len() && !is_digit(digits[k]);
            assert(digits[bad] == t[bad + (d - a)]);
            lemma_int_of_text_none(t, bad + (d - a));
        }
        return None;
    }
    let z = skip_zeros(&cs, d, b);
    let ghost sig = s@.subrange(z as int, b as int);
    proof {
        lemma_digits_leading_zeros(digits, z - d);
        assert(digits.subrange(z - d, digits.len() as int) =~= sig);
        assert(digits_val(digits) == digits_val(sig));
        assert forall|k: int| 0 <= k < sig.len() implies is_digit(sig[k]) by {
            assert(sig[k] == digits[k + (z - d)]);
        }
    }
    if b - z > 19 {
        proof {
            reveal_with_fuel(pow10, 25);
            lemma_digits_val_lower(sig);
            lemma_pow10_mono(19, (sig.len() - 1) as nat);
            assert(digits_val(sig) >= pow10(19));
        }
        return None;
    }
    let acc = digits_value(&cs, z, b);
    proof {
        assert(s@.subrange(z as int, b as int) =~= sig);
        assert(acc == digits_val(digits));
    }
    if neg {
        proof {
            assert(int_of_text(t) == Some(-digits_val(digits)));
        }
        if acc > 9223372036854775808u64 {
            None
        } else if acc == 9223372036854775808u64 {
            Some(i64::MIN)
        } else {
            Some(-(acc as i64))
        }
    } else {
        proof {
            assert(int_of_text(t) == Some(digits_val(digits)));
        }
        if acc > 9223372036854775807u64 {
            None
        } else {
            Some(acc as i64)
        }
    }
}

} // verus!
