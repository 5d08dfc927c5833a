//! Decimal rendering and parsing of 64-bit integers, verified against
//! arithmetic specifications, and the trusted bridges to 64-bit float
//! parsing, rendering and comparison.

use vstd::prelude::*;
use crate::chars::string_from_chars;
use crate::Order;

verus! {

/// The digit character for a value below ten.
pub open spec fn digit_char(d: nat) -> char {
    if d == 0 { '0' }
    else if d == 1 { '1' }
    else if d == 2 { '2' }
    else if d == 3 { '3' }
    else if d == 4 { '4' }
    else if d == 5 { '5' }
    else if d == 6 { '6' }
    else if d == 7 { '7' }
    else if d == 8 { '8' }
    else { '9' }
}

/// The decimal digits of `n`, most significant first, without sign
/// or leading zeros (`0` renders as `"0"`).
pub open spec fn dec_digits(n: nat) -> Seq<char>
    decreases n,
{
    if n < 10 {
        seq![digit_char(n)]
    } else {
        dec_digits(n / 10).push(digit_char(n % 10))
    }
}

/// The decimal rendering of an integer, with a leading `-` when negative.
pub open spec fn dec_int(i: int) -> Seq<char> {
    if i < 0 {
        seq!['-'] + dec_digits((-i) as nat)
    } else {
        dec_digits(i as nat)
    }
}

fn digit_to_char(d: u64) -> (r: char)
    requires
        d < 10,
    ensures
        r == digit_char(d as nat),
{
    if d == 0 { '0' }
    else if d == 1 { '1' }
    else if d == 2 { '2' }
    else if d == 3 { '3' }
    else if d == 4 { '4' }
    else if d == 5 { '5' }
    else if d == 6 { '6' }
    else if d == 7 { '7' }
    else if d == 8 { '8' }
    else { '9' }
}

/// Renders `n` in decimal.
pub fn u64_to_chars(n: u64) -> (r: Vec<char>)
    ensures
        r@ == dec_digits(n as nat),
{
    if n == 0 {
        let mut acc: Vec<char> = Vec::new();
        acc.push('0');
        proof {
            assert(acc@ =~= dec_digits(0));
        }
        return acc;
    }
    let mut acc: Vec<char> = Vec::new();
    let mut cur: u64 = n;
    proof {
        assert(dec_digits(n as nat) =~= dec_digits(n as nat) + acc@);
    }
    while cur > 0
        invariant
            cur > 0 ==> dec_digits(n as nat) == dec_digits(cur as nat) + acc@,
            cur == 0 ==> dec_digits(n as nat) == acc@,
        decreases cur,
    {
        let d = cur % 10;
        let next = cur / 10;
        let c = digit_to_char(d);
        proof {
            if cur < 10 {
                assert(dec_digits(cur as nat) == seq![digit_char(cur as nat)]);
                assert(seq![c] =~= dec_digits(cur as nat));
                assert(acc@.insert(0, c) =~= dec_digits(cur as nat) + acc@);
            } else {
                assert(dec_digits(cur as nat)
                    == dec_digits((cur as nat) / 10).push(digit_char((cur as nat) % 10)));
                assert(acc@.insert(0, c) =~= seq![c] + acc@);
                assert(dec_digits((cur as nat) / 10) + (seq![c] + acc@)
                    =~= dec_digits((cur as nat) / 10).push(c) + acc@);
            }
        }
        acc.insert(0, c);
        cur = next;
    }
    acc
}

/// Renders `n` in decimal as a `String`.
pub fn u64_to_string(n: u64) -> (r: String)
    ensures
        r@ == dec_digits(n as nat),
{
    let v = u64_to_chars(n);
    string_from_chars(&v)
}

/// Renders `i` in decimal, with a leading `-` when negative.
pub fn i64_to_chars(i: i64) -> (r: Vec<char>)
    ensures
        r@ == dec_int(i as int),
{
    if i >= 0 {
        u64_to_chars(i as u64)
    } else {
        let mag: u64 = ((-(i as i128)) as u64);
        let digits = u64_to_chars(mag);
        let mut r: Vec<char> = Vec::new();
        r.push('-');
        let mut k: usize = 0;
        while k < digits.len()
            invariant
                k <= digits@.len(),
                r@ =~= seq!['-'] + digits@.subrange(0, k as int),
            decreases digits@.len() - k,
        {
            r.push(digits[k]);
            k += 1;
        }
        proof {
            assert(digits@.subrange(0, digits@.len() as int) =~= digits@);
            assert(r@ =~= dec_int(i as int));
        }
        r
    }
}

/// Renders `i` in decimal as a `String`.
pub fn i64_to_string(i: i64) -> (r: String)
    ensures
        r@ == dec_int(i as int),
{
    let v = i64_to_chars(i);
    string_from_chars(&v)
}

/// Whether `c` is an ASCII decimal digit.
pub open spec fn is_dec_digit(c: char) -> bool {
    '0' as u32 <= c as u32 && c as u32 <= '9' as u32
}

/// Decides `is_dec_digit`.
pub fn is_dec_digit_char(c: char) -> (r: bool)
    ensures
        r == is_dec_digit(c),
{
    let u = c as u32;
    '0' as u32 <= u && u <= '9' as u32
}

/// The numeric value of a digit character.
pub open spec fn digit_val(c: char) -> nat {
    (c as u32 - '0' as u32) as nat
}

/// The value of a run of decimal digits, most significant first.
pub open spec fn digits_val(s: Seq<char>) -> nat
    decreases s.len(),
{
    if s.len() == 0 {
        0
    } else {
        digits_val(s.drop_last()) * 10 + digit_val(s[s.len() - 1])
    }
}

/// Whether every character of `s` is an ASCII decimal digit.
pub open spec fn all_digits(s: Seq<char>) -> bool {
    forall|i: int| 0 <= i < s.len() ==> is_dec_digit(#[trigger] s[i])
}

/// The value `i64::from_str` yields on `s`: an optional sign followed by
/// at least one digit, with the value in range; anything else is `None`.
pub open spec fn parse_i64_spec(s: Seq<char>) -> Option<i64> {
    let neg = s.len() > 0 && s[0] == '-';
    let ds = if s.len() > 0 && (s[0] == '-' || s[0] == '+') { s.drop_first() } else { s };
    if ds.len() == 0 || !all_digits(ds) {
        None
    } else if neg {
        if digits_val(ds) <= 0x8000_0000_0000_0000 {
            Some((-(digits_val(ds) as int)) as i64)
        } else {
            None
        }
    } else {
        if digits_val(ds) <= 0x7fff_ffff_ffff_ffff {
            Some(digits_val(ds) as i64)
        } else {
            None
        }
    }
}

proof fn lemma_digits_val_prefix_grows(s: Seq<char>, k: int)
    requires
        0 <= k <= s.len(),
    ensures
        digits_val(s.subrange(0, k)) <= digits_val(s),
    decreases s.len() - k,
{
    if k < s.len() {
        lemma_digits_val_prefix_grows(s, k + 1);
        assert(s.subrange(0, k + 1).drop_last() =~= s.subrange(0, k));
        assert(digits_val(s.subrange(0, k + 1))
            == digits_val(s.subrange(0, k)) * 10 + digit_val(s[k]));
    } else {
        assert(s.subrange(0, k) =~= s);
    }
}

/// Parses the characters of `v` as `i64::from_str` would.
pub fn parse_i64(v: &Vec<char>) -> (r: Option<i64>)
    ensures
        r == parse_i64_spec(v@),
{
    let n = v.len();
    if n == 0 {
        return None;
    }
    let first = v[0];
    let neg = first == '-';
    let start: usize = if first == '-' || first == '+' { 1 } else { 0 };
    let ghost ds = if v@[0] == '-' || v@[0] == '+' { v@.drop_first() } else { v@ };
    proof {
        assert(ds =~= v@.subrange(start as int, n as int));
    }
    if start == n {
        return None;
    }
    let mut acc: u128 = 0;
    let mut i: usize = start;
    while i < n
        invariant
            start <= i <= n,
            n == v@.len(),
            start <= 1,
            (start == 1) == (v@[0] == '-' || v@[0] == '+'),
            neg == (v@[0] == '-'),
            ds == v@.subrange(start as int, n as int),
            all_digits(v@.subrange(start as int, i as int)),
            acc == digits_val(v@.subrange(start as int, i as int)),
            acc <= 0x8000_0000_0000_0000,
        decreases n - i,
    {
        let c = v[i];
        let u = c as u32;
        if u < '0' as u32 || u > '9' as u32 {
            proof {
                assert(ds[i - start] == v@[i as int]);
                assert(!is_dec_digit(ds[i - start]));
                assert(!all_digits(ds));
                assert(ds =~= (if v@.len() > 0 && (v@[0] == '-' || v@[0] == '+') {
                    v@.drop_first()
                } else {
                    v@
                }));
            }
            return None;
        }
        let d: u128 = (u - '0' as u32) as u128;
        proof {
            assert(v@.subrange(start as int, i as int + 1).drop_last()
                =~= v@.subrange(start as int, i as int));
        }
        acc = acc * 10 + d;
        i += 1;
        if acc > 0x8000_0000_0000_0000 {
            proof {
                lemma_digits_val_prefix_grows(ds, i - start);
                assert(ds.subrange(0, i - start) =~= v@.subrange(start as int, i as int));
                if all_digits(ds) {
                    assert(digits_val(ds) > 0x8000_0000_0000_0000);
                }
                assert(ds =~= (if v@.len() > 0 && (v@[0] == '-' || v@[0] == '+') {
                    v@.drop_first()
                } else {
                    v@
                }));
            }
            return None;
        }
    }
    proof {
        assert(v@.subrange(start as int, n as int) =~= ds);
        assert(ds =~= (if v@.len() > 0 && (v@[0] == '-' || v@[0] == '+') {
            v@.drop_first()
        } else {
            v@
        }));
    }
    if neg {
        if acc == 0x8000_0000_0000_0000 {
            Some(i64::MIN)
        } else {
            Some(-(acc as i64))
        }
    } else {
        if acc <= 0x7fff_ffff_ffff_ffff {
            Some(acc as i64)
        } else {
            None
        }
    }
}

/// The scanner state while checking the digit form of a float literal
/// (the part after the optional sign, when it is not one of the spelled
/// keywords).
#[derive(Clone, Copy, Debug, PartialEq, Eq, Structural)]
pub enum FloatScan {
    /// Nothing seen yet.
    MantStart,
    /// One or more integer-part digits seen.
    IntPart,
    /// A dot seen with no digit before it; a fraction digit is required.
    DotNoInt,
    /// Integer digits then a dot; already a valid literal.
    DotInt,
    /// At least one fraction digit seen; already a valid literal.
    FracPart,
    /// An exponent marker seen; a sign or digit is required.
    ExpStart,
    /// An exponent sign seen; a digit is required.
    ExpSign,
    /// One or more exponent digits seen; already a valid literal.
    ExpDigits,
    /// The text can no longer be a literal.
    Reject,
}

/// One step of the float-literal scanner.
pub open spec fn float_scan_step(st: FloatScan, c: char) -> FloatScan {
    match st {
        FloatScan::MantStart => {
            if is_dec_digit(c) { FloatScan::IntPart }
            else if c == '.' { FloatScan::DotNoInt }
            else { FloatScan::Reject }
        },
        FloatScan::IntPart => {
            if is_dec_digit(c) { FloatScan::IntPart }
            else if c == '.' { FloatScan::DotInt }
            else if c == 'e' || c == 'E' { FloatScan::ExpStart }
            else { FloatScan::Reject }
        },
        FloatScan::DotNoInt => {
            if is_dec_digit(c) { FloatScan::FracPart } else { FloatScan::Reject }
        },
        FloatScan::DotInt => {
            if is_dec_digit(c) { FloatScan::FracPart }
            else if c == 'e' || c == 'E' { FloatScan::ExpStart }
            else { FloatScan::Reject }
        },
        FloatScan::FracPart => {
            if is_dec_digit(c) { FloatScan::FracPart }
            else if c == 'e' || c == 'E' { FloatScan::ExpStart }
            else { FloatScan::Reject }
        },
        FloatScan::ExpStart => {
            if is_dec_digit(c) { FloatScan::ExpDigits }
            else if c == '+' || c == '-' { FloatScan::ExpSign }
            else { FloatScan::Reject }
        },
        FloatScan::ExpSign => {
            if is_dec_digit(c) { FloatScan::ExpDigits } else { FloatScan::Reject }
        },
        FloatScan::ExpDigits => {
            if is_dec_digit(c) { FloatScan::ExpDigits } else { FloatScan::Reject }
        },
        FloatScan::Reject => FloatScan::Reject,
    }
}

/// The scanner state after reading all of `s` from state `st`.
pub open spec fn float_scan(st: FloatScan, s: Seq<char>) -> FloatScan
    decreases s.len(),
{
    if s.len() == 0 {
        st
    } else {
        float_scan_step(float_scan(st, s.drop_last()), s[s.len() - 1])
    }
}

/// The states in which the scanned text is a complete literal.
pub open spec fn float_scan_accepts(st: FloatScan) -> bool {
    st == FloatScan::IntPart || st == FloatScan::DotInt || st == FloatScan::FracPart
        || st == FloatScan::ExpDigits
}

/// Case-insensitive ASCII equality of `a` against an all-lowercase word.
pub open spec fn eq_ascii_ci(a: Seq<char>, lower: Seq<char>) -> bool {
    a.len() == lower.len() && forall|i: int|
        0 <= i < a.len() ==> (#[trigger] a[i] == lower[i]
            || a[i] as u32 + 32 == lower[i] as u32)
}

/// Whether `s`, its optional sign stripped, spells one of the keywords
/// `inf`, `infinity`, `nan`, ignoring ASCII case.
pub open spec fn float_keyword(s: Seq<char>) -> bool {
    eq_ascii_ci(s, seq!['i', 'n', 'f'])
        || eq_ascii_ci(s, seq!['i', 'n', 'f', 'i', 'n', 'i', 't', 'y'])
        || eq_ascii_ci(s, seq!['n', 'a', 'n'])
}

/// Whether `s` is a 64-bit float literal as `str::parse` accepts it: an
/// optional sign, then either a spelled keyword or digits with an
/// optional fraction and exponent, exactly the grammar the standard
/// library documents for parsing floats.
pub open spec fn is_float_literal(s: Seq<char>) -> bool {
    let body = if s.len() > 0 && (s[0] == '+' || s[0] == '-') { s.drop_first() } else { s };
    float_keyword(body) || float_scan_accepts(float_scan(FloatScan::MantStart, body))
}

fn eq_ascii_ci_exec(a: &Vec<char>, start: usize, lower: &Vec<char>) -> (r: bool)
    requires
        start <= a@.len(),
    ensures
        r == eq_ascii_ci(a@.skip(start as int), lower@),
{
    let n = a.len();
    if n - start != lower.len() {
        return false;
    }
    let mut i: usize = 0;
    while i < lower.len()
        invariant
            start <= n,
            n == a@.len(),
            n - start == lower@.len(),
            i <= lower@.len(),
            forall|j: int|
                0 <= j < i ==> (#[trigger] a@.skip(start as int)[j] == lower@[j]
                    || a@.skip(start as int)[j] as u32 + 32 == lower@[j] as u32),
        decreases lower@.len() - i,
    {
        let ca = a[start + i];
        let cl = lower[i];
        let ca32 = ca as u32;
        let cl32 = cl as u32;
        proof {
            assert(a@.skip(start as int)[i as int] == a@[start + i]);
        }
        if !(ca == cl || (cl32 >= 32 && ca32 == cl32 - 32)) {
            return false;
        }
        i += 1;
    }
    true
}

/// Decides `is_float_literal` on a character vector.
pub fn is_float_literal_chars(v: &Vec<char>) -> (r: bool)
    ensures
        r == is_float_literal(v@),
{
    let n = v.len();
    let start: usize = if n > 0 && (v[0] == '+' || v[0] == '-') { 1 } else { 0 };
    let ghost body = if v@.len() > 0 && (v@[0] == '+' || v@[0] == '-') {
        v@.drop_first()
    } else {
        v@
    };
    proof {
        assert(body =~= v@.skip(start as int));
    }
    let kw_inf: Vec<char> = vec!['i', 'n', 'f'];
    let kw_infinity: Vec<char> = vec!['i', 'n', 'f', 'i', 'n', 'i', 't', 'y'];
    let kw_nan: Vec<char> = vec!['n', 'a', 'n'];
    if eq_ascii_ci_exec(v, start, &kw_inf) || eq_ascii_ci_exec(v, start, &kw_infinity)
        || eq_ascii_ci_exec(v, start, &kw_nan) {
        return true;
    }
    let mut st = FloatScan::MantStart;
    let mut i: usize = start;
    proof {
        assert(body.subrange(0, 0) =~= Seq::<char>::empty());
    }
    while i < n
        invariant
            start <= i <= n,
            n == v@.len(),
            body == v@.skip(start as int),
            st == float_scan(FloatScan::MantStart, body.subrange(0, i - start)),
        decreases n - i,
    {
        let c = v[i];
        let next = match st {
            FloatScan::MantStart => {
                if '0' as u32 <= c as u32 && c as u32 <= '9' as u32 { FloatScan::IntPart }
                else if c == '.' { FloatScan::DotNoInt }
                else { FloatScan::Reject }
            },
            FloatScan::IntPart => {
                if '0' as u32 <= c as u32 && c as u32 <= '9' as u32 { FloatScan::IntPart }
                else if c == '.' { FloatScan::DotInt }
                else if c == 'e' || c == 'E' { FloatScan::ExpStart }
                else { FloatScan::Reject }
            },
            FloatScan::DotNoInt => {
                if '0' as u32 <= c as u32 && c as u32 <= '9' as u32 { FloatScan::FracPart }
                else { FloatScan::Reject }
            },
            FloatScan::DotInt => {
                if '0' as u32 <= c as u32 && c as u32 <= '9' as u32 { FloatScan::FracPart }
                else if c == 'e' || c == 'E' { FloatScan::ExpStart }
                else { FloatScan::Reject }
            },
            FloatScan::FracPart => {
                if '0' as u32 <= c as u32 && c as u32 <= '9' as u32 { FloatScan::FracPart }
                else if c == 'e' || c == 'E' { FloatScan::ExpStart }
                else { FloatScan::Reject }
            },
            FloatScan::ExpStart => {
                if '0' as u32 <= c as u32 && c as u32 <= '9' as u32 { FloatScan::ExpDigits }
                else if c == '+' || c == '-' { FloatScan::ExpSign }
                else { FloatScan::Reject }
            },
            FloatScan::ExpSign => {
                if '0' as u32 <= c as u32 && c as u32 <= '9' as u32 { FloatScan::ExpDigits }
                else { FloatScan::Reject }
            },
            FloatScan::ExpDigits => {
                if '0' as u32 <= c as u32 && c as u32 <= '9' as u32 { FloatScan::ExpDigits }
                else { FloatScan::Reject }
            },
            FloatScan::Reject => FloatScan::Reject,
        };
        proof {
            assert(body.subrange(0, i - start + 1).drop_last() =~= body.subrange(0, i - start));
            assert(body.subrange(0, i - start + 1)[i - start] == v@[i as int]);
            assert(next == float_scan_step(st, v@[i as int]));
        }
        st = next;
        i += 1;
    }
    proof {
        assert(body.subrange(0, n - start) =~= body);
    }
    match st {
        FloatScan::IntPart => true,
        FloatScan::DotInt => true,
        FloatScan::FracPart => true,
        FloatScan::ExpDigits => true,
        _ => false,
    }
}

/// The canonical text of `s` read as a JSON number — the shortest
/// round-tripping decimal for a fractional value, the plain digits for an
/// integral one — or `None` when `s` is not a JSON number or denotes a
/// value outside the representable range; a function of the characters
/// alone.
pub uninterp spec fn json_number_text_of(s: Seq<char>) -> Option<Seq<char>>;

/// Relies on `serde_json::from_str::<serde_json::Number>` and the
/// `Display` rendering of `serde_json::Number`: reads the text as a JSON
/// number and renders the value it denotes canonically, refusing
/// anything out of range; the outcome depends on the characters alone.
#[verifier::external_body]
pub(crate) fn json_number_text(s: &str) -> (r: Option<String>)
    ensures
        r is Some <==> json_number_text_of(s@) is Some,
        r is Some ==> r.unwrap()@ == json_number_text_of(s@).unwrap(),
{
    serde_json::from_str::<serde_json::Number>(s).ok().map(|n| n.to_string())
}

/// The three-way comparison of two numeric texts by their 64-bit float
/// values, a text that is not a JSON number counting as zero and
/// incomparable values as equal: negative, zero or positive as the first
/// compares below, equal to or above the second. A function of the
/// characters alone.
pub uninterp spec fn float_cmp_of(a: Seq<char>, b: Seq<char>) -> int;

/// The comparison `float_cmp_of` denotes, as an `Order`.
pub open spec fn float_order(a: Seq<char>, b: Seq<char>) -> Order {
    if float_cmp_of(a, b) < 0 {
        Order::Less
    } else if float_cmp_of(a, b) == 0 {
        Order::Equal
    } else {
        Order::Greater
    }
}

/// Relies on `serde_json::from_str::<serde_json::Number>`,
/// `serde_json::Number::as_f64` and the partial comparison of 64-bit
/// floats: compares two numeric texts by float value, unreadable texts
/// counting as zero and incomparable values as equal, exactly as
/// `float_cmp_of` names the outcome.
#[verifier::external_body]
pub(crate) fn cmp_float_texts(a: &str, b: &str) -> (r: Order)
    ensures
        r == float_order(a@, b@),
        (r == Order::Less <==> float_cmp_of(a@, b@) < 0),
        (r == Order::Equal <==> float_cmp_of(a@, b@) == 0),
        (r == Order::Greater <==> float_cmp_of(a@, b@) > 0),
{
    let x = serde_json::from_str::<serde_json::Number>(a)
        .ok()
        .and_then(|n| n.as_f64())
        .unwrap_or_default();
    let y = serde_json::from_str::<serde_json::Number>(b)
        .ok()
        .and_then(|n| n.as_f64())
        .unwrap_or_default();
    match x.partial_cmp(&y) {
        Some(core::cmp::Ordering::Less) => Order::Less,
        Some(core::cmp::Ordering::Greater) => Order::Greater,
        _ => Order::Equal,
    }
}

} // verus!
