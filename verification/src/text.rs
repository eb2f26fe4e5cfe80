//! Reading the text of one table cell: surrounding whitespace and decimal
//! numerals.

use vstd::prelude::*;

verus! {

/// Whether `c` has the Unicode property `White_Space`.
pub open spec fn is_whitespace(c: char) -> bool {
    let u = c as u32;
    (0x09 <= u && u <= 0x0D) || u == 0x20 || u == 0x85 || u == 0xA0 || u == 0x1680 || (0x2000 <= u
        && u <= 0x200A) || u == 0x2028 || u == 0x2029 || u == 0x202F || u == 0x205F || u == 0x3000
}

/// `s` without its leading whitespace.
pub open spec fn trim_start(s: Seq<char>) -> Seq<char>
    decreases s.len(),
{
    if s.len() > 0 && is_whitespace(s[0]) {
        trim_start(s.drop_first())
    } else {
        s
    }
}

/// `s` without its trailing whitespace.
pub open spec fn trim_end(s: Seq<char>) -> Seq<char>
    decreases s.len(),
{
    if s.len() > 0 && is_whitespace(s.last()) {
        trim_end(s.drop_last())
    } else {
        s
    }
}

/// `s` without its leading and trailing whitespace.
pub open spec fn trimmed(s: Seq<char>) -> Seq<char> {
    trim_end(trim_start(s))
}

/// Whether `c` is one of the decimal digits `0` to `9`.
pub open spec fn is_digit(c: char) -> bool {
    0x30 <= c as u32 && c as u32 <= 0x39
}

/// The number that the digit `c` stands for.
pub open spec fn digit_value(c: char) -> int {
    c as u32 - 0x30
}

/// The number that has `v` written before the decimal digits `d`: `v`
/// followed by those digits, most significant first.
pub open spec fn append_digits(v: int, d: Seq<char>) -> int
    decreases d.len(),
{
    if d.len() == 0 {
        v
    } else {
        10 * append_digits(v, d.drop_last()) + digit_value(d.last())
    }
}

/// The position where the run of decimal digits that starts at `from` ends.
pub open spec fn digits_end(s: Seq<char>, from: int) -> int
    decreases s.len() - from,
{
    if 0 <= from < s.len() && is_digit(s[from]) {
        digits_end(s, from + 1)
    } else {
        from
    }
}

/// Whether `c` is a sign.
pub open spec fn is_sign(c: char) -> bool {
    c == '+' || c == '-'
}

/// Whether `c` introduces the exponent of a numeral.
pub open spec fn is_exponent_mark(c: char) -> bool {
    c == 'e' || c == 'E'
}

/// The length of the sign that `s` begins with: 1 or 0.
pub open spec fn sign_len(s: Seq<char>) -> int {
    if s.len() > 0 && is_sign(s[0]) {
        1
    } else {
        0
    }
}

/// Where the digits before the decimal point end.
pub open spec fn whole_end(s: Seq<char>) -> int {
    digits_end(s, sign_len(s))
}

/// Where the digits after the decimal point begin; where there is no point,
/// the end of the digits before it.
pub open spec fn fraction_start(s: Seq<char>) -> int {
    if whole_end(s) < s.len() && s[whole_end(s)] == '.' {
        whole_end(s) + 1
    } else {
        whole_end(s)
    }
}

/// Where the digits after the decimal point end.
pub open spec fn fraction_end(s: Seq<char>) -> int {
    if fraction_start(s) > whole_end(s) {
        digits_end(s, fraction_start(s))
    } else {
        fraction_start(s)
    }
}

/// The number of digits before and after the decimal point.
pub open spec fn digit_count(s: Seq<char>) -> int {
    (whole_end(s) - sign_len(s)) + (fraction_end(s) - fraction_start(s))
}

/// The number that the digits write with the decimal point left out.
pub open spec fn magnitude_of(s: Seq<char>) -> int {
    append_digits(
        append_digits(0, s.subrange(sign_len(s), whole_end(s))),
        s.subrange(fraction_start(s), fraction_end(s)),
    )
}

/// The exponent written from position `d` to the end of the text: zero where
/// the text ends at `d`; otherwise `e` or `E`, an optional sign and one or more
/// digits. Any other text writes none.
pub open spec fn written_exponent(s: Seq<char>, d: int) -> Option<int> {
    if d == s.len() {
        Some(0)
    } else if is_exponent_mark(s[d]) {
        let g = if d + 1 < s.len() && is_sign(s[d + 1]) {
            d + 2
        } else {
            d + 1
        };
        let h = digits_end(s, g);
        let written = append_digits(0, s.subrange(g, h));
        if h > g && h == s.len() {
            Some(if s[d + 1] == '-' {
                -written
            } else {
                written
            })
        } else {
            None
        }
    } else {
        None
    }
}

/// The number that a decimal numeral writes, as a pair `(m, e)` that stands
/// for `m * 10^e`.
///
/// A numeral is an optional sign; then digits, of which some may follow a
/// decimal point, with at least one digit before or after the point; then,
/// optionally, `e` or `E`, an optional sign and one or more digits. `m` is the
/// signed number that the digits write with the point left out, and `e` is the
/// written exponent less the number of digits after the point. Any other text,
/// such as `inf` or `NaN`, writes no number.
pub open spec fn numeral(s: Seq<char>) -> Option<(int, int)> {
    if digit_count(s) < 1 {
        None
    } else {
        match written_exponent(s, fraction_end(s)) {
            Some(e) => Some(
                (
                    if s[0] == '-' {
                        -magnitude_of(s)
                    } else {
                        magnitude_of(s)
                    },
                    e - (fraction_end(s) - fraction_start(s)),
                ),
            ),
            None => None,
        }
    }
}

/// A decimal number `mantissa * 10^exponent`, held exactly.
#[derive(Clone, Copy, Debug, PartialEq, Eq, Structural)]
pub struct Decimal {
    pub mantissa: i64,
    pub exponent: i32,
}

/// The largest magnitude of a mantissa.
pub const MAX_MANTISSA: i64 = 0x7fff_ffff_ffff_ffff;

/// The number that a numeral writes, where its mantissa and its exponent are
/// within the limits of [`Decimal`].
pub open spec fn small_numeral(s: Seq<char>) -> Option<Decimal> {
    match numeral(s) {
        Some((m, e)) => if -MAX_MANTISSA <= m <= MAX_MANTISSA && i32::MIN <= e <= i32::MAX {
            Some(Decimal { mantissa: m as i64, exponent: e as i32 })
        } else {
            None
        },
        None => None,
    }
}

/// Whether `c` has the Unicode property `White_Space`.
pub fn whitespace(c: char) -> (b: bool)
    ensures
        b == is_whitespace(c),
{
    let u: u32 = c as u32;
    (0x09 <= u && u <= 0x0D) || u == 0x20 || u == 0x85 || u == 0xA0 || u == 0x1680 || (0x2000 <= u
        && u <= 0x200A) || u == 0x2028 || u == 0x2029 || u == 0x202F || u == 0x205F || u == 0x3000
}

/// The text without its leading and trailing whitespace.
pub fn trim(text: &str) -> (r: &str)
    ensures
        r@ == trimmed(text@),
{
    let n: usize = text.unicode_len();
    let ghost s = text@;
    let mut start: usize = 0;
    assert(s.subrange(0, n as int) =~= s);
    while start < n && whitespace(text.get_char(start))
        invariant
            s == text@,
            n == s.len(),
            start <= n,
            trim_start(s) == trim_start(s.subrange(start as int, n as int)),
        decreases n - start,
    {
        assert(s.subrange(start as int, n as int).drop_first() =~= s.subrange(
            start as int + 1,
            n as int,
        ));
        start = start + 1;
    }
    let ghost lead = s.subrange(start as int, n as int);
    assert(trim_start(s) == lead);
    let mut end: usize = n;
    while end > start && whitespace(text.get_char(end - 1))
        invariant
            s == text@,
            n == s.len(),
            start <= end <= n,
            lead == s.subrange(start as int, n as int),
            trim_end(lead) == trim_end(s.subrange(start as int, end as int)),
        decreases end - start,
    {
        assert(s.subrange(start as int, end as int).drop_last() =~= s.subrange(
            start as int,
            end as int - 1,
        ));
        end = end - 1;
    }
    text.substring_char(start, end)
}

/// Whether two texts hold the same characters.
pub fn same_text(a: &str, b: &str) -> (r: bool)
    ensures
        r == (a@ == b@),
{
    let n: usize = a.unicode_len();
    if b.unicode_len() != n {
        return false;
    }
    let mut i: usize = 0;
    while i < n
        invariant
            n == a@.len(),
            n == b@.len(),
            i <= n,
            forall|j: int| 0 <= j < i ==> a@[j] == b@[j],
        decreases n - i,
    {
        if a.get_char(i) != b.get_char(i) {
            return false;
        }
        i = i + 1;
    }
    assert(a@ =~= b@);
    true
}

/// Appending digits to a number that is not negative does not make it smaller.
proof fn lemma_append_grows(v: int, d: Seq<char>)
    requires
        v >= 0,
        forall|i: int| 0 <= i < d.len() ==> is_digit(#[trigger] d[i]),
    ensures
        append_digits(v, d) >= v,
    decreases d.len(),
{
    if d.len() > 0 {
        lemma_append_grows(v, d.drop_last());
        assert(is_digit(d.last()));
    }
}

/// The run of digits that starts at `from` lies inside the text and holds
/// digits only.
proof fn lemma_digits_run(s: Seq<char>, from: int)
    requires
        0 <= from <= s.len(),
    ensures
        from <= digits_end(s, from) <= s.len(),
        forall|i: int| from <= i < digits_end(s, from) ==> is_digit(#[trigger] s[i]),
    decreases s.len() - from,
{
    if from < s.len() && is_digit(s[from]) {
        lemma_digits_run(s, from + 1);
    }
}

/// Reads the run of digits that starts at `from`, as the continuation of the
/// number `seed`. The result is the end of the run, the number read, and
/// whether that number exceeds `cap`; in that case the number is not given.
fn scan_digits(text: &str, from: usize, seed: u128, cap: u128) -> (r: (usize, u128, bool))
    requires
        from <= text@.len(),
        seed <= cap,
        cap <= 0x1_0000_0000_0000_0000_0000_0000_0000,
    ensures
        r.0 == digits_end(text@, from as int),
        from <= r.0 <= text@.len(),
        r.2 == (append_digits(seed as int, text@.subrange(from as int, r.0 as int)) > cap),
        !r.2 ==> r.1 == append_digits(seed as int, text@.subrange(from as int, r.0 as int)),
{
    let n: usize = text.unicode_len();
    let ghost s = text@;
    let mut i: usize = from;
    let mut value: u128 = seed;
    let mut over: bool = false;
    let mut stop: bool = false;
    assert(s.subrange(from as int, from as int) =~= Seq::<char>::empty());
    while i < n && !stop
        invariant
            s == text@,
            n == s.len(),
            from <= i <= n,
            cap <= 0x1_0000_0000_0000_0000_0000_0000_0000,
            stop ==> i < n && !is_digit(s[i as int]),
            digits_end(s, from as int) == digits_end(s, i as int),
            append_digits(seed as int, s.subrange(from as int, i as int)) >= 0,
            over == (append_digits(seed as int, s.subrange(from as int, i as int)) > cap),
            !over ==> value == append_digits(seed as int, s.subrange(from as int, i as int)),
        decreases n - i + (if stop { 0int } else { 1int }),
    {
        let c: char = text.get_char(i);
        let u: u32 = c as u32;
        if u < 0x30 || u > 0x39 {
            stop = true;
        } else {
            proof {
                let after = s.subrange(from as int, i as int + 1);
                assert(after.drop_last() =~= s.subrange(from as int, i as int));
                assert(after.last() == c);
            }
            if !over {
                value = value * 10 + (u - 0x30) as u128;
                if value > cap {
                    over = true;
                }
            }
            i = i + 1;
        }
    }
    (i, value, over)
}

/// What reading the digits of a numeral gives.
struct DigitScan {
    /// Where the digits end.
    end: usize,
    /// How many of them follow the decimal point.
    fraction_len: usize,
    /// How many there are.
    count: usize,
    /// The number they write; not given where it exceeds `MAX_MANTISSA`.
    magnitude: u128,
    over: bool,
}

/// Reads the sign and the digits of a numeral.
fn read_digits(text: &str) -> (r: DigitScan)
    ensures
        r.end == fraction_end(text@),
        r.end <= text@.len(),
        r.fraction_len == fraction_end(text@) - fraction_start(text@),
        r.count == digit_count(text@),
        r.over == (magnitude_of(text@) > MAX_MANTISSA),
        !r.over ==> r.magnitude == magnitude_of(text@),
{
    let n: usize = text.unicode_len();
    let ghost s = text@;
    let a: usize = if n > 0 && (text.get_char(0) == '+' || text.get_char(0) == '-') {
        1
    } else {
        0
    };
    let (b, whole, whole_over) = scan_digits(text, a, 0, MAX_MANTISSA as u128);
    let has_point: bool = b < n && text.get_char(b) == '.';
    if !has_point {
        assert(s.subrange(b as int, b as int) =~= Seq::<char>::empty());
        return DigitScan { end: b, fraction_len: 0, count: b - a, magnitude: whole, over: whole_over };
    }
    let c: usize = b + 1;
    if whole_over {
        let (d, _, _) = scan_digits(text, c, 0, MAX_MANTISSA as u128);
        proof {
            lemma_digits_run(s, c as int);
            let fraction = s.subrange(c as int, d as int);
            assert forall|i: int| 0 <= i < fraction.len() implies is_digit(
                #[trigger] fraction[i],
            ) by {
                assert(fraction[i] == s[c + i]);
            }
            lemma_append_grows(append_digits(0, s.subrange(a as int, b as int)), fraction);
        }
        DigitScan { end: d, fraction_len: d - c, count: (b - a) + (d - c), magnitude: 0, over: true }
    } else {
        let (d, magnitude, over) = scan_digits(text, c, whole, MAX_MANTISSA as u128);
        DigitScan { end: d, fraction_len: d - c, count: (b - a) + (d - c), magnitude, over }
    }
}

/// The largest magnitude of a written exponent that is read.
pub const MAX_WRITTEN: u128 = 0x1_0000_0000_0000_0000_0000_0000_0000;

/// Reads the exponent written from position `d` on. A written exponent whose
/// magnitude exceeds `MAX_WRITTEN` is not given.
fn read_exponent(text: &str, d: usize) -> (r: Option<i128>)
    requires
        d <= text@.len(),
    ensures
        match written_exponent(text@, d as int) {
            Some(e) => if -MAX_WRITTEN <= e <= MAX_WRITTEN {
                r == Some(e as i128)
            } else {
                r.is_none()
            },
            None => r.is_none(),
        },
{
    let n: usize = text.unicode_len();
    if d == n {
        return Some(0);
    }
    let mark: char = text.get_char(d);
    if mark != 'e' && mark != 'E' {
        return None;
    }
    let signed: bool = d + 1 < n && (text.get_char(d + 1) == '+' || text.get_char(d + 1) == '-');
    let g: usize = if signed {
        d + 2
    } else {
        d + 1
    };
    let (h, written, over) = scan_digits(text, g, 0, MAX_WRITTEN);
    if h == g || h != n {
        return None;
    }
    if over {
        return None;
    }
    if text.get_char(d + 1) == '-' {
        Some(-(written as i128))
    } else {
        Some(written as i128)
    }
}

/// Reads a decimal numeral. Text of any other form gives `None`, and so does a
/// numeral whose mantissa or exponent is outside the limits of [`Decimal`].
pub fn parse_decimal(text: &str) -> (r: Option<Decimal>)
    ensures
        r == small_numeral(text@),
{
    let digits = read_digits(text);
    if digits.count < 1 {
        return None;
    }
    let negative: bool = text.get_char(0) == '-';
    match read_exponent(text, digits.end) {
        None => None,
        Some(written) => {
            let exponent: i128 = written - digits.fraction_len as i128;
            if digits.over || exponent < i32::MIN as i128 || exponent > i32::MAX as i128 {
                None
            } else if negative {
                Some(Decimal { mantissa: -(digits.magnitude as i64), exponent: exponent as i32 })
            } else {
                Some(Decimal { mantissa: digits.magnitude as i64, exponent: exponent as i32 })
            }
        },
    }
}

} // verus!
