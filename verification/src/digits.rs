//! Decimal numerals (as `str::parse` and `Display` read and write them) and
//! UTF-8 byte lengths.
use vstd::prelude::*;

verus! {

/// An ASCII decimal digit.
pub open spec fn is_digit(c: char) -> bool {
    '0' <= c && c <= '9'
}

/// The value of an ASCII decimal digit.
pub open spec fn digit_value(c: char) -> int {
    c as u32 - '0' as u32
}

/// Every character of `s` is an ASCII decimal digit.
pub open spec fn all_digits(s: Seq<char>) -> bool {
    forall|i: int| 0 <= i < s.len() ==> is_digit(#[trigger] s[i])
}

/// The number that the digit string `s` denotes (0 for the empty string).
pub open spec fn digits_value(s: Seq<char>) -> int
    decreases s.len(),
{
    if s.len() == 0 {
        0
    } else {
        digits_value(s.drop_last()) * 10 + digit_value(s.last())
    }
}

/// The numeral that `str::parse` reads for an unsigned integer type: an
/// optional `+`, then one or more ASCII digits. No bound is applied here.
pub open spec fn parse_unsigned(s: Seq<char>) -> Option<int> {
    let body = if s.len() > 0 && s[0] == '+' {
        s.drop_first()
    } else {
        s
    };
    if body.len() > 0 && all_digits(body) {
        Some(digits_value(body))
    } else {
        None
    }
}

/// The numeral that `str::parse` reads for a signed integer type: an
/// optional `+` or `-`, then one or more ASCII digits.
pub open spec fn parse_signed(s: Seq<char>) -> Option<int> {
    if s.len() > 0 && s[0] == '-' {
        let body = s.drop_first();
        if body.len() > 0 && all_digits(body) {
            Some(-digits_value(body))
        } else {
            None
        }
    } else {
        parse_unsigned(s)
    }
}

/// What `s.parse::<u64>()` returns, as an `Option`.
pub open spec fn parse_u64_spec(s: Seq<char>) -> Option<u64> {
    match parse_unsigned(s) {
        Some(v) => if v <= u64::MAX {
            Some(v as u64)
        } else {
            None
        },
        None => None,
    }
}

/// What `s.parse::<i32>()` returns, as an `Option`.
pub open spec fn parse_i32_spec(s: Seq<char>) -> Option<i32> {
    match parse_signed(s) {
        Some(v) => if i32::MIN <= v <= i32::MAX {
            Some(v as i32)
        } else {
            None
        },
        None => None,
    }
}

proof fn lemma_digits_value_nonneg(s: Seq<char>)
    requires
        all_digits(s),
    ensures
        digits_value(s) >= 0,
    decreases s.len(),
{
    if s.len() > 0 {
        lemma_digits_value_nonneg(s.drop_last());
        assert(is_digit(s[s.len() - 1]));
    }
}

proof fn lemma_digits_value_prefix(s: Seq<char>, k: int)
    requires
        all_digits(s),
        0 <= k <= s.len(),
    ensures
        digits_value(s.take(k)) <= digits_value(s),
    decreases s.len(),
{
    if k < s.len() {
        assert(s.drop_last().take(k) =~= s.take(k));
        lemma_digits_value_prefix(s.drop_last(), k);
        lemma_digits_value_nonneg(s.drop_last());
        assert(is_digit(s[s.len() - 1]));
    } else {
        assert(s.take(k) =~= s);
    }
}

/// Whether `v[lo..]` consists of ASCII digits only.
fn all_digits_from(v: &Vec<char>, lo: usize) -> (b: bool)
    requires
        lo <= v.len(),
    ensures
        b == all_digits(v@.skip(lo as int)),
{
    let mut i = lo;
    while i < v.len()
        invariant
            lo <= i <= v.len(),
            forall|j: int| lo <= j < i ==> is_digit(v@[j]),
        decreases v.len() - i,
    {
        if !('0' <= v[i] && v[i] <= '9') {
            assert(!is_digit(v@.skip(lo as int)[i - lo]));
            return false;
        }
        i = i + 1;
    }
    assert forall|j: int| 0 <= j < v@.skip(lo as int).len() implies is_digit(
        #[trigger] v@.skip(lo as int)[j],
    ) by {
        assert(v@.skip(lo as int)[j] == v@[lo + j]);
    }
    true
}

/// The value of the digit string `v[lo..]` if it is at most `bound`.
fn digits_at_most(v: &Vec<char>, lo: usize, bound: u64) -> (r: Option<u64>)
    requires
        lo <= v.len(),
        all_digits(v@.skip(lo as int)),
    ensures
        r matches Some(x) ==> x == digits_value(v@.skip(lo as int)) && x <= bound,
        r is None ==> digits_value(v@.skip(lo as int)) > bound,
{
    let ghost body = v@.skip(lo as int);
    let mut acc: u64 = 0;
    let mut i = lo;
    assert(body.take(0) =~= Seq::<char>::empty());
    while i < v.len()
        invariant
            lo <= i <= v.len(),
            body == v@.skip(lo as int),
            all_digits(body),
            acc <= bound,
            acc == digits_value(body.take(i - lo)),
        decreases v.len() - i,
    {
        assert(is_digit(body[i - lo]));
        assert(body[i - lo] == v@[i as int]);
        let d = (v[i] as u32 - '0' as u32) as u64;
        assert(body.take(i - lo + 1).drop_last() =~= body.take(i - lo));
        if d > bound || acc > (bound - d) / 10 {
            proof {
                assert(acc * 10 + d > bound) by (nonlinear_arith)
                    requires
                        d > bound || acc > (bound - d) / 10,
                        acc >= 0,
                ;
                lemma_digits_value_prefix(body, i - lo + 1);
            }
            return None;
        }
        proof {
            assert(acc * 10 + d <= bound) by (nonlinear_arith)
                requires
                    acc <= (bound - d) / 10,
                    d <= bound,
            ;
        }
        acc = acc * 10 + d;
        i = i + 1;
    }
    assert(body.take(v.len() - lo) =~= body);
    Some(acc)
}

/// `s.parse::<u64>().ok()` on the characters `v`.
pub fn parse_u64(v: &Vec<char>) -> (r: Option<u64>)
    ensures
        r == parse_u64_spec(v@),
{
    let lo: usize = if v.len() > 0 && v[0] == '+' {
        1
    } else {
        0
    };
    assert(lo == 1 ==> v@.skip(1) =~= v@.drop_first());
    assert(lo == 0 ==> v@.skip(0) =~= v@);
    if lo >= v.len() || !all_digits_from(v, lo) {
        return None;
    }
    digits_at_most(v, lo, u64::MAX)
}

/// `s.parse::<i32>().ok()` on the characters `v`.
pub fn parse_i32(v: &Vec<char>) -> (r: Option<i32>)
    ensures
        r == parse_i32_spec(v@),
{
    let negative = v.len() > 0 && v[0] == '-';
    let lo: usize = if v.len() > 0 && (v[0] == '+' || v[0] == '-') {
        1
    } else {
        0
    };
    assert(lo == 1 ==> v@.skip(1) =~= v@.drop_first());
    assert(lo == 0 ==> v@.skip(0) =~= v@);
    if lo >= v.len() || !all_digits_from(v, lo) {
        return None;
    }
    let bound: u64 = if negative {
        2147483648
    } else {
        2147483647
    };
    match digits_at_most(v, lo, bound) {
        Some(x) => {
            if negative {
                if x == 2147483648 {
                    Some(i32::MIN)
                } else {
                    Some(-(x as i32))
                }
            } else {
                Some(x as i32)
            }
        },
        None => None,
    }
}

/// The character of the decimal digit `d`.
pub open spec fn digit_char(d: int) -> char {
    (d + 48) as char
}

/// The decimal numeral of `n` without leading zeros (`Display` for integers).
pub open spec fn decimal(n: nat) -> Seq<char>
    decreases n,
{
    if n < 10 {
        seq![digit_char(n as int)]
    } else {
        decimal(n / 10).push(digit_char((n % 10) as int))
    }
}

/// The character for the digit `d`.
pub fn digit_to_char(d: u64) -> (c: char)
    requires
        d < 10,
    ensures
        c == digit_char(d as int),
{
    let b: u8 = 48u8 + d as u8;
    b as char
}

/// `n.to_string()` as characters.
pub fn decimal_chars(n: u64) -> (r: Vec<char>)
    ensures
        r@ == decimal(n as nat),
    decreases n,
{
    if n < 10 {
        let mut r = Vec::new();
        r.push(digit_to_char(n));
        assert(r@ =~= seq![digit_char(n as int)]);
        r
    } else {
        let mut r = decimal_chars(n / 10);
        r.push(digit_to_char(n % 10));
        r
    }
}

// ---------------------------------------------------------------------------
// UTF-8 byte lengths
// ---------------------------------------------------------------------------

/// The number of bytes in the UTF-8 encoding of `c`.
pub open spec fn utf8_width(c: char) -> int {
    if (c as u32) < 0x80 {
        1
    } else if (c as u32) < 0x800 {
        2
    } else if (c as u32) < 0x10000 {
        3
    } else {
        4
    }
}

/// The number of bytes in the UTF-8 encoding of `s` (`str::len`).
pub open spec fn utf8_len(s: Seq<char>) -> int
    decreases s.len(),
{
    if s.len() == 0 {
        0
    } else {
        utf8_len(s.drop_last()) + utf8_width(s.last())
    }
}

/// The characters that `str::get(0..n)` returns: those whose encoding fills
/// exactly the first `n` bytes, or `None` when byte `n` is not a character
/// boundary or lies past the end.
pub open spec fn byte_prefix(s: Seq<char>, n: int) -> Option<Seq<char>>
    decreases s.len(),
{
    if n == 0 {
        Some(Seq::empty())
    } else if s.len() == 0 || n < utf8_width(s[0]) {
        None
    } else {
        match byte_prefix(s.drop_first(), n - utf8_width(s[0])) {
            Some(t) => Some(seq![s[0]] + t),
            None => None,
        }
    }
}

/// The width of `c` in UTF-8.
pub fn char_utf8_width(c: char) -> (w: usize)
    ensures
        w == utf8_width(c),
{
    let u = c as u32;
    if u < 0x80 {
        1
    } else if u < 0x800 {
        2
    } else if u < 0x10000 {
        3
    } else {
        4
    }
}

/// `byte_prefix(v, n)`.
pub fn byte_prefix_chars(v: &Vec<char>, n: usize) -> (r: Option<Vec<char>>)
    ensures
        r matches Some(p) ==> byte_prefix(v@, n as int) == Some(p@),
        r is None ==> byte_prefix(v@, n as int) is None,
{
    let mut out: Vec<char> = Vec::new();
    let mut rem = n;
    let mut i: usize = 0;
    assert(v@.skip(0) =~= v@);
    while rem > 0
        invariant
            i <= v.len(),
            rem <= n,
            byte_prefix(v@, n as int) == match byte_prefix(v@.skip(i as int), rem as int) {
                Some(t) => Some(out@ + t),
                None => None,
            },
        decreases rem,
    {
        let ghost rest = v@.skip(i as int);
        if i >= v.len() {
            return None;
        }
        let w = char_utf8_width(v[i]);
        if rem < w {
            return None;
        }
        assert(rest.drop_first() =~= v@.skip(i + 1));
        proof {
            let next = byte_prefix(v@.skip(i + 1), rem - w);
            match next {
                Some(t) => {
                    assert(out@.push(v@[i as int]) + t =~= out@ + (seq![v@[i as int]] + t));
                },
                None => {},
            }
        }
        out.push(v[i]);
        rem = rem - w;
        i = i + 1;
    }
    assert(out@ + Seq::<char>::empty() =~= out@);
    Some(out)
}

proof fn lemma_utf8_len_prefix(s: Seq<char>, k: int)
    requires
        0 <= k <= s.len(),
    ensures
        utf8_len(s.take(k)) <= utf8_len(s),
    decreases s.len() - k,
{
    if k < s.len() {
        lemma_utf8_len_prefix(s, k + 1);
        assert(s.take(k + 1).drop_last() =~= s.take(k));
    } else {
        assert(s.take(k) =~= s);
    }
}

/// `utf8_len(v)` while it is at most `cap`; some number above `cap` once the
/// length passes it.
pub fn utf8_len_capped(v: &Vec<char>, cap: u64) -> (r: u64)
    requires
        cap <= 1000,
    ensures
        r <= cap ==> r == utf8_len(v@),
        r > cap ==> utf8_len(v@) > cap,
{
    let mut total: u64 = 0;
    let mut i: usize = 0;
    while i < v.len()
        invariant
            i <= v.len(),
            cap <= 1000,
            total <= cap,
            total == utf8_len(v@.take(i as int)),
        decreases v.len() - i,
    {
        let w = char_utf8_width(v[i]) as u64;
        assert(v@.take(i + 1).drop_last() =~= v@.take(i as int));
        total = total + w;
        i = i + 1;
        if total > cap {
            proof {
                lemma_utf8_len_prefix(v@, i as int);
            }
            return total;
        }
    }
    assert(v@.take(v.len() as int) =~= v@);
    total
}

/// Whether the UTF-8 encoding of `v` is longer than one byte.
pub fn longer_than_one_byte(v: &Vec<char>) -> (b: bool)
    ensures
        b == (utf8_len(v@) > 1),
{
    utf8_len_capped(v, 1) > 1
}

} // verus!
