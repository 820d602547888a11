//! Character-level helpers shared by the command grammar: whitespace, decimal
//! integers, and searching in character sequences.

use vstd::prelude::*;
use vstd::string::*;

verus! {

/// The characters with the Unicode `White_Space` property (what `char::is_whitespace` tests).
pub open spec fn is_space(c: char) -> bool {
    ||| c == '\t' || c == '\n' || c == '\u{0B}' || c == '\u{0C}' || c == '\r' || c == ' '
    ||| c == '\u{85}' || c == '\u{A0}' || c == '\u{1680}'
    ||| ('\u{2000}' <= c && c <= '\u{200A}')
    ||| c == '\u{2028}' || c == '\u{2029}' || c == '\u{202F}' || c == '\u{205F}' || c == '\u{3000}'
}

/// `s` with its trailing whitespace removed.
pub open spec fn trim_end(s: Seq<char>) -> Seq<char>
    decreases s.len(),
{
    if s.len() > 0 && is_space(s.last()) {
        trim_end(s.drop_last())
    } else {
        s
    }
}

pub open spec fn is_digit(c: char) -> bool {
    '0' <= c && c <= '9'
}

pub open spec fn all_digits(s: Seq<char>) -> bool {
    forall|i: int| 0 <= i < s.len() ==> is_digit(#[trigger] s[i])
}

pub open spec fn digit_value(c: char) -> nat {
    ((c as u32) - ('0' as u32)) as nat
}

/// The number that a string of decimal digits denotes.
pub open spec fn digits_value(s: Seq<char>) -> nat
    decreases s.len(),
{
    if s.len() == 0 {
        0
    } else {
        digits_value(s.drop_last()) * 10 + digit_value(s.last())
    }
}

/// What `str::parse::<u64>` accepts: an optional `+`, then one or more
/// decimal digits, denoting a value that fits in 64 bits.
pub open spec fn parse_u64_spec(s: Seq<char>) -> Option<u64> {
    let d = if s.len() > 0 && s[0] == '+' { s.drop_first() } else { s };
    if d.len() > 0 && all_digits(d) && digits_value(d) <= u64::MAX {
        Some(digits_value(d) as u64)
    } else {
        None
    }
}

/// What `str::parse::<i64>` accepts: an optional sign, then one or more
/// decimal digits, denoting a value in the range of `i64`.
pub open spec fn parse_i64_spec(s: Seq<char>) -> Option<i64> {
    if s.len() > 0 && s[0] == '-' {
        let d = s.drop_first();
        if d.len() > 0 && all_digits(d) && digits_value(d) <= 0x8000_0000_0000_0000 {
            Some((0 - digits_value(d)) as i64)
        } else {
            None
        }
    } else {
        let d = if s.len() > 0 && s[0] == '+' { s.drop_first() } else { s };
        if d.len() > 0 && all_digits(d) && digits_value(d) <= i64::MAX {
            Some(digits_value(d) as i64)
        } else {
            None
        }
    }
}

/// `i` is the position of the first `c` in `s`.
pub open spec fn is_first(s: Seq<char>, c: char, i: int) -> bool {
    &&& 0 <= i < s.len()
    &&& s[i] == c
    &&& forall|j: int| 0 <= j < i ==> s[j] != c
}

pub open spec fn has_char(s: Seq<char>, c: char) -> bool {
    exists|i: int| 0 <= i < s.len() && s[i] == c
}

/// The position of the first `c` in `s`; meaningful where `has_char(s, c)`.
pub open spec fn first_pos(s: Seq<char>, c: char) -> int {
    choose|i: int| is_first(s, c, i)
}

pub proof fn lemma_first_pos(s: Seq<char>, c: char, i: int)
    requires
        is_first(s, c, i),
    ensures
        has_char(s, c),
        first_pos(s, c) == i,
{
    let k = first_pos(s, c);
    assert(is_first(s, c, k));
    if k < i {
        assert(s[k] != c);
    } else if i < k {
        assert(s[i] != c);
    }
}

proof fn lemma_digits_prefix(s: Seq<char>, i: int)
    requires
        0 <= i <= s.len(),
    ensures
        digits_value(s.subrange(0, i)) <= digits_value(s),
    decreases s.len(),
{
    if i < s.len() {
        assert(s.drop_last() =~= s.subrange(0, s.len() - 1));
        lemma_digits_prefix(s.drop_last(), i);
        assert(s.drop_last().subrange(0, i) =~= s.subrange(0, i));
    } else {
        assert(s.subrange(0, i) =~= s);
    }
}

/// The characters of `s`, one by one.
pub fn chars_of(s: &str) -> (r: Vec<char>)
    ensures
        r@ == s@,
{
    let n = s.unicode_len();
    let mut r: Vec<char> = Vec::new();
    let mut i: usize = 0;
    while i < n
        invariant
            n == s@.len(),
            i <= n,
            r@ == s@.subrange(0, i as int),
        decreases n - i,
    {
        r.push(s.get_char(i));
        i = i + 1;
    }
    assert(r@ =~= s@);
    r
}

/// The position of the first `c` in `v[lo..hi]`, counted from the start of `v`.
pub fn find_char(v: &Vec<char>, lo: usize, hi: usize, c: char) -> (r: Option<usize>)
    requires
        lo <= hi <= v@.len(),
    ensures
        match r {
            Some(i) => lo <= i < hi && is_first(v@.subrange(lo as int, hi as int), c, i - lo),
            None => !has_char(v@.subrange(lo as int, hi as int), c),
        },
{
    let ghost s = v@.subrange(lo as int, hi as int);
    let mut i: usize = lo;
    while i < hi
        invariant
            lo <= i <= hi <= v@.len(),
            s == v@.subrange(lo as int, hi as int),
            forall|j: int| 0 <= j < i - lo ==> s[j] != c,
        decreases hi - i,
    {
        if v[i] == c {
            assert(s[i - lo] == c);
            return Some(i);
        }
        i = i + 1;
    }
    None
}

/// `v[lo..hi]` is the sequence `lit`.
pub fn matches_at(v: &Vec<char>, lo: usize, hi: usize, lit: &str) -> (r: bool)
    requires
        lo <= hi <= v@.len(),
    ensures
        r == (v@.subrange(lo as int, hi as int) == lit@),
{
    let n = lit.unicode_len();
    if n != hi - lo {
        return false;
    }
    let mut i: usize = 0;
    while i < n
        invariant
            n == lit@.len(),
            n == hi - lo,
            lo <= hi <= v@.len(),
            i <= n,
            forall|j: int| 0 <= j < i ==> v@[lo + j] == lit@[j],
        decreases n - i,
    {
        if v[lo + i] != lit.get_char(i) {
            assert(v@.subrange(lo as int, hi as int)[i as int] != lit@[i as int]);
            return false;
        }
        i = i + 1;
    }
    assert(v@.subrange(lo as int, hi as int) =~= lit@);
    true
}

/// The value of the decimal digits `v[lo..hi]`, or `None` where one of them is
/// no digit, there are none, or the value exceeds `bound`.
fn digits_at(v: &Vec<char>, lo: usize, hi: usize, bound: u64) -> (r: Option<u64>)
    requires
        lo <= hi <= v@.len(),
        bound >= 9,
    ensures
        ({
            let d = v@.subrange(lo as int, hi as int);
            match r {
                Some(n) => d.len() > 0 && all_digits(d) && digits_value(d) <= bound && n
                    == digits_value(d),
                None => !(d.len() > 0 && all_digits(d) && digits_value(d) <= bound),
            }
        }),
{
    let ghost d = v@.subrange(lo as int, hi as int);
    if lo == hi {
        return None;
    }
    let mut acc: u64 = 0;
    let mut i: usize = lo;
    while i < hi
        invariant
            lo <= i <= hi <= v@.len(),
            d == v@.subrange(lo as int, hi as int),
            all_digits(d.subrange(0, i - lo)),
            acc == digits_value(d.subrange(0, i - lo)),
            acc <= bound,
            bound >= 9,
        decreases hi - i,
    {
        let c = v[i];
        let ghost pre = d.subrange(0, i - lo);
        let ghost next = d.subrange(0, i - lo + 1);
        assert(next.drop_last() =~= pre);
        assert(next.last() == c);
        if !('0' <= c && c <= '9') {
            assert(!is_digit(d[i - lo]));
            return None;
        }
        let k: u64 = (c as u32 - '0' as u32) as u64;
        if acc > (bound - k) / 10 {
            assert(digits_value(next) > bound) by (nonlinear_arith)
                requires
                    acc > (bound - k) / 10,
                    digits_value(next) == acc * 10 + k,
                    k <= 9,
                    k <= bound || acc > 0,
            {
            }
            proof {
                lemma_digits_prefix(d, i - lo + 1);
            }
            return None;
        }
        assert(acc * 10 + k <= bound) by (nonlinear_arith)
            requires
                acc <= (bound - k) / 10,
                k <= bound,
        {
        }
        acc = acc * 10 + k;
        i = i + 1;
        assert forall|j: int| 0 <= j < i - lo implies is_digit(#[trigger] d.subrange(0, i - lo)[j]) by {
            if j < i - lo - 1 {
                assert(d.subrange(0, i - lo)[j] == pre[j]);
            }
        }
    }
    assert(d.subrange(0, hi - lo) =~= d);
    Some(acc)
}

/// `str::parse::<u64>` on `v[lo..hi]`.
pub fn parse_u64_at(v: &Vec<char>, lo: usize, hi: usize) -> (r: Option<u64>)
    requires
        lo <= hi <= v@.len(),
    ensures
        r == parse_u64_spec(v@.subrange(lo as int, hi as int)),
{
    let ghost s = v@.subrange(lo as int, hi as int);
    if lo < hi && v[lo] == '+' {
        assert(s.drop_first() =~= v@.subrange(lo + 1, hi as int));
        digits_at(v, lo + 1, hi, u64::MAX)
    } else {
        digits_at(v, lo, hi, u64::MAX)
    }
}

/// `str::parse::<i64>` on `v[lo..hi]`.
pub fn parse_i64_at(v: &Vec<char>, lo: usize, hi: usize) -> (r: Option<i64>)
    requires
        lo <= hi <= v@.len(),
    ensures
        r == parse_i64_spec(v@.subrange(lo as int, hi as int)),
{
    let ghost s = v@.subrange(lo as int, hi as int);
    if lo < hi && v[lo] == '-' {
        assert(s.drop_first() =~= v@.subrange(lo + 1, hi as int));
        match digits_at(v, lo + 1, hi, 0x8000_0000_0000_0000) {
            Some(m) => {
                if m == 0x8000_0000_0000_0000 {
                    Some(i64::MIN)
                } else {
                    Some(0 - (m as i64))
                }
            },
            None => None,
        }
    } else {
        let start = if lo < hi && v[lo] == '+' { lo + 1 } else { lo };
        assert(s.len() > 0 && s[0] == '+' ==> s.drop_first() =~= v@.subrange(lo + 1, hi as int));
        match digits_at(v, start, hi, i64::MAX as u64) {
            Some(m) => Some(m as i64),
            None => None,
        }
    }
}

/// `n` occurs in `h`.
pub open spec fn contains_text(h: Seq<char>, n: Seq<char>) -> bool {
    exists|i: int| 0 <= i && i + n.len() <= h.len() && #[trigger] h.subrange(i, i + n.len()) == n
}

/// Whether `needle` occurs in `hay`.
pub fn contains(hay: &str, needle: &str) -> (r: bool)
    ensures
        r == contains_text(hay@, needle@),
{
    let h = chars_of(hay);
    let n = needle.unicode_len();
    if n > h.len() {
        return false;
    }
    let last = h.len() - n;
    let mut i: usize = 0;
    while i <= last
        invariant
            last == h@.len() - n,
            h@.len() <= usize::MAX,
            h@ == hay@,
            n == needle@.len(),
            n <= h@.len(),
            i <= last,
            forall|j: int| 0 <= j < i ==> #[trigger] h@.subrange(j, j + n) != needle@,
        ensures
            forall|j: int| 0 <= j <= last ==> #[trigger] h@.subrange(j, j + n) != needle@,
        decreases last - i,
    {
        if matches_at(&h, i, i + n, needle) {
            return true;
        }
        if i == last {
            break;
        }
        i = i + 1;
    }
    assert forall|j: int| 0 <= j && j + n <= h@.len() implies #[trigger] h@.subrange(j, j + n)
        != needle@ by {
    }
    false
}

/// The last `n` characters of `s`, or all of `s` where it is shorter.
pub fn last_n(s: &str, n: usize) -> (r: &str)
    ensures
        r@ == if n >= s@.len() {
            s@
        } else {
            s@.subrange(s@.len() - n, s@.len() as int)
        },
{
    let len = s.unicode_len();
    if n >= len {
        assert(s@.subrange(0, len as int) =~= s@);
        s.substring_char(0, len)
    } else {
        s.substring_char(len - n, len)
    }
}

/// The character of decimal digit `d`.
pub open spec fn digit_text(d: nat) -> Seq<char> {
    "0123456789"@.subrange(d as int, (d + 1) as int)
}

/// `n` written in decimal, without leading zeros.
pub open spec fn decimal(n: nat) -> Seq<char>
    decreases n,
{
    if n < 10 {
        digit_text(n)
    } else {
        decimal(n / 10) + digit_text(n % 10)
    }
}

proof fn lemma_digit_text(d: nat)
    requires
        d < 10,
    ensures
        digit_text(d).len() == 1,
        is_digit(digit_text(d)[0]),
        digit_value(digit_text(d)[0]) == d,
{
    reveal_strlit("0123456789");
    assert(digit_text(d)[0] == "0123456789"@[d as int]);
    if d == 0 {
        assert("0123456789"@[0] == '0');
    } else if d == 1 {
        assert("0123456789"@[1] == '1');
    } else if d == 2 {
        assert("0123456789"@[2] == '2');
    } else if d == 3 {
        assert("0123456789"@[3] == '3');
    } else if d == 4 {
        assert("0123456789"@[4] == '4');
    } else if d == 5 {
        assert("0123456789"@[5] == '5');
    } else if d == 6 {
        assert("0123456789"@[6] == '6');
    } else if d == 7 {
        assert("0123456789"@[7] == '7');
    } else if d == 8 {
        assert("0123456789"@[8] == '8');
    } else {
        assert("0123456789"@[9] == '9');
    }
}

/// A number written in decimal reads back as itself.
pub proof fn lemma_decimal_parses(n: nat)
    ensures
        decimal(n).len() > 0,
        all_digits(decimal(n)),
        digits_value(decimal(n)) == n,
    decreases n,
{
    if n < 10 {
        lemma_digit_text(n);
        assert(decimal(n).drop_last().len() == 0);
        assert(digits_value(decimal(n).drop_last()) == 0);
    } else {
        lemma_decimal_parses(n / 10);
        lemma_digit_text(n % 10);
        vstd::arithmetic::div_mod::lemma_fundamental_div_mod(n as int, 10);
        let s = decimal(n);
        assert(s.drop_last() =~= decimal(n / 10));
        assert(s.last() == digit_text(n % 10)[0]);
        assert forall|i: int| 0 <= i < s.len() implies is_digit(#[trigger] s[i]) by {
            if i < s.len() - 1 {
                assert(s[i] == decimal(n / 10)[i]);
            }
        }
    }
}

/// A number written in decimal is what `str::parse::<u64>` reads back.
pub proof fn lemma_decimal_u64(n: u64)
    ensures
        parse_u64_spec(decimal(n as nat)) == Some(n),
        !has_char(decimal(n as nat), ','),
{
    lemma_decimal_parses(n as nat);
    let s = decimal(n as nat);
    assert(is_digit(s[0]));
    if has_char(s, ',') {
        let i = choose|i: int| 0 <= i < s.len() && s[i] == ',';
        assert(is_digit(s[i]));
    }
}

/// `n` written in decimal.
pub fn decimal_string(n: u128) -> (r: String)
    ensures
        r@ == decimal(n as nat),
    decreases n,
{
    let digits = "0123456789";
    proof {
        reveal_strlit("0123456789");
    }
    let d = (n % 10) as usize;
    if n < 10 {
        digits.substring_char(d, d + 1).to_owned()
    } else {
        let mut s = decimal_string(n / 10);
        s.append(digits.substring_char(d, d + 1));
        s
    }
}

} // verus!
