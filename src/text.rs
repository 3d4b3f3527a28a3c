use vstd::prelude::*;

verus! {

/// Relies on `str::chars` collected into a `Vec`: the characters of `s`, in order.
#[verifier::external_body]
pub(crate) fn chars_of(s: &str) -> (r: Vec<char>)
    ensures
        r@ == s@,
{
    s.chars().collect()
}

/// Relies on `String::from_iter` over `char`s: a string of exactly these characters.
#[verifier::external_body]
pub(crate) fn string_of(v: &Vec<char>) -> (r: String)
    ensures
        r@ == v@,
{
    String::from_iter(v.iter())
}

/// Relies on `char::from_u32`: `Some` exactly for Unicode scalar values.
#[verifier::external_body]
pub(crate) fn char_from_u32(u: u32) -> (r: Option<char>)
    ensures
        r == (if vstd::utf8::is_scalar(u) {
            Some(u as char)
        } else {
            None
        }),
{
    char::from_u32(u)
}

pub open spec fn is_digit(c: char) -> bool {
    '0' <= c && c <= '9'
}

pub open spec fn digit_val(c: char) -> nat {
    (c as u32 - '0' as u32) as nat
}

pub open spec fn is_hex_digit(c: char) -> bool {
    ('0' <= c && c <= '9') || ('a' <= c && c <= 'f') || ('A' <= c && c <= 'F')
}

pub open spec fn hex_val(c: char) -> nat {
    if '0' <= c && c <= '9' {
        (c as u32 - '0' as u32) as nat
    } else if 'a' <= c && c <= 'f' {
        (c as u32 - 'a' as u32 + 10) as nat
    } else {
        (c as u32 - 'A' as u32 + 10) as nat
    }
}

/// The number written by the decimal digits `s[i..i+n]`.
pub open spec fn dec_value(s: Seq<char>, i: int, n: nat) -> nat
    decreases n,
{
    if n == 0 {
        0
    } else {
        dec_value(s, i, (n - 1) as nat) * 10 + digit_val(s[i + n - 1])
    }
}

/// The number written by the hexadecimal digits `s[i..i+n]`.
pub open spec fn hex_value(s: Seq<char>, i: int, n: nat) -> nat
    decreases n,
{
    if n == 0 {
        0
    } else {
        hex_value(s, i, (n - 1) as nat) * 16 + hex_val(s[i + n - 1])
    }
}

/// Whether every character of `s[a..b]` is a decimal digit.
pub open spec fn all_digits(s: Seq<char>, a: int, b: int) -> bool {
    forall|k: int| a <= k < b ==> is_digit(#[trigger] s[k])
}

/// Whether every character of `s[a..b]` is a hexadecimal digit.
pub open spec fn all_hex(s: Seq<char>, a: int, b: int) -> bool {
    forall|k: int| a <= k < b ==> is_hex_digit(#[trigger] s[k])
}

pub proof fn lemma_dec_value_monotone(s: Seq<char>, i: int, m: nat, n: nat)
    requires
        m <= n,
    ensures
        dec_value(s, i, m) <= dec_value(s, i, n),
    decreases n - m,
{
    if m < n {
        lemma_dec_value_monotone(s, i, m, (n - 1) as nat);
    }
}

pub proof fn lemma_hex_value_monotone(s: Seq<char>, i: int, m: nat, n: nat)
    requires
        m <= n,
    ensures
        hex_value(s, i, m) <= hex_value(s, i, n),
    decreases n - m,
{
    if m < n {
        lemma_hex_value_monotone(s, i, m, (n - 1) as nat);
    }
}

/// Whether `s[a..b]` holds exactly the characters of `w`.
pub fn segment_is(s: &Vec<char>, a: usize, b: usize, w: &Vec<char>) -> (r: bool)
    requires
        a <= b <= s@.len(),
    ensures
        r == (s@.subrange(a as int, b as int) == w@),
{
    if b - a != w.len() {
        proof {
            assert(s@.subrange(a as int, b as int).len() != w@.len());
        }
        return false;
    }
    let mut k: usize = 0;
    while k < w.len()
        invariant
            a <= b <= s@.len(),
            b - a == w@.len(),
            k <= w@.len(),
            forall|j: int| 0 <= j < k ==> s@[a + j] == w@[j],
        decreases w@.len() - k,
    {
        if s[a + k] != w[k] {
            proof {
                assert(s@.subrange(a as int, b as int)[k as int] != w@[k as int]);
            }
            return false;
        }
        k = k + 1;
    }
    proof {
        assert(s@.subrange(a as int, b as int) =~= w@);
    }
    true
}

/// Copies `s[a..b]` into a new string.
pub fn substring(s: &Vec<char>, a: usize, b: usize) -> (r: String)
    requires
        a <= b <= s@.len(),
    ensures
        r@ == s@.subrange(a as int, b as int),
{
    let mut v: Vec<char> = Vec::new();
    let mut k: usize = a;
    while k < b
        invariant
            a <= k <= b <= s@.len(),
            v@ == s@.subrange(a as int, k as int),
        decreases b - k,
    {
        v.push(s[k]);
        proof {
            assert(v@ =~= s@.subrange(a as int, k + 1));
        }
        k = k + 1;
    }
    string_of(&v)
}

/// A copy of `s` as an owned string.
pub fn owned(s: &str) -> (r: String)
    ensures
        r@ == s@,
{
    s.to_owned()
}

/// Appends the characters of `t` to `out`.
pub fn push_all(out: &mut Vec<char>, t: &str)
    ensures
        final(out)@ == old(out)@ + t@,
{
    let mut c = chars_of(t);
    out.append(&mut c);
}

pub open spec fn digit_char(d: nat) -> char {
    if d == 0 {
        '0'
    } else if d == 1 {
        '1'
    } else if d == 2 {
        '2'
    } else if d == 3 {
        '3'
    } else if d == 4 {
        '4'
    } else if d == 5 {
        '5'
    } else if d == 6 {
        '6'
    } else if d == 7 {
        '7'
    } else if d == 8 {
        '8'
    } else if d == 9 {
        '9'
    } else if d == 10 {
        'a'
    } else if d == 11 {
        'b'
    } else if d == 12 {
        'c'
    } else if d == 13 {
        'd'
    } else if d == 14 {
        'e'
    } else {
        'f'
    }
}

/// `n` in decimal, without leading zeros.
pub open spec fn dec_str(n: nat) -> Seq<char>
    decreases n,
{
    if n < 10 {
        seq![digit_char(n)]
    } else {
        dec_str(n / 10).push(digit_char(n % 10))
    }
}

/// `n` in lowercase hexadecimal, without leading zeros.
pub open spec fn hex_str(n: nat) -> Seq<char>
    decreases n,
{
    if n < 16 {
        seq![digit_char(n)]
    } else {
        hex_str(n / 16).push(digit_char(n % 16))
    }
}

pub(crate) fn digit_char_exec(d: u64) -> (c: char)
    requires
        d < 16,
    ensures
        c == digit_char(d as nat),
{
    if d == 0 {
        '0'
    } else if d == 1 {
        '1'
    } else if d == 2 {
        '2'
    } else if d == 3 {
        '3'
    } else if d == 4 {
        '4'
    } else if d == 5 {
        '5'
    } else if d == 6 {
        '6'
    } else if d == 7 {
        '7'
    } else if d == 8 {
        '8'
    } else if d == 9 {
        '9'
    } else if d == 10 {
        'a'
    } else if d == 11 {
        'b'
    } else if d == 12 {
        'c'
    } else if d == 13 {
        'd'
    } else if d == 14 {
        'e'
    } else {
        'f'
    }
}

/// The decimal digits of `n`.
pub fn dec_chars(n: u64) -> (r: Vec<char>)
    ensures
        r@ == dec_str(n as nat),
    decreases n,
{
    if n < 10 {
        let mut v: Vec<char> = Vec::new();
        v.push(digit_char_exec(n));
        proof {
            assert(v@ =~= seq![digit_char(n as nat)]);
        }
        v
    } else {
        let mut v = dec_chars(n / 10);
        v.push(digit_char_exec(n % 10));
        v
    }
}

/// The lowercase hexadecimal digits of `n`.
pub fn hex_chars(n: u64) -> (r: Vec<char>)
    ensures
        r@ == hex_str(n as nat),
    decreases n,
{
    if n < 16 {
        let mut v: Vec<char> = Vec::new();
        v.push(digit_char_exec(n));
        proof {
            assert(v@ =~= seq![digit_char(n as nat)]);
        }
        v
    } else {
        let mut v = hex_chars(n / 16);
        v.push(digit_char_exec(n % 16));
        v
    }
}

/// `n` written in decimal.
pub fn dec_string(n: u64) -> (r: String)
    ensures
        r@ == dec_str(n as nat),
{
    string_of(&dec_chars(n))
}

/// The number written by the decimal digits `s[a..b]`, if there is at least
/// one, all are digits and the number fits in 64 bits.
pub fn parse_dec(s: &Vec<char>, a: usize, b: usize) -> (r: Option<u64>)
    requires
        a <= b <= s@.len(),
    ensures
        r is Some <==> (a < b && all_digits(s@, a as int, b as int) && dec_value(
            s@,
            a as int,
            (b - a) as nat,
        ) <= u64::MAX),
        r is Some ==> r->0 as nat == dec_value(s@, a as int, (b - a) as nat),
{
    if a == b {
        return None;
    }
    let mut v: u64 = 0;
    let mut k: usize = a;
    while k < b
        invariant
            a <= k <= b <= s@.len(),
            all_digits(s@, a as int, k as int),
            v as nat == dec_value(s@, a as int, (k - a) as nat),
        decreases b - k,
    {
        let c = s[k];
        if !('0' <= c && c <= '9') {
            proof {
                assert(!is_digit(s@[k as int]));
            }
            return None;
        }
        let dig = (c as u32 - '0' as u32) as u64;
        proof {
            assert(dec_value(s@, a as int, (k + 1 - a) as nat) == dec_value(
                s@,
                a as int,
                (k - a) as nat,
            ) * 10 + digit_val(s@[k as int]));
        }
        if v > (u64::MAX - dig) / 10 {
            proof {
                assert(v * 10 + dig > u64::MAX) by (nonlinear_arith)
                    requires
                        v > (u64::MAX - dig) / 10,
                        dig <= 9,
                ;
                lemma_dec_value_monotone(s@, a as int, (k + 1 - a) as nat, (b - a) as nat);
                if all_digits(s@, a as int, b as int) {
                }
            }
            return None;
        }
        proof {
            assert(v * 10 + dig <= u64::MAX) by (nonlinear_arith)
                requires
                    v <= (u64::MAX - dig) / 10,
                    dig <= 9,
            ;
        }
        v = v * 10 + dig;
        k = k + 1;
    }
    Some(v)
}

/// The number written by the hexadecimal digits `s[a..b]`, if there is at
/// least one, all are hexadecimal digits and the number fits in 128 bits.
pub fn parse_hex_wide(s: &Vec<char>, a: usize, b: usize) -> (r: Option<u128>)
    requires
        a <= b <= s@.len(),
    ensures
        r is Some <==> (a < b && all_hex(s@, a as int, b as int) && hex_value(
            s@,
            a as int,
            (b - a) as nat,
        ) <= u128::MAX),
        r is Some ==> r->0 as nat == hex_value(s@, a as int, (b - a) as nat),
{
    if a == b {
        return None;
    }
    let mut v: u128 = 0;
    let mut k: usize = a;
    while k < b
        invariant
            a <= k <= b <= s@.len(),
            all_hex(s@, a as int, k as int),
            v as nat == hex_value(s@, a as int, (k - a) as nat),
        decreases b - k,
    {
        let c = s[k];
        let dig: u128 = if '0' <= c && c <= '9' {
            (c as u32 - '0' as u32) as u128
        } else if 'a' <= c && c <= 'f' {
            (c as u32 - 'a' as u32 + 10) as u128
        } else if 'A' <= c && c <= 'F' {
            (c as u32 - 'A' as u32 + 10) as u128
        } else {
            proof {
                assert(!is_hex_digit(s@[k as int]));
            }
            return None;
        };
        proof {
            assert(dig as nat == hex_val(s@[k as int]));
            assert(hex_value(s@, a as int, (k + 1 - a) as nat) == hex_value(
                s@,
                a as int,
                (k - a) as nat,
            ) * 16 + hex_val(s@[k as int]));
        }
        if v > (u128::MAX - dig) / 16 {
            proof {
                assert(v * 16 + dig > u128::MAX) by (nonlinear_arith)
                    requires
                        v > (u128::MAX - dig) / 16,
                        dig <= 15,
                ;
                lemma_hex_value_monotone(s@, a as int, (k + 1 - a) as nat, (b - a) as nat);
            }
            return None;
        }
        proof {
            assert(v * 16 + dig <= u128::MAX) by (nonlinear_arith)
                requires
                    v <= (u128::MAX - dig) / 16,
                    dig <= 15,
            ;
        }
        v = v * 16 + dig;
        k = k + 1;
    }
    Some(v)
}

/// An ASCII letter or digit.
pub open spec fn is_alnum(c: char) -> bool {
    ('0' <= c && c <= '9') || ('a' <= c && c <= 'z') || ('A' <= c && c <= 'Z')
}

/// Relies on `==` between `str`s: equal exactly when the characters are.
#[verifier::external_body]
pub(crate) fn str_eq(a: &str, b: &str) -> (r: bool)
    ensures
        r == (a@ == b@),
{
    a == b
}

/// Whether `s[a..b]` spells `w`.
pub fn spells(s: &Vec<char>, a: usize, b: usize, w: &str) -> (r: bool)
    requires
        a <= b <= s@.len(),
    ensures
        r == (s@.subrange(a as int, b as int) == w@),
{
    let wc = chars_of(w);
    segment_is(s, a, b, &wc)
}

/// A copy of `s[a..b]`.
pub fn copy_range(s: &Vec<char>, a: usize, b: usize) -> (r: Vec<char>)
    requires
        a <= b <= s@.len(),
    ensures
        r@ == s@.subrange(a as int, b as int),
{
    let mut v: Vec<char> = Vec::new();
    let mut k: usize = a;
    while k < b
        invariant
            a <= k <= b <= s@.len(),
            v@ == s@.subrange(a as int, k as int),
        decreases b - k,
    {
        v.push(s[k]);
        proof {
            assert(v@ =~= s@.subrange(a as int, k + 1));
        }
        k = k + 1;
    }
    v
}

/// The number that the decimal text `t` spells, if it is at most `max`.
pub open spec fn dec_text(t: Seq<char>, max: nat) -> Option<nat> {
    if t.len() > 0 && all_digits(t, 0, t.len() as int) && dec_value(t, 0, t.len()) <= max {
        Some(dec_value(t, 0, t.len()))
    } else {
        None
    }
}

/// The number that the decimal text of `s` spells, if it is at most `max`.
pub fn dec_of(s: &str, max: u64) -> (r: Option<u64>)
    ensures
        match r {
            Some(v) => dec_text(s@, max as nat) == Some(v as nat),
            None => dec_text(s@, max as nat) is None,
        },
{
    let c = chars_of(s);
    match parse_dec(&c, 0, c.len()) {
        Some(v) => {
            if v <= max {
                Some(v)
            } else {
                None
            }
        },
        None => None,
    }
}

} // verus!
