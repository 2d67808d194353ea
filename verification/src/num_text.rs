//! Decimal text: parsing unsigned integers as `str::parse` does (an optional
//! leading `+`, then decimal digits), and rendering integers and booleans.

use vstd::prelude::*;

verus! {

pub open spec fn is_digit(c: char) -> bool {
    '0' <= c && c <= '9'
}

pub open spec fn digit_val(c: char) -> int {
    (c as u32) as int - 48
}

pub open spec fn all_digits(s: Seq<char>) -> bool {
    forall|k: int| 0 <= k < s.len() ==> is_digit(s[k])
}

/// The value of a string of decimal digits.
pub open spec fn dec_val(s: Seq<char>) -> int
    decreases s.len(),
{
    if s.len() == 0 {
        0
    } else {
        dec_val(s.drop_last()) * 10 + digit_val(s.last())
    }
}

/// The value `str::parse` gives to `s` for an unsigned integer type with
/// unbounded range: an optional leading `+`, then at least one digit.
pub open spec fn parse_uint(s: Seq<char>) -> Option<int> {
    let t = if s.len() > 0 && s[0] == '+' {
        s.drop_first()
    } else {
        s
    };
    if t.len() > 0 && all_digits(t) {
        Some(dec_val(t))
    } else {
        None
    }
}

pub open spec fn parse_u32_sp(s: Seq<char>) -> Option<u32> {
    match parse_uint(s) {
        Some(v) => if v <= u32::MAX {
            Some(v as u32)
        } else {
            None
        },
        None => None,
    }
}

pub open spec fn parse_usize_sp(s: Seq<char>) -> Option<usize> {
    match parse_uint(s) {
        Some(v) => if v <= usize::MAX {
            Some(v as usize)
        } else {
            None
        },
        None => None,
    }
}

pub proof fn lemma_dec_val_nonneg(s: Seq<char>)
    requires
        all_digits(s),
    ensures
        dec_val(s) >= 0,
    decreases s.len(),
{
    if s.len() > 0 {
        assert(all_digits(s.drop_last()));
        lemma_dec_val_nonneg(s.drop_last());
    }
}

pub proof fn lemma_dec_val_mono(s: Seq<char>, i: int)
    requires
        all_digits(s),
        0 <= i <= s.len(),
    ensures
        dec_val(s) >= dec_val(s.take(i)),
    decreases s.len() - i,
{
    if i < s.len() {
        lemma_dec_val_mono(s, i + 1);
        let t = s.take(i + 1);
        assert(t.drop_last() =~= s.take(i));
        assert(all_digits(t.drop_last()));
        lemma_dec_val_nonneg(t.drop_last());
        assert(dec_val(t) == dec_val(s.take(i)) * 10 + digit_val(t.last()));
    } else {
        assert(s.take(i) =~= s);
    }
}

fn parse_digits_u64(t: &Vec<char>, from: usize) -> (r: Option<u64>)
    requires
        from <= t@.len(),
    ensures
        ({
            let d = t@.skip(from as int);
            match r {
                Some(v) => d.len() > 0 && all_digits(d) && dec_val(d) == v as int,
                None => !(d.len() > 0 && all_digits(d)) || dec_val(d) > u64::MAX,
            }
        }),
{
    let ghost d = t@.skip(from as int);
    if from == t.len() {
        return None;
    }
    let mut i: usize = from;
    let mut cur: u64 = 0;
    while i < t.len()
        invariant
            from <= i <= t@.len(),
            d == t@.skip(from as int),
            all_digits(d.take(i - from)),
            cur as int == dec_val(d.take(i - from)),
        decreases t.len() - i,
    {
        let c = t[i];
        if !('0' <= c && c <= '9') {
            proof {
                assert(d[i - from] == t@[i as int]);
                assert(!is_digit(d[i - from]));
            }
            return None;
        }
        let dv: u64 = (c as u64) - 48;
        assert(dv <= 9);
        if cur > (u64::MAX - dv) / 10 {
            proof {
                let k = i - from + 1;
                assert(d.take(k).drop_last() =~= d.take(k - 1));
                assert(d.take(k).last() == d[k - 1]);
                assert(dec_val(d.take(k)) == cur as int * 10 + dv);
                let q = (u64::MAX - dv) / 10;
                assert(q * 10 + (u64::MAX - dv) % 10 == u64::MAX - dv);
                assert(cur as int >= q + 1);
                assert(cur as int * 10 >= (q + 1) * 10) by (nonlinear_arith)
                    requires
                        cur as int >= q + 1,
                ;
                assert(dec_val(d.take(k)) > u64::MAX);
                assert(all_digits(d.take(k)));
                lemma_dec_val_mono(d.take(k), k);
                if all_digits(d) {
                    lemma_dec_val_mono(d, k);
                    assert(d.take(k) =~= d.take(k));
                    assert(dec_val(d) >= dec_val(d.take(k)));
                }
            }
            return None;
        }
        proof {
            let k = i - from + 1;
            assert(d.take(k).drop_last() =~= d.take(k - 1));
            assert(d.take(k).last() == d[k - 1]);
            let q = (u64::MAX - dv) / 10;
            assert(q * 10 + (u64::MAX - dv) % 10 == u64::MAX - dv);
            assert(cur as int * 10 <= q * 10) by (nonlinear_arith)
                requires
                    cur as int <= q,
            ;
        }
        cur = cur * 10 + dv;
        i += 1;
    }
    assert(d.take(i - from) =~= d);
    Some(cur)
}

/// `str::parse::<u32>` on a character vector.
pub fn parse_u32_chars(s: &Vec<char>) -> (r: Option<u32>)
    ensures
        r == parse_u32_sp(s@),
{
    let from: usize = if s.len() > 0 && s[0] == '+' {
        1
    } else {
        0
    };
    proof {
        if s@.len() > 0 && s@[0] == '+' {
            assert(s@.skip(1) =~= s@.drop_first());
        } else {
            assert(s@.skip(0) =~= s@);
        }
    }
    match parse_digits_u64(s, from) {
        Some(v) => {
            if v <= u32::MAX as u64 {
                Some(v as u32)
            } else {
                None
            }
        },
        None => None,
    }
}

/// `str::parse::<usize>` on a character vector.
pub fn parse_usize_chars(s: &Vec<char>) -> (r: Option<usize>)
    ensures
        r == parse_usize_sp(s@),
{
    let from: usize = if s.len() > 0 && s[0] == '+' {
        1
    } else {
        0
    };
    proof {
        if s@.len() > 0 && s@[0] == '+' {
            assert(s@.skip(1) =~= s@.drop_first());
        } else {
            assert(s@.skip(0) =~= s@);
        }
    }
    match parse_digits_u64(s, from) {
        Some(v) => {
            if v <= usize::MAX as u64 {
                Some(v as usize)
            } else {
                None
            }
        },
        None => None,
    }
}

pub open spec fn digit_char(d: int) -> char {
    ((d + 48) as u8) as char
}

/// The decimal digits of a nonnegative integer.
pub open spec fn u64_dec(n: int) -> Seq<char>
    decreases n when 0 <= n
{
    if n < 10 {
        seq![digit_char(n)]
    } else {
        u64_dec(n / 10) + seq![digit_char(n % 10)]
    }
}

/// Decimal text of a signed value: a `-` sign, then the magnitude's digits.
pub open spec fn i64_dec(v: int) -> Seq<char> {
    if v >= 0 {
        u64_dec(v)
    } else {
        seq!['-'] + u64_dec(-v)
    }
}

pub fn u64_to_chars(n: u64) -> (r: Vec<char>)
    ensures
        r@ == u64_dec(n as int),
    decreases n,
{
    if n < 10 {
        let c = ((n as u8) + 48) as char;
        let r = vec![c];
        assert(r@ =~= u64_dec(n as int));
        r
    } else {
        let mut r = u64_to_chars(n / 10);
        let c = (((n % 10) as u8) + 48) as char;
        r.push(c);
        assert(r@ =~= u64_dec(n as int));
        r
    }
}

pub fn i64_to_chars(n: i64) -> (r: Vec<char>)
    ensures
        r@ == i64_dec(n as int),
{
    if n >= 0 {
        u64_to_chars(n as u64)
    } else {
        let m: u64 = ((-(n + 1)) as u64) + 1;
        assert(m as int == -(n as int));
        let mut r: Vec<char> = vec!['-'];
        let digits = u64_to_chars(m);
        crate::chars::push_all(&mut r, &digits);
        assert(r@ =~= i64_dec(n as int));
        r
    }
}

pub fn u32_to_chars(n: u32) -> (r: Vec<char>)
    ensures
        r@ == u64_dec(n as int),
{
    u64_to_chars(n as u64)
}

pub fn i32_to_chars(n: i32) -> (r: Vec<char>)
    ensures
        r@ == i64_dec(n as int),
{
    i64_to_chars(n as i64)
}

pub open spec fn bool_text(b: bool) -> Seq<char> {
    if b {
        seq!['t', 'r', 'u', 'e']
    } else {
        seq!['f', 'a', 'l', 's', 'e']
    }
}

pub fn bool_to_chars(b: bool) -> (r: Vec<char>)
    ensures
        r@ == bool_text(b),
{
    let r = if b {
        vec!['t', 'r', 'u', 'e']
    } else {
        vec!['f', 'a', 'l', 's', 'e']
    };
    assert(r@ =~= bool_text(b));
    r
}

} // verus!
