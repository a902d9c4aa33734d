use vstd::prelude::*;

verus! {

/// ASCII decimal digits of a non-negative number, most significant first.
pub open spec fn dec_digits(n: int) -> Seq<u8>
    recommends
        n >= 0,
    decreases n,
{
    if n < 10 {
        seq![(48 + if n >= 0 { n } else { 0 }) as u8]
    } else {
        dec_digits(n / 10).push((48 + n % 10) as u8)
    }
}

/// ASCII decimal form of an integer, with a leading minus for negatives.
pub open spec fn int_str(v: int) -> Seq<u8> {
    if v < 0 {
        seq![45u8] + dec_digits(-v)
    } else {
        dec_digits(v)
    }
}

pub proof fn lemma_dec_digits_len(n: int)
    requires
        0 <= n,
    ensures
        1 <= dec_digits(n).len(),
        n < 10 ==> dec_digits(n).len() == 1,
        n < 100 ==> dec_digits(n).len() <= 2,
        n < 1000 ==> dec_digits(n).len() <= 3,
        n < 10000 ==> dec_digits(n).len() <= 4,
        n < 100000 ==> dec_digits(n).len() <= 5,
        n < 1000000 ==> dec_digits(n).len() <= 6,
        n < 10000000 ==> dec_digits(n).len() <= 7,
        n < 100000000 ==> dec_digits(n).len() <= 8,
        n < 1000000000 ==> dec_digits(n).len() <= 9,
        n < 10000000000 ==> dec_digits(n).len() <= 10,
    decreases n,
{
    if n >= 10 {
        lemma_dec_digits_len(n / 10);
        assert(n < 100 ==> n / 10 < 10) by (nonlinear_arith)
            requires
                n >= 10,
        ;
        assert(n < 1000 ==> n / 10 < 100) by (nonlinear_arith)
            requires
                n >= 10,
        ;
        assert(n < 10000 ==> n / 10 < 1000) by (nonlinear_arith)
            requires
                n >= 10,
        ;
        assert(n < 100000 ==> n / 10 < 10000) by (nonlinear_arith)
            requires
                n >= 10,
        ;
        assert(n < 1000000 ==> n / 10 < 100000) by (nonlinear_arith)
            requires
                n >= 10,
        ;
        assert(n < 10000000 ==> n / 10 < 1000000) by (nonlinear_arith)
            requires
                n >= 10,
        ;
        assert(n < 100000000 ==> n / 10 < 10000000) by (nonlinear_arith)
            requires
                n >= 10,
        ;
        assert(n < 1000000000 ==> n / 10 < 100000000) by (nonlinear_arith)
            requires
                n >= 10,
        ;
        assert(n < 10000000000 ==> n / 10 < 1000000000) by (nonlinear_arith)
            requires
                n >= 10,
        ;
    }
}

fn u64_dec(n: u64) -> (r: Vec<u8>)
    ensures
        r@ == dec_digits(n as int),
        1 <= r@.len(),
    decreases n,
{
    if n < 10 {
        let mut v: Vec<u8> = Vec::new();
        v.push(48 + n as u8);
        proof {
            assert(v@ =~= dec_digits(n as int));
        }
        v
    } else {
        let mut v = u64_dec(n / 10);
        v.push(48 + (n % 10) as u8);
        v
    }
}

/// The ASCII decimal form of `v`, e.g. `-7` becomes the bytes `-7`.
pub fn int_to_dec(v: i64) -> (r: Vec<u8>)
    ensures
        r@ == int_str(v as int),
        1 <= r@.len(),
{
    if v < 0 {
        let n: u64 = if v == i64::MIN {
            9223372036854775808u64
        } else {
            (-v) as u64
        };
        let digits = u64_dec(n);
        let mut r: Vec<u8> = Vec::new();
        r.push(45);
        let mut i: usize = 0;
        let len = digits.len();
        while i < len
            invariant
                len == digits@.len(),
                i <= len,
                r@.len() == 1 + i,
                r@[0] == 45u8,
                forall|k: int| 0 <= k < i ==> r@[1 + k] == digits@[k],
            decreases len - i,
        {
            let d = digits[i];
            r.push(d);
            i = i + 1;
        }
        proof {
            assert(r@ =~= seq![45u8] + dec_digits((-(v as int))));
        }
        r
    } else {
        u64_dec(v as u64)
    }
}

/// Number of characters in the decimal form of `v`.
pub fn dec_len(v: i64) -> (n: usize)
    ensures
        n == int_str(v as int).len(),
        1 <= n,
{
    let s = int_to_dec(v);
    s.len()
}

} // verus!
