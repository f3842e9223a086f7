use vstd::prelude::*;

verus! {

/// The integer square root of `n`: the largest `r` with `r * r <= n`.
pub open spec fn is_isqrt(n: int, r: int) -> bool {
    0 <= r && r * r <= n < (r + 1) * (r + 1)
}

/// Whether `n` is prime: greater than 1, with no divisor between 2 and `n`.
pub open spec fn is_prime_number(n: int) -> bool {
    n > 1 && forall|d: int| 2 <= d < n ==> #[trigger] (n % d) != 0
}

/// A divisor above the integer square root has a partner divisor at or
/// below it.
proof fn lemma_small_partner(n: int, root: int, d: int)
    requires
        is_isqrt(n, root),
        root < d < n,
        n % d == 0,
    ensures
        2 <= n / d <= root,
        n % (n / d) == 0,
{
    vstd::arithmetic::div_mod::lemma_fundamental_div_mod(n, d);
    let q = n / d;
    assert(n == d * q);
    assert(q >= 2) by (nonlinear_arith)
        requires
            n == d * q,
            d < n,
            d > 0,
    ;
    assert(q <= root) by (nonlinear_arith)
        requires
            n == d * q,
            d >= root + 1,
            n < (root + 1) * (root + 1),
            root >= 0,
            q >= 0,
    ;
    vstd::arithmetic::div_mod::lemma_mod_multiples_basic(d, q);
    assert(d * q == q * d) by (nonlinear_arith);
}

/// The largest `r` with `r * r <= n`.
fn isqrt(n: u32) -> (r: u64)
    ensures
        is_isqrt(n as int, r as int),
        r <= 0xffff,
{
    let mut r: u64 = 0;
    loop
        invariant
            r * r <= n,
            r <= 0xffff,
        ensures
            r * r <= n < (r + 1) * (r + 1),
            r <= 0xffff,
        decreases 0xffff - r,
    {
        assert((r + 1) * (r + 1) <= 0x1_0000_0000) by (nonlinear_arith)
            requires
                r <= 0xffff,
        ;
        let next = r + 1;
        if next * next > n as u64 {
            break;
        }
        assert(next * next <= 0xffff_ffff ==> next <= 0xffff) by (nonlinear_arith);
        r = next;
    }
    r
}

/// Whether `num` is prime, by trial division with every number from 2 up
/// to and including its integer square root.
pub fn is_prime(num: u32) -> (r: bool)
    ensures
        r == is_prime_number(num as int),
{
    if num <= 1 {
        return false;
    }
    let root = isqrt(num);
    assert(root >= 1) by (nonlinear_arith)
        requires
            num as int >= 2,
            (num as int) < (root + 1) * (root + 1),
            root >= 0,
    ;
    let mut factor: u64 = 2;
    while factor <= root
        invariant
            2 <= factor <= root + 1,
            root <= 0xffff,
            is_isqrt(num as int, root as int),
            num > 1,
            forall|f: int| 2 <= f < factor ==> #[trigger] ((num as int) % f) != 0,
        decreases root + 1 - factor,
    {
        if (num as u64) % factor == 0 {
            assert((num as int) % (factor as int) == 0);
            assert(factor < num) by (nonlinear_arith)
                requires
                    2 <= factor <= root,
                    root * root <= num,
            ;
            return false;
        }
        factor += 1;
    }
    assert forall|d: int| 2 <= d < num implies #[trigger] ((num as int) % d) != 0 by {
        if d > root && (num as int) % d == 0 {
            lemma_small_partner(num as int, root as int, d);
            assert(((num as int) % ((num as int) / d)) != 0);
        }
    }
    true
}

} // verus!
