//! The training data: every number from 0 to 1023, encoded as its ten binary
//! digits, labelled by a trial-division primality test.

use vstd::prelude::*;
use vstd::arithmetic::div_mod::{lemma_fundamental_div_mod, lemma_mod_multiples_basic};

verus! {

/// Digit `i` (most significant first) of the ten-bit binary encoding of `n`.
pub open spec fn bit_of(n: u16, i: int) -> u8 {
    (((n as u32) >> ((9 - i) as u32)) & 1) as u8
}

/// Primality in the usual mathematical sense: at least 2, and no divisor
/// strictly between 1 and the number itself.
pub open spec fn spec_is_prime(n: int) -> bool {
    n >= 2 && forall|d: int| 2 <= d < n ==> #[trigger] (n % d) != 0
}

/// The label a number carries in the dataset: 1 for a prime, 0 otherwise.
pub open spec fn label_of(n: int) -> u8 {
    if spec_is_prime(n) {
        1
    } else {
        0
    }
}

/// Encode a number as its ten-bit binary feature vector, most significant
/// bit first.
pub fn u16_to_bin_vector(n: u16) -> (r: Vec<u8>)
    ensures
        r@.len() == 10,
        forall|i: int| 0 <= i < 10 ==> r@[i] == bit_of(n, i),
{
    let mut r: Vec<u8> = Vec::new();
    let mut k: usize = 0;
    while k < 10
        invariant
            k <= 10,
            r@.len() == k,
            forall|i: int| 0 <= i < k ==> r@[i] == bit_of(n, i),
        decreases 10 - k,
    {
        let shift: u32 = (9 - k) as u32;
        r.push((((n as u32) >> shift) & 1) as u8);
        k = k + 1;
    }
    r
}

/// The feature vector fed to the model for a number: its ten-bit encoding.
pub fn number_to_input(n: u16) -> (r: Vec<u8>)
    ensures
        r@.len() == 10,
        forall|i: int| 0 <= i < 10 ==> r@[i] == bit_of(n, i),
{
    u16_to_bin_vector(n)
}

/// Trial division up to the square root: a composite number has a divisor
/// no larger than its root.
pub fn is_prime(n: u16) -> (r: bool)
    ensures
        r == spec_is_prime(n as int),
{
    if n < 2 {
        return false;
    }
    let mut d: u16 = 2;
    proof {
        assert((2u64) * (2u64) <= 0x1_0000_0000) by (nonlinear_arith);
    }
    while (d as u64) * (d as u64) <= (n as u64)
        invariant
            2 <= d <= 256,
            (d as u64) * (d as u64) <= 0x1_0000_0000,
            n < 0x1_0000,
            forall|j: int| 2 <= j < d ==> #[trigger] ((n as int) % j) != 0,
        decreases 256 - d,
    {
        if n % d == 0 {
            proof {
                assert(2 * (d as int) <= (d as int) * (d as int)) by (nonlinear_arith)
                    requires
                        2 <= d as int,
                ;
            }
            return false;
        }
        d = d + 1;
        proof {
            assert(d <= 256) by (nonlinear_arith)
                requires
                    (d as int - 1) * (d as int - 1) <= n as int,
                    n < 0x1_0000,
                    2 <= d as int - 1,
            ;
            assert((d as u64) * (d as u64) <= 0x1_0000_0000) by (nonlinear_arith)
                requires
                    d <= 256,
            ;
        }
    }
    proof {
        assert forall|j: int| 2 <= j < n as int implies #[trigger] ((n as int) % j) != 0 by {
            if j >= d as int && (n as int) % j == 0 {
                let q = (n as int) / j;
                lemma_fundamental_div_mod(n as int, j);
                assert(n as int == j * q);
                assert(2 <= q && q < d as int) by (nonlinear_arith)
                    requires
                        n as int == j * q,
                        d as int <= j < n as int,
                        (n as int) < (d as int) * (d as int),
                        2 <= d as int,
                ;
                lemma_mod_multiples_basic(j, q);
                assert((n as int) % q == 0);
            }
        }
    }
    true
}

/// The full dataset: the numbers 0 through 1023 in order, each as its
/// ten-bit feature vector with its primality label.
pub fn generate_dataset() -> (r: Vec<(Vec<u8>, u8)>)
    ensures
        r@.len() == 1024,
        forall|n: int| 0 <= n < 1024 ==> (#[trigger] r@[n]).1 == label_of(n),
        forall|n: int| 0 <= n < 1024 ==> (#[trigger] r@[n]).0@.len() == 10,
        forall|n: int, i: int|
            0 <= n < 1024 && 0 <= i < 10 ==> #[trigger] r@[n].0@[i] == bit_of(n as u16, i),
{
    let mut r: Vec<(Vec<u8>, u8)> = Vec::new();
    let mut n: u16 = 0;
    while n < 1024
        invariant
            n <= 1024,
            r@.len() == n as int,
            forall|m: int| 0 <= m < n as int ==> (#[trigger] r@[m]).1 == label_of(m),
            forall|m: int| 0 <= m < n as int ==> (#[trigger] r@[m]).0@.len() == 10,
            forall|m: int, i: int|
                0 <= m < n as int && 0 <= i < 10 ==> #[trigger] r@[m].0@[i] == bit_of(
                    m as u16,
                    i,
                ),
        decreases 1024 - n,
    {
        let input = u16_to_bin_vector(n);
        let label: u8 = if is_prime(n) {
            1
        } else {
            0
        };
        r.push((input, label));
        n = n + 1;
    }
    r
}

} // verus!
