//! Ids as they are written: no two are written alike, and their order is that of their texts.

use vstd::arithmetic::{div_mod, power};
use vstd::prelude::*;

use crate::hex;
use crate::outside;
use crate::text;

verus! {

/// `id` without its last `n` nibbles.
spec fn head(id: u128, n: nat) -> int {
    id as int / power::pow(16, n)
}

proof fn lemma_head_step(id: u128, n: nat)
    ensures
        head(id, n) == 16 * head(id, n + 1) + head(id, n) % 16,
{
    power::lemma_pow_positive(16, n);
    power::lemma_pow_adds(16, n, 1);
    power::lemma_pow1(16);
    div_mod::lemma_div_denominator(id as int, power::pow(16, n), 16);
    div_mod::lemma_fundamental_div_mod(head(id, n), 16);
}

proof fn lemma_square(x: int, n: int, square: int)
    by (nonlinear_arith)
    requires
        x == n,
        square == n * n,
    ensures
        x * x == square,
{
}

proof fn lemma_head_ends(id: u128)
    ensures
        head(id, 0) == id,
        head(id, 32) == 0,
{
    power::lemma_pow0(16);
    assert(id as int / 1 == id as int);
    assert(power::pow(16, 32) == 0x1_0000_0000_0000_0000_0000_0000_0000_0000int) by {
        power::lemma_pow1(16);
        power::lemma_pow_adds(16, 1, 1);
        power::lemma_pow_adds(16, 2, 2);
        power::lemma_pow_adds(16, 4, 4);
        power::lemma_pow_adds(16, 8, 8);
        power::lemma_pow_adds(16, 16, 16);
        assert(16 * 16 == 256int && 256 * 256 == 65536int && 65536 * 65536 == 0x1_0000_0000int)
            by (nonlinear_arith);
        assert(0x1_0000_0000 * 0x1_0000_0000 == 0x1_0000_0000_0000_0000int) by (nonlinear_arith);
        assert(0x1_0000_0000_0000_0000int * 0x1_0000_0000_0000_0000int
            == 0x1_0000_0000_0000_0000_0000_0000_0000_0000int) by (nonlinear_arith);
        lemma_square(power::pow(16, 1), 16, 256);
        lemma_square(power::pow(16, 2), 256, 65536);
        lemma_square(power::pow(16, 4), 65536, 0x1_0000_0000);
        lemma_square(power::pow(16, 8), 0x1_0000_0000, 0x1_0000_0000_0000_0000);
        lemma_square(
            power::pow(16, 16),
            0x1_0000_0000_0000_0000,
            0x1_0000_0000_0000_0000_0000_0000_0000_0000int,
        );
    }
    div_mod::lemma_basic_div(id as int, power::pow(16, 32));
}

/// Where two ids agree in their first `k` nibbles, they agree without the rest.
proof fn lemma_same_head(a: u128, b: u128, k: int)
    requires
        0 <= k <= 32,
        forall|j: int| 0 <= j < k ==> outside::nibble(a, j) == outside::nibble(b, j),
    ensures
        head(a, (32 - k) as nat) == head(b, (32 - k) as nat),
    decreases k,
{
    if k == 0 {
        lemma_head_ends(a);
        lemma_head_ends(b);
    } else {
        lemma_same_head(a, b, k - 1);
        lemma_head_step(a, (32 - k) as nat);
        lemma_head_step(b, (32 - k) as nat);
        assert(outside::nibble(a, k - 1) == outside::nibble(b, k - 1));
    }
}

/// Where the `k`-th nibble stands in the hyphenated form.
spec fn place(k: int) -> int {
    if k < 8 {
        k
    } else if k < 12 {
        k + 1
    } else if k < 16 {
        k + 2
    } else if k < 20 {
        k + 3
    } else {
        k + 4
    }
}

proof fn lemma_place(a: u128, k: int)
    requires
        0 <= k < 32,
    ensures
        outside::hyphenated(a)[place(k)] == hex::nibble_char(outside::nibble(a, k)),
{
}

/// Two ids that are written alike are one.
pub proof fn written_alike_is_the_same(a: u128, b: u128)
    requires
        outside::hyphenated(a) == outside::hyphenated(b),
    ensures
        a == b,
{
    assert forall|j: int| 0 <= j < 32 implies outside::nibble(a, j) == outside::nibble(b, j) by {
        lemma_place(a, j);
        lemma_place(b, j);
        lemma_nibble_range(a, j);
        lemma_nibble_range(b, j);
    }
    lemma_same_head(a, b, 32);
    lemma_head_ends(a);
    lemma_head_ends(b);
}

proof fn lemma_nibble_range(a: u128, k: int)
    ensures
        0 <= outside::nibble(a, k) < 16,
{
    assert(0 <= (a as int / power::pow(16, (31 - k) as nat)) % 16 < 16);
}

/// A smaller id is written before a larger one.
pub proof fn smaller_is_written_before(a: u128, b: u128)
    requires
        a < b,
    ensures
        text::before(outside::hyphenated(a), outside::hyphenated(b)),
{
    let k = lemma_first_difference(a, b, 0);
    let x = outside::hyphenated(a);
    let y = outside::hyphenated(b);
    let i = place(k);
    assert forall|j: int| 0 <= j < i implies x[j] == y[j] by {
        if j != 8 && j != 13 && j != 18 && j != 23 {
            let n = outside::digit_at(j);
            assert(0 <= n < k);
            assert(outside::nibble(a, n) == outside::nibble(b, n));
        }
    }
    lemma_place(a, k);
    lemma_place(b, k);
    lemma_nibble_range(a, k);
    lemma_nibble_range(b, k);
    assert(x.take(i) =~= y.take(i));
    text::lemma_before_skip(x, y, i);
    assert(x.skip(i)[0] == x[i]);
    assert(y.skip(i)[0] == y[i]);
}

proof fn lemma_first_difference(a: u128, b: u128, from: int) -> (k: int)
    requires
        a < b,
        0 <= from <= 32,
        forall|j: int| 0 <= j < from ==> outside::nibble(a, j) == outside::nibble(b, j),
    ensures
        0 <= k < 32,
        forall|j: int| 0 <= j < k ==> outside::nibble(a, j) == outside::nibble(b, j),
        outside::nibble(a, k) < outside::nibble(b, k),
    decreases 32 - from,
{
    lemma_same_head(a, b, from);
    lemma_head_ends(a);
    lemma_head_ends(b);
    let n = (31 - from) as nat;
    lemma_head_step(a, n);
    lemma_head_step(b, n);
    power::lemma_pow_positive(16, n);
    div_mod::lemma_div_is_ordered(a as int, b as int, power::pow(16, n));
    if outside::nibble(a, from) == outside::nibble(b, from) {
        lemma_first_difference(a, b, from + 1)
    } else {
        from
    }
}

}
