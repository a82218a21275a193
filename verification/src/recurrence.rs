//! The recurrence family of guest computations.
//!
//! A second-order linear recurrence `t(k + 2) = t(k + 1) + t(k)` is advanced
//! a number of times that is fixed on entry. The state lives in a
//! fixed-width integer and wraps on overflow, so every term is taken modulo
//! two to the width of the word.

use vstd::prelude::*;
use vstd::arithmetic::div_mod::lemma_add_mod_noop;
use vstd::arithmetic::div_mod::lemma_small_mod;

verus! {

/// The Fibonacci numbers over the naturals: 0, 1, 1, 2, 3, 5, ...
pub open spec fn fib(n: nat) -> nat
    decreases n,
{
    if n == 0 {
        0
    } else if n == 1 {
        1
    } else {
        fib((n - 2) as nat) + fib((n - 1) as nat)
    }
}

/// Term `k` of the recurrence seeded with `x0` and `x1`, in 32-bit
/// wraparound arithmetic.
pub open spec fn term_u32(x0: u32, x1: u32, k: nat) -> u32
    decreases k,
{
    if k == 0 {
        x0
    } else if k == 1 {
        x1
    } else {
        ((term_u32(x0, x1, (k - 2) as nat) + term_u32(x0, x1, (k - 1) as nat)) % 0x1_0000_0000) as u32
    }
}

/// Term `k` of the recurrence seeded with `x0` and `x1`, in 64-bit
/// wraparound arithmetic.
pub open spec fn term_u64(x0: u64, x1: u64, k: nat) -> u64
    decreases k,
{
    if k == 0 {
        x0
    } else if k == 1 {
        x1
    } else {
        ((term_u64(x0, x1, (k - 2) as nat) + term_u64(x0, x1, (k - 1) as nat))
            % 0x1_0000_0000_0000_0000) as u64
    }
}

/// Advances the pair `(x0, x1)` `steps` times by `(a, b) -> (b, a + b)` in
/// 32-bit wraparound arithmetic and returns the second component. That is
/// term `steps + 1` of the recurrence, and so `x0 * fib(steps) + x1 *
/// fib(steps + 1)` reduced modulo two to the 32.
pub fn recurrence_u32(x0: u32, x1: u32, steps: u32) -> (term: u32)
    ensures
        term == term_u32(x0, x1, steps as nat + 1),
        term == (x0 * fib(steps as nat) + x1 * fib(steps as nat + 1)) % 0x1_0000_0000,
{
    proof {
        lemma_term_u32_closed_form(x0, x1, steps as nat + 1);
    }
    let mut a: u32 = x0;
    let mut b: u32 = x1;
    let mut i: u32 = 0;
    while i < steps
        invariant
            i <= steps,
            a == term_u32(x0, x1, i as nat),
            b == term_u32(x0, x1, i as nat + 1),
        decreases steps - i,
    {
        let next: u32 = a.wrapping_add(b);
        a = b;
        b = next;
        i = i + 1;
    }
    b
}

/// Advances the pair `(x0, x1)` `steps` times by `(a, b) -> (b, a + b)` in
/// 64-bit wraparound arithmetic and returns the second component. That is
/// term `steps + 1` of the recurrence, and so `x0 * fib(steps) + x1 *
/// fib(steps + 1)` reduced modulo two to the 64.
pub fn recurrence_u64(x0: u64, x1: u64, steps: u32) -> (term: u64)
    ensures
        term == term_u64(x0, x1, steps as nat + 1),
        term == (x0 * fib(steps as nat) + x1 * fib(steps as nat + 1)) % 0x1_0000_0000_0000_0000,
{
    proof {
        lemma_term_u64_closed_form(x0, x1, steps as nat + 1);
    }
    let mut a: u64 = x0;
    let mut b: u64 = x1;
    let mut i: u32 = 0;
    while i < steps
        invariant
            i <= steps,
            a == term_u64(x0, x1, i as nat),
            b == term_u64(x0, x1, i as nat + 1),
        decreases steps - i,
    {
        let next: u64 = a.wrapping_add(b);
        a = b;
        b = next;
        i = i + 1;
    }
    b
}

/// The `n`-th Fibonacci number modulo two to the 64, computed in `n`
/// wrapping steps. `fibonacci(0)` is 0.
pub fn fibonacci(n: u32) -> (fib_acc: u64)
    ensures
        fib_acc == fib(n as nat) % 0x1_0000_0000_0000_0000,
        fib_acc == term_u64(1, 0, n as nat + 1),
        n <= 93 ==> fib_acc == fib(n as nat),
{
    let mut x0: u64 = 0;
    let mut x1: u64 = 1;
    let mut fib_acc: u64 = 0;
    let mut i: u32 = 0;
    while i < n
        invariant
            i <= n,
            x1 == term_u64(1, 0, i as nat),
            fib_acc == term_u64(1, 0, i as nat + 1),
        decreases n - i,
    {
        x0 = x1;
        x1 = fib_acc;
        fib_acc = x0.wrapping_add(x1);
        i = i + 1;
    }
    proof {
        lemma_fibonacci_terms(n as nat);
        if n <= 93 {
            lemma_fib_fits_u64(n as nat);
            lemma_small_mod(fib(n as nat), 0x1_0000_0000_0000_0000);
        }
    }
    fib_acc
}

/// Every term of the 64-bit recurrence from the second on is a fixed
/// combination of the two seeds, reduced modulo two to the 64: term `k` is
/// `x0 * fib(k - 1) + x1 * fib(k)`.
pub proof fn lemma_term_u64_closed_form(x0: u64, x1: u64, k: nat)
    requires
        k >= 1,
    ensures
        term_u64(x0, x1, k) == (x0 * fib((k - 1) as nat) + x1 * fib(k)) % 0x1_0000_0000_0000_0000,
    decreases k,
{
    let m = 0x1_0000_0000_0000_0000int;
    if k == 1 {
        assert(x0 * fib(0) + x1 * fib(1) == x1) by (nonlinear_arith)
            requires
                fib(0) == 0,
                fib(1) == 1,
        ;
        lemma_small_mod(x1 as nat, m as nat);
        assert(term_u64(x0, x1, 1) == x1);
        assert((x0 * fib(0) + x1 * fib(1)) % m == x1);
    } else if k == 2 {
        assert(fib(0) == 0 && fib(1) == 1);
        assert(fib(2) == fib(0) + fib(1));
        assert(x0 * fib(1) + x1 * fib(2) == x0 + x1) by (nonlinear_arith)
            requires
                fib(1) == 1,
                fib(2) == 1,
        ;
        assert(term_u64(x0, x1, 0) == x0 && term_u64(x0, x1, 1) == x1);
        assert(term_u64(x0, x1, 2) == (x0 + x1) % m);
    } else {
        lemma_term_u64_closed_form(x0, x1, (k - 1) as nat);
        lemma_term_u64_closed_form(x0, x1, (k - 2) as nat);
        let a = x0 * fib((k - 3) as nat) + x1 * fib((k - 2) as nat);
        let b = x0 * fib((k - 2) as nat) + x1 * fib((k - 1) as nat);
        assert(term_u64(x0, x1, (k - 2) as nat) == a % m);
        assert(term_u64(x0, x1, (k - 1) as nat) == b % m);
        assert(term_u64(x0, x1, k) == (a % m + b % m) % m);
        lemma_add_mod_noop(a, b, m);
        assert(fib((k - 1) as nat) == fib((k - 3) as nat) + fib((k - 2) as nat));
        assert(fib(k) == fib((k - 2) as nat) + fib((k - 1) as nat));
        assert(a + b == x0 * fib((k - 1) as nat) + x1 * fib(k)) by (nonlinear_arith)
            requires
                a == x0 * fib((k - 3) as nat) + x1 * fib((k - 2) as nat),
                b == x0 * fib((k - 2) as nat) + x1 * fib((k - 1) as nat),
                fib((k - 1) as nat) == fib((k - 3) as nat) + fib((k - 2) as nat),
                fib(k) == fib((k - 2) as nat) + fib((k - 1) as nat),
        ;
        assert(term_u64(x0, x1, k) == (x0 * fib((k - 1) as nat) + x1 * fib(k)) % m);
    }
}

/// Every term of the 32-bit recurrence from the second on is a fixed
/// combination of the two seeds, reduced modulo two to the 32: term `k` is
/// `x0 * fib(k - 1) + x1 * fib(k)`.
pub proof fn lemma_term_u32_closed_form(x0: u32, x1: u32, k: nat)
    requires
        k >= 1,
    ensures
        term_u32(x0, x1, k) == (x0 * fib((k - 1) as nat) + x1 * fib(k)) % 0x1_0000_0000,
    decreases k,
{
    let m = 0x1_0000_0000int;
    if k == 1 {
        assert(x0 * fib(0) + x1 * fib(1) == x1) by (nonlinear_arith)
            requires
                fib(0) == 0,
                fib(1) == 1,
        ;
        lemma_small_mod(x1 as nat, m as nat);
        assert(term_u32(x0, x1, 1) == x1);
        assert((x0 * fib(0) + x1 * fib(1)) % m == x1);
    } else if k == 2 {
        assert(fib(0) == 0 && fib(1) == 1);
        assert(fib(2) == fib(0) + fib(1));
        assert(x0 * fib(1) + x1 * fib(2) == x0 + x1) by (nonlinear_arith)
            requires
                fib(1) == 1,
                fib(2) == 1,
        ;
        assert(term_u32(x0, x1, 0) == x0 && term_u32(x0, x1, 1) == x1);
        assert(term_u32(x0, x1, 2) == (x0 + x1) % m);
    } else {
        lemma_term_u32_closed_form(x0, x1, (k - 1) as nat);
        lemma_term_u32_closed_form(x0, x1, (k - 2) as nat);
        let a = x0 * fib((k - 3) as nat) + x1 * fib((k - 2) as nat);
        let b = x0 * fib((k - 2) as nat) + x1 * fib((k - 1) as nat);
        assert(term_u32(x0, x1, (k - 2) as nat) == a % m);
        assert(term_u32(x0, x1, (k - 1) as nat) == b % m);
        assert(term_u32(x0, x1, k) == (a % m + b % m) % m);
        lemma_add_mod_noop(a, b, m);
        assert(fib((k - 1) as nat) == fib((k - 3) as nat) + fib((k - 2) as nat));
        assert(fib(k) == fib((k - 2) as nat) + fib((k - 1) as nat));
        assert(a + b == x0 * fib((k - 1) as nat) + x1 * fib(k)) by (nonlinear_arith)
            requires
                a == x0 * fib((k - 3) as nat) + x1 * fib((k - 2) as nat),
                b == x0 * fib((k - 2) as nat) + x1 * fib((k - 1) as nat),
                fib((k - 1) as nat) == fib((k - 3) as nat) + fib((k - 2) as nat),
                fib(k) == fib((k - 2) as nat) + fib((k - 1) as nat),
        ;
        assert(term_u32(x0, x1, k) == (x0 * fib((k - 1) as nat) + x1 * fib(k)) % m);
    }
}

/// Seeded with 1 and 0, the 64-bit recurrence runs through the Fibonacci
/// numbers reduced modulo two to the 64: term `n + 1` is `fib(n)`.
pub proof fn lemma_fibonacci_terms(n: nat)
    ensures
        term_u64(1, 0, n + 1) == fib(n) % 0x1_0000_0000_0000_0000,
    decreases n,
{
    if n == 0 {
    } else if n == 1 {
        assert(term_u64(1, 0, 2) == (term_u64(1, 0, 0) + term_u64(1, 0, 1)) % 0x1_0000_0000_0000_0000);
    } else {
        lemma_fibonacci_terms((n - 1) as nat);
        lemma_fibonacci_terms((n - 2) as nat);
        lemma_add_mod_noop(
            fib((n - 2) as nat) as int,
            fib((n - 1) as nat) as int,
            0x1_0000_0000_0000_0000,
        );
    }
}

/// Seeded with 0 and 1, the 32-bit recurrence runs through the Fibonacci
/// numbers reduced modulo two to the 32: term `n` is `fib(n)`.
pub proof fn lemma_fibonacci_terms_u32(n: nat)
    ensures
        term_u32(0, 1, n) == fib(n) % 0x1_0000_0000,
    decreases n,
{
    if n >= 2 {
        lemma_fibonacci_terms_u32((n - 1) as nat);
        lemma_fibonacci_terms_u32((n - 2) as nat);
        lemma_add_mod_noop(fib((n - 2) as nat) as int, fib((n - 1) as nat) as int, 0x1_0000_0000);
    }
}

/// The Fibonacci numbers never decrease.
pub proof fn lemma_fib_monotonic(i: nat, j: nat)
    requires
        i <= j,
    ensures
        fib(i) <= fib(j),
    decreases j - i,
{
    if j < 2 || i == j {
    } else if i == j - 1 {
    } else {
        lemma_fib_monotonic(i, (j - 1) as nat);
        lemma_fib_monotonic(i, (j - 2) as nat);
    }
}

/// Every Fibonacci number up to the 93rd fits in 64 bits, so the wrapping
/// computation is exact up to there.
pub proof fn lemma_fib_fits_u64(n: nat)
    requires
        n <= 93,
    ensures
        fib(n) <= 0xffff_ffff_ffff_ffff,
{
    lemma_fib_93();
    lemma_fib_monotonic(n, 93);
}

/// Eight steps of the Fibonacci recurrence taken at once.
proof fn lemma_fib_skip(n: nat)
    ensures
        fib(n + 8) == 13 * fib(n) + 21 * fib(n + 1),
        fib(n + 9) == 21 * fib(n) + 34 * fib(n + 1),
{
    assert(fib(n + 2) == fib(n) + fib(n + 1));
    assert(fib(n + 3) == fib(n + 1) + fib(n + 2));
    assert(fib(n + 4) == fib(n + 2) + fib(n + 3));
    assert(fib(n + 5) == fib(n + 3) + fib(n + 4));
    assert(fib(n + 6) == fib(n + 4) + fib(n + 5));
    assert(fib(n + 7) == fib(n + 5) + fib(n + 6));
    assert(fib(n + 8) == fib(n + 6) + fib(n + 7));
    assert(fib(n + 9) == fib(n + 7) + fib(n + 8));
}

proof fn lemma_fib_93()
    ensures
        fib(93) == 12200160415121876738,
{
    assert(fib(0) == 0 && fib(1) == 1);
    lemma_fib_skip(0);
    assert(fib(8) == 21 && fib(9) == 34);
    lemma_fib_skip(8);
    assert(fib(16) == 987 && fib(17) == 1597);
    lemma_fib_skip(16);
    assert(fib(24) == 46368 && fib(25) == 75025);
    lemma_fib_skip(24);
    assert(fib(32) == 2178309 && fib(33) == 3524578);
    lemma_fib_skip(32);
    assert(fib(40) == 102334155 && fib(41) == 165580141);
    lemma_fib_skip(40);
    assert(fib(48) == 4807526976 && fib(49) == 7778742049);
    lemma_fib_skip(48);
    assert(fib(56) == 225851433717 && fib(57) == 365435296162);
    lemma_fib_skip(56);
    assert(fib(64) == 10610209857723 && fib(65) == 17167680177565);
    lemma_fib_skip(64);
    assert(fib(72) == 498454011879264 && fib(73) == 806515533049393);
    lemma_fib_skip(72);
    assert(fib(80) == 23416728348467685 && fib(81) == 37889062373143906);
    lemma_fib_skip(80);
    assert(fib(88) == 1100087778366101931 && fib(89) == 1779979416004714189);
    assert(fib(90) == fib(88) + fib(89));
    assert(fib(91) == fib(89) + fib(90));
    assert(fib(92) == fib(90) + fib(91));
    assert(fib(93) == fib(91) + fib(92));
}

} // verus!
