//! Sample computations for the runner to test and to time: two small integer
//! functions and a compute-heavy map-reduce, once sequential and once spread
//! over a thread pool.

use rayon::iter::{IntoParallelIterator, ParallelIterator};
use vstd::arithmetic::div_mod::lemma_add_mod_noop;
use vstd::arithmetic::div_mod::lemma_small_mod;
use vstd::prelude::*;
use vstd::wrapping::u64_specs::wrapping_add;
use vstd::wrapping::u64_specs::wrapping_mul;

verus! {

/// The `n`-th Fibonacci number, counting from `fibonacci(0) == 0`.
pub open spec fn fibonacci(n: nat) -> nat
    decreases n,
{
    if n < 2 {
        n
    } else {
        fibonacci((n - 1) as nat) + fibonacci((n - 2) as nat)
    }
}

/// The first two Fibonacci numbers are 0 and 1, and each further one is the sum of the
/// two before it.
pub proof fn lemma_fibonacci_recurrence(n: nat)
    ensures
        fibonacci(0) == 0,
        fibonacci(1) == 1,
        fibonacci(n + 2) == fibonacci(n + 1) + fibonacci(n),
{
}

/// The Fibonacci number of a sum, from those of the two summands and of their
/// successors.
pub proof fn lemma_fibonacci_addition(m: nat, n: nat)
    ensures
        fibonacci(m + n + 1) == fibonacci(m + 1) * fibonacci(n + 1) + fibonacci(m) * fibonacci(n),
    decreases n,
{
    let a = fibonacci(m + 1) as int;
    let b = fibonacci(m) as int;
    let x = fibonacci(n) as int;
    lemma_fibonacci_recurrence(m);
    if n == 0 {
        assert(a * 1 + b * 0 == a);
    } else if n == 1 {
        lemma_fibonacci_recurrence(0);
        assert(fibonacci(n + 1) == 1);
        assert(a * 1 + b * 1 == a + b);
    } else {
        let y = fibonacci((n - 1) as nat) as int;
        let z = fibonacci((n - 2) as nat) as int;
        lemma_fibonacci_addition(m, (n - 1) as nat);
        lemma_fibonacci_addition(m, (n - 2) as nat);
        assert(fibonacci((m + (n - 1) + 1) as nat) == a * x + b * y);
        assert(fibonacci((m + (n - 2) + 1) as nat) == a * y + b * z);
        assert(fibonacci(m + n + 1) == (a * x + b * y) + (a * y + b * z));
        assert((a * x + b * y) + (a * y + b * z) == a * (x + y) + b * (y + z))
            by (nonlinear_arith);
        assert(fibonacci(n + 1) == x + y && x == y + z);
    }
}

/// The Fibonacci numbers never decrease.
pub proof fn lemma_fibonacci_monotonic(i: nat, j: nat)
    requires
        i <= j,
    ensures
        fibonacci(i) <= fibonacci(j),
    decreases j,
{
    if i < j {
        lemma_fibonacci_monotonic(i, (j - 1) as nat);
    }
}

/// Two neighbouring Fibonacci numbers, eight places further on.
proof fn lemma_fibonacci_stride(n: nat)
    ensures
        fibonacci(n + 8) == 21 * fibonacci(n + 1) + 13 * fibonacci(n),
        fibonacci(n + 9) == 34 * fibonacci(n + 1) + 21 * fibonacci(n),
{
    assert(fibonacci(n + 5) == 5 * fibonacci(n + 1) + 3 * fibonacci(n) && fibonacci(n + 4) == 3
        * fibonacci(n + 1) + 2 * fibonacci(n)) by {
        reveal_with_fuel(fibonacci, 5);
    }
    reveal_with_fuel(fibonacci, 5);
}

/// Index 93 is the last one whose Fibonacci number fits in 64 bits.
pub proof fn lemma_fibonacci_fits_u64(n: nat)
    ensures
        fibonacci(n) <= u64::MAX <==> n <= 93,
{
    assert(fibonacci(5) == 5 && fibonacci(6) == 8) by {
        reveal_with_fuel(fibonacci, 6);
    }
    lemma_fibonacci_stride(5);
    lemma_fibonacci_stride(13);
    lemma_fibonacci_stride(21);
    lemma_fibonacci_stride(29);
    lemma_fibonacci_stride(37);
    lemma_fibonacci_stride(45);
    lemma_fibonacci_stride(53);
    lemma_fibonacci_stride(61);
    lemma_fibonacci_stride(69);
    lemma_fibonacci_stride(77);
    lemma_fibonacci_stride(85);
    assert(fibonacci(93) <= u64::MAX < fibonacci(94));
    if n <= 93 {
        lemma_fibonacci_monotonic(n, 93);
    } else {
        lemma_fibonacci_monotonic(94, n);
    }
}

/// Computes the `n`-th Fibonacci number by the defining double recursion.
///
/// From index 94 on the number no longer fits in the result type.
pub fn fib(n: u32) -> (res: u64)
    requires
        n <= 93,
    ensures
        res == fibonacci(n as nat),
        n < 2 ==> res == n,
    decreases n,
{
    match n {
        0 => 0,
        1 => 1,
        _ => {
            proof {
                lemma_fibonacci_fits_u64(n as nat);
            }
            fib(n - 1) + fib(n - 2)
        },
    }
}

/// Adds up the integers below `n`.
pub fn sum_to(n: u32) -> (res: u64)
    ensures
        2 * res == n * (n - 1),
{
    let mut s: u64 = 0;
    for i in 0..n
        invariant
            2 * s == i * (i - 1),
    {
        assert(i * (i - 1) <= u32::MAX * u32::MAX && (i + 1) * i == i * (i - 1) + 2 * i)
            by (nonlinear_arith)
            requires
                0 <= i <= u32::MAX,
        ;
        s = s.wrapping_add(i as u64);
    }
    s
}

/// One round of the mixing loop of [`busy`]: a linear congruential step modulo
/// `2^64` whose increment is `x` made odd.
pub open spec fn busy_step(x: u32, acc: u64) -> u64 {
    ((acc * 6_364_136_223_846_793_005 + (x as u64 | 1)) % 0x1_0000_0000_0000_0000) as u64
}

/// `rounds` rounds of the mixing loop, starting from `acc`.
pub open spec fn busy_rounds(x: u32, acc: u64, rounds: nat) -> u64
    decreases rounds,
{
    if rounds == 0 {
        acc
    } else {
        busy_step(x, busy_rounds(x, acc, (rounds - 1) as nat))
    }
}

/// What [`busy`] computes from `x`.
pub open spec fn busy_value(x: u32) -> u64 {
    busy_rounds(x, x as u64 ^ 0xdead_beef_cafe_d00d, 200)
}

/// Each round multiplies by the same constant and adds `x` made odd, modulo `2^64`, and
/// no rounds change nothing.
pub proof fn lemma_busy_round(x: u32, acc: u64, rounds: nat)
    ensures
        busy_rounds(x, acc, 0) == acc,
        busy_rounds(x, acc, rounds + 1) == (busy_rounds(x, acc, rounds)
            * 6_364_136_223_846_793_005 + (if x % 2 == 0 {
            x + 1
        } else {
            x as int
        })) % 0x1_0000_0000_0000_0000,
{
    assert(x % 2 == 0 ==> (x as u64 | 1) == x + 1) by (bit_vector);
    assert(x % 2 != 0 ==> (x as u64 | 1) == x) by (bit_vector);
}

/// Rounds can be run in two goes.
pub proof fn lemma_busy_rounds_compose(x: u32, acc: u64, first: nat, second: nat)
    ensures
        busy_rounds(x, acc, first + second) == busy_rounds(
            x,
            busy_rounds(x, acc, first),
            second,
        ),
    decreases second,
{
    if second > 0 {
        lemma_busy_rounds_compose(x, acc, first, (second - 1) as nat);
    }
}

/// The transform of an element runs the same number of rounds on each, from the element
/// mixed with the same constant.
pub proof fn lemma_busy_value(x: u32)
    ensures
        busy_value(x) == busy_rounds(x, x as u64 ^ 0xdead_beef_cafe_d00d, 200),
{
}

/// Wrapping addition is addition modulo `2^64`.
proof fn lemma_wrapping_add(a: u64, b: u64)
    ensures
        wrapping_add(a, b) == (a + b) % 0x1_0000_0000_0000_0000,
{
}

/// The reduced sum of two numbers is the wrapping sum of the reduced numbers.
proof fn lemma_wrapping_sum(a: nat, b: nat)
    ensures
        wrapping_add(
            (a % 0x1_0000_0000_0000_0000) as u64,
            (b % 0x1_0000_0000_0000_0000) as u64,
        ) == (a + b) % 0x1_0000_0000_0000_0000,
{
    lemma_wrapping_add(
        (a % 0x1_0000_0000_0000_0000) as u64,
        (b % 0x1_0000_0000_0000_0000) as u64,
    );
    lemma_add_mod_noop(a as int, b as int, 0x1_0000_0000_0000_0000);
}

proof fn lemma_busy_step(x: u32, acc: u64)
    ensures
        wrapping_add(wrapping_mul(acc, 6_364_136_223_846_793_005), x as u64 | 1) == busy_step(
            x,
            acc,
        ),
{
    let increment = x as u64 | 1;
    lemma_small_mod(increment as nat, 0x1_0000_0000_0000_0000);
    lemma_wrapping_sum((acc * 6_364_136_223_846_793_005) as nat, increment as nat);
}

/// Compute-heavy transform of one element, without shared state.
pub fn busy(x: u32) -> (res: u64)
    ensures
        res == busy_value(x),
        res == busy_rounds(x, x as u64 ^ 0xdead_beef_cafe_d00d, 200),
{
    let mut acc: u64 = (x as u64) ^ 0xdead_beef_cafe_d00d;
    let ghost start = acc;
    for i in 0..200
        invariant
            acc == busy_rounds(x, start, i as nat),
    {
        proof {
            lemma_busy_step(x, acc);
        }
        acc = acc.wrapping_mul(6_364_136_223_846_793_005).wrapping_add(x as u64 | 1);
    }
    acc
}

/// The integers below `n`, in order.
pub open spec fn below(n: u32) -> Seq<u32> {
    Seq::new(n as nat, |i: int| i as u32)
}

/// The exact sum of the transformed elements.
pub open spec fn busy_total(xs: Seq<u32>) -> nat
    decreases xs.len(),
{
    if xs.len() == 0 {
        0
    } else {
        busy_total(xs.drop_last()) + busy_value(xs.last()) as nat
    }
}

/// What both reductions compute: the sum of the transformed integers below `n`,
/// modulo `2^64`.
pub open spec fn busy_sum(n: u32) -> u64 {
    (busy_total(below(n)) % 0x1_0000_0000_0000_0000) as u64
}

/// The integers below `n` are `n` in number, and the `i`-th is `i`.
pub proof fn lemma_below(n: u32)
    ensures
        below(n).len() == n,
        forall|i: int| 0 <= i < n ==> #[trigger] below(n)[i] == i,
{
}

/// Of no elements the exact sum is zero, and each further element adds its transform.
pub proof fn lemma_busy_total(xs: Seq<u32>, x: u32)
    ensures
        busy_total(Seq::empty()) == 0,
        busy_total(xs.push(x)) == busy_total(xs) + busy_value(x),
{
    assert(xs.push(x).drop_last() =~= xs);
}

/// The sum for nothing is zero, and the sum for `n + 1` is the sum for `n` and the
/// transform of `n`, modulo `2^64`.
pub proof fn lemma_busy_sum_grows(n: u32)
    requires
        n < u32::MAX,
    ensures
        busy_sum(0) == 0,
        busy_sum((n + 1) as u32) == (busy_sum(n) + busy_value(n)) % 0x1_0000_0000_0000_0000,
{
    assert(below(0) =~= Seq::<u32>::empty());
    assert(below((n + 1) as u32) =~= below(n).push(n));
    lemma_busy_total(below(n), n);
    lemma_small_mod(busy_value(n) as nat, 0x1_0000_0000_0000_0000);
    lemma_add_mod_noop(
        busy_total(below(n)) as int,
        busy_value(n) as int,
        0x1_0000_0000_0000_0000,
    );
}

/// Adds up the transformed integers below `n`, one after the other.
pub fn busy_sum_serial(n: u32) -> (res: u64)
    ensures
        res == busy_sum(n),
{
    let mut sum: u64 = 0;
    for i in 0..n
        invariant
            sum == busy_sum(i),
    {
        assert(below((i + 1) as u32).drop_last() =~= below(i));
        proof {
            lemma_small_mod(busy_value(i) as nat, 0x1_0000_0000_0000_0000);
            lemma_wrapping_sum(busy_total(below(i)), busy_value(i) as nat);
        }
        sum = sum.wrapping_add(busy(i));
    }
    sum
}

/// One way to bracket a reduction of transformed elements: wherever the work is
/// split two partial results are joined, and the identity may stand anywhere.
pub enum Reduction {
    Identity,
    Item(u32),
    Join(Box<Reduction>, Box<Reduction>),
}

impl Reduction {
    /// The elements that are reduced, from left to right.
    pub open spec fn items(self) -> Seq<u32>
        decreases self,
    {
        match self {
            Reduction::Identity => Seq::empty(),
            Reduction::Item(x) => seq![x],
            Reduction::Join(left, right) => left.items() + right.items(),
        }
    }

    /// The value of the reduction, with zero as the identity and wrapping addition
    /// as the operation.
    pub open spec fn value(self) -> u64
        decreases self,
    {
        match self {
            Reduction::Identity => 0,
            Reduction::Item(x) => busy_value(x),
            Reduction::Join(left, right) => wrapping_add(left.value(), right.value()),
        }
    }
}

/// `value` comes out of reducing `xs`, bracketed in one way or another.
pub open spec fn is_reduction(xs: Seq<u32>, value: u64) -> bool {
    exists|r: Reduction| r.items() == xs && value == #[trigger] r.value()
}

/// What a reduction reduces, and to what: the identity nothing and to zero, an item
/// itself and to its transform, and a join what its halves reduce, in a row, and to the
/// sum of their values modulo `2^64`.
pub proof fn lemma_reduction_rules(x: u32, left: Reduction, right: Reduction)
    ensures
        Reduction::Identity.items() == Seq::<u32>::empty(),
        Reduction::Identity.value() == 0,
        Reduction::Item(x).items() == seq![x],
        Reduction::Item(x).value() == busy_value(x),
        Reduction::Join(Box::new(left), Box::new(right)).items() == left.items() + right.items(),
        Reduction::Join(Box::new(left), Box::new(right)).value() == (left.value() + right.value())
            % 0x1_0000_0000_0000_0000,
{
    let join = Reduction::Join(Box::new(left), Box::new(right));
    assert(join.items() == left.items() + right.items());
    lemma_wrapping_add(left.value(), right.value());
}

/// Adding up the elements one after the other is one way to reduce them.
pub proof fn lemma_serial_is_a_reduction(xs: Seq<u32>)
    ensures
        is_reduction(xs, (busy_total(xs) % 0x1_0000_0000_0000_0000) as u64),
    decreases xs.len(),
{
    if xs.len() == 0 {
        let r = Reduction::Identity;
        assert(r.items() =~= xs);
        assert(is_reduction(xs, r.value()));
    } else {
        let init = xs.drop_last();
        lemma_serial_is_a_reduction(init);
        let before = choose|r: Reduction|
            r.items() == init && (busy_total(init) % 0x1_0000_0000_0000_0000) as u64
                == #[trigger] r.value();
        let r = Reduction::Join(Box::new(before), Box::new(Reduction::Item(xs.last())));
        lemma_reduction_rules(xs.last(), before, Reduction::Item(xs.last()));
        assert(r.items() =~= xs);
        lemma_bracketing_is_irrelevant(r);
        assert(is_reduction(xs, r.value()));
    }
}

proof fn lemma_busy_total_concat(xs: Seq<u32>, ys: Seq<u32>)
    ensures
        busy_total(xs + ys) == busy_total(xs) + busy_total(ys),
    decreases ys.len(),
{
    if ys.len() == 0 {
        assert(xs + ys =~= xs);
    } else {
        assert((xs + ys).drop_last() =~= xs + ys.drop_last());
        lemma_busy_total_concat(xs, ys.drop_last());
    }
}

/// However a reduction is bracketed, its value is the sum of its elements modulo
/// `2^64`: where the work is split makes no difference.
pub proof fn lemma_bracketing_is_irrelevant(r: Reduction)
    ensures
        r.value() == busy_total(r.items()) % 0x1_0000_0000_0000_0000,
    decreases r,
{
    match r {
        Reduction::Identity => {
            assert(busy_total(r.items()) == 0);
        },
        Reduction::Item(x) => {
            assert(busy_total(seq![x].drop_last()) == 0);
            assert(busy_total(r.items()) == busy_value(x));
        },
        Reduction::Join(left, right) => {
            lemma_bracketing_is_irrelevant(*left);
            lemma_bracketing_is_irrelevant(*right);
            lemma_busy_total_concat(left.items(), right.items());
            lemma_wrapping_sum(busy_total(left.items()), busy_total(right.items()));
        },
    }
}

/// Whatever a parallel reduction of the integers below `n` comes to, it is what the
/// sequential one computes.
pub proof fn lemma_parallel_matches_serial(n: u32, value: u64)
    requires
        is_reduction(below(n), value),
    ensures
        value == busy_sum(n),
{
    let r = choose|r: Reduction| r.items() == below(n) && value == #[trigger] r.value();
    lemma_bracketing_is_irrelevant(r);
}

/// `rayon`'s `ParallelIterator::reduce`, on the integers below `n` mapped by
/// [`busy`], with wrapping addition as the operation and zero as the identity.
///
/// Believed of it: the result is that operation applied to the mapped items in
/// their order, bracketed in some way and with identities put in anywhere. Which
/// bracketing it is depends on how the pool splits the range, and is left open.
#[verifier::external_body]
fn par_reduce_busy(n: u32) -> (res: u64)
    ensures
        is_reduction(below(n), res),
{
    (0..n).into_par_iter().map(|x| busy(x)).reduce(|| 0u64, u64::wrapping_add)
}

/// Adds up the transformed integers below `n`, split across the thread pool.
pub fn busy_sum_rayon(n: u32) -> (res: u64)
    ensures
        res == busy_sum(n),
{
    let res = par_reduce_busy(n);
    proof {
        lemma_parallel_matches_serial(n, res);
    }
    res
}

} // verus!
