//! Running totals, differences, and cutting and joining of sequences.

use crate::pattern::{ONE, POSITIVE_ZERO};
use crate::unit::{accepts_all, accumulates, ask, gives, FloatOp};
use vstd::prelude::*;

verus! {

/// `s` written `times` times over, one copy after the other.
pub open spec fn repeated(s: Seq<u64>, times: nat) -> Seq<u64>
    decreases times,
{
    if times == 0 {
        Seq::empty()
    } else {
        repeated(s, (times - 1) as nat) + s
    }
}

/// The part of `s` from `start` up to `end`, both first cut down to the
/// length of `s`; empty where they then leave nothing between them.
pub open spec fn clamped_range(s: Seq<u64>, start: nat, end: nat) -> Seq<u64> {
    let from = if start <= s.len() {
        start
    } else {
        s.len()
    };
    let to = if end <= s.len() {
        end
    } else {
        s.len()
    };
    if from >= to {
        Seq::empty()
    } else {
        s.subrange(from as int, to as int)
    }
}

fn accumulate<U: Fn(FloatOp, u64, u64) -> u64>(a: &[u64], op: FloatOp, seed: u64, unit: &U) -> (out:
    Vec<u64>)
    requires
        accepts_all(unit),
    ensures
        accumulates(unit, op, seed, a@, out@),
{
    let mut out: Vec<u64> = Vec::with_capacity(a.len());
    let mut running: u64 = seed;
    let mut i: usize = 0;
    while i < a.len()
        invariant
            accepts_all(unit),
            i <= a.len(),
            out.len() == i,
            running == if i == 0 {
                seed
            } else {
                out@[i - 1]
            },
            forall|k: int|
                0 <= k < i ==> gives(
                    unit,
                    op,
                    if k == 0 {
                        seed
                    } else {
                        out@[k - 1]
                    },
                    a@[k],
                    #[trigger] out@[k],
                ),
        decreases a.len() - i,
    {
        running = ask(unit, op, running, a[i]);
        out.push(running);
        i += 1;
    }
    out
}

/// The running sum: each entry is the entry before it plus the item at its
/// index, starting from `+0.0`.
pub fn array_cumsum<U: Fn(FloatOp, u64, u64) -> u64>(a: &[u64], unit: &U) -> (out: Vec<u64>)
    requires
        accepts_all(unit),
    ensures
        accumulates(unit, FloatOp::Add, POSITIVE_ZERO, a@, out@),
{
    accumulate(a, FloatOp::Add, POSITIVE_ZERO, unit)
}

/// The running product: each entry is the entry before it times the item at
/// its index, starting from `1.0`.
pub fn array_cumprod<U: Fn(FloatOp, u64, u64) -> u64>(a: &[u64], unit: &U) -> (out: Vec<u64>)
    requires
        accepts_all(unit),
    ensures
        accumulates(unit, FloatOp::Mul, ONE, a@, out@),
{
    accumulate(a, FloatOp::Mul, ONE, unit)
}

/// The forward differences: each entry is the next item less the item at
/// its index. One entry fewer than items; none for fewer than two items.
pub fn array_diff<U: Fn(FloatOp, u64, u64) -> u64>(a: &[u64], unit: &U) -> (out: Vec<u64>)
    requires
        accepts_all(unit),
    ensures
        a@.len() == 0 ==> out.len() == 0,
        a@.len() > 0 ==> out.len() == a@.len() - 1,
        forall|i: int|
            0 <= i < out.len() ==> gives(unit, FloatOp::Sub, a@[i + 1], a@[i], #[trigger] out@[i]),
{
    let mut out: Vec<u64> = Vec::new();
    if a.len() < 2 {
        return out;
    }
    let n: usize = a.len() - 1;
    let mut i: usize = 0;
    while i < n
        invariant
            accepts_all(unit),
            n == a@.len() - 1,
            i <= n,
            out.len() == i,
            forall|k: int|
                0 <= k < i ==> gives(unit, FloatOp::Sub, a@[k + 1], a@[k], #[trigger] out@[k]),
        decreases n - i,
    {
        out.push(ask(unit, FloatOp::Sub, a[i + 1], a[i]));
        i += 1;
    }
    out
}

/// The items from `start` up to `end`. Both bounds are first cut down to the
/// length; where they then leave nothing between them the result is empty.
pub fn array_slice(a: &[u64], start: usize, end: usize) -> (out: Vec<u64>)
    ensures
        out@ == clamped_range(a@, start as nat, end as nat),
        start >= end ==> out@.len() == 0,
{
    let len: usize = a.len();
    let from: usize = if start <= len {
        start
    } else {
        len
    };
    let to: usize = if end <= len {
        end
    } else {
        len
    };
    let mut out: Vec<u64> = Vec::new();
    if from >= to {
        return out;
    }
    let mut i: usize = from;
    while i < to
        invariant
            from <= i <= to <= a@.len(),
            out@ == a@.subrange(from as int, i as int),
        decreases to - i,
    {
        out.push(a[i]);
        i += 1;
    }
    out
}

/// The items of `a` followed by the items of `b`.
pub fn array_concat(a: &[u64], b: &[u64]) -> (out: Vec<u64>)
    ensures
        out@ == a@ + b@,
{
    let mut out: Vec<u64> = Vec::new();
    out.extend_from_slice(a);
    out.extend_from_slice(b);
    out
}

/// `a` written `times` times over, one copy after the other.
pub fn array_repeat(a: &[u64], times: usize) -> (out: Vec<u64>)
    ensures
        out@ == repeated(a@, times as nat),
        out.len() == times * a@.len(),
        forall|i: int| 0 <= i < out.len() ==> #[trigger] out@[i] == a@[i % (a@.len() as int)],
{
    let mut out: Vec<u64> = Vec::new();
    let mut done: usize = 0;
    while done < times
        invariant
            done <= times,
            out@ == repeated(a@, done as nat),
        decreases times - done,
    {
        out.extend_from_slice(a);
        done += 1;
    }
    proof {
        repeated_is_periodic(a@, times as nat);
    }
    out
}

/// A sequence written `times` times over is `times` times as long, and its
/// item at `i` is the item of the one copy at `i` modulo the length.
pub proof fn repeated_is_periodic(s: Seq<u64>, times: nat)
    ensures
        repeated(s, times).len() == times * s.len(),
        forall|i: int|
            0 <= i < repeated(s, times).len() ==> #[trigger] repeated(s, times)[i] == s[i % (
            s.len() as int)],
    decreases times,
{
    if times > 0 {
        let before = repeated(s, (times - 1) as nat);
        repeated_is_periodic(s, (times - 1) as nat);
        assert(times * s.len() == (times - 1) * s.len() + s.len()) by (nonlinear_arith);
        assert forall|i: int| 0 <= i < repeated(s, times).len() implies #[trigger] repeated(
            s,
            times,
        )[i] == s[i % (s.len() as int)] by {
            if i >= before.len() {
                let n = s.len() as int;
                let offset = i - before.len();
                assert(0 <= offset < n);
                assert(i == (times - 1) * n + offset);
                assert(((times - 1) * n + offset) % n == offset) by (nonlinear_arith)
                    requires
                        0 <= offset < n,
                        times >= 1,
                ;
            }
        }
    } else {
        assert(times * s.len() == 0) by (nonlinear_arith)
            requires
                times == 0,
        ;
    }
}

} // verus!
