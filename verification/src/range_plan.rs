//! Splitting a known total length into contiguous byte ranges of near-equal size.

use vstd::prelude::*;

verus! {

/// One inclusive byte range `start..=end` of the output file.
#[derive(Clone, Copy, Debug, PartialEq, Eq, Structural)]
pub struct RangePart {
    pub start: u64,
    pub end: u64,
}

/// The chunk size of a plan: `total / parts`, rounded up. Zero when no part is asked for.
pub open spec fn chunk_size(total: int, parts: int) -> int {
    if parts <= 0 {
        0
    } else {
        (total + parts - 1) / parts
    }
}

/// How many parts the plan for `total` bytes and `parts` requested parts holds:
/// the number of chunk starts that lie below `total`.
pub open spec fn plan_len(total: int, parts: int) -> int {
    let c = chunk_size(total, parts);
    if c <= 0 || total <= 0 {
        0
    } else {
        (total + c - 1) / c
    }
}

/// First byte of part `i`.
pub open spec fn part_start(total: int, parts: int, i: int) -> int {
    i * chunk_size(total, parts)
}

/// Last byte of part `i`: a whole chunk, cut at the last byte of the file.
pub open spec fn part_end(total: int, parts: int, i: int) -> int {
    let next = (i + 1) * chunk_size(total, parts);
    if next <= total {
        next - 1
    } else {
        total - 1
    }
}

/// The plan for `total` bytes and `parts` requested parts.
pub open spec fn range_plan(total: u64, parts: usize) -> Seq<RangePart> {
    Seq::new(
        plan_len(total as int, parts as int) as nat,
        |i: int|
            RangePart {
                start: part_start(total as int, parts as int, i) as u64,
                end: part_end(total as int, parts as int, i) as u64,
            },
    )
}

/// `(a + b - 1) / b` is the least `q` with `a <= q * b`.
pub proof fn lemma_round_up(a: int, b: int)
    requires
        a > 0,
        b > 0,
    ensures
        ((a + b - 1) / b - 1) * b < a <= ((a + b - 1) / b) * b,
        (a + b - 1) / b >= 1,
{
    let q = (a + b - 1) / b;
    let r = (a + b - 1) % b;
    assert(a + b - 1 == b * q + r && 0 <= r < b) by (nonlinear_arith)
        requires
            b > 0,
            q == (a + b - 1) / b,
            r == (a + b - 1) % b,
    ;
    assert((q - 1) * b == b * q - b && q * b == b * q) by (nonlinear_arith);
    assert(q >= 1) by (nonlinear_arith)
        requires
            b * q >= a,
            a > 0,
            b > 0,
    ;
}

/// A factor that lies strictly between two multiples of `c` is pinned down.
pub proof fn lemma_multiples_order(i: int, j: int, c: int)
    requires
        c > 0,
        i * c < j * c,
    ensures
        i < j,
{
    assert(i < j) by (nonlinear_arith)
        requires
            c > 0,
            i * c < j * c,
    ;
}

/// The shape of a plan for a non-empty file: its chunk is positive, it holds between one
/// and `parts` parts, and its length is the least number of chunks that cover the file.
pub proof fn lemma_plan_shape(total: int, parts: int)
    requires
        total > 0,
        parts > 0,
    ensures
        chunk_size(total, parts) >= 1,
        1 <= plan_len(total, parts) <= parts,
        (plan_len(total, parts) - 1) * chunk_size(total, parts) < total,
        total <= plan_len(total, parts) * chunk_size(total, parts),
{
    let c = chunk_size(total, parts);
    lemma_round_up(total, parts);
    assert(c >= 1);
    assert(total <= c * parts) by (nonlinear_arith)
        requires
            total <= c * parts || total <= parts * c,
    ;
    let n = plan_len(total, parts);
    lemma_round_up(total, c);
    assert((n - 1) * c < parts * c) by (nonlinear_arith)
        requires
            (n - 1) * c < total,
            total <= c * parts,
    ;
    lemma_multiples_order(n - 1, parts, c);
}

/// Part `i` of a plan lies inside the file and is not empty.
pub proof fn lemma_part_bounds(total: int, parts: int, i: int)
    requires
        total > 0,
        parts > 0,
        0 <= i < plan_len(total, parts),
    ensures
        0 <= part_start(total, parts, i) <= part_end(total, parts, i) < total,
        i + 1 < plan_len(total, parts) ==> part_end(total, parts, i) + 1 == part_start(
            total,
            parts,
            i + 1,
        ),
        i + 1 == plan_len(total, parts) ==> part_end(total, parts, i) == total - 1,
{
    let c = chunk_size(total, parts);
    let n = plan_len(total, parts);
    lemma_plan_shape(total, parts);
    assert(0 <= i * c && i * c <= (n - 1) * c && (i + 1) * c == i * c + c) by (nonlinear_arith)
        requires
            0 <= i <= n - 1,
            c >= 1,
    ;
    if i + 1 < n {
        assert((i + 1) * c <= (n - 1) * c) by (nonlinear_arith)
            requires
                i + 1 <= n - 1,
                c >= 1,
        ;
    }
}

/// Splits `total` bytes into at most `requested_parts` ranges of `ceil(total / requested_parts)`
/// bytes each; the last range is cut at the end of the file, and ranges that would start at or
/// after `total` are left out. No part is asked for, or no byte: no range.
pub fn build_range_plan(total: u64, requested_parts: usize) -> (plan: Vec<RangePart>)
    ensures
        plan@ == range_plan(total, requested_parts),
{
    let mut plan: Vec<RangePart> = Vec::new();
    if requested_parts == 0 || total == 0 {
        assert(plan@ =~= range_plan(total, requested_parts));
        return plan;
    }
    let parts: u64 = requested_parts as u64;
    let whole: u64 = total / parts;
    let chunk: u64 = if total % parts == 0 {
        whole
    } else {
        assert(whole < total) by (nonlinear_arith)
            requires
                whole as int == (total as int) / (parts as int),
                (total as int) % (parts as int) != 0,
                parts > 0,
                total > 0,
        ;
        whole + 1
    };
    let ghost t = total as int;
    let ghost p = requested_parts as int;
    let ghost n = plan_len(t, p);
    proof {
        lemma_plan_shape(t, p);
        assert(chunk as int == chunk_size(t, p)) by (nonlinear_arith)
            requires
                p > 0,
                t >= 0,
                whole as int == t / p,
                chunk as int == if t % p == 0 {
                    whole as int
                } else {
                    whole as int + 1
                },
                chunk_size(t, p) == (t + p - 1) / p,
        ;
    }
    let mut start: u64 = 0;
    while start < total
        invariant
            t == total as int,
            p == requested_parts as int,
            n == plan_len(t, p),
            t > 0,
            p > 0,
            chunk as int == chunk_size(t, p),
            chunk >= 1,
            start <= total,
            plan@.len() <= n,
            start < total ==> start as int == plan@.len() * chunk,
            start == total ==> plan@.len() == n,
            plan@ =~= range_plan(total, requested_parts).take(plan@.len() as int),
        decreases total - start,
    {
        let ghost i = plan@.len() as int;
        let remaining: u64 = total - start;
        proof {
            lemma_plan_shape(t, p);
            assert(i * chunk < n * chunk);
            lemma_multiples_order(i, n, chunk as int);
            lemma_part_bounds(t, p, i);
            assert((i + 1) * chunk == i * chunk + chunk) by (nonlinear_arith);
        }
        if remaining <= chunk {
            proof {
                if i + 1 < n {
                    assert((i + 1) * chunk <= (n - 1) * chunk) by (nonlinear_arith)
                        requires
                            i + 1 <= n - 1,
                            chunk >= 1,
                    ;
                }
            }
            plan.push(RangePart { start, end: total - 1 });
            start = total;
        } else {
            plan.push(RangePart { start, end: start + (chunk - 1) });
            start = start + chunk;
            proof {
                assert(i + 1 < n) by {
                    assert((i + 1) * chunk < n * chunk);
                    lemma_multiples_order(i + 1, n, chunk as int);
                }
            }
        }
    }
    assert(plan@ =~= range_plan(total, requested_parts));
    plan
}

/// Every byte of a non-empty file lies in a part of its plan: in the part whose index is the
/// byte's offset divided by the chunk size.
pub proof fn lemma_part_of_offset(total: int, parts: int, offset: int)
    requires
        total > 0,
        parts > 0,
        0 <= offset < total,
    ensures
        0 <= offset / chunk_size(total, parts) < plan_len(total, parts),
        part_start(total, parts, offset / chunk_size(total, parts)) <= offset <= part_end(
            total,
            parts,
            offset / chunk_size(total, parts),
        ),
{
    let c = chunk_size(total, parts);
    let n = plan_len(total, parts);
    lemma_plan_shape(total, parts);
    let i = offset / c;
    assert(i * c <= offset < (i + 1) * c && i >= 0) by (nonlinear_arith)
        requires
            i == offset / c,
            c >= 1,
            offset >= 0,
    ;
    assert(i * c < n * c);
    lemma_multiples_order(i, n, c);
}

/// An earlier part of a plan ends before a later one begins.
pub proof fn lemma_parts_are_apart(total: int, parts: int, a: int, b: int)
    requires
        total > 0,
        parts > 0,
        0 <= a < b < plan_len(total, parts),
    ensures
        part_end(total, parts, a) < part_start(total, parts, b),
{
    let c = chunk_size(total, parts);
    lemma_plan_shape(total, parts);
    assert((a + 1) * c <= b * c) by (nonlinear_arith)
        requires
            a + 1 <= b,
            c >= 1,
    ;
    lemma_part_bounds(total, parts, b);
}

/// A plan never holds more parts than were asked for.
pub proof fn lemma_range_plan_len_bound(total: u64, parts: usize)
    ensures
        range_plan(total, parts).len() <= parts,
{
    if total > 0 && parts > 0 {
        lemma_plan_shape(total as int, parts as int);
    }
}

/// The ranges of a plan for a non-empty file are ordered, disjoint and contiguous, none is
/// empty, and together they cover `0..=total - 1`. There are at most `parts` of them.
pub proof fn lemma_range_plan_partitions(total: u64, parts: usize)
    requires
        total > 0,
        parts >= 1,
    ensures
        1 <= range_plan(total, parts).len() <= parts,
        range_plan(total, parts).first().start == 0,
        range_plan(total, parts).last().end == total - 1,
        forall|i: int|
            0 <= i < range_plan(total, parts).len() ==> (#[trigger] range_plan(
                total,
                parts,
            )[i]).start <= range_plan(total, parts)[i].end,
        forall|i: int|
            0 <= i < range_plan(total, parts).len() - 1 ==> (#[trigger] range_plan(
                total,
                parts,
            )[i]).end + 1 == range_plan(total, parts)[i + 1].start,
{
    let t = total as int;
    let p = parts as int;
    let plan = range_plan(total, parts);
    lemma_plan_shape(t, p);
    assert forall|i: int| 0 <= i < plan.len() implies (#[trigger] plan[i]).start <= plan[i].end
        && plan[i].start as int == part_start(t, p, i) && plan[i].end as int == part_end(t, p, i)
        && (i + 1 < plan.len() ==> plan[i].end + 1 == plan[i + 1].start) by {
        lemma_part_bounds(t, p, i);
        if i + 1 < plan.len() {
            lemma_part_bounds(t, p, i + 1);
        }
    }
    lemma_part_bounds(t, p, 0);
    lemma_part_bounds(t, p, plan.len() - 1);
    assert(plan.first() == plan[0]);
    assert(plan.last() == plan[plan.len() - 1]);
    assert(part_start(t, p, 0) == 0) by (nonlinear_arith)
        requires
            part_start(t, p, 0) == 0 * chunk_size(t, p),
    ;
}

} // verus!
