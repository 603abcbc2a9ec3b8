//! The fill bar: how many columns show progress, and which glyph goes where.
use vstd::prelude::*;
use vstd::arithmetic::div_mod::{lemma_div_is_ordered, lemma_div_multiples_vanish};
use vstd::arithmetic::mul::lemma_mul_inequality;

verus! {

/// The three glyphs of a bar: completed columns, the leading edge, and the
/// columns still to go.
#[derive(Clone, Copy, Debug, PartialEq, Eq, Structural)]
pub struct Palette {
    pub filled: char,
    pub head: char,
    pub empty: char,
}

/// Columns that stand for completed work: `current * available / target`,
/// truncated.
pub open spec fn filled_count(current: nat, target: nat, available: nat) -> nat {
    if target == 0 {
        0
    } else {
        (current * available / target) as nat
    }
}

/// Columns that stand for work still to go.
pub open spec fn empty_count(current: nat, target: nat, available: nat) -> nat {
    (available - filled_count(current, target, available)) as nat
}

/// `n` copies of `c`.
pub open spec fn repeated(c: char, n: nat) -> Seq<char> {
    Seq::new(n, |_i: int| c)
}

/// The bar of `available` columns for `current` out of `target`: all empty
/// when no column is filled; otherwise the filled columns, the last of which
/// shows the head glyph, then the empty ones.
pub open spec fn bar(current: nat, target: nat, available: nat, p: Palette) -> Seq<char> {
    let f = filled_count(current, target, available);
    if f == 0 {
        repeated(p.empty, available)
    } else {
        repeated(p.filled, (f - 1) as nat).push(p.head) + repeated(
            p.empty,
            empty_count(current, target, available),
        )
    }
}

/// At most `available` columns are filled while `current <= target`.
pub proof fn lemma_filled_at_most_available(current: nat, target: nat, available: nat)
    requires
        target > 0,
        current <= target,
    ensures
        filled_count(current, target, available) <= available,
{
    lemma_mul_inequality(current as int, target as int, available as int);
    lemma_div_is_ordered((current * available) as int, (target * available) as int, target as int);
    lemma_div_multiples_vanish(available as int, target as int);
    assert(target * available == available * target) by (nonlinear_arith);
}

/// Filled and empty columns add up to the available width, and the bar is
/// exactly that wide, ending in `empty_count` empty glyphs.
pub proof fn lemma_counts_cover_width(current: nat, target: nat, available: nat, p: Palette)
    requires
        target > 0,
        current <= target,
    ensures
        filled_count(current, target, available) + empty_count(current, target, available)
            == available,
        bar(current, target, available, p).len() == available,
        bar(current, target, available, p).skip(filled_count(current, target, available) as int)
            == repeated(p.empty, empty_count(current, target, available)),
{
    lemma_filled_at_most_available(current, target, available);
    let f = filled_count(current, target, available);
    let b = bar(current, target, available, p);
    assert(b.skip(f as int) =~= repeated(p.empty, empty_count(current, target, available)));
}

/// With nothing done the bar is all empty glyphs.
pub proof fn lemma_nothing_done_is_empty(target: nat, available: nat, p: Palette)
    requires
        target > 0,
    ensures
        bar(0, target, available, p) == repeated(p.empty, available),
{
    assert(0 * available == 0);
    assert(0nat / target == 0);
}

/// With all done the bar ends in the head glyph and is filled before it.
pub proof fn lemma_all_done_ends_in_head(target: nat, available: nat, p: Palette)
    requires
        target > 0,
        available > 0,
    ensures
        bar(target, target, available, p).len() == available,
        bar(target, target, available, p)[available - 1] == p.head,
        forall|i: int|
            0 <= i < available - 1 ==> #[trigger] bar(target, target, available, p)[i]
                == p.filled,
        empty_count(target, target, available) == 0,
{
    lemma_div_multiples_vanish(available as int, target as int);
    assert(target * available == available * target) by (nonlinear_arith);
    assert(filled_count(target, target, available) == available);
}

/// The bar for `current` out of `target` over `available` columns.
pub fn fill_bar(current: u64, target: u64, available: usize, p: Palette) -> (r: Vec<char>)
    requires
        target > 0,
        current <= target,
    ensures
        r@ == bar(current as nat, target as nat, available as nat, p),
{
    proof {
        lemma_filled_at_most_available(current as nat, target as nat, available as nat);
        lemma_mul_inequality(current as int, u64::MAX as int, available as int);
        lemma_mul_inequality(available as int, u64::MAX as int, u64::MAX as int);
        assert(available * u64::MAX == u64::MAX * available) by (nonlinear_arith);
    }
    let f = ((current as u128) * (available as u128) / (target as u128)) as usize;
    assert(f == filled_count(current as nat, target as nat, available as nat));
    let mut r: Vec<char> = Vec::new();
    if f == 0 {
        for i in 0..available
            invariant
                r@ == repeated(p.empty, i as nat),
        {
            r.push(p.empty);
            assert(r@ =~= repeated(p.empty, (i + 1) as nat));
        }
    } else {
        for i in 0..f - 1
            invariant
                r@ == repeated(p.filled, i as nat),
        {
            r.push(p.filled);
            assert(r@ =~= repeated(p.filled, (i + 1) as nat));
        }
        r.push(p.head);
        let ghost front = r@;
        for i in 0..available - f
            invariant
                r@ == front + repeated(p.empty, i as nat),
        {
            r.push(p.empty);
            assert(r@ =~= front + repeated(p.empty, (i + 1) as nat));
        }
    }
    r
}

} // verus!
