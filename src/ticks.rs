use vstd::prelude::*;
use vstd::arithmetic::power::pow;
use vstd::arithmetic::div_mod::lemma_fundamental_div_mod_converse;
use crate::unit::{Unit, valid_units, size_at, lemma_unit_at_wf};

verus! {

/// Tick positions chosen for a range: each entry is a label and its base
/// value, in increasing order of base value.
#[derive(Debug)]
pub struct Ticks {
    pub labels: Vec<(String, u64)>,
    /// Labels that would show a fully qualified value now and then; the tick
    /// search leaves this empty.
    pub aux_labels: Vec<(String, u64)>,
}

/// The model of a label list: each text as characters, with its base value.
pub open spec fn labels_view(labels: Seq<(String, u64)>) -> Seq<(Seq<char>, u64)> {
    labels.map_values(|p: (String, u64)| (p.0@, p.1))
}

/// Bounds that hold of a label model hold of the labels.
pub proof fn lemma_labels_bounds(labels: Seq<(String, u64)>, w: Seq<(Seq<char>, u64)>, lo: int, hi: int)
    requires
        labels_view(labels) == w,
        forall|i: int| 0 <= i < w.len() ==> lo <= (#[trigger] w[i]).1 <= hi,
        forall|i: int, j: int| 0 <= i < j < w.len() ==> (#[trigger] w[i]).1 < (#[trigger] w[j]).1,
    ensures
        forall|i: int| 0 <= i < labels.len() ==> lo <= (#[trigger] labels[i]).1 <= hi,
        forall|i: int, j: int|
            0 <= i < j < labels.len() ==> (#[trigger] labels[i]).1 < (#[trigger] labels[j]).1,
{
    assert(w.len() == labels.len());
    assert forall|i: int| 0 <= i < labels.len() implies lo <= (#[trigger] labels[i]).1 <= hi by {
        assert(w[i] == labels_view(labels)[i]);
    }
    assert forall|i: int, j: int| 0 <= i < j < labels.len() implies (#[trigger] labels[i]).1 < (
    #[trigger] labels[j]).1 by {
        assert(w[i] == labels_view(labels)[i]);
        assert(w[j] == labels_view(labels)[j]);
    }
}

/// Smallest spacing, in base units, that keeps the number of ticks within
/// `max_cnt`.
pub open spec fn min_gap(start: u64, end: u64, max_cnt: usize) -> nat {
    ((end - start) / (max_cnt as u64) as int) as nat
}

/// Search for the tick unit from composite position `j` on: the first
/// position, largest unit first, whose size fits in `gap`; the smallest unit
/// when none does.
pub open spec fn fitting_from(units: Seq<Unit>, gap: nat, j: nat) -> nat
    decreases units.len() - j,
{
    if j >= units.len() {
        (units.len() - 1) as nat
    } else if size_at(units, j as int) <= gap {
        j
    } else {
        fitting_from(units, gap, j + 1)
    }
}

/// Composite position of the tick unit for spacing `gap`.
pub open spec fn tick_position(units: Seq<Unit>, gap: nat) -> nat {
    fitting_from(units, gap, 0)
}

/// The `k`-th candidate multiplier: 1, then the tick multipliers in turn,
/// each round scaled by the last multiplier of the rounds before it
/// (with `[2, 5, 10]`: 1, 2, 5, 10, 20, 50, 100, ...).
pub open spec fn candidate(tick_base: Seq<u64>, k: nat) -> int {
    let n = tick_base.len();
    let q = (k / n) as nat;
    let j = k % n;
    pow(tick_base.last() as int, q) * if j == 0 {
        1
    } else {
        tick_base[j - 1] as int
    }
}

/// Candidate `k` is the first whose spacing, `candidate * size`, exceeds `gap`.
pub open spec fn first_fit(tick_base: Seq<u64>, size: nat, gap: nat, k: nat) -> bool {
    &&& candidate(tick_base, k) * size > gap
    &&& forall|i: nat| i < k ==> #[trigger] candidate(tick_base, i) * size <= gap
}

/// Multipliers that grow the spacing from one round to the next: at least
/// one, the last at least 2.
pub open spec fn growing(tick_base: Seq<u64>) -> bool {
    tick_base.len() > 0 && tick_base.last() >= 2
}

/// For growing multipliers: the first candidate whose spacing exceeds `gap`.
pub open spec fn growing_radix(tick_base: Seq<u64>, size: nat, gap: nat) -> int {
    candidate(tick_base, choose|k: nat| first_fit(tick_base, size, gap, k))
}

/// Candidate `k` of the first round: 1, then each multiplier in turn.
pub open spec fn round_candidate(tick_base: Seq<u64>, k: int) -> int {
    if k == 0 {
        1
    } else {
        tick_base[k - 1] as int
    }
}

/// For multipliers that cannot grow the spacing, the search stops after one
/// round: the first candidate of the round, from `k` on, whose spacing
/// exceeds `gap`; else the last multiplier, or 1 when it is 0 or there is
/// none.
pub open spec fn round_radix(tick_base: Seq<u64>, size: nat, gap: nat, k: int) -> int
    decreases tick_base.len() + 1 - k,
{
    if k > tick_base.len() || k < 0 {
        if tick_base.len() > 0 && tick_base.last() >= 1 {
            tick_base.last() as int
        } else {
            1
        }
    } else if round_candidate(tick_base, k) * size > gap {
        round_candidate(tick_base, k)
    } else {
        round_radix(tick_base, size, gap, k + 1)
    }
}

/// The step multiplier for ticks.
pub open spec fn tick_radix(tick_base: Seq<u64>, size: nat, gap: nat) -> int {
    if growing(tick_base) {
        growing_radix(tick_base, size, gap)
    } else {
        round_radix(tick_base, size, gap, 0)
    }
}

/// `val` rounded down to a multiple of `radix`.
pub open spec fn floor_multiple(val: int, radix: int) -> int {
    (val / radix) * radix
}

proof fn lemma_first_fit_unique(tick_base: Seq<u64>, size: nat, gap: nat, k: nat)
    requires
        first_fit(tick_base, size, gap, k),
    ensures
        growing_radix(tick_base, size, gap) == candidate(tick_base, k),
{
    let c = choose|i: nat| first_fit(tick_base, size, gap, i);
    assert(first_fit(tick_base, size, gap, c));
    if c < k {
        assert(candidate(tick_base, c) * size <= gap);
    } else if c > k {
        assert(candidate(tick_base, k) * size <= gap);
    }
}

proof fn lemma_candidate_at(tick_base: Seq<u64>, q: nat, j: nat)
    requires
        tick_base.len() > 0,
        1 <= j <= tick_base.len(),
    ensures
        candidate(tick_base, q * tick_base.len() + j) == pow(tick_base.last() as int, q)
            * tick_base[j - 1],
{
    let n = tick_base.len();
    let k = q * n + j;
    let p = pow(tick_base.last() as int, q);
    if j < n {
        lemma_fundamental_div_mod_converse(k as int, n as int, q as int, j as int);
        assert(candidate(tick_base, k) == p * tick_base[j - 1]);
    } else {
        assert(k == (q + 1) * n + 0) by (nonlinear_arith)
            requires
                k == q * n + j,
                j == n,
        ;
        lemma_fundamental_div_mod_converse(k as int, n as int, (q + 1) as int, 0);
        reveal(pow);
        assert(pow(tick_base.last() as int, q + 1) == tick_base.last() as int * p);
        assert(tick_base[j - 1] == tick_base.last());
        assert(candidate(tick_base, k) == pow(tick_base.last() as int, q + 1) * 1);
        assert(tick_base.last() as int * p == p * tick_base.last() as int) by (nonlinear_arith);
    }
}

/// Rounds `val` down to a multiple of `radix`.
pub(crate) fn radix_floor(val: u64, radix: u128) -> (r: u64)
    requires
        radix > 0,
    ensures
        r == floor_multiple(val as int, radix as int),
{
    let n: u128 = val as u128 / radix;
    proof {
        vstd::arithmetic::div_mod::lemma_remainder_lower(val as int, radix as int);
        assert(n * radix == (val as int / radix as int) * radix as int);
    }
    (n * radix) as u64
}

/// Composite position of the tick unit for spacing `gap`.
pub fn choose_tick_unit(units: &Vec<Unit>, gap: u64) -> (r: usize)
    requires
        valid_units(units@),
    ensures
        r == tick_position(units@, gap as nat),
        r < units@.len(),
{
    let n = units.len();
    let mut j: usize = 0;
    while j < n
        invariant
            n == units@.len(),
            n > 0,
            j <= n,
            fitting_from(units@, gap as nat, j as nat) == tick_position(units@, gap as nat),
        decreases n - j,
    {
        if units[n - 1 - j].size <= gap {
            return j;
        }
        j = j + 1;
    }
    n - 1
}

/// The step multiplier for ticks in units of `size`, for spacing `gap`.
pub fn choose_radix(tick_base: &Vec<u64>, size: u64, gap: u64) -> (r: u128)
    requires
        size > 0,
    ensures
        r == tick_radix(tick_base@, size as nat, gap as nat),
        r > 0,
{
    let n = tick_base.len();
    if n > 0 && tick_base[n - 1] >= 2 {
        search_growing(tick_base, size, gap)
    } else {
        search_round(tick_base, size, gap)
    }
}

/// One round of candidates, for multipliers that cannot grow the spacing.
fn search_round(tick_base: &Vec<u64>, size: u64, gap: u64) -> (r: u128)
    requires
        size > 0,
    ensures
        r == round_radix(tick_base@, size as nat, gap as nat, 0),
        r > 0,
{
    let n = tick_base.len();
    let mut k: usize = 0;
    loop
        invariant
            n == tick_base@.len(),
            k <= n,
            size > 0,
            round_radix(tick_base@, size as nat, gap as nat, k as int) == round_radix(
                tick_base@,
                size as nat,
                gap as nat,
                0,
            ),
        decreases n + 1 - k,
    {
        let cand: u128 = if k == 0 {
            1
        } else {
            tick_base[k - 1] as u128
        };
        proof {
            assert(cand * size <= 0xffff_ffff_ffff_ffff * 0xffff_ffff_ffff_ffff)
                by (nonlinear_arith)
                requires
                    cand <= 0xffff_ffff_ffff_ffff,
                    size <= 0xffff_ffff_ffff_ffff,
            ;
        }
        if cand * (size as u128) > gap as u128 {
            proof {
                assert(cand > 0) by (nonlinear_arith)
                    requires
                        cand * size > gap,
                        gap >= 0,
                        cand >= 0,
                ;
            }
            return cand;
        }
        if k == n {
            proof {
                assert(round_radix(tick_base@, size as nat, gap as nat, (n + 1) as int)
                    == round_radix(tick_base@, size as nat, gap as nat, 0));
            }
            if n > 0 && tick_base[n - 1] >= 1 {
                return tick_base[n - 1] as u128;
            } else {
                return 1;
            }
        }
        k = k + 1;
    }
}

/// Growing multipliers: rounds of candidates until the spacing exceeds `gap`.
fn search_growing(tick_base: &Vec<u64>, size: u64, gap: u64) -> (r: u128)
    requires
        growing(tick_base@),
        size > 0,
    ensures
        r == growing_radix(tick_base@, size as nat, gap as nat),
        r > 0,
{
    let ghost tb = tick_base@;
    let n = tick_base.len();
    let last = tick_base[n - 1] as u128;
    proof {
        reveal(pow);
        assert(candidate(tb, 0) == 1) by {
            lemma_fundamental_div_mod_converse(0, n as int, 0, 0);
        }
    }
    if size > gap {
        proof {
            lemma_first_fit_unique(tb, size as nat, gap as nat, 0);
        }
        return 1;
    }
    let mut base: u128 = 1;
    let ghost mut q: nat = 0;
    loop
        invariant
            n == tb.len(),
            n > 0,
            tb == tick_base@,
            last == tb.last(),
            last >= 2,
            size > 0,
            base == pow(last as int, q),
            1 <= base,
            base * size <= gap,
            forall|i: nat| i <= q * n ==> #[trigger] candidate(tb, i) * size <= gap,
        decreases gap - base,
    {
        let mut j: usize = 0;
        while j < n
            invariant
                n == tb.len(),
                n > 0,
                tb == tick_base@,
                last == tb.last(),
                size > 0,
                base == pow(last as int, q),
                1 <= base,
                base * size <= gap,
                j <= n,
                forall|i: nat| i <= q * n + j ==> #[trigger] candidate(tb, i) * size <= gap,
            decreases n - j,
        {
            let factor = tick_base[j] as u128;
            proof {
                lemma_candidate_at(tb, q, (j + 1) as nat);
                assert(base <= gap) by (nonlinear_arith)
                    requires
                        base * size <= gap,
                        size > 0,
                ;
                assert(base * factor <= 0xffff_ffff_ffff_ffff * 0xffff_ffff_ffff_ffff)
                    by (nonlinear_arith)
                    requires
                        base <= 0xffff_ffff_ffff_ffff,
                        factor <= 0xffff_ffff_ffff_ffff,
                ;
            }
            let cand: u128 = base * factor;
            if cand > gap as u128 {
                proof {
                    assert(cand * size > gap) by (nonlinear_arith)
                        requires
                            cand > gap,
                            size >= 1,
                    ;
                    lemma_first_fit_unique(tb, size as nat, gap as nat, (q * n + j + 1) as nat);
                }
                return cand;
            }
            proof {
                assert(cand * size <= 0xffff_ffff_ffff_ffff * 0xffff_ffff_ffff_ffff)
                    by (nonlinear_arith)
                    requires
                        cand <= 0xffff_ffff_ffff_ffff,
                        size <= 0xffff_ffff_ffff_ffff,
                ;
            }
            if cand * (size as u128) > gap as u128 {
                proof {
                    assert(cand > 0) by (nonlinear_arith)
                        requires
                            cand * size > gap,
                            gap >= 0,
                            cand >= 0,
                    ;
                    lemma_first_fit_unique(tb, size as nat, gap as nat, (q * n + j + 1) as nat);
                }
                return cand;
            }
            proof {
                assert forall|i: nat| i <= q * n + j + 1 implies #[trigger] candidate(tb, i) * size
                    <= gap by {
                    if i == q * n + j + 1 {
                    }
                }
            }
            j = j + 1;
        }
        proof {
            lemma_candidate_at(tb, q, n as nat);
            reveal(pow);
            assert(pow(last as int, q + 1) == last * pow(last as int, q));
            assert(candidate(tb, (q * n + n) as nat) * size <= gap);
            assert(base * last * size <= gap);
            assert(base * last <= gap && base * last > base) by (nonlinear_arith)
                requires
                    base * last * size <= gap,
                    size >= 1,
                    base >= 1,
                    last >= 2,
            ;
            assert((q + 1) * n == q * n + n) by (nonlinear_arith);
        }
        let ghost prev = base;
        base = base * last;
        proof {
            q = q + 1;
            reveal(pow);
            assert(pow(last as int, q) == last * pow(last as int, (q - 1) as nat));
            assert(base == prev * last);
            assert(prev * last == last * prev) by (nonlinear_arith);
        }
    }
}

} // verus!
