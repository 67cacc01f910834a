use vstd::prelude::*;
use crate::composite::Composite;
use crate::conversion::{
    Conversion, Standard, greedy, remainder, weighted, lemma_weighted_monotone,
};
use crate::scale::Scale;
use crate::unit::{Unit, valid_units, size_at, floor_at, lemma_unit_at_wf};

verus! {

/// Round trip: a canonical composite value converts to a base value, and that
/// base value converts back to the same composite value.
pub proof fn lemma_round_trip<C: Conversion>(s: &Scale<C>, c: Composite)
    requires
        s.canonical(c),
    ensures
        s.from_spec(c) is Ok,
        s.to_spec(s.from_spec(c)->Ok_0) == c,
{
}

/// Whatever a carry returns is canonical.
pub proof fn lemma_carry_canonical<C: Conversion>(s: &Scale<C>, d: Composite, k: nat)
    requires
        s.carry(d, k) is Some,
    ensures
        s.canonical(s.carry(d, k)->Some_0),
    decreases k,
{
    if !s.canonical(d) {
        let next = Composite {
            values: d.values.update(k as int, floor_at(s.units(), k as int)).update(
                k - 1,
                (d.values[k - 1] + 1) as u64,
            ),
            sign: d.sign,
        };
        lemma_carry_canonical(s, next, (k - 1) as nat);
    }
}

/// `r` is later than `c` in the order of magnitudes, largest unit first: the
/// two agree before some position `m`, where `r` is larger.
pub open spec fn advances(c: Seq<u64>, r: Seq<u64>) -> bool {
    exists|m: int|
        0 <= m < c.len() && m < r.len() && r[m] > c[m] && forall|i: int|
            0 <= i < m ==> #[trigger] r[i] == c[i]
}

proof fn lemma_carry_advances<C: Conversion>(s: &Scale<C>, c: Composite, d: Composite, k: nat)
    requires
        s.carry(d, k) is Some,
        d.values.len() == c.values.len(),
        k < c.values.len(),
        d.values[k as int] > c.values[k as int],
        forall|i: int| 0 <= i < k ==> #[trigger] d.values[i] == c.values[i],
    ensures
        advances(c.values, s.carry(d, k)->Some_0.values),
    decreases k,
{
    if s.canonical(d) {
        assert(forall|i: int| 0 <= i < k ==> #[trigger] d.values[i] == c.values[i]);
        assert(advances(c.values, d.values));
    } else {
        let next = Composite {
            values: d.values.update(k as int, floor_at(s.units(), k as int)).update(
                k - 1,
                (d.values[k - 1] + 1) as u64,
            ),
            sign: d.sign,
        };
        assert(forall|i: int| 0 <= i < k - 1 ==> #[trigger] next.values[i] == c.values[i]);
        lemma_carry_advances(s, c, next, (k - 1) as nat);
    }
}

/// An increment that succeeds yields a canonical value that is later than the
/// input in the order of magnitudes, largest unit first.
pub proof fn lemma_increment_advances<C: Conversion>(s: &Scale<C>, c: Composite, idx: int, step: int)
    requires
        c.values.len() == s.units().len(),
        0 <= idx < c.values.len(),
        step > 0,
        s.increment_spec(c, idx, step) is Some,
    ensures
        s.canonical(s.increment_spec(c, idx, step)->Some_0),
        advances(c.values, s.increment_spec(c, idx, step)->Some_0.values),
{
    let base = s.reset_after(c.values, idx);
    let d = Composite { values: base.update(idx, (base[idx] + step) as u64), sign: c.sign };
    lemma_carry_canonical(s, d, idx as nat);
    assert(forall|i: int| 0 <= i < idx ==> #[trigger] d.values[i] == c.values[i]);
    lemma_carry_advances(s, c, d, idx as nat);
}

proof fn lemma_greedy_sum(units: Seq<Unit>, v: nat, j: nat)
    requires
        valid_units(units),
        j <= units.len(),
        v <= u64::MAX,
    ensures
        weighted(units, greedy(units, v), j) + remainder(units, v, j) == v,
        remainder(units, v, j) <= v,
    decreases j,
{
    if j > 0 {
        let i = (j - 1) as nat;
        lemma_greedy_sum(units, v, i);
        lemma_unit_at_wf(units, i as int);
        let r = remainder(units, v, i);
        let s = size_at(units, i as int);
        vstd::arithmetic::div_mod::lemma_fundamental_div_mod(r as int, s as int);
        vstd::arithmetic::div_mod::lemma_mod_pos_bound(r as int, s as int);
        assert(r / s <= r) by (nonlinear_arith)
            requires
                s > 0,
        ;
        assert(greedy(units, v)[i as int] == r / s);
        assert(s * (r / s) == size_at(units, i as int) * greedy(units, v)[i as int]);
    }
}

proof fn lemma_weighted_prefix(units: Seq<Unit>, a: Seq<u64>, b: Seq<u64>, m: nat)
    requires
        forall|i: int| 0 <= i < m ==> #[trigger] a[i] == b[i],
    ensures
        weighted(units, a, m) == weighted(units, b, m),
    decreases m,
{
    if m > 0 {
        lemma_weighted_prefix(units, a, b, (m - 1) as nat);
    }
}

/// Decomposition bounds of the default conversion: each magnitude but the
/// first, times its unit's size, stays below the size of the next larger
/// unit (so it is below the relative multiplier between the two when one
/// size divides the other); and no magnitude is below a floor of 0.
pub proof fn lemma_decomposition_bounds(s: &Scale<Standard>, v: u64)
    requires
        valid_units(s.units()),
    ensures
        s.to_spec(v).values.len() == s.units().len(),
        forall|j: int|
            1 <= j < s.units().len() ==> (#[trigger] s.to_spec(v).values[j]) * size_at(s.units(), j)
                < size_at(s.units(), j - 1),
        forall|j: int|
            0 <= j < s.units().len() && floor_at(s.units(), j) == 0 ==> (
            #[trigger] s.to_spec(v).values[j]) >= floor_at(s.units(), j),
{
    let units = s.units();
    assert forall|j: int| 1 <= j < units.len() implies (#[trigger] s.to_spec(v).values[j]) * size_at(
        units,
        j,
    ) < size_at(units, j - 1) by {
        lemma_unit_at_wf(units, j);
        lemma_unit_at_wf(units, j - 1);
        lemma_greedy_sum(units, v as nat, j as nat);
        let prev = remainder(units, v as nat, (j - 1) as nat);
        let r = remainder(units, v as nat, j as nat);
        let sj = size_at(units, j);
        vstd::arithmetic::div_mod::lemma_mod_pos_bound(prev as int, size_at(units, j - 1) as int);
        assert(r < size_at(units, j - 1));
        assert((r / sj) * sj <= r) by (nonlinear_arith)
            requires
                sj > 0,
        ;
        assert(r / sj <= r) by (nonlinear_arith)
            requires
                sj > 0,
        ;
        assert(s.to_spec(v).values[j] == r / sj);
    }
}

/// Increment monotonicity of the default conversion: stepping a canonical
/// value by a positive amount, when it succeeds, gives a value whose base
/// value is strictly larger.
pub proof fn lemma_increment_increases(s: &Scale<Standard>, c: Composite, idx: int, step: int)
    requires
        valid_units(s.units()),
        s.canonical(c),
        c.values.len() == s.units().len(),
        0 <= idx < c.values.len(),
        step > 0,
        s.increment_spec(c, idx, step) is Some,
    ensures
        s.from_spec(s.increment_spec(c, idx, step)->Some_0) is Ok,
        s.from_spec(s.increment_spec(c, idx, step)->Some_0)->Ok_0 > s.from_spec(c)->Ok_0,
{
    let units = s.units();
    let n = units.len();
    let r = s.increment_spec(c, idx, step)->Some_0;
    lemma_increment_advances(s, c, idx, step);
    let v = s.from_spec(c)->Ok_0;
    let w = s.from_spec(r)->Ok_0;
    assert(c.values == greedy(units, v as nat));
    assert(r.values == greedy(units, w as nat));
    assert(r.values.len() == n);
    let m = choose|m: int|
        0 <= m < c.values.len() && m < r.values.len() && r.values[m] > c.values[m] && forall|i: int|
            0 <= i < m ==> #[trigger] r.values[i] == c.values[i];
    lemma_unit_at_wf(units, m);
    lemma_greedy_sum(units, v as nat, (m + 1) as nat);
    lemma_greedy_sum(units, v as nat, m as nat);
    lemma_weighted_prefix(units, r.values, c.values, m as nat);
    lemma_weighted_monotone(units, r.values, (m + 1) as nat, n);
    let sm = size_at(units, m);
    let rem_m = remainder(units, v as nat, m as nat);
    vstd::arithmetic::div_mod::lemma_mod_pos_bound(rem_m as int, sm as int);
    assert(remainder(units, v as nat, (m + 1) as nat) < sm);
    assert(sm * r.values[m] >= sm * c.values[m] + sm) by (nonlinear_arith)
        requires
            r.values[m] >= c.values[m] + 1,
            sm > 0,
    ;
}

} // verus!
