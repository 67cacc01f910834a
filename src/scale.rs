use vstd::prelude::*;
use crate::composite::{Composite, CompositeUnit, ScaleError};
use crate::conversion::Conversion;
use crate::ticks::{
    Ticks, labels_view, min_gap, tick_position, tick_radix, floor_multiple, choose_tick_unit,
    choose_radix, radix_floor, lemma_labels_bounds,
};
use crate::unit::{Unit, valid_units, first_named, find_named, unit_at, size_at, floor_at, lemma_unit_at_wf};

verus! {

/// A finished chain of units, smallest first, with the conversion that maps
/// base values to composite values and back.
pub struct Scale<C: Conversion> {
    pub name: &'static str,
    conversion: C,
    units: Vec<Unit>,
}

impl<C: Conversion> Scale<C> {
    #[verifier::type_invariant]
    spec fn inv(&self) -> bool {
        &&& valid_units(self.units@)
        &&& self.conversion.accepts(self.units@)
    }

    /// The unit chain, smallest unit first.
    pub closed spec fn units(&self) -> Seq<Unit> {
        self.units@
    }

    /// The scale's name.
    pub closed spec fn scale_name(&self) -> &'static str {
        self.name
    }

    /// The conversion the scale delegates to.
    pub closed spec fn conversion(&self) -> C {
        self.conversion
    }

    /// Base value to composite value, as the conversion defines it.
    pub open spec fn to_spec(&self, value: u64) -> Composite {
        self.conversion().to_spec(self.units(), value)
    }

    /// Composite value to base value, as the conversion defines it.
    pub open spec fn from_spec(&self, c: Composite) -> Result<u64, ScaleError> {
        self.conversion().from_spec(self.units(), c)
    }

    /// Text of a composite value, as the conversion defines it.
    pub open spec fn format_spec(&self, c: Composite) -> Seq<char> {
        self.conversion().format_spec(self.units(), c)
    }

    /// A composite value is canonical when it converts to a base value and
    /// that base value converts back to the very same composite value.
    pub open spec fn canonical(&self, c: Composite) -> bool {
        match self.from_spec(c) {
            Ok(v) => self.to_spec(v) == c,
            Err(_) => false,
        }
    }

    /// `values` with every position after `idx` set to its unit's floor.
    pub open spec fn reset_after(&self, values: Seq<u64>, idx: int) -> Seq<u64> {
        Seq::new(
            values.len(),
            |j: int|
                if j > idx {
                    floor_at(self.units(), j)
                } else {
                    values[j]
                },
        )
    }

    /// Carry propagation from position `k`: stop at the first canonical value;
    /// otherwise reset position `k` to its floor and add one to position
    /// `k - 1`. `None` once the carry would run past the most significant
    /// unit or push a magnitude out of `u64`.
    pub open spec fn carry(&self, c: Composite, k: nat) -> Option<Composite>
        decreases k,
    {
        if self.canonical(c) {
            Some(c)
        } else if k == 0 || k >= c.values.len() || c.values[k - 1] == u64::MAX {
            None
        } else {
            self.carry(
                Composite {
                    values: c.values.update(k as int, floor_at(self.units(), k as int)).update(
                        k - 1,
                        (c.values[k - 1] + 1) as u64,
                    ),
                    sign: c.sign,
                },
                (k - 1) as nat,
            )
        }
    }

    /// Result of adding `step` to position `idx` after resetting the less
    /// significant positions, then carrying into canonical form.
    pub open spec fn increment_spec(&self, c: Composite, idx: int, step: int) -> Option<Composite> {
        let base = self.reset_after(c.values, idx);
        if base[idx] + step > u64::MAX {
            None
        } else {
            self.carry(
                Composite { values: base.update(idx, (base[idx] + step) as u64), sign: c.sign },
                idx as nat,
            )
        }
    }

    /// The composite value of `start`, with position `idx` rounded down to a
    /// multiple of `radix` and every less significant position at its floor.
    pub open spec fn aligned(&self, start: u64, idx: int, radix: int) -> Composite {
        let c = self.to_spec(start);
        Composite {
            values: self.reset_after(c.values, idx).update(
                idx,
                floor_multiple(c.values[idx] as int, radix) as u64,
            ),
            sign: c.sign,
        }
    }

    /// The first tick: the aligned value when it is the start itself, else one
    /// step past it.
    pub open spec fn first_tick(&self, start: u64, idx: int, radix: int) -> Option<Composite> {
        let a = self.aligned(start, idx, radix);
        if a == self.to_spec(start) {
            Some(a)
        } else {
            self.increment_spec(a, idx, radix)
        }
    }

    /// Ticks from `c` on: each value that converts to a base value in
    /// `[low, end]` is labelled, and the walk goes on one step further with
    /// `low` just above it; it stops at the first value that does not convert,
    /// leaves that range, or cannot be stepped.
    pub open spec fn walk(&self, c: Composite, low: int, end: u64, idx: int, radix: int) -> Seq<
        (Seq<char>, u64),
    >
        decreases end - low,
    {
        match self.from_spec(c) {
            Ok(v) => if low <= v && v <= end {
                let head = seq![(self.format_spec(c), v)];
                if v == end {
                    head
                } else {
                    match self.increment_spec(c, idx, radix) {
                        Some(next) => head + self.walk(next, v + 1, end, idx, radix),
                        None => head,
                    }
                }
            } else {
                Seq::empty()
            },
            Err(_) => Seq::empty(),
        }
    }

    /// Composite position of the unit that ticks are counted in.
    pub open spec fn tick_index(&self, start: u64, end: u64, max_cnt: usize) -> int {
        tick_position(self.units(), min_gap(start, end, max_cnt)) as int
    }

    /// Number of tick units between two ticks.
    pub open spec fn tick_step(&self, start: u64, end: u64, max_cnt: usize) -> int {
        let idx = self.tick_index(start, end, max_cnt);
        tick_radix(
            unit_at(self.units(), idx).tick_base@,
            size_at(self.units(), idx),
            min_gap(start, end, max_cnt),
        )
    }

    /// The labelled ticks chosen for `[start, end]`.
    pub open spec fn tick_spec(&self, start: u64, end: u64, max_cnt: usize) -> Seq<
        (Seq<char>, u64),
    > {
        let idx = self.tick_index(start, end, max_cnt);
        let radix = self.tick_step(start, end, max_cnt);
        match self.first_tick(start, idx, radix) {
            Some(c) => self.walk(c, start as int, end, idx, radix),
            None => Seq::empty(),
        }
    }

    /// Every tick of a walk lies in `[low, end]`, and the ticks increase.
    pub proof fn lemma_walk_bounds(&self, c: Composite, low: int, end: u64, idx: int, radix: int)
        ensures
            forall|i: int|
                0 <= i < self.walk(c, low, end, idx, radix).len() ==> low <= (#[trigger] self.walk(
                    c,
                    low,
                    end,
                    idx,
                    radix,
                )[i]).1 <= end,
            forall|i: int, j: int|
                0 <= i < j < self.walk(c, low, end, idx, radix).len() ==> (#[trigger] self.walk(
                    c,
                    low,
                    end,
                    idx,
                    radix,
                )[i]).1 < (#[trigger] self.walk(c, low, end, idx, radix)[j]).1,
        decreases end - low,
    {
        let w = self.walk(c, low, end, idx, radix);
        match self.from_spec(c) {
            Ok(v) => {
                if low <= v && v <= end && v != end {
                    match self.increment_spec(c, idx, radix) {
                        Some(next) => {
                            self.lemma_walk_bounds(next, v + 1, end, idx, radix);
                            let rest = self.walk(next, v + 1, end, idx, radix);
                            assert(w == seq![(self.format_spec(c), v)] + rest);
                            assert forall|i: int| 0 <= i < w.len() implies low <= (
                            #[trigger] w[i]).1 <= end by {
                                if i > 0 {
                                    assert(w[i] == rest[i - 1]);
                                }
                            }
                            assert forall|i: int, j: int| 0 <= i < j < w.len() implies (
                            #[trigger] w[i]).1 < (#[trigger] w[j]).1 by {
                                assert(w[j] == rest[j - 1]);
                                if i > 0 {
                                    assert(w[i] == rest[i - 1]);
                                }
                            }
                        },
                        None => {},
                    }
                }
            },
            Err(_) => {},
        }
    }

    /// A scale over a finished unit chain.
    pub fn new(name: &'static str, conversion: C, units: Vec<Unit>) -> (r: Scale<C>)
        requires
            valid_units(units@),
            conversion.accepts(units@),
        ensures
            r.scale_name() == name,
            r.units() == units@,
            r.conversion() == conversion,
    {
        Scale { name, conversion, units }
    }

    /// Number of units in the chain.
    pub fn unit_count(&self) -> (r: usize)
        ensures
            r == self.units().len(),
            r > 0,
            valid_units(self.units()),
    {
        proof {
            use_type_invariant(self);
        }
        self.units.len()
    }

    /// The first unit, smallest first, whose name is `name`.
    pub fn get_unit(&self, name: &str) -> (r: Option<&Unit>)
        ensures
            match first_named(self.units(), name@) {
                Some(i) => r == Some(&self.units()[i]),
                None => r is None,
            },
    {
        find_named(&self.units, name)
    }

    /// Base value to composite value: one magnitude per unit, largest first.
    pub fn to_composite(&self, value: u64) -> (r: CompositeUnit)
        ensures
            r@ == self.to_spec(value),
            r@.values.len() == self.units().len(),
    {
        proof {
            use_type_invariant(self);
        }
        self.conversion.to_composite(&self.units, value)
    }

    /// Composite value to base value; a conversion may reject a composite
    /// value that is not valid for its domain.
    pub fn from_composite(&self, composite_unit: &CompositeUnit) -> (r: Result<u64, ScaleError>)
        ensures
            r == self.from_spec(composite_unit@),
    {
        proof {
            use_type_invariant(self);
        }
        self.conversion.from_composite(&self.units, composite_unit)
    }

    /// Text of a composite value.
    pub fn fmt_composite(&self, composite_unit: &CompositeUnit) -> (r: String)
        ensures
            r@ == self.format_spec(composite_unit@),
    {
        proof {
            use_type_invariant(self);
        }
        self.conversion.format(&self.units, composite_unit)
    }

    /// Text of a base value, through its composite value.
    pub fn fmt_base_unit(&self, value: u64) -> (r: String)
        ensures
            r@ == self.format_spec(self.to_spec(value)),
    {
        let c = self.to_composite(value);
        self.fmt_composite(&c)
    }

    /// Whether `composite_unit` survives a round trip through base values.
    pub fn is_unit_counts_canonical(&self, composite_unit: &CompositeUnit) -> (r: bool)
        ensures
            r == self.canonical(composite_unit@),
    {
        match self.from_composite(composite_unit) {
            Ok(value) => {
                let back = self.to_composite(value);
                back == *composite_unit
            },
            Err(_) => false,
        }
    }

    /// Adds `step` to the magnitude at `unit_index` (largest unit first) after
    /// resetting every less significant magnitude to its floor, then carries
    /// into more significant units until the value is canonical.
    /// `Overflow` when no canonical value is reached that way.
    pub fn increment_unit(&self, composite_unit: &CompositeUnit, unit_index: usize, step: u64) -> (r:
        Result<CompositeUnit, ScaleError>)
        requires
            composite_unit@.values.len() == self.units().len(),
            unit_index < composite_unit@.values.len(),
        ensures
            match r {
                Ok(c) => self.increment_spec(composite_unit@, unit_index as int, step as int)
                    == Some(c@) && c@.values.len() == composite_unit@.values.len(),
                Err(e) => e == ScaleError::Overflow && self.increment_spec(
                    composite_unit@,
                    unit_index as int,
                    step as int,
                ) is None,
            },
    {
        proof {
            use_type_invariant(self);
        }
        let n = self.units.len();
        let mut composite = composite_unit.duplicate();
        self.reset_less_significant(&mut composite, unit_index);
        let current = composite.values[unit_index];
        if current > u64::MAX - step {
            return Err(ScaleError::Overflow);
        }
        composite.values.set(unit_index, current + step);
        let mut k: usize = unit_index;
        loop
            invariant
                n == self.units@.len(),
                composite@.values.len() == n,
                composite_unit@.values.len() == n,
                k < n,
                self.carry(composite@, k as nat) == self.increment_spec(
                    composite_unit@,
                    unit_index as int,
                    step as int,
                ),
            decreases k,
        {
            if self.is_unit_counts_canonical(&composite) {
                return Ok(composite);
            }
            if k == 0 || composite.values[k - 1] == u64::MAX {
                return Err(ScaleError::Overflow);
            }
            let floor = self.units[n - 1 - k].starts_at;
            let above = composite.values[k - 1];
            composite.values.set(k, floor);
            composite.values.set(k - 1, above + 1);
            k = k - 1;
        }
    }

    /// Every tick chosen for `[start, end]` lies in that range, and the ticks
    /// increase strictly.
    pub proof fn lemma_tick_bounds(&self, start: u64, end: u64, max_cnt: usize)
        ensures
            forall|i: int|
                0 <= i < self.tick_spec(start, end, max_cnt).len() ==> start <= (
                #[trigger] self.tick_spec(start, end, max_cnt)[i]).1 <= end,
            forall|i: int, j: int|
                0 <= i < j < self.tick_spec(start, end, max_cnt).len() ==> (
                #[trigger] self.tick_spec(start, end, max_cnt)[i]).1 < (
                #[trigger] self.tick_spec(start, end, max_cnt)[j]).1,
    {
        let idx = self.tick_index(start, end, max_cnt);
        let radix = self.tick_step(start, end, max_cnt);
        match self.first_tick(start, idx, radix) {
            Some(c) => self.lemma_walk_bounds(c, start as int, end, idx, radix),
            None => {},
        }
    }

    /// Sets every position after `idx` to its unit's floor.
    fn reset_less_significant(&self, composite: &mut CompositeUnit, idx: usize)
        requires
            old(composite)@.values.len() == self.units().len(),
            idx < self.units().len(),
        ensures
            final(composite)@.values == self.reset_after(old(composite)@.values, idx as int),
            final(composite)@.sign == old(composite)@.sign,
    {
        let n = self.units.len();
        let ghost before = composite@;
        let mut j: usize = idx + 1;
        while j < n
            invariant
                n == self.units@.len(),
                composite@.values.len() == n,
                composite@.sign == before.sign,
                before.values.len() == n,
                idx < j <= n,
                forall|i: int|
                    0 <= i < n ==> #[trigger] composite@.values[i] == if i > idx && i < j {
                        floor_at(self.units@, i)
                    } else {
                        before.values[i]
                    },
            decreases n - j,
        {
            let floor = self.units[n - 1 - j].starts_at;
            composite.values.set(j, floor);
            j = j + 1;
        }
        assert(composite@.values =~= self.reset_after(before.values, idx as int));
    }

    /// Round tick positions in `[start, end]`, at most about `max_cnt` of
    /// them: the spacing is a round multiple of the largest unit that fits
    /// the range, and each tick is the previous one stepped by
    /// `increment_unit`.
    pub fn ticks(&self, start: u64, end: u64, max_cnt: usize) -> (r: Ticks)
        requires
            start < end,
            max_cnt >= 1,
        ensures
            labels_view(r.labels@) == self.tick_spec(start, end, max_cnt),
            r.aux_labels@.len() == 0,
            forall|i: int| 0 <= i < r.labels@.len() ==> start <= (#[trigger] r.labels@[i]).1 <= end,
            forall|i: int, j: int|
                0 <= i < j < r.labels@.len() ==> (#[trigger] r.labels@[i]).1 < (
                #[trigger] r.labels@[j]).1,
    {
        proof {
            use_type_invariant(self);
        }
        let n = self.units.len();
        let gap: u64 = (end - start) / (max_cnt as u64);
        let idx = choose_tick_unit(&self.units, gap);
        proof {
            lemma_unit_at_wf(self.units@, idx as int);
        }
        let unit = &self.units[n - 1 - idx];
        let radix = choose_radix(&unit.tick_base, unit.size, gap);
        let ghost total = self.tick_spec(start, end, max_cnt);
        proof {
            self.lemma_tick_bounds(start, end, max_cnt);
        }
        let mut labels: Vec<(String, u64)> = Vec::new();
        let start_c = self.to_composite(start);
        let mut c = start_c.duplicate();
        let floored = radix_floor(c.values[idx], radix);
        self.reset_less_significant(&mut c, idx);
        c.values.set(idx, floored);
        assert(c@ == self.aligned(start, idx as int, radix as int));
        if !(c == start_c) {
            if radix > u64::MAX as u128 {
                return Ticks { labels, aux_labels: Vec::new() };
            }
            match self.increment_unit(&c, idx, radix as u64) {
                Ok(next) => {
                    c = next;
                },
                Err(_) => {
                    return Ticks { labels, aux_labels: Vec::new() };
                },
            }
        }
        assert(labels_view(labels@) =~= Seq::empty());
        let mut low: u64 = start;
        loop
            invariant
                n == self.units@.len(),
                idx < n,
                c@.values.len() == n,
                idx == self.tick_index(start, end, max_cnt),
                radix == self.tick_step(start, end, max_cnt),
                total == self.tick_spec(start, end, max_cnt),
                labels_view(labels@) + self.walk(c@, low as int, end, idx as int, radix as int)
                    == total,
                low <= end,
                forall|i: int| 0 <= i < total.len() ==> start <= (#[trigger] total[i]).1 <= end,
                forall|i: int, j: int|
                    0 <= i < j < total.len() ==> (#[trigger] total[i]).1 < (#[trigger] total[j]).1,
            decreases end - low,
        {
            let ghost before = labels@;
            let ghost w = self.walk(c@, low as int, end, idx as int, radix as int);
            match self.from_composite(&c) {
                Ok(v) => {
                    if v < low || v > end {
                        assert(labels_view(labels@) =~= total);
                        proof {
                            lemma_labels_bounds(labels@, total, start as int, end as int);
                        }
                        return Ticks { labels, aux_labels: Vec::new() };
                    }
                    let text = self.fmt_composite(&c);
                    labels.push((text, v));
                    let ghost head = seq![(self.format_spec(c@), v)];
                    assert(labels_view(labels@) =~= labels_view(before) + head);
                    if v == end || radix > u64::MAX as u128 {
                        assert(labels_view(labels@) =~= total);
                        proof {
                            lemma_labels_bounds(labels@, total, start as int, end as int);
                        }
                        return Ticks { labels, aux_labels: Vec::new() };
                    }
                    match self.increment_unit(&c, idx, radix as u64) {
                        Ok(next) => {
                            c = next;
                            low = v + 1;
                            assert(labels_view(labels@) + self.walk(c@, low as int, end, idx as int, radix as int) =~= total);
                        },
                        Err(_) => {
                            assert(labels_view(labels@) =~= total);
                            proof {
                                lemma_labels_bounds(labels@, total, start as int, end as int);
                            }
                            return Ticks { labels, aux_labels: Vec::new() };
                        },
                    }
                },
                Err(_) => {
                    assert(labels_view(labels@) =~= total);
                    proof {
                        lemma_labels_bounds(labels@, total, start as int, end as int);
                    }
                    return Ticks { labels, aux_labels: Vec::new() };
                },
            }
        }
    }
}

} // verus!
