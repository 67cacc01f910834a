use vstd::prelude::*;
use crate::conversion::{Conversion, Standard};
use crate::scale::Scale;
use crate::unit::{Unit, valid_units, first_named, find_named};

verus! {

/// Default size of a new unit: a thousand times the last unit defined, or one
/// base unit for the first.
pub open spec fn default_size(units: Seq<Unit>) -> int {
    if units.len() == 0 {
        1
    } else {
        units.last().size * 1000
    }
}

/// Describes one unit while a scale is being built; it sees the units defined
/// before it, so sizes can be given relative to them.
pub struct UnitBuilder<'a> {
    name: &'static str,
    earlier: &'a Vec<Unit>,
    size: u64,
    tick_base: Vec<u64>,
    starts_at: u64,
}

impl<'a> UnitBuilder<'a> {
    pub closed spec fn spec_name(&self) -> &'static str {
        self.name
    }

    pub closed spec fn spec_earlier(&self) -> Seq<Unit> {
        self.earlier@
    }

    pub closed spec fn spec_size(&self) -> u64 {
        self.size
    }

    pub closed spec fn spec_tick_base(&self) -> Seq<u64> {
        self.tick_base@
    }

    pub closed spec fn spec_starts_at(&self) -> u64 {
        self.starts_at
    }

    /// A builder for the unit after `earlier`: no name, the default size,
    /// tick multipliers 2, 5 and 10, floor 0.
    fn new(earlier: &'a Vec<Unit>) -> (r: UnitBuilder<'a>)
        requires
            default_size(earlier@) <= u64::MAX,
        ensures
            r.spec_name() == "",
            r.spec_earlier() == earlier@,
            r.spec_size() == default_size(earlier@),
            r.spec_tick_base() == seq![2u64, 5u64, 10u64],
            r.spec_starts_at() == 0,
    {
        let size: u64 = if earlier.len() == 0 {
            1
        } else {
            earlier[earlier.len() - 1].size * 1000
        };
        let mut tick_base: Vec<u64> = Vec::new();
        tick_base.push(2);
        tick_base.push(5);
        tick_base.push(10);
        assert(tick_base@ =~= seq![2u64, 5u64, 10u64]);
        UnitBuilder { name: "", earlier, size, tick_base, starts_at: 0 }
    }

    /// Sets the unit's display name.
    pub fn name(self, name: &'static str) -> (r: UnitBuilder<'a>)
        ensures
            r.spec_name() == name,
            r.spec_earlier() == self.spec_earlier(),
            r.spec_size() == self.spec_size(),
            r.spec_tick_base() == self.spec_tick_base(),
            r.spec_starts_at() == self.spec_starts_at(),
    {
        UnitBuilder { name, ..self }
    }

    /// Makes the unit `rscale` times the last unit defined (`rscale` base
    /// units for the first unit).
    pub fn relative_to_last(self, rscale: u64) -> (r: UnitBuilder<'a>)
        requires
            self.spec_earlier().len() == 0 || self.spec_earlier().last().size * rscale <= u64::MAX,
        ensures
            r.spec_size() == if self.spec_earlier().len() == 0 {
                rscale as int
            } else {
                self.spec_earlier().last().size * rscale
            },
            r.spec_name() == self.spec_name(),
            r.spec_earlier() == self.spec_earlier(),
            r.spec_tick_base() == self.spec_tick_base(),
            r.spec_starts_at() == self.spec_starts_at(),
    {
        let size = if self.earlier.len() == 0 {
            rscale
        } else {
            self.earlier[self.earlier.len() - 1].size * rscale
        };
        UnitBuilder { size, ..self }
    }

    /// Makes the unit `rscale` times the earlier unit named `unit_name`,
    /// which must exist.
    pub fn relative_to(self, unit_name: &str, rscale: u64) -> (r: UnitBuilder<'a>)
        requires
            first_named(self.spec_earlier(), unit_name@) is Some,
            self.spec_earlier()[first_named(self.spec_earlier(), unit_name@)->Some_0].size * rscale
                <= u64::MAX,
        ensures
            r.spec_size() == self.spec_earlier()[first_named(
                self.spec_earlier(),
                unit_name@,
            )->Some_0].size * rscale,
            r.spec_name() == self.spec_name(),
            r.spec_earlier() == self.spec_earlier(),
            r.spec_tick_base() == self.spec_tick_base(),
            r.spec_starts_at() == self.spec_starts_at(),
    {
        let size = match find_named(self.earlier, unit_name) {
            Some(unit) => unit.size * rscale,
            None => rscale,
        };
        UnitBuilder { size, ..self }
    }

    /// Sets the step multipliers tried when choosing tick spacing.
    pub fn tick_base(self, tick_base: Vec<u64>) -> (r: UnitBuilder<'a>)
        ensures
            r.spec_tick_base() == tick_base@,
            r.spec_name() == self.spec_name(),
            r.spec_earlier() == self.spec_earlier(),
            r.spec_size() == self.spec_size(),
            r.spec_starts_at() == self.spec_starts_at(),
    {
        UnitBuilder { tick_base, ..self }
    }

    /// Sets the smallest magnitude the unit takes in a composite value.
    pub fn starts_at(self, starts_at: u64) -> (r: UnitBuilder<'a>)
        ensures
            r.spec_starts_at() == starts_at,
            r.spec_name() == self.spec_name(),
            r.spec_earlier() == self.spec_earlier(),
            r.spec_size() == self.spec_size(),
            r.spec_tick_base() == self.spec_tick_base(),
    {
        UnitBuilder { starts_at, ..self }
    }

    /// The unit described so far.
    pub fn build(self) -> (r: Unit)
        ensures
            self.describes(r),
    {
        Unit {
            name: self.name,
            tick_base: self.tick_base,
            size: self.size,
            starts_at: self.starts_at,
        }
    }

    /// `u` is the unit this builder describes.
    pub open spec fn describes(&self, u: Unit) -> bool {
        &&& u.name == self.spec_name()
        &&& u.size == self.spec_size()
        &&& u.tick_base@ == self.spec_tick_base()
        &&& u.starts_at == self.spec_starts_at()
    }
}

/// Builds a scale one unit at a time, smallest unit first.
pub struct ScaleBuilder<C: Conversion> {
    name: &'static str,
    conversion: C,
    units: Vec<Unit>,
}

impl ScaleBuilder<Standard> {
    /// A builder with no units yet and the default conversion.
    pub fn new(name: &'static str) -> (r: ScaleBuilder<Standard>)
        ensures
            r.spec_units().len() == 0,
            r.spec_name() == name,
    {
        ScaleBuilder { name, conversion: Standard, units: Vec::new() }
    }
}

impl<C: Conversion> ScaleBuilder<C> {
    pub closed spec fn spec_units(&self) -> Seq<Unit> {
        self.units@
    }

    pub closed spec fn spec_conversion(&self) -> C {
        self.conversion
    }

    pub closed spec fn spec_name(&self) -> &'static str {
        self.name
    }

    /// Replaces the conversion, for domains whose units are not fixed
    /// multiples of each other.
    pub fn conversion<D: Conversion>(self, conversion: D) -> (r: ScaleBuilder<D>)
        ensures
            r.spec_units() == self.spec_units(),
            r.spec_conversion() == conversion,
            r.spec_name() == self.spec_name(),
    {
        ScaleBuilder { name: self.name, conversion, units: self.units }
    }

    /// Adds the next larger unit, as `cb` describes it on a fresh unit
    /// builder that sees the units defined so far.
    pub fn unit<F>(self, cb: F) -> (r: ScaleBuilder<C>) where
        F: for <'b>FnOnce(UnitBuilder<'b>) -> UnitBuilder<'b>,

        requires
            default_size(self.spec_units()) <= u64::MAX,
            forall|b: UnitBuilder| b.spec_earlier() == self.spec_units() ==> call_requires(cb, (b,)),
        ensures
            exists|start: UnitBuilder, b: UnitBuilder|
                start.spec_name() == "" && start.spec_earlier() == self.spec_units()
                    && start.spec_size() == default_size(
                    self.spec_units(),
                ) && start.spec_tick_base() == seq![2u64, 5u64, 10u64] && start.spec_starts_at()
                    == 0 && call_ensures(cb, (start,), b) && b.describes(r.spec_units().last()),
            r.spec_units().len() == self.spec_units().len() + 1,
            r.spec_units().drop_last() == self.spec_units(),
            r.spec_conversion() == self.spec_conversion(),
            r.spec_name() == self.spec_name(),
    {
        let start = UnitBuilder::new(&self.units);
        let ghost start_view = start;
        let described = cb(start);
        let ghost b = described;
        let unit = described.build();
        let mut units = self.units;
        units.push(unit);
        assert(call_ensures(cb, (start_view,), b));
        assert(units@.drop_last() =~= self.units@);
        ScaleBuilder { name: self.name, conversion: self.conversion, units }
    }

    /// The scale; it needs at least one unit, each of positive size.
    pub fn build(self) -> (r: Scale<C>)
        requires
            valid_units(self.spec_units()),
            self.spec_conversion().accepts(self.spec_units()),
        ensures
            r.scale_name() == self.spec_name(),
            r.units() == self.spec_units(),
            r.conversion() == self.spec_conversion(),
    {
        Scale::new(self.name, self.conversion, self.units)
    }
}

} // verus!
