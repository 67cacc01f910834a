use vstd::prelude::*;

verus! {

/// Sign tag of a composite value.
#[derive(Clone, Copy, Debug, PartialEq, Eq, Structural)]
pub enum Sign {
    Positive,
    Negative,
}

/// Why a conversion or an increment produced no value.
#[derive(Clone, Copy, Debug, PartialEq, Eq, Structural)]
pub enum ScaleError {
    /// A composite value that is not valid for the scale's domain.
    OutOfBounds,
    /// A carry ran past the most significant unit, or a magnitude left `u64`.
    Overflow,
}

impl ScaleError {
    /// Human-readable description of the error.
    pub fn message(&self) -> (r: &'static str)
        ensures
            *self == ScaleError::OutOfBounds ==> r@ == "ScaleError: OutOfBounds"@,
            *self == ScaleError::Overflow ==> r@ == "ScaleError: Overflow"@,
    {
        match self {
            ScaleError::OutOfBounds => "ScaleError: OutOfBounds",
            ScaleError::Overflow => "ScaleError: Overflow",
        }
    }
}

/// Mathematical model of a composite value: one magnitude per unit, most
/// significant unit first, and a sign.
pub struct Composite {
    pub values: Seq<u64>,
    pub sign: Sign,
}

/// A base value broken down into per-unit magnitudes, ordered from the largest
/// unit to the smallest.
#[derive(Clone, Debug)]
pub struct CompositeUnit {
    pub values: Vec<u64>,
    pub sign: Sign,
}

impl View for CompositeUnit {
    type V = Composite;

    open spec fn view(&self) -> Composite {
        Composite { values: self.values@, sign: self.sign }
    }
}

impl CompositeUnit {
    /// An empty, positive composite value.
    pub fn new() -> (r: CompositeUnit)
        ensures
            r@ == (Composite { values: Seq::<u64>::empty(), sign: Sign::Positive }),
    {
        CompositeUnit { values: Vec::new(), sign: Sign::Positive }
    }

    /// A copy that keeps every magnitude and the sign.
    pub fn duplicate(&self) -> (r: CompositeUnit)
        ensures
            r@ == self@,
    {
        let mut values: Vec<u64> = Vec::new();
        let mut i: usize = 0;
        while i < self.values.len()
            invariant
                i <= self.values@.len(),
                values@ == self.values@.subrange(0, i as int),
            decreases self.values@.len() - i,
        {
            values.push(self.values[i]);
            i = i + 1;
        }
        assert(values@ =~= self.values@);
        CompositeUnit { values, sign: self.sign }
    }
}

impl PartialEq for CompositeUnit {
    fn eq(&self, other: &CompositeUnit) -> (r: bool) {
        if self.sign != other.sign || self.values.len() != other.values.len() {
            return false;
        }
        let mut i: usize = 0;
        while i < self.values.len()
            invariant
                self.values@.len() == other.values@.len(),
                i <= self.values@.len(),
                forall|j: int| 0 <= j < i ==> self.values@[j] == other.values@[j],
            decreases self.values@.len() - i,
        {
            if self.values[i] != other.values[i] {
                return false;
            }
            i = i + 1;
        }
        assert(self.values@ =~= other.values@);
        true
    }
}

impl vstd::std_specs::cmp::PartialEqSpecImpl for CompositeUnit {
    open spec fn obeys_eq_spec() -> bool {
        true
    }

    open spec fn eq_spec(&self, other: &CompositeUnit) -> bool {
        self@ == other@
    }
}

impl Eq for CompositeUnit {
}

} // verus!
