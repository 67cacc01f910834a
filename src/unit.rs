use vstd::prelude::*;

verus! {

/// One unit of a scale: a display name, its size in base units, the smallest
/// magnitude it takes inside a composite value, and the step multipliers tried
/// when choosing tick spacing.
#[derive(Clone, Debug)]
pub struct Unit {
    pub name: &'static str,
    pub tick_base: Vec<u64>,
    pub size: u64,
    pub starts_at: u64,
}

impl Unit {
    /// A usable unit: a positive size.
    pub open spec fn wf(&self) -> bool {
        self.size > 0
    }
}

/// A finished unit chain, smallest unit first: at least one unit, each usable.
pub open spec fn valid_units(units: Seq<Unit>) -> bool {
    &&& units.len() > 0
    &&& forall|i: int| 0 <= i < units.len() ==> #[trigger] units[i].wf()
}

/// The unit that magnitude `j` of a composite value counts: composite values
/// list the largest unit first, the chain stores the smallest first.
pub open spec fn unit_at(units: Seq<Unit>, j: int) -> Unit {
    units[units.len() - 1 - j]
}

/// Size of the unit at composite position `j`.
pub open spec fn size_at(units: Seq<Unit>, j: int) -> nat {
    unit_at(units, j).size as nat
}

/// Smallest magnitude of the unit at composite position `j`.
pub open spec fn floor_at(units: Seq<Unit>, j: int) -> u64 {
    unit_at(units, j).starts_at
}

pub proof fn lemma_unit_at_wf(units: Seq<Unit>, j: int)
    requires
        valid_units(units),
        0 <= j < units.len(),
    ensures
        unit_at(units, j).wf(),
        size_at(units, j) > 0,
{
    assert(units[units.len() - 1 - j].wf());
}

/// Relies on std's `PartialEq` for `str`: two strings are equal exactly when
/// they hold the same characters.
#[verifier::external_body]
fn same_text(a: &str, b: &str) -> (r: bool)
    ensures
        r == (a@ == b@),
{
    a == b
}

/// Index of the first unit named `name`, smallest unit first.
pub open spec fn first_named(units: Seq<Unit>, name: Seq<char>) -> Option<int> {
    if exists|i: int| 0 <= i < units.len() && units[i].name@ == name {
        Some(
            choose|i: int|
                0 <= i < units.len() && units[i].name@ == name && forall|j: int|
                    0 <= j < i ==> units[j].name@ != name,
        )
    } else {
        None
    }
}

/// Finds the first unit named `name` among `units`.
pub fn find_named<'a>(units: &'a Vec<Unit>, name: &str) -> (r: Option<&'a Unit>)
    ensures
        match first_named(units@, name@) {
            Some(i) => r == Some(&units@[i]),
            None => r is None,
        },
{
    let mut i: usize = 0;
    while i < units.len()
        invariant
            i <= units@.len(),
            forall|j: int| 0 <= j < i ==> units@[j].name@ != name@,
        decreases units@.len() - i,
    {
        if same_text(units[i].name, name) {
            proof {
                let k = choose|k: int|
                    0 <= k < units@.len() && units@[k].name@ == name@ && forall|j: int|
                        0 <= j < k ==> units@[j].name@ != name@;
                assert(0 <= i < units@.len() && units@[i as int].name@ == name@ && forall|j: int|
                    0 <= j < i ==> units@[j].name@ != name@);
                if k < i {
                    assert(units@[k].name@ != name@);
                } else if k > i {
                    assert(units@[i as int].name@ != name@);
                }
            }
            return Some(&units[i]);
        }
        i = i + 1;
    }
    None
}

} // verus!
