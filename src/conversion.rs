use vstd::prelude::*;
use crate::composite::{Composite, CompositeUnit, ScaleError, Sign};
use crate::unit::{Unit, valid_units, unit_at, size_at, lemma_unit_at_wf};

verus! {

/// What is left of `value` after the magnitudes of the first `j` composite
/// positions (largest units first) have been taken out by greedy division.
pub open spec fn remainder(units: Seq<Unit>, value: nat, j: nat) -> nat
    decreases j,
{
    if j == 0 {
        value
    } else {
        remainder(units, value, (j - 1) as nat) % size_at(units, j - 1)
    }
}

/// Greedy breakdown of `value`: each magnitude is the quotient of what is left
/// by that unit's size, largest unit first.
pub open spec fn greedy(units: Seq<Unit>, value: nat) -> Seq<u64> {
    Seq::new(units.len(), |j: int| (remainder(units, value, j as nat) / size_at(units, j)) as u64)
}

/// Sum of `size * magnitude` over the first `k` composite positions.
pub open spec fn weighted(units: Seq<Unit>, values: Seq<u64>, k: nat) -> int
    decreases k,
{
    if k == 0 {
        0
    } else {
        weighted(units, values, (k - 1) as nat) + size_at(units, k - 1) * values[k - 1]
    }
}

/// Number of positions where a composite value and a unit chain are paired.
pub open spec fn paired(units: Seq<Unit>, values: Seq<u64>) -> nat {
    if units.len() <= values.len() {
        units.len()
    } else {
        values.len()
    }
}

/// Base value that a composite value stands for under the default algorithm.
pub open spec fn weighted_total(units: Seq<Unit>, values: Seq<u64>) -> int {
    weighted(units, values, paired(units, values))
}

/// Default base-to-composite conversion.
pub open spec fn default_to(units: Seq<Unit>, value: u64) -> Composite {
    Composite { values: greedy(units, value as nat), sign: Sign::Positive }
}

/// Default composite-to-base conversion: fails only when the sum leaves `u64`.
pub open spec fn default_from(units: Seq<Unit>, c: Composite) -> Result<u64, ScaleError> {
    let t = weighted_total(units, c.values);
    if t <= u64::MAX {
        Ok(t as u64)
    } else {
        Err(ScaleError::Overflow)
    }
}

pub open spec fn digit_char(d: nat) -> char {
    if d == 0 {
        '0'
    } else if d == 1 {
        '1'
    } else if d == 2 {
        '2'
    } else if d == 3 {
        '3'
    } else if d == 4 {
        '4'
    } else if d == 5 {
        '5'
    } else if d == 6 {
        '6'
    } else if d == 7 {
        '7'
    } else if d == 8 {
        '8'
    } else {
        '9'
    }
}

/// Decimal digits of `n`, most significant first, without sign or padding.
pub open spec fn decimal(n: nat) -> Seq<char>
    decreases n,
{
    if n < 10 {
        seq![digit_char(n)]
    } else {
        decimal(n / 10).push(digit_char(n % 10))
    }
}

/// Text for one unit: magnitude, a space, the unit's name.
pub open spec fn label(value: u64, name: Seq<char>) -> Seq<char> {
    decimal(value as nat) + seq![' '] + name
}

/// Text of positions `lo` to `hi - 1`: each labelled, joined by single
/// spaces.
pub open spec fn render(units: Seq<Unit>, values: Seq<u64>, lo: int, hi: int) -> Seq<char>
    decreases hi - lo,
{
    if hi <= lo {
        Seq::empty()
    } else if hi == lo + 1 {
        label(values[lo], unit_at(units, lo).name@)
    } else {
        render(units, values, lo, hi - 1) + seq![' '] + label(
            values[hi - 1],
            unit_at(units, hi - 1).name@,
        )
    }
}

/// First position from `j` on, below `k`, with a non-zero magnitude; `k`
/// when there is none.
pub open spec fn first_nonzero(values: Seq<u64>, j: int, k: int) -> int
    decreases k - j,
{
    if j >= k {
        k
    } else if values[j] != 0 {
        j
    } else {
        first_nonzero(values, j + 1, k)
    }
}

/// Last position below `k` with a non-zero magnitude; -1 when there is none.
pub open spec fn last_nonzero(values: Seq<u64>, k: int) -> int
    decreases k,
{
    if k <= 0 {
        -1
    } else if values[k - 1] != 0 {
        k - 1
    } else {
        last_nonzero(values, k - 1)
    }
}

/// Default text of a composite value.
/// Pieces run from the first non-zero magnitude to the last one, zeros
/// between them included; all zero gives the empty text.
pub open spec fn default_format(units: Seq<Unit>, c: Composite) -> Seq<char> {
    let k = paired(units, c.values) as int;
    render(units, c.values, first_nonzero(c.values, 0, k), last_nonzero(c.values, k) + 1)
}

/// The three operations a scale delegates: base value to composite value,
/// composite value to base value, and composite value to text. `Standard`
/// gives the default algorithms; an irregular domain such as a calendar
/// supplies its own, and may reuse the default functions of this module for
/// the operations it leaves as they are.
pub trait Conversion {
    /// Whether the conversion works on this unit chain.
    spec fn accepts(&self, units: Seq<Unit>) -> bool;

    spec fn to_spec(&self, units: Seq<Unit>, value: u64) -> Composite;

    spec fn from_spec(&self, units: Seq<Unit>, c: Composite) -> Result<u64, ScaleError>;

    spec fn format_spec(&self, units: Seq<Unit>, c: Composite) -> Seq<char>;

    fn to_composite(&self, units: &Vec<Unit>, value: u64) -> (r: CompositeUnit)
        requires
            valid_units(units@),
            self.accepts(units@),
        ensures
            r@ == self.to_spec(units@, value),
            r@.values.len() == units@.len(),
    ;

    fn from_composite(&self, units: &Vec<Unit>, c: &CompositeUnit) -> (r: Result<u64, ScaleError>)
        requires
            valid_units(units@),
            self.accepts(units@),
        ensures
            r == self.from_spec(units@, c@),
    ;

    fn format(&self, units: &Vec<Unit>, c: &CompositeUnit) -> (r: String)
        requires
            valid_units(units@),
            self.accepts(units@),
        ensures
            r@ == self.format_spec(units@, c@),
    ;
}

/// The default algorithms, for scales whose units are fixed multiples.
#[derive(Clone, Copy, Debug)]
pub struct Standard;

impl Conversion for Standard {
    open spec fn accepts(&self, units: Seq<Unit>) -> bool {
        true
    }

    open spec fn to_spec(&self, units: Seq<Unit>, value: u64) -> Composite {
        default_to(units, value)
    }

    open spec fn from_spec(&self, units: Seq<Unit>, c: Composite) -> Result<u64, ScaleError> {
        default_from(units, c)
    }

    open spec fn format_spec(&self, units: Seq<Unit>, c: Composite) -> Seq<char> {
        default_format(units, c)
    }

    fn to_composite(&self, units: &Vec<Unit>, value: u64) -> (r: CompositeUnit) {
        default_to_composite(units, value)
    }

    fn from_composite(&self, units: &Vec<Unit>, c: &CompositeUnit) -> (r: Result<u64, ScaleError>) {
        default_from_composite(units, c)
    }

    fn format(&self, units: &Vec<Unit>, c: &CompositeUnit) -> (r: String) {
        default_format_composite(units, c)
    }
}

/// Breaks `value` down greedily, largest unit first.
pub fn default_to_composite(units: &Vec<Unit>, value: u64) -> (r: CompositeUnit)
    requires
        valid_units(units@),
    ensures
        r@ == default_to(units@, value),
        r@.values.len() == units@.len(),
{
    let n = units.len();
    let mut values: Vec<u64> = Vec::new();
    let mut rem: u64 = value;
    let mut j: usize = 0;
    while j < n
        invariant
            n == units@.len(),
            valid_units(units@),
            j <= n,
            rem as nat == remainder(units@, value as nat, j as nat),
            values@.len() == j,
            forall|i: int| 0 <= i < j ==> values@[i] == greedy(units@, value as nat)[i],
        decreases n - j,
    {
        proof {
            lemma_unit_at_wf(units@, j as int);
        }
        let size = units[n - 1 - j].size;
        values.push(rem / size);
        rem = rem % size;
        j = j + 1;
    }
    assert(values@ =~= greedy(units@, value as nat));
    CompositeUnit { values, sign: Sign::Positive }
}

pub proof fn lemma_weighted_monotone(units: Seq<Unit>, values: Seq<u64>, i: nat, k: nat)
    requires
        i <= k,
    ensures
        weighted(units, values, i) <= weighted(units, values, k),
    decreases k - i,
{
    if i < k {
        lemma_weighted_monotone(units, values, i, (k - 1) as nat);
        assert(size_at(units, k - 1) * values[k - 1] >= 0) by (nonlinear_arith);
    }
}

/// Sums `size * magnitude` over the paired positions; `Overflow` when the sum
/// does not fit in `u64`.
pub fn default_from_composite(units: &Vec<Unit>, c: &CompositeUnit) -> (r: Result<u64, ScaleError>)
    requires
        valid_units(units@),
    ensures
        r == default_from(units@, c@),
{
    let n = units.len();
    let k: usize = if n <= c.values.len() { n } else { c.values.len() };
    let mut acc: u64 = 0;
    let mut j: usize = 0;
    while j < k
        invariant
            n == units@.len(),
            k == paired(units@, c.values@),
            j <= k,
            acc as int == weighted(units@, c.values@, j as nat),
        decreases k - j,
    {
        let size = units[n - 1 - j].size;
        let value = c.values[j];
        proof {
            assert(size_at(units@, j as int) == size as nat);
            assert((size as int) * (value as int) <= 0xffff_ffff_ffff_ffff * 0xffff_ffff_ffff_ffff)
                by (nonlinear_arith)
                requires
                    size <= 0xffff_ffff_ffff_ffffu64,
                    value <= 0xffff_ffff_ffff_ffffu64,
            ;
        }
        let term: u128 = (size as u128) * (value as u128);
        let sum: u128 = acc as u128 + term;
        if sum > u64::MAX as u128 {
            proof {
                lemma_weighted_monotone(units@, c.values@, (j + 1) as nat, k as nat);
            }
            return Err(ScaleError::Overflow);
        }
        acc = sum as u64;
        j = j + 1;
    }
    Ok(acc)
}

/// Relies on std's `Display` for `u64` (through `to_string`): plain decimal
/// digits, no sign, no padding.
#[verifier::external_body]
fn decimal_string(n: u64) -> (r: String)
    ensures
        r@ == decimal(n as nat),
{
    n.to_string()
}

proof fn lemma_nonzero_bounds(values: Seq<u64>, j: int, k: int)
    requires
        0 <= j <= k <= values.len(),
    ensures
        j <= first_nonzero(values, j, k) <= k,
        first_nonzero(values, j, k) < k ==> values[first_nonzero(values, j, k)] != 0,
        forall|i: int| j <= i < first_nonzero(values, j, k) ==> values[i] == 0,
    decreases k - j,
{
    if j < k {
        lemma_nonzero_bounds(values, j + 1, k);
    }
}

proof fn lemma_last_nonzero_bounds(values: Seq<u64>, k: int)
    requires
        0 <= k <= values.len(),
    ensures
        -1 <= last_nonzero(values, k) < k,
        last_nonzero(values, k) >= 0 ==> values[last_nonzero(values, k)] != 0,
        forall|i: int| last_nonzero(values, k) < i < k ==> values[i] == 0,
    decreases k,
{
    if k > 0 {
        lemma_last_nonzero_bounds(values, k - 1);
    }
}

/// Labels the paired positions from the first non-zero magnitude to the last.
pub fn default_format_composite(units: &Vec<Unit>, c: &CompositeUnit) -> (r: String)
    requires
        valid_units(units@),
    ensures
        r@ == default_format(units@, c@),
{
    let n = units.len();
    let k: usize = if n <= c.values.len() { n } else { c.values.len() };
    let ghost vals = c.values@;
    let mut first: usize = 0;
    while first < k && c.values[first] == 0
        invariant
            first <= k <= vals.len(),
            vals == c.values@,
            first_nonzero(vals, first as int, k as int) == first_nonzero(vals, 0, k as int),
        decreases k - first,
    {
        first = first + 1;
    }
    let mut end: usize = k;
    while end > first && c.values[end - 1] == 0
        invariant
            first <= end <= k <= vals.len(),
            vals == c.values@,
            last_nonzero(vals, end as int) == last_nonzero(vals, k as int),
        decreases end,
    {
        end = end - 1;
    }
    proof {
        lemma_nonzero_bounds(vals, 0, k as int);
        lemma_last_nonzero_bounds(vals, k as int);
        lemma_last_nonzero_bounds(vals, end as int);
        if first < k {
            assert(vals[first as int] != 0);
            assert(last_nonzero(vals, k as int) >= first);
            assert(end > first);
            assert(vals[end - 1] != 0);
            assert(last_nonzero(vals, end as int) == end - 1);
        } else {
            assert(first_nonzero(vals, 0, k as int) == k);
            assert(last_nonzero(vals, k as int) < 0);
        }
    }
    let mut result = String::new();
    let mut j: usize = first;
    proof {
        reveal_strlit(" ");
    }
    while j < end
        invariant
            n == units@.len(),
            k == paired(units@, c.values@),
            first <= j <= end <= k,
            result@ == render(units@, c.values@, first as int, j as int),
            " "@ == seq![' '],
        decreases end - j,
    {
        let value = c.values[j];
        if j > first {
            result.append(" ");
        }
        let mut piece = decimal_string(value);
        piece.append(" ");
        piece.append(units[n - 1 - j].name);
        result.append(piece.as_str());
        proof {
            assert(unit_at(units@, j as int) == units@[n - 1 - j]);
        }
        j = j + 1;
    }
    result
}

} // verus!
