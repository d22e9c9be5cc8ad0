//! A fixed-width multi dimensional capacity (or demand) value.

use std::cmp::Ordering;
use std::ops::{Add, Sub};
use vstd::array::spec_array_update;
use vstd::prelude::*;
use vstd::std_specs::cmp::PartialEqSpec;

verus! {

/// The number of dimensions a capacity keeps.
pub const CAPACITY_DIMENSION_SIZE: usize = 8;

/// Specifies multi dimensional capacity type.
/// Ordering is defined the following way:
/// Less is returned when at least one dimension is less, others can be equal
/// Equal is returned when all dimensions are equal
/// Greater is returned when at least one dimension is greater than in rhs
#[derive(Clone, Copy, Debug)]
pub struct MultiDimensionalCapacity {
    pub capacity: [i32; CAPACITY_DIMENSION_SIZE],
    pub size: usize,
}

/// An array whose first `n` slots hold `s`, the others those of `base`.
pub open spec fn fill_dims(base: [i32; CAPACITY_DIMENSION_SIZE], s: Seq<i32>, n: nat) -> [i32; CAPACITY_DIMENSION_SIZE]
    decreases n,
{
    if n == 0 {
        base
    } else {
        spec_array_update(fill_dims(base, s, (n - 1) as nat), n - 1, s[n - 1])
    }
}

/// The slots of `fill_dims`.
pub proof fn lemma_fill_dims(base: [i32; CAPACITY_DIMENSION_SIZE], s: Seq<i32>, n: nat)
    requires
        n <= CAPACITY_DIMENSION_SIZE,
    ensures
        forall|i: int|
            0 <= i < CAPACITY_DIMENSION_SIZE ==> #[trigger] fill_dims(base, s, n)@[i] == (if i < n {
                s[i]
            } else {
                base@[i]
            }),
    decreases n,
{
    if n > 0 {
        let prev = fill_dims(base, s, (n - 1) as nat);
        lemma_fill_dims(base, s, (n - 1) as nat);
        assert(fill_dims(base, s, n) == spec_array_update(prev, n - 1, s[n - 1]));
        assert(spec_array_update(prev, n - 1, s[n - 1])@ == prev@.update(n - 1, s[n - 1]));
    }
}

/// Element-wise sum of two dimension arrays.
pub open spec fn sum_dims(a: [i32; CAPACITY_DIMENSION_SIZE], b: [i32; CAPACITY_DIMENSION_SIZE]) -> [i32; CAPACITY_DIMENSION_SIZE] {
    fill_dims(a, Seq::new(CAPACITY_DIMENSION_SIZE as nat, |i: int| (a@[i] + b@[i]) as i32), CAPACITY_DIMENSION_SIZE as nat)
}

/// Element-wise difference of two dimension arrays.
pub open spec fn diff_dims(a: [i32; CAPACITY_DIMENSION_SIZE], b: [i32; CAPACITY_DIMENSION_SIZE]) -> [i32; CAPACITY_DIMENSION_SIZE] {
    fill_dims(a, Seq::new(CAPACITY_DIMENSION_SIZE as nat, |i: int| (a@[i] - b@[i]) as i32), CAPACITY_DIMENSION_SIZE as nat)
}

/// Whether every element-wise sum fits into `i32`.
pub open spec fn can_add_dims(a: [i32; CAPACITY_DIMENSION_SIZE], b: [i32; CAPACITY_DIMENSION_SIZE]) -> bool {
    forall|i: int| 0 <= i < CAPACITY_DIMENSION_SIZE ==> i32::MIN <= #[trigger] a@[i] + b@[i] <= i32::MAX
}

/// Whether every element-wise difference fits into `i32`.
pub open spec fn can_sub_dims(a: [i32; CAPACITY_DIMENSION_SIZE], b: [i32; CAPACITY_DIMENSION_SIZE]) -> bool {
    forall|i: int| 0 <= i < CAPACITY_DIMENSION_SIZE ==> i32::MIN <= #[trigger] a@[i] - b@[i] <= i32::MAX
}

pub open spec fn max_size(a: usize, b: usize) -> usize {
    if a >= b {
        a
    } else {
        b
    }
}

/// Whether some of the first `n` dimensions of `a` is greater than in `b`.
pub open spec fn has_greater(a: Seq<i32>, b: Seq<i32>, n: usize) -> bool {
    exists|i: int| 0 <= i < n && a[i] > #[trigger] b[i]
}

/// Whether some of the first `n` dimensions of `a` is less than in `b`.
pub open spec fn has_less(a: Seq<i32>, b: Seq<i32>, n: usize) -> bool {
    exists|i: int| 0 <= i < n && a[i] < #[trigger] b[i]
}

/// Dominance comparison of the first `n` dimensions: any greater dimension wins,
/// otherwise any smaller one, otherwise they are equal.
pub open spec fn compare_prefix(a: Seq<i32>, b: Seq<i32>, n: usize) -> Ordering {
    if has_greater(a, b, n) {
        Ordering::Greater
    } else if has_less(a, b, n) {
        Ordering::Less
    } else {
        Ordering::Equal
    }
}

/// Extending the compared prefix by one dimension.
proof fn lemma_prefix_step(a: Seq<i32>, b: Seq<i32>, n: usize, left: i32, right: i32)
    requires
        n < CAPACITY_DIMENSION_SIZE,
        left == a[n as int],
        right == b[n as int],
    ensures
        has_greater(a, b, (n + 1) as usize) == (has_greater(a, b, n) || left > right),
        has_less(a, b, (n + 1) as usize) == (has_less(a, b, n) || left < right),
{
    let m = (n + 1) as usize;
    if has_greater(a, b, m) && !has_greater(a, b, n) {
        let i = choose|i: int| 0 <= i < m && a[i] > #[trigger] b[i];
        assert(i == n);
    }
    if left > right {
        assert(a[n as int] > b[n as int]);
    }
    if has_less(a, b, m) && !has_less(a, b, n) {
        let i = choose|i: int| 0 <= i < m && a[i] < #[trigger] b[i];
        assert(i == n);
    }
    if left < right {
        assert(a[n as int] < b[n as int]);
    }
}

impl MultiDimensionalCapacity {
    /// The capacity with all dimensions at zero and no used dimensions.
    pub open spec fn zero() -> Self {
        MultiDimensionalCapacity { capacity: vstd::array::spec_array_fill_for_copy_type(0i32), size: 0 }
    }

    /// Whether the amount of used dimensions fits the storage.
    pub open spec fn wf(&self) -> bool {
        self.size <= CAPACITY_DIMENSION_SIZE
    }

    /// The sum of two capacities: dimensions are added, the size is the larger one.
    pub open spec fn sum_spec(self, rhs: Self) -> Self {
        MultiDimensionalCapacity { capacity: sum_dims(self.capacity, rhs.capacity), size: max_size(self.size, rhs.size) }
    }

    /// The difference of two capacities: dimensions are subtracted, the size is the larger one.
    pub open spec fn diff_spec(self, rhs: Self) -> Self {
        MultiDimensionalCapacity { capacity: diff_dims(self.capacity, rhs.capacity), size: max_size(self.size, rhs.size) }
    }

    /// The dominance ordering over all dimensions.
    pub open spec fn compare_spec(&self, other: &Self) -> Ordering {
        compare_prefix(self.capacity@, other.capacity@, CAPACITY_DIMENSION_SIZE)
    }

    /// Creates a capacity from the given dimension values; missing dimensions are zero.
    pub fn new(data: Vec<i32>) -> (result: Self)
        requires
            data.len() <= CAPACITY_DIMENSION_SIZE,
        ensures
            result.size == data.len(),
            forall|i: int|
                0 <= i < CAPACITY_DIMENSION_SIZE ==> #[trigger] result.capacity@[i] == (if i < data.len() {
                    data@[i]
                } else {
                    0
                }),
    {
        let mut capacity: [i32; CAPACITY_DIMENSION_SIZE] = [0i32; 8];
        let mut idx: usize = 0;
        while idx < data.len()
            invariant
                idx <= data.len() <= CAPACITY_DIMENSION_SIZE,
                forall|i: int|
                    0 <= i < CAPACITY_DIMENSION_SIZE ==> #[trigger] capacity@[i] == (if i < idx {
                        data@[i]
                    } else {
                        0
                    }),
            decreases data.len() - idx,
        {
            capacity[idx] = data[idx];
            idx = idx + 1;
        }
        Self { capacity, size: data.len() }
    }

    /// Returns the value of the given dimension.
    pub fn get(&self, idx: usize) -> (value: i32)
        requires
            idx < CAPACITY_DIMENSION_SIZE,
        ensures
            value == self.capacity@[idx as int],
    {
        self.capacity[idx]
    }

    /// Returns the used dimensions; a capacity without used dimensions is a single zero.
    pub fn as_vec(&self) -> (result: Vec<i32>)
        requires
            self.wf(),
        ensures
            self.size == 0 ==> result@ == seq![0i32],
            self.size > 0 ==> result@ == self.capacity@.subrange(0, self.size as int),
    {
        if self.size == 0 {
            vec![0]
        } else {
            let mut result: Vec<i32> = Vec::new();
            let mut idx: usize = 0;
            while idx < self.size
                invariant
                    idx <= self.size <= CAPACITY_DIMENSION_SIZE,
                    result@ == self.capacity@.subrange(0, idx as int),
                decreases self.size - idx,
            {
                result.push(self.capacity[idx]);
                idx = idx + 1;
            }
            result
        }
    }

    /// Compares two capacities dimension by dimension, as described on the type.
    pub fn cmp(&self, other: &Self) -> (result: Ordering)
        ensures
            result == self.compare_spec(other),
    {
        let mut acc: Ordering = Ordering::Equal;
        let mut idx: usize = 0;
        while idx < CAPACITY_DIMENSION_SIZE
            invariant
                idx <= CAPACITY_DIMENSION_SIZE,
                acc == compare_prefix(self.capacity@, other.capacity@, idx),
            decreases CAPACITY_DIMENSION_SIZE - idx,
        {
            let left = self.get(idx);
            let right = other.get(idx);
            acc = match acc {
                Ordering::Greater => Ordering::Greater,
                Ordering::Equal => {
                    if left > right {
                        Ordering::Greater
                    } else if left == right {
                        Ordering::Equal
                    } else {
                        Ordering::Less
                    }
                },
                Ordering::Less => {
                    if left > right {
                        Ordering::Greater
                    } else {
                        Ordering::Less
                    }
                },
            };
            proof {
                lemma_prefix_step(self.capacity@, other.capacity@, idx, left, right);
            }
            idx = idx + 1;
        }
        acc
    }
}

/// Adds `rhs` dimension by dimension into `acc`, keeping the larger size.
fn sum(acc: MultiDimensionalCapacity, rhs: &MultiDimensionalCapacity) -> (result: MultiDimensionalCapacity)
    requires
        can_add_dims(acc.capacity, rhs.capacity),
    ensures
        result == acc.sum_spec(*rhs),
{
    let mut dimens = acc;
    let mut idx: usize = 0;
    while idx < CAPACITY_DIMENSION_SIZE
        invariant
            idx <= CAPACITY_DIMENSION_SIZE,
            can_add_dims(acc.capacity, rhs.capacity),
            dimens.size == acc.size,
            forall|i: int|
                0 <= i < CAPACITY_DIMENSION_SIZE ==> #[trigger] dimens.capacity@[i] == (if i < idx {
                    acc.capacity@[i] + rhs.capacity@[i]
                } else {
                    acc.capacity@[i] as int
                }),
        decreases CAPACITY_DIMENSION_SIZE - idx,
    {
        let value = rhs.capacity[idx];
        assert(i32::MIN <= acc.capacity@[idx as int] + rhs.capacity@[idx as int] <= i32::MAX);
        dimens.capacity[idx] = dimens.capacity[idx] + value;
        idx = idx + 1;
    }
    dimens.size = if dimens.size >= rhs.size {
        dimens.size
    } else {
        rhs.size
    };
    proof {
        let expected = acc.sum_spec(*rhs);
        lemma_fill_dims(
            acc.capacity,
            Seq::new(CAPACITY_DIMENSION_SIZE as nat, |i: int| (acc.capacity@[i] + rhs.capacity@[i]) as i32),
            CAPACITY_DIMENSION_SIZE as nat,
        );
        assert(dimens.capacity =~= expected.capacity);
    }
    dimens
}

impl Default for MultiDimensionalCapacity {
    fn default() -> (result: Self)
        ensures
            result == Self::zero(),
    {
        Self { capacity: [0i32; 8], size: 0 }
    }
}

impl Add for MultiDimensionalCapacity {
    type Output = Self;

    fn add(self, rhs: Self) -> (result: Self::Output) {
        sum(self, &rhs)
    }
}

impl vstd::std_specs::ops::AddSpecImpl for MultiDimensionalCapacity {
    open spec fn obeys_add_spec() -> bool {
        true
    }

    open spec fn add_req(self, rhs: Self) -> bool {
        can_add_dims(self.capacity, rhs.capacity)
    }

    open spec fn add_spec(self, rhs: Self) -> Self {
        self.sum_spec(rhs)
    }
}

impl Sub for MultiDimensionalCapacity {
    type Output = Self;

    fn sub(self, rhs: Self) -> (result: Self::Output) {
        let mut dimens = self;
        let mut idx: usize = 0;
        while idx < CAPACITY_DIMENSION_SIZE
            invariant
                idx <= CAPACITY_DIMENSION_SIZE,
                can_sub_dims(self.capacity, rhs.capacity),
                dimens.size == self.size,
                forall|i: int|
                    0 <= i < CAPACITY_DIMENSION_SIZE ==> #[trigger] dimens.capacity@[i] == (if i < idx {
                        self.capacity@[i] - rhs.capacity@[i]
                    } else {
                        self.capacity@[i] as int
                    }),
            decreases CAPACITY_DIMENSION_SIZE - idx,
        {
            let value = rhs.capacity[idx];
            assert(i32::MIN <= self.capacity@[idx as int] - rhs.capacity@[idx as int] <= i32::MAX);
            dimens.capacity[idx] = dimens.capacity[idx] - value;
            idx = idx + 1;
        }
        dimens.size = if dimens.size >= rhs.size {
            dimens.size
        } else {
            rhs.size
        };
        proof {
            let expected = self.diff_spec(rhs);
            lemma_fill_dims(
                self.capacity,
                Seq::new(CAPACITY_DIMENSION_SIZE as nat, |i: int| (self.capacity@[i] - rhs.capacity@[i]) as i32),
                CAPACITY_DIMENSION_SIZE as nat,
            );
            assert(dimens.capacity =~= expected.capacity);
        }
        dimens
    }
}

impl vstd::std_specs::ops::SubSpecImpl for MultiDimensionalCapacity {
    open spec fn obeys_sub_spec() -> bool {
        true
    }

    open spec fn sub_req(self, rhs: Self) -> bool {
        can_sub_dims(self.capacity, rhs.capacity)
    }

    open spec fn sub_spec(self, rhs: Self) -> Self {
        self.diff_spec(rhs)
    }
}

impl PartialEq for MultiDimensionalCapacity {
    fn eq(&self, other: &Self) -> (result: bool) {
        match self.cmp(other) {
            Ordering::Equal => true,
            _ => false,
        }
    }
}

impl vstd::std_specs::cmp::PartialEqSpecImpl for MultiDimensionalCapacity {
    open spec fn obeys_eq_spec() -> bool {
        true
    }

    open spec fn eq_spec(&self, other: &Self) -> bool {
        self.compare_spec(other) == Ordering::Equal
    }
}

impl Eq for MultiDimensionalCapacity {}

impl PartialOrd for MultiDimensionalCapacity {
    fn partial_cmp(&self, other: &Self) -> (result: Option<Ordering>) {
        Some(self.cmp(other))
    }
}

impl vstd::std_specs::cmp::PartialOrdSpecImpl for MultiDimensionalCapacity {
    open spec fn obeys_partial_cmp_spec() -> bool {
        true
    }

    open spec fn partial_cmp_spec(&self, other: &Self) -> Option<Ordering> {
        Some(self.compare_spec(other))
    }
}

/// Adding capacities does not depend on the order of the operands.
pub proof fn lemma_add_commutative(a: MultiDimensionalCapacity, b: MultiDimensionalCapacity)
    requires
        can_add_dims(a.capacity, b.capacity),
    ensures
        can_add_dims(b.capacity, a.capacity),
        a.sum_spec(b) == b.sum_spec(a),
{
    let sa = Seq::new(CAPACITY_DIMENSION_SIZE as nat, |i: int| (a.capacity@[i] + b.capacity@[i]) as i32);
    let sb = Seq::new(CAPACITY_DIMENSION_SIZE as nat, |i: int| (b.capacity@[i] + a.capacity@[i]) as i32);
    lemma_fill_dims(a.capacity, sa, CAPACITY_DIMENSION_SIZE as nat);
    lemma_fill_dims(b.capacity, sb, CAPACITY_DIMENSION_SIZE as nat);
    assert(can_add_dims(b.capacity, a.capacity)) by {
        assert forall|i: int| 0 <= i < CAPACITY_DIMENSION_SIZE implies i32::MIN <= #[trigger] b.capacity@[i]
            + a.capacity@[i] <= i32::MAX by {
            assert(i32::MIN <= a.capacity@[i] + b.capacity@[i] <= i32::MAX);
        }
    }
    assert(a.sum_spec(b).capacity =~= b.sum_spec(a).capacity);
}

/// The capacity with no used dimensions is the identity of addition.
pub proof fn lemma_zero_is_add_identity(a: MultiDimensionalCapacity)
    ensures
        can_add_dims(a.capacity, MultiDimensionalCapacity::zero().capacity),
        a.sum_spec(MultiDimensionalCapacity::zero()) == a,
{
    let z = MultiDimensionalCapacity::zero();
    let s = Seq::new(CAPACITY_DIMENSION_SIZE as nat, |i: int| (a.capacity@[i] + z.capacity@[i]) as i32);
    lemma_fill_dims(a.capacity, s, CAPACITY_DIMENSION_SIZE as nat);
    assert forall|i: int| 0 <= i < CAPACITY_DIMENSION_SIZE implies #[trigger] z.capacity@[i] == 0 by {
        assert(vstd::array::spec_array_fill_for_copy_type::<i32, CAPACITY_DIMENSION_SIZE>(0i32).view()[i] == 0);
    }
    assert(a.sum_spec(z).capacity =~= a.capacity);
}

/// Subtracting what was added gives back the dimensions of the first capacity,
/// so the result equals it; its size becomes the larger of the two sizes.
pub proof fn lemma_add_then_sub(a: MultiDimensionalCapacity, b: MultiDimensionalCapacity)
    requires
        can_add_dims(a.capacity, b.capacity),
    ensures
        can_sub_dims(a.sum_spec(b).capacity, b.capacity),
        a.sum_spec(b).diff_spec(b).capacity == a.capacity,
        a.sum_spec(b).diff_spec(b).size == max_size(a.size, b.size),
        a.sum_spec(b).diff_spec(b).eq_spec(&a),
{
    let s = a.sum_spec(b);
    let sa = Seq::new(CAPACITY_DIMENSION_SIZE as nat, |i: int| (a.capacity@[i] + b.capacity@[i]) as i32);
    lemma_fill_dims(a.capacity, sa, CAPACITY_DIMENSION_SIZE as nat);
    let sd = Seq::new(CAPACITY_DIMENSION_SIZE as nat, |i: int| (s.capacity@[i] - b.capacity@[i]) as i32);
    lemma_fill_dims(s.capacity, sd, CAPACITY_DIMENSION_SIZE as nat);
    assert forall|i: int| 0 <= i < CAPACITY_DIMENSION_SIZE implies #[trigger] s.capacity@[i] == a.capacity@[i]
        + b.capacity@[i] by {
        assert(i32::MIN <= a.capacity@[i] + b.capacity@[i] <= i32::MAX);
    }
    assert(s.diff_spec(b).capacity =~= a.capacity);
    lemma_compare_equal(s.diff_spec(b), a);
}

/// Every capacity compares equal to itself.
pub proof fn lemma_compare_reflexive(a: MultiDimensionalCapacity)
    ensures
        a.compare_spec(&a) == Ordering::Equal,
        a.eq_spec(&a),
{
}

/// Two capacities compare equal exactly when all their dimensions are equal,
/// so equality is symmetric.
pub proof fn lemma_compare_equal(a: MultiDimensionalCapacity, b: MultiDimensionalCapacity)
    ensures
        a.eq_spec(&b) <==> a.capacity == b.capacity,
        a.eq_spec(&b) <==> b.eq_spec(&a),
{
    if a.eq_spec(&b) {
        assert forall|i: int| 0 <= i < CAPACITY_DIMENSION_SIZE implies a.capacity@[i] == b.capacity@[i] by {
            if a.capacity@[i] > b.capacity@[i] {
                assert(has_greater(a.capacity@, b.capacity@, CAPACITY_DIMENSION_SIZE));
            }
            if a.capacity@[i] < b.capacity@[i] {
                assert(has_less(a.capacity@, b.capacity@, CAPACITY_DIMENSION_SIZE));
            }
        }
        assert(a.capacity =~= b.capacity);
    }
}

/// When one capacity is less than another, the other is greater than it.
pub proof fn lemma_less_reverses_to_greater(a: MultiDimensionalCapacity, b: MultiDimensionalCapacity)
    requires
        a.compare_spec(&b) == Ordering::Less,
    ensures
        b.compare_spec(&a) == Ordering::Greater,
{
    let i = choose|i: int| 0 <= i < CAPACITY_DIMENSION_SIZE && a.capacity@[i] < #[trigger] b.capacity@[i];
    assert(b.capacity@[i] > a.capacity@[i]);
    assert(has_greater(b.capacity@, a.capacity@, CAPACITY_DIMENSION_SIZE));
}

} // verus!
