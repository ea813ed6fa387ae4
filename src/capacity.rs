use vstd::prelude::*;

verus! {

/// Quantities over a fixed set of resource axes (weight, volume, count, ...).
pub struct MultiDimensionalCapacity {
    values: Vec<i32>,
}

impl View for MultiDimensionalCapacity {
    type V = Seq<i32>;

    closed spec fn view(&self) -> Seq<i32> {
        self.values@
    }
}

/// `x` plus `y`, or `x` minus `y`.
pub open spec fn combined(x: i32, y: i32, plus: bool) -> int {
    if plus {
        x + y
    } else {
        x - y
    }
}

/// Each axis of `a` plus, or minus, the same axis of `b` fits in an `i32`.
pub open spec fn fits(a: Seq<i32>, b: Seq<i32>, plus: bool) -> bool {
    forall|i: int| 0 <= i < a.len() ==> i32::MIN <= #[trigger] combined(a[i], b[i], plus) <= i32::MAX
}

/// The sum of axis `i` over `items`.
pub open spec fn axis_sum(items: Seq<Seq<i32>>, i: int) -> int
    decreases items.len(),
{
    if items.len() == 0 {
        0
    } else {
        axis_sum(items.drop_last(), i) + items.last()[i]
    }
}

/// The capacities' quantities.
pub open spec fn quantities(items: Seq<MultiDimensionalCapacity>) -> Seq<Seq<i32>> {
    items.map_values(|c: MultiDimensionalCapacity| c@)
}

impl MultiDimensionalCapacity {
    pub fn new(values: Vec<i32>) -> (r: MultiDimensionalCapacity)
        ensures
            r@ == values@,
    {
        MultiDimensionalCapacity { values }
    }

    /// Zero on each of `dims` axes.
    pub fn zero(dims: usize) -> (r: MultiDimensionalCapacity)
        ensures
            r@.len() == dims,
            forall|i: int| 0 <= i < dims ==> r@[i] == 0,
    {
        let mut values: Vec<i32> = Vec::new();
        let mut i: usize = 0;
        while i < dims
            invariant
                i <= dims,
                values@.len() == i,
                forall|j: int| 0 <= j < i ==> values@[j] == 0,
            decreases dims - i,
        {
            values.push(0);
            i = i + 1;
        }
        MultiDimensionalCapacity { values }
    }

    /// The number of axes.
    pub fn dims(&self) -> (r: usize)
        ensures
            r == self@.len(),
    {
        self.values.len()
    }

    /// The quantity on axis `i`.
    pub fn get(&self, i: usize) -> (r: i32)
        requires
            i < self@.len(),
        ensures
            r == self@[i as int],
    {
        self.values[i]
    }

    fn combine(&self, other: &MultiDimensionalCapacity, plus: bool) -> (r: MultiDimensionalCapacity)
        requires
            self@.len() == other@.len(),
            fits(self@, other@, plus),
        ensures
            r@.len() == self@.len(),
            forall|i: int| 0 <= i < self@.len() ==> r@[i] == combined(self@[i], other@[i], plus),
    {
        let mut values: Vec<i32> = Vec::new();
        let mut i: usize = 0;
        while i < self.values.len()
            invariant
                i <= self@.len(),
                self@.len() == other@.len(),
                fits(self@, other@, plus),
                values@.len() == i,
                forall|j: int| 0 <= j < i ==> values@[j] == combined(self@[j], other@[j], plus),
            decreases self@.len() - i,
        {
            assert(i32::MIN <= combined(self@[i as int], other@[i as int], plus) <= i32::MAX);
            let v = if plus {
                self.values[i] + other.values[i]
            } else {
                self.values[i] - other.values[i]
            };
            values.push(v);
            i = i + 1;
        }
        MultiDimensionalCapacity { values }
    }

    /// The sum, axis by axis.
    pub fn add(&self, other: &MultiDimensionalCapacity) -> (r: MultiDimensionalCapacity)
        requires
            self@.len() == other@.len(),
            fits(self@, other@, true),
        ensures
            r@.len() == self@.len(),
            forall|i: int| 0 <= i < self@.len() ==> r@[i] == self@[i] + other@[i],
    {
        self.combine(other, true)
    }

    /// The difference, axis by axis.
    pub fn sub(&self, other: &MultiDimensionalCapacity) -> (r: MultiDimensionalCapacity)
        requires
            self@.len() == other@.len(),
            fits(self@, other@, false),
        ensures
            r@.len() == self@.len(),
            forall|i: int| 0 <= i < self@.len() ==> r@[i] == self@[i] - other@[i],
    {
        self.combine(other, false)
    }

    /// Every axis is zero.
    pub fn is_zero(&self) -> (r: bool)
        ensures
            r == forall|i: int| 0 <= i < self@.len() ==> self@[i] == 0,
    {
        let mut i: usize = 0;
        while i < self.values.len()
            invariant
                i <= self@.len(),
                forall|j: int| 0 <= j < i ==> self@[j] == 0,
            decreases self@.len() - i,
        {
            if self.values[i] != 0 {
                return false;
            }
            i = i + 1;
        }
        true
    }

    /// The sum of `items`, each with `dims` axes; zero where there are none.
    pub fn sum(items: &Vec<MultiDimensionalCapacity>, dims: usize) -> (r: MultiDimensionalCapacity)
        requires
            forall|k: int| 0 <= k < items@.len() ==> (#[trigger] items@[k])@.len() == dims,
            forall|k: int, i: int|
                0 <= k <= items@.len() && 0 <= i < dims ==> i32::MIN <= #[trigger] axis_sum(
                    quantities(items@).take(k),
                    i,
                ) <= i32::MAX,
        ensures
            r@.len() == dims,
            forall|i: int| 0 <= i < dims ==> r@[i] == axis_sum(quantities(items@), i),
    {
        let mut r = MultiDimensionalCapacity::zero(dims);
        let mut k: usize = 0;
        while k < items.len()
            invariant
                k <= items@.len(),
                r@.len() == dims,
                forall|j: int| 0 <= j < items@.len() ==> (#[trigger] items@[j])@.len() == dims,
                forall|j: int, i: int|
                    0 <= j <= items@.len() && 0 <= i < dims ==> i32::MIN <= #[trigger] axis_sum(
                        quantities(items@).take(j),
                        i,
                    ) <= i32::MAX,
                forall|i: int| 0 <= i < dims ==> r@[i] == axis_sum(quantities(items@).take(k as int), i),
            decreases items@.len() - k,
        {
            let ghost q = quantities(items@);
            proof {
                assert(q.take(k as int + 1).drop_last() =~= q.take(k as int));
                assert forall|i: int| 0 <= i < dims implies #[trigger] axis_sum(q.take(k as int + 1), i)
                    == r@[i] + items@[k as int]@[i] by {
                    assert(q.take(k as int + 1).last() == items@[k as int]@);
                }
                assert forall|i: int| 0 <= i < r@.len() implies i32::MIN <= #[trigger] combined(
                    r@[i],
                    items@[k as int]@[i],
                    true,
                ) <= i32::MAX by {
                    assert(axis_sum(q.take(k as int + 1), i) == r@[i] + items@[k as int]@[i]);
                }
            }
            r = r.add(&items[k]);
            k = k + 1;
        }
        assert(quantities(items@).take(k as int) =~= quantities(items@));
        r
    }
}

impl PartialEq for MultiDimensionalCapacity {
    fn eq(&self, other: &MultiDimensionalCapacity) -> (r: bool)
        ensures
            r == (self@ == other@),
    {
        if self.values.len() != other.values.len() {
            return false;
        }
        let mut i: usize = 0;
        while i < self.values.len()
            invariant
                i <= self@.len(),
                self@.len() == other@.len(),
                forall|j: int| 0 <= j < i ==> self@[j] == other@[j],
            decreases self@.len() - i,
        {
            if self.values[i] != other.values[i] {
                return false;
            }
            i = i + 1;
        }
        assert(self@ =~= other@);
        true
    }
}

impl vstd::std_specs::cmp::PartialEqSpecImpl for MultiDimensionalCapacity {
    open spec fn obeys_eq_spec() -> bool {
        true
    }

    open spec fn eq_spec(&self, other: &MultiDimensionalCapacity) -> bool {
        self@ == other@
    }
}

} // verus!
