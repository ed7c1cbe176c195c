use vstd::prelude::*;

verus! {

/// An append-only arena: every index handed out by `push` keeps naming the
/// value that was pushed there, for as long as the pool lives.
pub struct SharedPool<T> {
    items: Vec<T>,
}

impl<T> View for SharedPool<T> {
    type V = Seq<T>;

    closed spec fn view(&self) -> Seq<T> {
        self.items@
    }
}

impl<T> SharedPool<T> {
    /// An empty pool.
    pub fn new() -> (r: SharedPool<T>)
        ensures
            r@ == Seq::<T>::empty(),
    {
        SharedPool { items: Vec::new() }
    }

    /// The number of values pushed so far.
    pub fn len(&self) -> (r: usize)
        ensures
            r == self@.len(),
    {
        self.items.len()
    }

    /// Appends `value` and returns its zero-based slot.
    pub fn push(&mut self, value: T) -> (r: usize)
        requires
            old(self)@.len() < usize::MAX,
        ensures
            r == old(self)@.len(),
            final(self)@ == old(self)@.push(value),
    {
        let i = self.items.len();
        self.items.push(value);
        i
    }

    /// Borrows the value at slot `i`.
    pub fn get(&self, i: usize) -> (r: &T)
        requires
            i < self@.len(),
        ensures
            *r == self@[i as int],
    {
        &self.items[i]
    }
}

/// The contents after pushing `values`, one by one, onto `before`.
pub open spec fn pushed_all<T>(before: Seq<T>, values: Seq<T>) -> Seq<T>
    decreases values.len(),
{
    if values.len() == 0 {
        before
    } else {
        pushed_all(before, values.drop_last()).push(values.last())
    }
}

/// What was pushed stays where it was pushed: after any sequence of pushes,
/// every earlier slot still holds its value, and the pushed values follow
/// in order.
pub proof fn lemma_pushes_keep_slots<T>(before: Seq<T>, values: Seq<T>)
    ensures
        pushed_all(before, values).len() == before.len() + values.len(),
        forall|i: int| 0 <= i < before.len() ==> #[trigger] pushed_all(before, values)[i] == before[i],
        forall|j: int|
            0 <= j < values.len() ==> #[trigger] pushed_all(before, values)[before.len() + j] == values[j],
    decreases values.len(),
{
    if values.len() > 0 {
        let rest = values.drop_last();
        lemma_pushes_keep_slots(before, rest);
        assert forall|j: int| 0 <= j < values.len() implies #[trigger] pushed_all(before, values)[before.len() + j]
            == values[j] by {
            if j < rest.len() {
                assert(rest[j] == values[j]);
                assert(pushed_all(before, rest)[before.len() + j] == rest[j]);
            }
        }
    }
}

} // verus!
