//! A fixed-capacity history that overwrites its oldest element when full.
use vstd::prelude::*;

verus! {

/// What a history bounded by `capacity` retains once `value` has arrived
/// after `contents`: everything, while there is room; otherwise all but the
/// oldest element. The newest element always comes last.
pub open spec fn retained_after_push<T>(contents: Seq<T>, capacity: nat, value: T) -> Seq<T> {
    if contents.len() < capacity {
        contents.push(value)
    } else {
        contents.subrange(1, contents.len() as int).push(value)
    }
}

/// What a history bounded by `capacity` retains once all of `values` have
/// arrived, one after the other, after `contents`.
pub open spec fn retained_after_pushes<T>(contents: Seq<T>, capacity: nat, values: Seq<T>) -> Seq<T>
    decreases values.len(),
{
    if values.len() == 0 {
        contents
    } else {
        retained_after_push(
            retained_after_pushes(contents, capacity, values.drop_last()),
            capacity,
            values.last(),
        )
    }
}

/// The last `count` elements of `items`, or all of them if there are fewer.
pub open spec fn newest<T>(items: Seq<T>, count: nat) -> Seq<T> {
    if items.len() <= count {
        items
    } else {
        items.subrange(items.len() - count, items.len() as int)
    }
}

/// Reducing modulo `n` a value below `2 * n` is at most one subtraction.
proof fn lemma_wrap_once(x: int, n: int)
    requires
        0 < n,
        0 <= x < 2 * n,
    ensures
        x % n == if x < n {
            x
        } else {
            x - n
        },
{
    if x < n {
        vstd::arithmetic::div_mod::lemma_small_mod(x as nat, n as nat);
    } else {
        vstd::arithmetic::div_mod::lemma_fundamental_div_mod_converse_mod(x, n, 1, x - n);
    }
}

/// A bounded history never retains more than its capacity.
pub proof fn lemma_push_stays_within_capacity<T>(contents: Seq<T>, capacity: nat, value: T)
    requires
        capacity > 0,
        contents.len() <= capacity,
    ensures
        retained_after_push(contents, capacity, value).len() <= capacity,
        retained_after_push(contents, capacity, value).last() == value,
{
}

/// Whatever arrives, in whatever number, a bounded history retains exactly
/// the newest `capacity` elements of everything it has seen since it last
/// held `contents`, in arrival order, and so never more than `capacity`.
pub proof fn lemma_pushes_retain_newest<T>(contents: Seq<T>, capacity: nat, values: Seq<T>)
    requires
        capacity > 0,
        contents.len() <= capacity,
    ensures
        retained_after_pushes(contents, capacity, values) == newest(contents + values, capacity),
        retained_after_pushes(contents, capacity, values).len() <= capacity,
    decreases values.len(),
{
    if values.len() == 0 {
        assert(contents + values =~= contents);
    } else {
        let earlier = values.drop_last();
        let value = values.last();
        lemma_pushes_retain_newest(contents, capacity, earlier);
        let seen = contents + earlier;
        assert(seen.push(value) =~= contents + values);
        assert(retained_after_push(newest(seen, capacity), capacity, value) =~= newest(
            seen.push(value),
            capacity,
        ));
    }
}

/// Once at least `capacity` elements have arrived, the history holds the
/// most recent `capacity` of them in arrival order, whatever it held before.
pub proof fn lemma_full_after_capacity_pushes<T>(contents: Seq<T>, capacity: nat, values: Seq<T>)
    requires
        capacity > 0,
        contents.len() <= capacity,
        values.len() >= capacity,
    ensures
        retained_after_pushes(contents, capacity, values) == values.subrange(
            values.len() - capacity,
            values.len() as int,
        ),
{
    lemma_pushes_retain_newest(contents, capacity, values);
    assert(newest(contents + values, capacity) =~= values.subrange(
        values.len() - capacity,
        values.len() as int,
    ));
}

/// Bounded FIFO history over a fixed block of storage.
///
/// The element at logical offset `i` from the oldest retained element lives
/// in slot `(start + i) mod capacity` of the storage. Arrivals beyond the
/// capacity evict the oldest element. Slots outside the retained range keep
/// whatever was last written to them.
pub struct CircularBuffer<T> {
    start: usize,
    size: usize,
    data: Vec<T>,
}

impl<T> CircularBuffer<T> {
    #[verifier::type_invariant]
    spec fn well_formed(&self) -> bool {
        &&& self.data@.len() > 0
        &&& self.start < self.data@.len()
        &&& self.size <= self.data@.len()
    }

    /// Number of slots of the storage.
    pub closed spec fn capacity_spec(&self) -> nat {
        self.data@.len()
    }

    /// The whole storage, slot by slot.
    pub closed spec fn storage(&self) -> Seq<T> {
        self.data@
    }

    /// Slot that holds the oldest retained element.
    pub closed spec fn start_spec(&self) -> nat {
        self.start as nat
    }

    /// Number of retained elements.
    pub closed spec fn size_spec(&self) -> nat {
        self.size as nat
    }

    /// Storage slot of the element at logical offset `i`.
    pub open spec fn slot_of(&self, i: int) -> int {
        (self.start_spec() + i) % (self.capacity_spec() as int)
    }

    /// Element found at logical offset `i`, retained or stale.
    pub open spec fn slot_value(&self, i: int) -> T {
        self.storage()[self.slot_of(i)]
    }

    /// The layout that every buffer in use has: a non-empty storage, the
    /// start inside it and no more elements retained than it has slots.
    pub open spec fn in_bounds(&self) -> bool {
        &&& self.storage().len() == self.capacity_spec()
        &&& self.capacity_spec() > 0
        &&& self.start_spec() < self.capacity_spec()
        &&& self.size_spec() <= self.capacity_spec()
    }

    /// Number of slots, fixed at construction.
    pub fn capacity(&self) -> (capacity: usize)
        ensures
            capacity == self.capacity_spec(),
            self.in_bounds(),
    {
        proof {
            use_type_invariant(self);
        }
        self.data.len()
    }

    /// Number of retained elements; never more than the capacity.
    pub fn size(&self) -> (size: usize)
        ensures
            size == self.size_spec(),
            size == self@.len(),
            size <= self.capacity_spec(),
            self.in_bounds(),
    {
        proof {
            use_type_invariant(self);
        }
        self.size
    }

    /// Storage slot of the oldest retained element.
    pub fn start(&self) -> (start: usize)
        ensures
            start == self.start_spec(),
            start < self.capacity_spec(),
            self.in_bounds(),
    {
        proof {
            use_type_invariant(self);
        }
        self.start
    }

    /// The whole storage in slot order, for indexed reads without copying.
    pub fn data(&self) -> (data: &Vec<T>)
        ensures
            data@ == self.storage(),
            data@.len() == self.capacity_spec(),
            self.in_bounds(),
    {
        proof {
            use_type_invariant(self);
        }
        &self.data
    }
}

impl<T> View for CircularBuffer<T> {
    type V = Seq<T>;

    /// The retained elements, oldest first.
    open spec fn view(&self) -> Seq<T> {
        Seq::new(self.size_spec(), |i: int| self.slot_value(i))
    }
}

impl<T: Copy> CircularBuffer<T> {
    /// A logically empty buffer whose `capacity` slots all hold `fill`.
    pub fn new(capacity: usize, fill: T) -> (buffer: Self)
        requires
            capacity > 0,
        ensures
            buffer.in_bounds(),
            buffer.capacity_spec() == capacity,
            buffer.start_spec() == 0,
            buffer.size_spec() == 0,
            buffer.storage() == Seq::new(capacity as nat, |i: int| fill),
            buffer@ == Seq::<T>::empty(),
    {
        let mut data: Vec<T> = Vec::new();
        let mut filled: usize = 0;
        while filled < capacity
            invariant
                filled <= capacity,
                data@ == Seq::new(filled as nat, |i: int| fill),
            decreases capacity - filled,
        {
            data.push(fill);
            filled += 1;
            assert(data@ =~= Seq::new(filled as nat, |i: int| fill));
        }
        let buffer = CircularBuffer { start: 0, size: 0, data };
        assert(buffer@ =~= Seq::<T>::empty());
        buffer
    }

    /// Slot `(start + offset) mod capacity`, computed without overflow.
    fn wrapped(&self, offset: usize) -> (slot: usize)
        requires
            offset <= self.capacity_spec(),
        ensures
            self.in_bounds(),
            slot == self.slot_of(offset as int),
            slot < self.capacity_spec(),
        no_unwind
    {
        proof {
            use_type_invariant(self);
            lemma_wrap_once(self.start + offset, self.data@.len() as int);
        }
        let room: usize = self.data.len() - self.start;
        if offset >= room {
            offset - room
        } else {
            self.start + offset
        }
    }

    /// The element at logical offset `i` from the oldest retained element.
    ///
    /// The offset is reduced modulo the capacity and is not held against the
    /// number of retained elements: an offset at or past it reads whatever
    /// its slot holds, a stale element or the initial fill.
    pub fn at(&self, i: usize) -> (value: T)
        ensures
            self.in_bounds(),
            value == self.slot_value(i as int),
            i < self@.len() ==> value == self@[i as int],
    {
        proof {
            use_type_invariant(self);
            vstd::arithmetic::div_mod::lemma_add_mod_noop_right(
                self.start as int,
                i as int,
                self.data@.len() as int,
            );
        }
        let slot = self.wrapped(i % self.data.len());
        self.data[slot]
    }

    /// Appends `value` as the newest element, evicting the oldest one first
    /// if the buffer is full.
    pub fn push(&mut self, value: T)
        ensures
            final(self).in_bounds(),
            final(self).capacity_spec() == old(self).capacity_spec(),
            final(self).start_spec() == if old(self).size_spec() < old(self).capacity_spec() {
                old(self).start_spec() as int
            } else {
                old(self).slot_of(1)
            },
            final(self).size_spec() == if old(self).size_spec() < old(self).capacity_spec() {
                old(self).size_spec() + 1
            } else {
                old(self).capacity_spec()
            },
            final(self).storage() == old(self).storage().update(
                old(self).slot_of(old(self).size_spec() as int),
                value,
            ),
            final(self)@ == retained_after_push(old(self)@, old(self).capacity_spec(), value),
        no_unwind
    {
        proof {
            use_type_invariant(&*self);
        }
        let capacity: usize = self.data.len();
        let target: usize = self.wrapped(self.size);
        if self.size >= capacity {
            let next: usize = self.wrapped(1);
            self.start = next;
            self.size = self.size - 1;
        }
        self.data[target] = value;
        self.size = self.size + 1;
        proof {
            let before = *old(self);
            let after = *self;
            let n = capacity as int;
            let expected = retained_after_push(before@, before.capacity_spec(), value);
            lemma_wrap_once(before.start + before.size, n);
            lemma_wrap_once(before.start + 1, n);
            assert(after@.len() == expected.len());
            assert forall|i: int| 0 <= i < after@.len() implies after@[i] == expected[i] by {
                lemma_wrap_once(after.start + i, n);
                if before.size < n {
                    lemma_wrap_once(before.start + i, n);
                    if i < before.size {
                        assert(expected[i] == before.slot_value(i));
                    }
                } else {
                    lemma_wrap_once(before.start + i + 1, n);
                    if i < n - 1 {
                        assert(expected[i] == before@[i + 1]);
                        assert(before@[i + 1] == before.slot_value(i + 1));
                    }
                }
                assert(after@[i] == after.slot_value(i));
            }
            assert(after@ =~= expected);
        }
    }

    /// Removes and returns the oldest retained element, if there is one.
    pub fn pop(&mut self) -> (oldest: Option<T>)
        ensures
            final(self).in_bounds(),
            final(self).capacity_spec() == old(self).capacity_spec(),
            final(self).storage() == old(self).storage(),
            old(self)@.len() == 0 ==> oldest is None && *final(self) == *old(self),
            old(self)@.len() > 0 ==> {
                &&& oldest == Some(old(self)@[0])
                &&& final(self)@ == old(self)@.subrange(1, old(self)@.len() as int)
                &&& final(self).start_spec() == old(self).slot_of(1)
                &&& final(self).size_spec() == old(self).size_spec() - 1
            },
    {
        proof {
            use_type_invariant(&*self);
        }
        if self.size == 0 {
            None
        } else {
            let value: T = self.data[self.start];
            let next: usize = self.wrapped(1);
            self.start = next;
            self.size = self.size - 1;
            proof {
                let before = *old(self);
                let after = *self;
                let n = before.data@.len() as int;
                lemma_wrap_once(before.start as int, n);
                let expected = before@.subrange(1, before@.len() as int);
                assert forall|i: int| 0 <= i < after@.len() implies after@[i] == expected[i] by {
                    lemma_wrap_once(after.start + i, n);
                    lemma_wrap_once(before.start + i + 1, n);
                    lemma_wrap_once(before.start + 1, n);
                }
                assert(after@ =~= expected);
            }
            Some(value)
        }
    }

    /// Removes every retained element and returns them, oldest first.
    pub fn drain(&mut self) -> (drained: Vec<T>)
        ensures
            drained@ == old(self)@,
            final(self)@ == Seq::<T>::empty(),
            final(self).in_bounds(),
            final(self).capacity_spec() == old(self).capacity_spec(),
            final(self).storage() == old(self).storage(),
            final(self).start_spec() == old(self).slot_of(old(self).size_spec() as int),
    {
        let mut drained: Vec<T> = Vec::new();
        proof {
            use_type_invariant(&*self);
            lemma_wrap_once(self.start as int, self.data@.len() as int);
            assert(drained@ + self@ =~= self@);
        }
        loop
            invariant
                old(self).in_bounds(),
                self.in_bounds(),
                self.capacity_spec() == old(self).capacity_spec(),
                self.storage() == old(self).storage(),
                drained@.len() + self@.len() == old(self)@.len(),
                drained@ + self@ == old(self)@,
                self.start_spec() == old(self).slot_of(drained@.len() as int),
            decreases self@.len(),
        {
            let ghost before = *self;
            let ghost taken = drained@;
            match self.pop() {
                None => {
                    proof {
                        assert(self@ =~= Seq::<T>::empty());
                        assert(drained@ + self@ =~= drained@);
                    }
                    return drained;
                },
                Some(value) => {
                    drained.push(value);
                    proof {
                        assert(drained@ + self@ =~= taken + before@);
                        let n = old(self).capacity_spec() as int;
                        lemma_wrap_once((old(self).start_spec() + taken.len()) as int, n);
                        lemma_wrap_once((old(self).start_spec() + taken.len() + 1) as int, n);
                        lemma_wrap_once((before.start_spec() + 1) as int, n);
                    }
                },
            }
        }
    }
}

} // verus!
