use crate::arithmetic::{gives, total, Operation};
use vstd::hash_map::StringHashMap;
use vstd::prelude::*;

verus! {

/// The memory store: slots found by name, each holding one value. A name that
/// was never set reads as the store's zero.
#[verifier::reject_recursive_types(V)]
pub struct Memory<V> {
    slots: StringHashMap<V>,
    zero: V,
}

impl<V> View for Memory<V> {
    type V = Map<Seq<char>, V>;

    /// The slots that have been set, by name.
    closed spec fn view(&self) -> Map<Seq<char>, V> {
        self.slots@
    }
}

/// `after` is `before` with `delta` added to the slot `name`, which then
/// holds `value`: the sum that `calc` gives where the slot was set, and
/// `delta` itself where it was not.
pub open spec fn accumulated<V: Copy, F: Fn(Operation<V>) -> V>(
    calc: F,
    before: Memory<V>,
    after: Memory<V>,
    name: Seq<char>,
    delta: V,
    value: V,
) -> bool {
    &&& after.zero() == before.zero()
    &&& after@ == before@.insert(name, value)
    &&& if before@.contains_key(name) {
        gives(calc, Operation::Add(before@[name], delta), value)
    } else {
        value == delta
    }
}

/// Adding twice to a slot that was not set comes to adding once the sum of
/// the two: after `first` and then `second`, the slot holds a sum that
/// `calc` gives for them, and the store is what one addition of that sum to
/// the unset slot makes of it.
pub proof fn law_add_twice<V: Copy, F: Fn(Operation<V>) -> V>(
    calc: F,
    start: Memory<V>,
    middle: Memory<V>,
    end: Memory<V>,
    name: Seq<char>,
    first: V,
    second: V,
    after_first: V,
    after_second: V,
)
    requires
        !start@.contains_key(name),
        accumulated(calc, start, middle, name, first, after_first),
        accumulated(calc, middle, end, name, second, after_second),
    ensures
        after_first == first,
        gives(calc, Operation::Add(first, second), after_second),
        accumulated(calc, start, end, name, after_second, after_second),
{
    assert(middle@.contains_key(name));
    assert(end@ =~= start@.insert(name, after_second));
}

impl<V: Copy> Memory<V> {
    /// The value that a slot reads as before it is first set.
    pub closed spec fn zero(&self) -> V {
        self.zero
    }

    /// What the slot `name` reads as.
    pub open spec fn value_of(&self, name: Seq<char>) -> V {
        if self@.contains_key(name) {
            self@[name]
        } else {
            self.zero()
        }
    }

    /// A store in which no slot is set.
    pub fn new(zero: V) -> (memory: Self)
        ensures
            memory@ == Map::<Seq<char>, V>::empty(),
            memory.zero() == zero,
    {
        Memory { slots: StringHashMap::new(), zero }
    }

    /// Adds `prev_result` to the slot `slot_name` and returns the slot's new
    /// value. A slot that was not set takes `prev_result` itself, with no
    /// arithmetic done.
    pub fn add<F: Fn(Operation<V>) -> V>(
        &mut self,
        slot_name: String,
        prev_result: V,
        calc: &F,
    ) -> (value: V)
        requires
            total(*calc),
        ensures
            accumulated(*calc, *old(self), *final(self), slot_name@, prev_result, value),
    {
        let value = match self.slots.get(slot_name.as_str()) {
            Some(stored) => calc(Operation::Add(*stored, prev_result)),
            None => prev_result,
        };
        self.slots.insert(slot_name, value);
        value
    }

    /// The value of the slot `slot_name`: what was last stored in it, or the
    /// store's zero if nothing ever was.
    pub fn get(&self, slot_name: &str) -> (value: V)
        ensures
            value == self.value_of(slot_name@),
            !self@.contains_key(slot_name@) ==> value == self.zero(),
    {
        match self.slots.get(slot_name) {
            Some(stored) => *stored,
            None => self.zero,
        }
    }
}

} // verus!
