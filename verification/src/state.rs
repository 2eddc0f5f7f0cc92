use vstd::prelude::*;
use std::rc::Rc;
use crate::flextuple::FlexTuple;

verus! {

/// Life cycle of one slot of a keyed state.
pub enum ValueState {
    Cleared,
    NotSet,
    HasValue,
}

/// What a key's slot holds, as contracts see it.
pub enum Slot<T> {
    /// The key does not exist (never created, or deleted).
    Cleared,
    /// The key exists and holds no value yet.
    NotSet,
    /// The key exists and holds a value.
    Value(T),
}

/// The slot described by a stored value and its life-cycle flag.
pub open spec fn slot_of<T>(value: T, st: ValueState) -> Slot<T> {
    match st {
        ValueState::Cleared => Slot::Cleared,
        ValueState::NotSet => Slot::NotSet,
        ValueState::HasValue => Slot::Value(value),
    }
}

/// What a read of a slot answers: the value if one is set, `None` if the key exists
/// without a value. (A read of a cleared slot is refused.)
pub open spec fn read_slot<T>(s: Slot<T>) -> Option<T> {
    match s {
        Slot::Value(v) => Some(v),
        _ => None,
    }
}

/// The slots after `key` was created: the table grows with cleared slots up to `key`,
/// and `key` itself exists without a value.
pub open spec fn slots_after_create<T>(slots: Seq<Slot<T>>, key: nat) -> Seq<Slot<T>> {
    let grown = if key < slots.len() {
        slots
    } else {
        slots + Seq::new((key + 1 - slots.len()) as nat, |i: int| Slot::<T>::Cleared)
    };
    grown.update(key as int, Slot::NotSet)
}


/// A read gives back what a write stored: after `set(key, v)` (or `set_rc`), `get`
/// (or `get_rc`) of `key` answers `v`, and no other key changes.
pub proof fn lemma_read_after_write<T>(slots: Seq<Slot<T>>, key: int, v: T)
    requires
        0 <= key < slots.len(),
    ensures
        read_slot(slots.update(key, Slot::Value(v))[key]) == Some(v),
        forall|j: int| 0 <= j < slots.len() && j != key ==> #[trigger] slots.update(key, Slot::Value(v))[j] == slots[j],
{
}

/// A created key exists without a value, the table reaches just past it, and the keys
/// that were there before are unchanged.
pub proof fn lemma_read_after_create<T>(slots: Seq<Slot<T>>, key: nat)
    requires
        slots.len() <= key + 1,
    ensures
        slots_after_create(slots, key).len() == key + 1,
        slots_after_create(slots, key)[key as int] is NotSet,
        read_slot(slots_after_create(slots, key)[key as int]) is None,
        forall|j: int| 0 <= j < key ==> #[trigger] slots_after_create(slots, key)[j] == (if j < slots.len() {
            slots[j]
        } else {
            Slot::Cleared
        }),
{
}

/// A deleted key is cleared (a read of it is refused until it is created again), and
/// no other key changes.
pub proof fn lemma_delete_clears<T>(slots: Seq<Slot<T>>, key: int)
    requires
        0 <= key < slots.len(),
    ensures
        slots.update(key, Slot::Cleared)[key] is Cleared,
        forall|j: int| 0 <= j < slots.len() && j != key ==> #[trigger] slots.update(key, Slot::Cleared)[j] == slots[j],
{
}

/// A keyed state: one slot per key, addressed by a `usize` index.
///
/// A state either stores values directly (`holds_values`) or behind a shared
/// pointer (`holds_shared`); the accessors of the other kind are refused.
pub trait State<T: Default> {
    /// The state's representation is consistent.
    spec fn inv(&self) -> bool;

    /// The slots, indexed by key.
    spec fn slots(&self) -> Seq<Slot<T>>;

    /// `set` and `get` are accepted.
    spec fn holds_values(&self) -> bool;

    /// `set_rc` and `get_rc` are accepted.
    spec fn holds_shared(&self) -> bool;

    /// Stores `value` under an index that is in the table.
    fn set(&mut self, key: usize, value: T)
        requires
            old(self).inv(),
            old(self).holds_values(),
            key < old(self).slots().len(),
        ensures
            final(self).inv(),
            final(self).holds_values() == old(self).holds_values(),
            final(self).holds_shared() == old(self).holds_shared(),
            final(self).slots() == old(self).slots().update(key as int, Slot::Value(value)),
    ;

    /// Reads the value of an existing key: `None` when it holds none yet.
    fn get(&self, key: usize) -> (r: Option<T>)
        requires
            self.inv(),
            self.holds_values(),
            key < self.slots().len(),
            !(self.slots()[key as int] is Cleared),
        ensures
            r == read_slot(self.slots()[key as int]),
    ;

    /// Stores a shared value under an index that is in the table.
    fn set_rc(&mut self, key: usize, value: &Rc<T>)
        requires
            old(self).inv(),
            old(self).holds_shared(),
            key < old(self).slots().len(),
        ensures
            final(self).inv(),
            final(self).holds_values() == old(self).holds_values(),
            final(self).holds_shared() == old(self).holds_shared(),
            final(self).slots() == old(self).slots().update(key as int, Slot::Value(**value)),
    ;

    /// Reads the shared value of an existing key: `None` when it holds none yet.
    fn get_rc(&self, key: usize) -> (r: Option<Rc<T>>)
        requires
            self.inv(),
            self.holds_shared(),
            key < self.slots().len(),
            !(self.slots()[key as int] is Cleared),
        ensures
            match r {
                Some(v) => read_slot(self.slots()[key as int]) == Some(*v),
                None => read_slot(self.slots()[key as int]) is None,
            },
    ;

    /// Creates `key`, growing the table with cleared slots up to it. The table may
    /// grow but not be revisited below its last slot: `key` is at least the last index.
    fn create_key(&mut self, key: usize)
        requires
            old(self).inv(),
            key < usize::MAX,
            old(self).slots().len() <= key + 1,
        ensures
            final(self).inv(),
            final(self).holds_values() == old(self).holds_values(),
            final(self).holds_shared() == old(self).holds_shared(),
            final(self).slots() == slots_after_create(old(self).slots(), key as nat),
    ;

    /// Deletes `key`: its slot becomes cleared.
    fn delete_key(&mut self, key: usize)
        requires
            old(self).inv(),
            key < old(self).slots().len(),
        ensures
            final(self).inv(),
            final(self).holds_values() == old(self).holds_values(),
            final(self).holds_shared() == old(self).holds_shared(),
            final(self).slots() == old(self).slots().update(key as int, Slot::Cleared),
    ;
}

/// A keyed state that stores its values in place.
pub struct MemoryState<T> {
    values: Vec<T>,
    states: Vec<ValueState>,
}

impl<T> MemoryState<T> {
    /// The slots, indexed by key.
    pub closed spec fn view_slots(&self) -> Seq<Slot<T>> {
        Seq::new(self.states@.len(), |i: int| slot_of(self.values@[i], self.states@[i]))
    }

    /// Values and flags run in step.
    pub closed spec fn well_formed(&self) -> bool {
        self.values@.len() == self.states@.len()
    }

    /// An empty state.
    pub fn new() -> (r: Self)
        ensures
            r.well_formed(),
            r.view_slots() == Seq::<Slot<T>>::empty(),
    {
        let r = MemoryState { values: Vec::new(), states: Vec::new() };
        assert(r.view_slots() =~= Seq::<Slot<T>>::empty());
        r
    }

    /// The number of slots.
    pub fn len(&self) -> (r: usize)
        requires
            self.well_formed(),
        ensures
            r == self.view_slots().len(),
    {
        self.states.len()
    }

    /// Whether `key` exists (its slot is not cleared).
    pub fn has_key(&self, key: usize) -> (r: bool)
        requires
            self.well_formed(),
            key < self.view_slots().len(),
        ensures
            r == !(self.view_slots()[key as int] is Cleared),
    {
        match self.states[key] {
            ValueState::Cleared => false,
            _ => true,
        }
    }
}

impl<T: Default + Copy> State<T> for MemoryState<T> {
    open spec fn inv(&self) -> bool {
        self.well_formed()
    }

    open spec fn slots(&self) -> Seq<Slot<T>> {
        self.view_slots()
    }

    open spec fn holds_values(&self) -> bool {
        true
    }

    open spec fn holds_shared(&self) -> bool {
        false
    }

    fn set(&mut self, key: usize, value: T) {
        self.values.set(key, value);
        self.states.set(key, ValueState::HasValue);
        assert(self.view_slots() =~= old(self).view_slots().update(key as int, Slot::Value(value)));
    }

    fn get(&self, key: usize) -> (r: Option<T>) {
        match self.states[key] {
            ValueState::NotSet => None,
            ValueState::HasValue => Some(self.values[key]),
            ValueState::Cleared => None,
        }
    }

    fn set_rc(&mut self, key: usize, value: &Rc<T>) {
    }

    fn get_rc(&self, key: usize) -> (r: Option<Rc<T>>) {
        None
    }

    fn create_key(&mut self, key: usize) {
        let append_count: usize = key + 1 - self.values.len();
        let mut i: usize = 0;
        while i < append_count
            invariant
                i <= append_count,
                append_count == key + 1 - old(self).values@.len(),
                self.values@.len() == self.states@.len(),
                self.values@.len() == old(self).values@.len() + i,
                forall|j: int| 0 <= j < old(self).values@.len() ==> self.values@[j] == old(self).values@[j],
                forall|j: int| 0 <= j < old(self).values@.len() ==> self.states@[j] == old(self).states@[j],
                forall|j: int| old(self).values@.len() <= j < self.values@.len() ==> self.states@[j] is Cleared,
                old(self).values@.len() == old(self).states@.len(),
            decreases append_count - i,
        {
            self.values.push(T::default());
            self.states.push(ValueState::Cleared);
            i = i + 1;
        }
        self.states.set(key, ValueState::NotSet);
        assert(self.view_slots() =~= slots_after_create(old(self).view_slots(), key as nat));
    }

    fn delete_key(&mut self, key: usize) {
        self.values.set(key, T::default());
        self.states.set(key, ValueState::Cleared);
        assert(self.view_slots() =~= old(self).view_slots().update(key as int, Slot::Cleared));
    }
}


/// A keyed state that stores its values behind shared pointers.
pub struct MemoryStateRc<T> {
    values: Vec<Rc<T>>,
    states: Vec<ValueState>,
}

impl<T> MemoryStateRc<T> {
    /// The slots, indexed by key.
    pub closed spec fn view_slots(&self) -> Seq<Slot<T>> {
        Seq::new(self.states@.len(), |i: int| slot_of(*self.values@[i], self.states@[i]))
    }

    /// Values and flags run in step.
    pub closed spec fn well_formed(&self) -> bool {
        self.values@.len() == self.states@.len()
    }

    /// An empty state.
    pub fn new() -> (r: Self)
        ensures
            r.well_formed(),
            r.view_slots() == Seq::<Slot<T>>::empty(),
    {
        let r = MemoryStateRc { values: Vec::new(), states: Vec::new() };
        assert(r.view_slots() =~= Seq::<Slot<T>>::empty());
        r
    }

    /// The number of slots.
    pub fn len(&self) -> (r: usize)
        requires
            self.well_formed(),
        ensures
            r == self.view_slots().len(),
    {
        self.states.len()
    }

    /// Whether `key` exists (its slot is not cleared).
    pub fn has_key(&self, key: usize) -> (r: bool)
        requires
            self.well_formed(),
            key < self.view_slots().len(),
        ensures
            r == !(self.view_slots()[key as int] is Cleared),
    {
        match self.states[key] {
            ValueState::Cleared => false,
            _ => true,
        }
    }
}

impl<T: Default> State<T> for MemoryStateRc<T> {
    open spec fn inv(&self) -> bool {
        self.well_formed()
    }

    open spec fn slots(&self) -> Seq<Slot<T>> {
        self.view_slots()
    }

    open spec fn holds_values(&self) -> bool {
        false
    }

    open spec fn holds_shared(&self) -> bool {
        true
    }

    fn set(&mut self, key: usize, value: T) {
    }

    fn get(&self, key: usize) -> (r: Option<T>) {
        None
    }

    fn set_rc(&mut self, key: usize, value: &Rc<T>) {
        self.values.set(key, crate::shared::share(value));
        self.states.set(key, ValueState::HasValue);
        assert(self.view_slots() =~= old(self).view_slots().update(key as int, Slot::Value(**value)));
    }

    fn get_rc(&self, key: usize) -> (r: Option<Rc<T>>) {
        match self.states[key] {
            ValueState::NotSet => None,
            ValueState::HasValue => Some(crate::shared::share(&self.values[key])),
            ValueState::Cleared => None,
        }
    }

    fn create_key(&mut self, key: usize) {
        let append_count: usize = key + 1 - self.values.len();
        let mut i: usize = 0;
        while i < append_count
            invariant
                i <= append_count,
                append_count == key + 1 - old(self).values@.len(),
                self.values@.len() == self.states@.len(),
                self.values@.len() == old(self).values@.len() + i,
                forall|j: int| 0 <= j < old(self).values@.len() ==> self.values@[j] == old(self).values@[j],
                forall|j: int| 0 <= j < old(self).values@.len() ==> self.states@[j] == old(self).states@[j],
                forall|j: int| old(self).values@.len() <= j < self.values@.len() ==> self.states@[j] is Cleared,
                old(self).values@.len() == old(self).states@.len(),
            decreases append_count - i,
        {
            self.values.push(Rc::new(T::default()));
            self.states.push(ValueState::Cleared);
            i = i + 1;
        }
        self.states.set(key, ValueState::NotSet);
        assert(self.view_slots() =~= slots_after_create(old(self).view_slots(), key as nat));
    }

    fn delete_key(&mut self, key: usize) {
        self.values.set(key, Rc::new(T::default()));
        self.states.set(key, ValueState::Cleared);
        assert(self.view_slots() =~= old(self).view_slots().update(key as int, Slot::Cleared));
    }
}

/// A source of fresh, empty keyed states, one per named use.
pub trait StateStore {
    /// A fresh state of 64-bit integers.
    fn create_state_i64(&self, name: &str) -> (r: MemoryState<i64>)
        ensures
            r.well_formed(),
            r.view_slots() == Seq::<Slot<i64>>::empty(),
    ;

    /// A fresh state of 32-bit integers.
    fn create_state_i32(&self, name: &str) -> (r: MemoryState<i32>)
        ensures
            r.well_formed(),
            r.view_slots() == Seq::<Slot<i32>>::empty(),
    ;

    /// A fresh state of shared tuples.
    fn create_state_ft(&self, name: &str) -> (r: MemoryStateRc<FlexTuple>)
        ensures
            r.well_formed(),
            r.view_slots() == Seq::<Slot<FlexTuple>>::empty(),
    ;
}

/// The state store that keeps every state in memory.
pub struct MemoryStateStore {}

impl MemoryStateStore {
    /// A new in-memory store.
    pub fn new() -> (r: Self)
        ensures
            r == (MemoryStateStore {}),
    {
        MemoryStateStore {}
    }
}

impl StateStore for MemoryStateStore {
    fn create_state_i64(&self, name: &str) -> (r: MemoryState<i64>) {
        MemoryState::<i64>::new()
    }

    fn create_state_i32(&self, name: &str) -> (r: MemoryState<i32>) {
        MemoryState::<i32>::new()
    }

    fn create_state_ft(&self, name: &str) -> (r: MemoryStateRc<FlexTuple>) {
        MemoryStateRc::<FlexTuple>::new()
    }
}

} // verus!
