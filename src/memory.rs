use std::marker::PhantomData;
use vstd::prelude::*;

verus! {

/// Largest number of live slots that a one-byte id can address.
pub const ONE_BYTE_MAX_SLOTS: u16 = 255;

/// Largest number of live slots that a two-byte id can address.
pub const TWO_BYTE_MAX_SLOTS: u16 = 65535;

/// Why an operation on the arena, or on a handle into it, did not go through.
#[derive(Debug, Clone, Copy, PartialEq, Eq, Structural)]
pub enum MemoryError {
    /// No reclaimed slot is left and the slot table has reached its largest size.
    CapacityExhausted,
    /// The handle's id lies outside the slot table.
    IndexOutOfBounds,
    /// The handle's slot holds no value any more.
    AlreadyFreed,
    /// A shared value is still being built: its strong count is zero.
    ConstructionIncomplete,
    /// A strong count would pass `u32::MAX`.
    CountOverflow,
}

/// A small, copyable, non-owning handle to a value of type `T` in a [`Memory`].
///
/// It is nothing but a 1-based slot id; id 0 is never issued.
#[derive(Debug)]
pub struct TinyPtr<T> {
    id: u16,
    marker: PhantomData<T>,
}

impl<T> Clone for TinyPtr<T> {
    fn clone(&self) -> (r: Self)
        ensures
            r@ == self@,
    {
        TinyPtr { id: self.id, marker: PhantomData }
    }
}

impl<T> Copy for TinyPtr<T> {
}

impl<T> View for TinyPtr<T> {
    type V = nat;

    /// The slot id that the handle names.
    closed spec fn view(&self) -> nat {
        self.id as nat
    }
}

impl<T> TinyPtr<T> {
    /// Places `value` in a slot of `mem` and returns a handle to it.
    pub fn new(mem: &mut Memory<T>, value: T) -> (r: Result<Self, MemoryError>)
        requires
            old(mem).wf(),
        ensures
            Memory::inserted(&*old(mem), &*final(mem), value, r),
    {
        mem.insert_value(value)
    }

    /// The value that the handle names.
    pub fn get<'a>(&self, mem: &'a Memory<T>) -> (r: Result<&'a T, MemoryError>)
        requires
            mem.wf(),
        ensures
            r is Ok <==> mem.contents().contains_key(self@),
            r is Ok ==> *r->Ok_0 == mem.contents()[self@],
            r is Err ==> r->Err_0 == mem.lookup_error(self@),
    {
        mem.access(self)
    }

    /// Mutable access to the value that the handle names.
    pub fn get_mut<'a>(&self, mem: &'a mut Memory<T>) -> (r: Result<&'a mut T, MemoryError>)
        requires
            old(mem).wf(),
        ensures
            r is Ok <==> old(mem).contents().contains_key(self@),
            r is Ok ==> *r->Ok_0 == old(mem).contents()[self@],
            r is Ok ==> Memory::overwritten(&*old(mem), &*final(mem), self@, *final(r->Ok_0)),
            r is Err ==> r->Err_0 == old(mem).lookup_error(self@) && *final(mem) == *old(mem),
    {
        mem.access_mut(self)
    }

    /// Takes the value out of its slot, which becomes free for reuse.
    pub fn take(self, mem: &mut Memory<T>) -> (r: Result<T, MemoryError>)
        requires
            old(mem).wf(),
        ensures
            Memory::taken(&*old(mem), &*final(mem), self@, r),
    {
        mem.take(self)
    }

    /// The numeric slot id of the handle.
    pub fn id(&self) -> (r: u16)
        ensures
            r as nat == self@,
    {
        self.id
    }
}

/// An arena of slots holding values of type `T`, addressed by [`TinyPtr`]s.
///
/// Slot `i` (0-based) is named by id `i + 1`. Freed ids go on a free list and
/// are handed out again before the table grows; the table never grows past
/// the limit given at construction.
pub struct Memory<T> {
    available: Vec<u16>,
    map: Vec<Option<T>>,
    max_slots: u16,
}

impl<T> Memory<T> {
    /// The slot table, slot `i` holding the value of id `i + 1`.
    pub closed spec fn slots(&self) -> Seq<Option<T>> {
        self.map@
    }

    /// The ids of reclaimed slots, the next to be reused last.
    pub closed spec fn free_ids(&self) -> Seq<u16> {
        self.available@
    }

    /// The largest number of slots the table may hold.
    pub closed spec fn limit(&self) -> nat {
        self.max_slots as nat
    }

    pub open spec fn is_live(&self, id: nat) -> bool {
        1 <= id <= self.slots().len() && self.slots()[id - 1] is Some
    }

    /// The live values, by slot id.
    pub open spec fn contents(&self) -> Map<nat, T> {
        Map::new(|id: nat| self.is_live(id), |id: nat| self.slots()[id - 1]->Some_0)
    }

    /// The table is within its limit, and the free list holds each empty slot once.
    pub open spec fn wf(&self) -> bool {
        &&& self.slots().len() <= self.limit()
        &&& self.contents().dom().finite()
        &&& self.contents().len() + self.free_ids().len() == self.slots().len()
        &&& self.free_ids().no_duplicates()
        &&& forall|k: int|
            0 <= k < self.free_ids().len() ==> {
                let id = #[trigger] self.free_ids()[k] as int;
                &&& 1 <= id <= self.slots().len()
                &&& self.slots()[id - 1] is None
            }
        &&& forall|i: int|
            0 <= i < self.slots().len() && #[trigger] self.slots()[i] is None
                ==> self.free_ids().contains((i + 1) as u16)
    }

    /// No id is left to hand out.
    pub open spec fn is_full(&self) -> bool {
        self.free_ids().len() == 0 && self.slots().len() == self.limit()
    }

    /// The id that the next insertion will use.
    pub open spec fn next_id(&self) -> nat {
        if self.free_ids().len() > 0 {
            self.free_ids().last() as nat
        } else {
            self.slots().len() + 1
        }
    }

    /// Why a lookup of `id` fails, where it does.
    pub open spec fn lookup_error(&self, id: nat) -> MemoryError {
        if id == 0 || id > self.slots().len() {
            MemoryError::IndexOutOfBounds
        } else {
            MemoryError::AlreadyFreed
        }
    }

    /// What an insertion of `value` into `pre`, giving `post` and `r`, does.
    pub open spec fn inserted(
        pre: &Self,
        post: &Self,
        value: T,
        r: Result<TinyPtr<T>, MemoryError>,
    ) -> bool {
        &&& post.wf()
        &&& post.limit() == pre.limit()
        &&& (r is Err <==> pre.is_full())
        &&& match r {
            Ok(p) => {
                &&& p@ == pre.next_id()
                &&& !pre.contents().contains_key(p@)
                &&& post.contents() == pre.contents().insert(p@, value)
                &&& if pre.free_ids().len() > 0 {
                    post.free_ids() == pre.free_ids().drop_last() && post.slots().len() == pre.slots().len()
                } else {
                    post.free_ids() == pre.free_ids() && post.slots().len() == pre.slots().len() + 1
                }
            },
            Err(e) => e == MemoryError::CapacityExhausted && *post == *pre,
        }
    }

    /// `post` is `pre` with the live value of slot `id` replaced by `x`.
    pub open spec fn overwritten(pre: &Self, post: &Self, id: nat, x: T) -> bool {
        &&& post.wf()
        &&& post.limit() == pre.limit()
        &&& post.contents() == pre.contents().insert(id, x)
        &&& post.free_ids() == pre.free_ids()
        &&& post.slots().len() == pre.slots().len()
    }

    /// `post` is `pre` with slot `id` freed.
    pub open spec fn removed(pre: &Self, post: &Self, id: nat) -> bool {
        &&& post.wf()
        &&& post.limit() == pre.limit()
        &&& post.contents() == pre.contents().remove(id)
        &&& post.free_ids() == pre.free_ids().push(id as u16)
        &&& post.slots().len() == pre.slots().len()
    }

    /// What taking slot `id` out of `pre`, giving `post` and `r`, does.
    pub open spec fn taken(pre: &Self, post: &Self, id: nat, r: Result<T, MemoryError>) -> bool {
        &&& (r is Ok <==> pre.contents().contains_key(id))
        &&& match r {
            Ok(v) => v == pre.contents()[id] && Self::removed(pre, post, id),
            Err(e) => e == pre.lookup_error(id) && *post == *pre,
        }
    }

    /// A value inserted into an arena that is not full is what the returned
    /// handle reads back.
    pub proof fn lemma_round_trip(pre: Self, post: Self, value: T, r: Result<TinyPtr<T>, MemoryError>)
        requires
            pre.wf(),
            !pre.is_full(),
            Self::inserted(&pre, &post, value, r),
        ensures
            r is Ok,
            post.contents().contains_key(r->Ok_0@),
            post.contents()[r->Ok_0@] == value,
    {
    }

    /// Taking a freshly inserted value hands that value back and frees its
    /// slot; a second take through the same handle fails.
    pub proof fn lemma_take_once(
        m0: Self,
        m1: Self,
        m2: Self,
        value: T,
        p: TinyPtr<T>,
        r: Result<T, MemoryError>,
    )
        requires
            m0.wf(),
            Self::inserted(&m0, &m1, value, Ok(p)),
            Self::taken(&m1, &m2, p@, r),
        ensures
            r == Ok::<T, MemoryError>(value),
            !m2.contents().contains_key(p@),
            m2.lookup_error(p@) == MemoryError::AlreadyFreed,
            forall|m3: Self, r2: Result<T, MemoryError>|
                #[trigger] Self::taken(&m2, &m3, p@, r2) ==> r2 == Err::<T, MemoryError>(
                    MemoryError::AlreadyFreed,
                ) && m3 == m2,
    {
        assert(m1.contents().contains_key(p@));
        if m0.free_ids().len() > 0 {
            let k = m0.free_ids().len() - 1;
            assert(1 <= m0.free_ids()[k] <= m0.slots().len());
        }
    }

    /// When as many values are live as the limit allows, inserting one more
    /// fails and leaves every live value as it was.
    pub proof fn lemma_full_refuses_insert(pre: Self, post: Self, value: T, r: Result<TinyPtr<T>, MemoryError>)
        requires
            pre.wf(),
            pre.contents().len() == pre.limit(),
            Self::inserted(&pre, &post, value, r),
        ensures
            r == Err::<TinyPtr<T>, MemoryError>(MemoryError::CapacityExhausted),
            post.contents() == pre.contents(),
    {
    }

    /// An empty arena under the two-byte id limit.
    pub fn new() -> (r: Self)
        ensures
            r.wf(),
            r.limit() == TWO_BYTE_MAX_SLOTS,
            r.slots().len() == 0,
            r.free_ids().len() == 0,
            r.contents() == Map::<nat, T>::empty(),
    {
        Self::with_max_slots(TWO_BYTE_MAX_SLOTS)
    }

    /// An empty arena that holds at most `max_slots` live values.
    pub fn with_max_slots(max_slots: u16) -> (r: Self)
        ensures
            r.wf(),
            r.limit() == max_slots,
            r.slots().len() == 0,
            r.free_ids().len() == 0,
            r.contents() == Map::<nat, T>::empty(),
    {
        let r = Memory { available: Vec::new(), map: Vec::new(), max_slots };
        assert(r.contents() =~= Map::<nat, T>::empty());
        r
    }

    /// How many more values can be inserted before the arena is full.
    pub fn remaining_slots(&self) -> (r: usize)
        requires
            self.wf(),
        ensures
            r == self.limit() - self.contents().len(),
            r == 0 <==> self.is_full(),
    {
        self.available.len() + (self.max_slots as usize - self.map.len())
    }

    /// Places `value` in a reclaimed slot if there is one, else in a new slot
    /// at the end of the table.
    pub fn insert_value(&mut self, value: T) -> (r: Result<TinyPtr<T>, MemoryError>)
        requires
            old(self).wf(),
        ensures
            Self::inserted(&*old(self), &*final(self), value, r),
    {
        if self.remaining_slots() == 0 {
            return Err(MemoryError::CapacityExhausted);
        }
        let ghost pre = *self;
        match self.available.pop() {
            None => {
                self.map.push(Some(value));
                let id = self.map.len() as u16;
                proof {
                    assert(!pre.contents().contains_key(id as nat));
                    assert(self.contents() =~= pre.contents().insert(id as nat, value));
                    assert forall|i: int|
                        0 <= i < self.slots().len() && #[trigger] self.slots()[i] is None implies
                        self.free_ids().contains((i + 1) as u16) by {
                        assert(pre.slots()[i] is None);
                    }
                }
                Ok(TinyPtr { id, marker: PhantomData })
            },
            Some(id) => {
                proof {
                    assert(pre.free_ids()[pre.free_ids().len() - 1] == id);
                }
                self.map.set(id as usize - 1, Some(value));
                proof {
                    assert(!pre.contents().contains_key(id as nat));
                    assert(self.contents() =~= pre.contents().insert(id as nat, value));
                    assert forall|k: int| 0 <= k < self.free_ids().len() implies {
                        let j = #[trigger] self.free_ids()[k] as int;
                        &&& 1 <= j <= self.slots().len()
                        &&& self.slots()[j - 1] is None
                    } by {
                        assert(pre.free_ids()[k] == self.free_ids()[k]);
                        assert(pre.free_ids()[k] != id);
                    }
                    assert forall|i: int|
                        0 <= i < self.slots().len() && #[trigger] self.slots()[i] is None implies
                        self.free_ids().contains((i + 1) as u16) by {
                        assert(pre.slots()[i] is None);
                        let k = choose|k: int| 0 <= k < pre.free_ids().len() && pre.free_ids()[k] == (i + 1) as u16;
                        assert(k != pre.free_ids().len() - 1);
                        assert(self.free_ids()[k] == (i + 1) as u16);
                    }
                }
                Ok(TinyPtr { id, marker: PhantomData })
            },
        }
    }

    /// The value in the slot that `p` names.
    pub fn access(&self, p: &TinyPtr<T>) -> (r: Result<&T, MemoryError>)
        requires
            self.wf(),
        ensures
            r is Ok <==> self.contents().contains_key(p@),
            r is Ok ==> *r->Ok_0 == self.contents()[p@],
            r is Err ==> r->Err_0 == self.lookup_error(p@),
    {
        let id = p.id;
        if id == 0 || id as usize > self.map.len() {
            return Err(MemoryError::IndexOutOfBounds);
        }
        match &self.map[id as usize - 1] {
            Some(v) => Ok(v),
            None => Err(MemoryError::AlreadyFreed),
        }
    }

    /// Mutable access to the value in the slot that `p` names.
    pub fn access_mut(&mut self, p: &TinyPtr<T>) -> (r: Result<&mut T, MemoryError>)
        requires
            old(self).wf(),
        ensures
            r is Ok <==> old(self).contents().contains_key(p@),
            r is Ok ==> *r->Ok_0 == old(self).contents()[p@],
            r is Ok ==> Self::overwritten(&*old(self), &*final(self), p@, *final(r->Ok_0)),
            r is Err ==> r->Err_0 == old(self).lookup_error(p@) && *final(self) == *old(self),
    {
        let id = p.id;
        if id == 0 || id as usize > self.map.len() {
            return Err(MemoryError::IndexOutOfBounds);
        }
        if self.map[id as usize - 1].is_none() {
            return Err(MemoryError::AlreadyFreed);
        }
        proof {
            assert forall|post: Self, x: T|
                #![trigger post.wf(), self.slots().update(id - 1, Some(x))]
                #![trigger post.contents(), self.contents().insert(id as nat, x)]
                post.slots() == self.slots().update(id - 1, Some(x)) && post.free_ids()
                    == self.free_ids() && post.limit() == self.limit() implies post.wf()
                && post.contents() == self.contents().insert(id as nat, x) by {
                Self::lemma_overwrite(*self, post, id as nat, x);
            }
        }
        let slot = &mut self.map[id as usize - 1];
        let v = slot.as_mut().unwrap();
        Ok(v)
    }

    proof fn lemma_overwrite(pre: Self, post: Self, id: nat, x: T)
        requires
            pre.wf(),
            pre.is_live(id),
            post.slots() == pre.slots().update(id - 1, Some(x)),
            post.free_ids() == pre.free_ids(),
            post.limit() == pre.limit(),
        ensures
            post.wf(),
            post.contents() == pre.contents().insert(id, x),
    {
        assert(post.contents() =~= pre.contents().insert(id, x));
        assert forall|i: int|
            0 <= i < post.slots().len() && #[trigger] post.slots()[i] is None implies
            post.free_ids().contains((i + 1) as u16) by {
            assert(pre.slots()[i] is None);
        }
    }

    /// Removes the value from the slot that `p` names and puts the id on the
    /// free list.
    pub fn take(&mut self, p: TinyPtr<T>) -> (r: Result<T, MemoryError>)
        requires
            old(self).wf(),
        ensures
            Self::taken(&*old(self), &*final(self), p@, r),
    {
        let id = p.id;
        if id == 0 || id as usize > self.map.len() {
            return Err(MemoryError::IndexOutOfBounds);
        }
        if self.map[id as usize - 1].is_none() {
            return Err(MemoryError::AlreadyFreed);
        }
        let ghost pre = *self;
        let slot = self.map[id as usize - 1].take();
        self.available.push(id);
        match slot {
            Some(v) => {
                proof {
                    assert(self.contents() =~= pre.contents().remove(id as nat));
                    assert(!pre.free_ids().contains(id)) by {
                        if pre.free_ids().contains(id) {
                            let k = choose|k: int| 0 <= k < pre.free_ids().len() && pre.free_ids()[k] == id;
                            assert(pre.slots()[pre.free_ids()[k] as int - 1] is None);
                        }
                    }
                    assert forall|k: int| 0 <= k < self.free_ids().len() implies {
                        let j = #[trigger] self.free_ids()[k] as int;
                        &&& 1 <= j <= self.slots().len()
                        &&& self.slots()[j - 1] is None
                    } by {
                        if k < pre.free_ids().len() {
                            assert(pre.free_ids()[k] == self.free_ids()[k]);
                        }
                    }
                    assert forall|i: int|
                        0 <= i < self.slots().len() && #[trigger] self.slots()[i] is None implies
                        self.free_ids().contains((i + 1) as u16) by {
                        if i == id - 1 {
                            assert(self.free_ids()[pre.free_ids().len() as int] == id);
                        } else {
                            assert(pre.slots()[i] is None);
                            let k = choose|k: int| 0 <= k < pre.free_ids().len() && pre.free_ids()[k] == (i + 1) as u16;
                            assert(self.free_ids()[k] == (i + 1) as u16);
                        }
                    }
                }
                Ok(v)
            },
            None => Err(MemoryError::AlreadyFreed),
        }
    }
}

} // verus!
