use crate::memory::{Memory, MemoryError, TinyPtr};
use vstd::prelude::*;

verus! {

/// What a shared pointer's slot holds: the strong count and the value.
///
/// A cell with count zero and no value is under construction; see
/// [`TinyArc::new_cyclic`].
#[derive(Debug)]
pub struct RefCounted<T> {
    pub count: u32,
    pub value: Option<T>,
}

/// The arena that shared pointers to `T` live in.
pub type ArcMemory<T> = Memory<RefCounted<T>>;

/// The strong count of slot `id`, where it is live.
pub open spec fn count_of<T>(mem: ArcMemory<T>, id: nat) -> nat {
    mem.contents()[id].count as nat
}

/// A shared, reference-counted pointer to a value in an [`ArcMemory`].
///
/// Each `TinyArc` counts once toward its slot's strong count; the slot is
/// freed when the last one is released.
pub struct TinyArc<T> {
    ptr: TinyPtr<RefCounted<T>>,
}

/// A pointer that names a shared slot without counting toward it; it can be
/// upgraded to a [`TinyArc`] while the value is alive.
#[derive(Debug)]
pub struct TinyWeak<T> {
    ptr: TinyPtr<RefCounted<T>>,
}

impl<T> View for TinyArc<T> {
    type V = nat;

    /// The slot id that the pointer names.
    closed spec fn view(&self) -> nat {
        self.ptr@
    }
}

impl<T> View for TinyWeak<T> {
    type V = nat;

    /// The slot id that the pointer names.
    closed spec fn view(&self) -> nat {
        self.ptr@
    }
}

impl<T> Clone for TinyWeak<T> {
    fn clone(&self) -> (r: Self)
        ensures
            r@ == self@,
    {
        TinyWeak { ptr: self.ptr }
    }
}

/// The id that a result names, where it is `Ok`.
pub open spec fn arc_id<T>(r: Result<TinyArc<T>, MemoryError>) -> nat {
    r->Ok_0@
}

/// What changing the count of slot `id` in `pre` by one, giving `post` and
/// the former count `r`, does. `up` says whether it went up or down.
pub open spec fn count_stepped<T>(
    pre: ArcMemory<T>,
    post: ArcMemory<T>,
    id: nat,
    up: bool,
    r: Result<u32, MemoryError>,
) -> bool {
    if !pre.contents().contains_key(id) {
        r == Err::<u32, MemoryError>(pre.lookup_error(id)) && post == pre
    } else if up && count_of(pre, id) == u32::MAX {
        r == Err::<u32, MemoryError>(MemoryError::CountOverflow) && post == pre
    } else if !up && count_of(pre, id) == 0 {
        r == Err::<u32, MemoryError>(MemoryError::ConstructionIncomplete) && post == pre
    } else {
        &&& r == Ok::<u32, MemoryError>(pre.contents()[id].count)
        &&& Memory::overwritten(
            &pre,
            &post,
            id,
            RefCounted {
                count: (if up {
                    count_of(pre, id) + 1int
                } else {
                    count_of(pre, id) - 1
                }) as u32,
                value: pre.contents()[id].value,
            },
        )
    }
}

/// What releasing a pointer to slot `id` in `pre`, giving `post` and `r`,
/// does: the count goes down by one, and the slot is freed, its value handed
/// back, when it was the last strong pointer.
pub open spec fn released<T>(
    pre: ArcMemory<T>,
    post: ArcMemory<T>,
    id: nat,
    r: Result<Option<T>, MemoryError>,
) -> bool {
    if !pre.contents().contains_key(id) {
        r == Err::<Option<T>, MemoryError>(pre.lookup_error(id)) && post == pre
    } else if count_of(pre, id) == 0 {
        r == Err::<Option<T>, MemoryError>(MemoryError::ConstructionIncomplete) && post == pre
    } else if count_of(pre, id) == 1 {
        r == Ok::<Option<T>, MemoryError>(pre.contents()[id].value) && Memory::removed(&pre, &post, id)
    } else {
        &&& r == Ok::<Option<T>, MemoryError>(None)
        &&& Memory::overwritten(
            &pre,
            &post,
            id,
            RefCounted { count: (count_of(pre, id) - 1) as u32, value: pre.contents()[id].value },
        )
    }
}

/// What upgrading a weak pointer to slot `id` in `pre`, giving `post` and
/// `r`, does: it fails unless the slot is live with a nonzero count, and
/// otherwise adds one strong pointer.
pub open spec fn upgraded<T>(
    pre: ArcMemory<T>,
    post: ArcMemory<T>,
    id: nat,
    r: Result<TinyArc<T>, MemoryError>,
) -> bool {
    if !pre.contents().contains_key(id) {
        r is Err && r->Err_0 == pre.lookup_error(id) && post == pre
    } else if count_of(pre, id) == 0 {
        r is Err && r->Err_0 == MemoryError::ConstructionIncomplete && post == pre
    } else if count_of(pre, id) == u32::MAX {
        r is Err && r->Err_0 == MemoryError::CountOverflow && post == pre
    } else {
        &&& r is Ok
        &&& arc_id(r) == id
        &&& Memory::overwritten(
            &pre,
            &post,
            id,
            RefCounted { count: (count_of(pre, id) + 1) as u32, value: pre.contents()[id].value },
        )
    }
}

/// What committing `value` into the reserved slot `id` of `pre`, giving
/// `post` and `r`, does: the value is put in place and the count goes up by one.
pub open spec fn committed<T>(
    pre: ArcMemory<T>,
    post: ArcMemory<T>,
    id: nat,
    value: T,
    r: Result<TinyArc<T>, MemoryError>,
) -> bool {
    if !pre.contents().contains_key(id) {
        r is Err && r->Err_0 == pre.lookup_error(id) && post == pre
    } else if count_of(pre, id) == u32::MAX {
        r is Err && r->Err_0 == MemoryError::CountOverflow && post == pre
    } else {
        &&& r is Ok
        &&& arc_id(r) == id
        &&& Memory::overwritten(
            &pre,
            &post,
            id,
            RefCounted { count: (count_of(pre, id) + 1) as u32, value: Some(value) },
        )
    }
}

/// Of `n` releases in a row of a slot whose strong count is `n`, each but
/// the last keeps the value alive and hands back nothing; the last frees the
/// slot and hands back the value, once.
pub proof fn lemma_last_release_frees<T>(
    states: Seq<ArcMemory<T>>,
    results: Seq<Result<Option<T>, MemoryError>>,
    id: nat,
    n: nat,
)
    requires
        n >= 1,
        states.len() == n + 1,
        results.len() == n,
        states[0].wf(),
        states[0].contents().contains_key(id),
        count_of(states[0], id) == n,
        forall|i: int| 0 <= i < n ==> #[trigger] released(states[i], states[i + 1], id, results[i]),
    ensures
        forall|i: int|
            0 <= i < n - 1 ==> #[trigger] results[i] == Ok::<Option<T>, MemoryError>(None)
                && states[i + 1].contents().contains_key(id),
        results[n - 1] == Ok::<Option<T>, MemoryError>(states[0].contents()[id].value),
        !states[n as int].contents().contains_key(id),
{
    assert forall|i: int| 0 <= i < n implies {
        &&& #[trigger] states[i].contents().contains_key(id)
        &&& count_of(states[i], id) == n - i
        &&& states[i].contents()[id].value == states[0].contents()[id].value
    } by {
        lemma_release_prefix(states, results, id, n, i);
    }
    assert forall|i: int| 0 <= i < n - 1 implies #[trigger] results[i] == Ok::<Option<T>, MemoryError>(None)
        && states[i + 1].contents().contains_key(id) by {
        assert(released(states[i], states[i + 1], id, results[i]));
        assert(states[i].contents().contains_key(id));
    }
    let last = n - 1;
    assert(released(states[last], states[last + 1], id, results[last]));
    assert(states[last].contents().contains_key(id));
}

proof fn lemma_release_prefix<T>(
    states: Seq<ArcMemory<T>>,
    results: Seq<Result<Option<T>, MemoryError>>,
    id: nat,
    n: nat,
    i: int,
)
    requires
        0 <= i < n,
        states.len() == n + 1,
        results.len() == n,
        states[0].contents().contains_key(id),
        count_of(states[0], id) == n,
        forall|j: int| 0 <= j < n ==> #[trigger] released(states[j], states[j + 1], id, results[j]),
    ensures
        states[i].contents().contains_key(id),
        count_of(states[i], id) == n - i,
        states[i].contents()[id].value == states[0].contents()[id].value,
    decreases i,
{
    if i > 0 {
        lemma_release_prefix(states, results, id, n, i - 1);
        let j = i - 1;
        assert(released(states[j], states[j + 1], id, results[j]));
    }
}

/// Once the last strong pointer to a slot is released, upgrading a weak
/// pointer to that slot fails.
pub proof fn lemma_upgrade_after_last_release<T>(
    pre: ArcMemory<T>,
    mid: ArcMemory<T>,
    post: ArcMemory<T>,
    id: nat,
    released_r: Result<Option<T>, MemoryError>,
    upgraded_r: Result<TinyArc<T>, MemoryError>,
)
    requires
        pre.wf(),
        pre.contents().contains_key(id),
        count_of(pre, id) == 1,
        released(pre, mid, id, released_r),
        upgraded(mid, post, id, upgraded_r),
    ensures
        upgraded_r is Err,
        post == mid,
{
}

/// A weak pointer from a cyclic reservation cannot be upgraded before the
/// value is committed; after the commit it upgrades to a pointer to the same
/// slot as the committed one.
pub proof fn lemma_cyclic_upgrade<T>(
    m0: ArcMemory<T>,
    m1: ArcMemory<T>,
    m2: ArcMemory<T>,
    m3: ArcMemory<T>,
    m4: ArcMemory<T>,
    weak: TinyWeak<T>,
    early: Result<TinyArc<T>, MemoryError>,
    value: T,
    built: Result<TinyArc<T>, MemoryError>,
    late: Result<TinyArc<T>, MemoryError>,
)
    requires
        m0.wf(),
        Memory::inserted(&m0, &m1, RefCounted { count: 0, value: None }, Ok(weak.handle())),
        weak@ == weak.handle()@,
        upgraded(m1, m2, weak@, early),
        committed(m2, m3, weak@, value, built),
        upgraded(m3, m4, weak@, late),
    ensures
        early is Err,
        early->Err_0 == MemoryError::ConstructionIncomplete,
        m2 == m1,
        built is Ok,
        late is Ok,
        arc_id(late) == arc_id(built),
        arc_id(built) == weak@,
{
}

impl<T> TinyWeak<T> {
    pub closed spec fn handle(&self) -> TinyPtr<RefCounted<T>> {
        self.ptr
    }

    /// The handle behind a reservation result.
    pub open spec fn handle_of(r: Result<Self, MemoryError>) -> Result<TinyPtr<RefCounted<T>>, MemoryError> {
        match r {
            Ok(w) => Ok(w.handle()),
            Err(e) => Err(e),
        }
    }

    /// A new strong pointer to the value, unless it is gone or not yet built.
    pub fn upgrade(&self, mem: &mut ArcMemory<T>) -> (r: Result<TinyArc<T>, MemoryError>)
        requires
            old(mem).wf(),
        ensures
            upgraded(*old(mem), *final(mem), self@, r),
    {
        match mem.access(&self.ptr) {
            Ok(cell) => {
                if cell.count == 0 {
                    return Err(MemoryError::ConstructionIncomplete);
                }
            },
            Err(e) => return Err(e),
        }
        let arc = TinyArc { ptr: self.ptr };
        match TinyArc::increase_count(&arc, mem) {
            Ok(_) => Ok(arc),
            Err(e) => Err(e),
        }
    }
}

impl<T> TinyArc<T> {
    pub closed spec fn handle(&self) -> TinyPtr<RefCounted<T>> {
        self.ptr
    }

    /// The handle behind a construction result.
    pub open spec fn handle_of(r: Result<Self, MemoryError>) -> Result<TinyPtr<RefCounted<T>>, MemoryError> {
        match r {
            Ok(a) => Ok(a.handle()),
            Err(e) => Err(e),
        }
    }

    /// Places `value` in a new slot with a strong count of one.
    pub fn new(mem: &mut ArcMemory<T>, value: T) -> (r: Result<Self, MemoryError>)
        requires
            old(mem).wf(),
        ensures
            Memory::inserted(
                &*old(mem),
                &*final(mem),
                RefCounted { count: 1, value: Some(value) },
                Self::handle_of(r),
            ),
            r is Ok ==> r->Ok_0@ == r->Ok_0.handle()@,
    {
        match TinyPtr::new(mem, RefCounted { count: 1, value: Some(value) }) {
            Ok(ptr) => Ok(TinyArc { ptr }),
            Err(e) => Err(e),
        }
    }

    /// The first step of a cyclic construction: a slot with count zero and
    /// no value yet, and a weak pointer to it. Upgrading that pointer fails
    /// until [`TinyArc::finish_cyclic`] commits the value.
    pub fn reserve_cyclic(mem: &mut ArcMemory<T>) -> (r: Result<TinyWeak<T>, MemoryError>)
        requires
            old(mem).wf(),
        ensures
            Memory::inserted(
                &*old(mem),
                &*final(mem),
                RefCounted { count: 0, value: None },
                TinyWeak::handle_of(r),
            ),
            r is Ok ==> r->Ok_0@ == r->Ok_0.handle()@,
    {
        match TinyPtr::new(mem, RefCounted { count: 0, value: None }) {
            Ok(ptr) => Ok(TinyWeak { ptr }),
            Err(e) => Err(e),
        }
    }

    /// The last step of a cyclic construction: puts `value` in the slot that
    /// `weak` names and adds one strong pointer to it.
    pub fn finish_cyclic(weak: &TinyWeak<T>, mem: &mut ArcMemory<T>, value: T) -> (r: Result<Self, MemoryError>)
        requires
            old(mem).wf(),
        ensures
            committed(*old(mem), *final(mem), weak@, value, r),
    {
        match mem.access(&weak.ptr) {
            Ok(cell) => {
                if cell.count == u32::MAX {
                    return Err(MemoryError::CountOverflow);
                }
            },
            Err(e) => return Err(e),
        }
        match mem.access_mut(&weak.ptr) {
            Ok(cell) => {
                cell.value = Some(value);
                cell.count = cell.count + 1;
                Ok(TinyArc { ptr: weak.ptr })
            },
            Err(e) => Err(e),
        }
    }

    /// Builds a value that may hold a weak pointer to its own slot: reserves
    /// the slot, hands `data_fn` a weak pointer to it, and commits what
    /// `data_fn` returns with a strong count of one.
    pub fn new_cyclic<F>(mem: &mut ArcMemory<T>, data_fn: F) -> (r: Result<Self, MemoryError>)
        where
            F: FnOnce(TinyWeak<T>) -> T,
        requires
            old(mem).wf(),
            forall|w: TinyWeak<T>| #[trigger] data_fn.requires((w,)),
        ensures
            final(mem).wf(),
            final(mem).limit() == old(mem).limit(),
            r is Err <==> old(mem).is_full(),
            r is Err ==> r->Err_0 == MemoryError::CapacityExhausted && *final(mem) == *old(mem),
            r is Ok ==> {
                let id = r->Ok_0@;
                &&& id == old(mem).next_id()
                &&& !old(mem).contents().contains_key(id)
                &&& exists|w: TinyWeak<T>, d: T|
                    w@ == id && #[trigger] data_fn.ensures((w,), d) && final(mem).contents()
                        == old(mem).contents().insert(id, RefCounted { count: 1, value: Some(d) })
            },
    {
        let weak = match Self::reserve_cyclic(mem) {
            Ok(w) => w,
            Err(e) => return Err(e),
        };
        let data = data_fn(weak.clone());
        let r = Self::finish_cyclic(&weak, mem, data);
        assert(mem.contents() =~= old(mem).contents().insert(
            weak@,
            RefCounted { count: 1, value: Some(data) },
        ));
        r
    }

    /// The value in the slot, whatever the count; it fails only where the
    /// slot is gone or holds no value yet.
    pub fn as_ptr<'a>(this: &Self, mem: &'a ArcMemory<T>) -> (r: Result<&'a T, MemoryError>)
        requires
            mem.wf(),
        ensures
            r is Ok <==> mem.contents().contains_key(this@) && mem.contents()[this@].value is Some,
            r is Ok ==> *r->Ok_0 == mem.contents()[this@].value->Some_0,
            !mem.contents().contains_key(this@) ==> r == Err::<&T, MemoryError>(mem.lookup_error(this@)),
            mem.contents().contains_key(this@) && mem.contents()[this@].value is None
                ==> r == Err::<&T, MemoryError>(MemoryError::ConstructionIncomplete),
    {
        match mem.access(&this.ptr) {
            Ok(cell) => match &cell.value {
                Some(v) => Ok(v),
                None => Err(MemoryError::ConstructionIncomplete),
            },
            Err(e) => Err(e),
        }
    }

    /// Returns the value, failing while the count is zero (construction not
    /// yet finished).
    pub fn get<'a>(&self, mem: &'a ArcMemory<T>) -> (r: Result<&'a T, MemoryError>)
        requires
            mem.wf(),
        ensures
            r is Ok <==> mem.contents().contains_key(self@) && count_of(*mem, self@) != 0
                && mem.contents()[self@].value is Some,
            r is Ok ==> *r->Ok_0 == mem.contents()[self@].value->Some_0,
            !mem.contents().contains_key(self@) ==> r == Err::<&T, MemoryError>(mem.lookup_error(self@)),
            mem.contents().contains_key(self@) && (count_of(*mem, self@) == 0
                || mem.contents()[self@].value is None)
                ==> r == Err::<&T, MemoryError>(MemoryError::ConstructionIncomplete),
    {
        match mem.access(&self.ptr) {
            Ok(cell) => {
                if cell.count == 0 {
                    return Err(MemoryError::ConstructionIncomplete);
                }
                match &cell.value {
                    Some(v) => Ok(v),
                    None => Err(MemoryError::ConstructionIncomplete),
                }
            },
            Err(e) => Err(e),
        }
    }

    /// Whether the two pointers name the same slot.
    pub fn ptr_eq(this: &Self, other: &Self) -> (r: bool)
        ensures
            r == (this@ == other@),
    {
        this.ptr.id() == other.ptr.id()
    }

    /// A weak pointer to the same slot; the count is left as it is.
    pub fn downgrade(this: &Self) -> (r: TinyWeak<T>)
        ensures
            r@ == this@,
    {
        TinyWeak { ptr: this.ptr }
    }

    /// Adds one to the strong count, returning the count before.
    pub fn increase_count(this: &Self, mem: &mut ArcMemory<T>) -> (r: Result<u32, MemoryError>)
        requires
            old(mem).wf(),
        ensures
            count_stepped(*old(mem), *final(mem), this@, true, r),
    {
        match mem.access(&this.ptr) {
            Ok(cell) => {
                if cell.count == u32::MAX {
                    return Err(MemoryError::CountOverflow);
                }
            },
            Err(e) => return Err(e),
        }
        match mem.access_mut(&this.ptr) {
            Ok(cell) => {
                let before = cell.count;
                cell.count = before + 1;
                Ok(before)
            },
            Err(e) => Err(e),
        }
    }

    /// Takes one from the strong count, returning the count before.
    pub fn decrease_count(this: &Self, mem: &mut ArcMemory<T>) -> (r: Result<u32, MemoryError>)
        requires
            old(mem).wf(),
        ensures
            count_stepped(*old(mem), *final(mem), this@, false, r),
    {
        match mem.access(&this.ptr) {
            Ok(cell) => {
                if cell.count == 0 {
                    return Err(MemoryError::ConstructionIncomplete);
                }
            },
            Err(e) => return Err(e),
        }
        match mem.access_mut(&this.ptr) {
            Ok(cell) => {
                let before = cell.count;
                cell.count = before - 1;
                Ok(before)
            },
            Err(e) => Err(e),
        }
    }

    /// A new strong pointer to the same slot; the count goes up by one.
    pub fn clone(&self, mem: &mut ArcMemory<T>) -> (r: Result<Self, MemoryError>)
        requires
            old(mem).wf(),
        ensures
            r is Ok ==> r->Ok_0@ == self@,
            count_stepped(
                *old(mem),
                *final(mem),
                self@,
                true,
                match r {
                    Ok(_) => Ok(old(mem).contents()[self@].count),
                    Err(e) => Err(e),
                },
            ),
    {
        match Self::increase_count(self, mem) {
            Ok(_) => Ok(TinyArc { ptr: self.ptr }),
            Err(e) => Err(e),
        }
    }

    /// Gives up this strong pointer. The last one frees the slot and hands
    /// back the value.
    pub fn release(self, mem: &mut ArcMemory<T>) -> (r: Result<Option<T>, MemoryError>)
        requires
            old(mem).wf(),
        ensures
            released(*old(mem), *final(mem), self@, r),
    {
        match Self::decrease_count(&self, mem) {
            Ok(before) => {
                if before == 1 {
                    match self.ptr.take(mem) {
                        Ok(cell) => {
                            assert(mem.contents() =~= old(mem).contents().remove(self@));
                            Ok(cell.value)
                        },
                        Err(e) => Err(e),
                    }
                } else {
                    Ok(None)
                }
            },
            Err(e) => Err(e),
        }
    }
}

} // verus!
