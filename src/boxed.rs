use crate::memory::{Memory, MemoryError, TinyPtr};
use vstd::pervasive::cloned;
use vstd::prelude::*;

verus! {

/// The single owner of one value in a [`Memory`]; it frees the slot when freed itself.
pub struct TinyBox<T> {
    ptr: TinyPtr<T>,
}

impl<T> View for TinyBox<T> {
    type V = nat;

    /// The slot id that the box owns.
    closed spec fn view(&self) -> nat {
        self.ptr@
    }
}

impl<T> TinyBox<T> {
    /// The handle behind a boxing result.
    pub open spec fn handle_of(r: Result<Self, MemoryError>) -> Result<TinyPtr<T>, MemoryError> {
        match r {
            Ok(b) => Ok(b.handle()),
            Err(e) => Err(e),
        }
    }

    pub closed spec fn handle(&self) -> TinyPtr<T> {
        self.ptr
    }

    /// Places `value` in a slot of its own and returns its owner.
    pub fn new(mem: &mut Memory<T>, value: T) -> (r: Result<Self, MemoryError>)
        requires
            old(mem).wf(),
        ensures
            Memory::inserted(&*old(mem), &*final(mem), value, Self::handle_of(r)),
            r is Ok ==> r->Ok_0@ == r->Ok_0.handle()@,
    {
        match TinyPtr::new(mem, value) {
            Ok(ptr) => Ok(TinyBox { ptr }),
            Err(e) => Err(e),
        }
    }

    /// The boxed value.
    pub fn get<'a>(&self, mem: &'a Memory<T>) -> (r: Result<&'a T, MemoryError>)
        requires
            mem.wf(),
        ensures
            r is Ok <==> mem.contents().contains_key(self@),
            r is Ok ==> *r->Ok_0 == mem.contents()[self@],
            r is Err ==> r->Err_0 == mem.lookup_error(self@),
    {
        self.ptr.get(mem)
    }

    /// Mutable access to the boxed value.
    pub fn get_mut<'a>(&mut self, mem: &'a mut Memory<T>) -> (r: Result<&'a mut T, MemoryError>)
        requires
            old(mem).wf(),
        ensures
            *final(self) == *old(self),
            r is Ok <==> old(mem).contents().contains_key(old(self)@),
            r is Ok ==> *r->Ok_0 == old(mem).contents()[old(self)@],
            r is Ok ==> Memory::overwritten(&*old(mem), &*final(mem), old(self)@, *final(r->Ok_0)),
            r is Err ==> r->Err_0 == old(mem).lookup_error(old(self)@) && *final(mem) == *old(mem),
    {
        self.ptr.get_mut(mem)
    }

    /// Frees the slot; the value is dropped.
    pub fn free(self, mem: &mut Memory<T>) -> (r: Result<(), MemoryError>)
        requires
            old(mem).wf(),
        ensures
            r is Ok <==> old(mem).contents().contains_key(self@),
            r is Ok ==> Memory::removed(&*old(mem), &*final(mem), self@),
            r is Err ==> r->Err_0 == old(mem).lookup_error(self@) && *final(mem) == *old(mem),
    {
        match self.ptr.take(mem) {
            Ok(_) => Ok(()),
            Err(e) => Err(e),
        }
    }
}

impl<T: Clone> TinyBox<T> {
    /// A new box, in a slot of its own, holding a copy of this box's value.
    pub fn clone(&self, mem: &mut Memory<T>) -> (r: Result<Self, MemoryError>)
        requires
            old(mem).wf(),
        ensures
            Self::cloned_into(*self, *old(mem), *final(mem), r),
    {
        let copy = match self.ptr.get(mem) {
            Ok(v) => v.clone(),
            Err(e) => return Err(e),
        };
        Self::new(mem, copy)
    }

    /// A clone owns a slot of its own: writing through either box, or
    /// freeing either, leaves the other's value as it was.
    pub proof fn lemma_clone_independent(b: Self, pre: Memory<T>, post: Memory<T>, r: Result<Self, MemoryError>)
        requires
            pre.wf(),
            Self::cloned_into(b, pre, post, r),
            r is Ok,
        ensures
            r->Ok_0@ != b@,
            post.contents()[b@] == pre.contents()[b@],
            cloned(pre.contents()[b@], post.contents()[r->Ok_0@]),
            forall|m: Memory<T>, x: T|
                #[trigger] Memory::overwritten(&post, &m, b@, x) ==> m.contents()[r->Ok_0@]
                    == post.contents()[r->Ok_0@],
            forall|m: Memory<T>, x: T|
                #[trigger] Memory::overwritten(&post, &m, r->Ok_0@, x) ==> m.contents()[b@]
                    == post.contents()[b@],
            forall|m: Memory<T>|
                #[trigger] Memory::removed(&post, &m, b@) ==> m.contents().contains_key(r->Ok_0@)
                    && m.contents()[r->Ok_0@] == post.contents()[r->Ok_0@],
            forall|m: Memory<T>|
                #[trigger] Memory::removed(&post, &m, r->Ok_0@) ==> m.contents().contains_key(b@)
                    && m.contents()[b@] == post.contents()[b@],
    {
    }

    /// What cloning box `b` in `pre`, giving `post` and `r`, does: a live
    /// box gets a copy of its value in a new slot, a dead one fails.
    pub open spec fn cloned_into(b: Self, pre: Memory<T>, post: Memory<T>, r: Result<Self, MemoryError>) -> bool {
        if pre.contents().contains_key(b@) {
            exists|c: T|
                cloned(pre.contents()[b@], c) && Memory::inserted(&pre, &post, c, Self::handle_of(r))
                    && (r is Ok ==> r->Ok_0@ == r->Ok_0.handle()@)
        } else {
            r == Err::<Self, MemoryError>(pre.lookup_error(b@)) && post == pre
        }
    }
}

} // verus!
