//! The two directions between binary indices and identifiers: while
//! parsing, raw indices are resolved to the identifiers of the entities met so
//! far; while emitting, identifiers are given contiguous indices in the order
//! in which their entities are written.

use crate::error::{EntityKind, Error};
use crate::ids::{FunctionId, GlobalId, TagId, TypeId};
use vstd::prelude::*;

verus! {

/// The identifier at raw index `index` of `ids`, or the resolution error.
fn resolve<T: Copy>(ids: &Vec<T>, index: u32, kind: EntityKind) -> (r: Result<T, Error>)
    ensures
        (index as int) < ids@.len() ==> r == Ok::<T, Error>(ids@[index as int]),
        (index as int) >= ids@.len() ==> r == Err::<T, Error>(Error::Resolution { kind, index }),
{
    if (index as usize) < ids.len() {
        Ok(ids[index as usize])
    } else {
        Err(Error::Resolution { kind, index })
    }
}

/// The identifiers of the entities met while parsing, one list per kind, in
/// index order.
pub struct IndicesToIds {
    types: Vec<TypeId>,
    funcs: Vec<FunctionId>,
    globals: Vec<GlobalId>,
    tags: Vec<TagId>,
}

impl IndicesToIds {
    pub closed spec fn spec_types(&self) -> Seq<TypeId> {
        self.types@
    }

    pub closed spec fn spec_funcs(&self) -> Seq<FunctionId> {
        self.funcs@
    }

    pub closed spec fn spec_globals(&self) -> Seq<GlobalId> {
        self.globals@
    }

    pub closed spec fn spec_tags(&self) -> Seq<TagId> {
        self.tags@
    }

    /// No entity met yet.
    pub fn new() -> (r: IndicesToIds)
        ensures
            r.spec_types() == Seq::<TypeId>::empty(),
            r.spec_funcs() == Seq::<FunctionId>::empty(),
            r.spec_globals() == Seq::<GlobalId>::empty(),
            r.spec_tags() == Seq::<TagId>::empty(),
    {
        IndicesToIds { types: Vec::new(), funcs: Vec::new(), globals: Vec::new(), tags: Vec::new() }
    }

    /// Records `id` as the type at the next index.
    pub fn push_type(&mut self, id: TypeId)
        ensures
            final(self).spec_types() == old(self).spec_types().push(id),
            final(self).spec_funcs() == old(self).spec_funcs(),
            final(self).spec_globals() == old(self).spec_globals(),
            final(self).spec_tags() == old(self).spec_tags(),
    {
        self.types.push(id);
    }

    /// Records `id` as the function at the next index.
    pub fn push_func(&mut self, id: FunctionId)
        ensures
            final(self).spec_types() == old(self).spec_types(),
            final(self).spec_funcs() == old(self).spec_funcs().push(id),
            final(self).spec_globals() == old(self).spec_globals(),
            final(self).spec_tags() == old(self).spec_tags(),
    {
        self.funcs.push(id);
    }

    /// Records `id` as the global at the next index.
    pub fn push_global(&mut self, id: GlobalId)
        ensures
            final(self).spec_types() == old(self).spec_types(),
            final(self).spec_funcs() == old(self).spec_funcs(),
            final(self).spec_globals() == old(self).spec_globals().push(id),
            final(self).spec_tags() == old(self).spec_tags(),
    {
        self.globals.push(id);
    }

    /// Records `id` as the tag at the next index.
    pub fn push_tag(&mut self, id: TagId)
        ensures
            final(self).spec_types() == old(self).spec_types(),
            final(self).spec_funcs() == old(self).spec_funcs(),
            final(self).spec_globals() == old(self).spec_globals(),
            final(self).spec_tags() == old(self).spec_tags().push(id),
    {
        self.tags.push(id);
    }

    /// The type at raw index `index`.
    pub fn get_type(&self, index: u32) -> (r: Result<TypeId, Error>)
        ensures
            (index as int) < self.spec_types().len() ==> r == Ok::<TypeId, Error>(self.spec_types()[index as int]),
            (index as int) >= self.spec_types().len() ==> r == Err::<TypeId, Error>(
                Error::Resolution { kind: EntityKind::Type, index },
            ),
    {
        resolve(&self.types, index, EntityKind::Type)
    }

    /// The function at raw index `index`.
    pub fn get_func(&self, index: u32) -> (r: Result<FunctionId, Error>)
        ensures
            (index as int) < self.spec_funcs().len() ==> r == Ok::<FunctionId, Error>(self.spec_funcs()[index as int]),
            (index as int) >= self.spec_funcs().len() ==> r == Err::<FunctionId, Error>(
                Error::Resolution { kind: EntityKind::Function, index },
            ),
    {
        resolve(&self.funcs, index, EntityKind::Function)
    }

    /// The global at raw index `index`.
    pub fn get_global(&self, index: u32) -> (r: Result<GlobalId, Error>)
        ensures
            (index as int) < self.spec_globals().len() ==> r == Ok::<GlobalId, Error>(self.spec_globals()[index as int]),
            (index as int) >= self.spec_globals().len() ==> r == Err::<GlobalId, Error>(
                Error::Resolution { kind: EntityKind::Global, index },
            ),
    {
        resolve(&self.globals, index, EntityKind::Global)
    }

    /// The tag at raw index `index`.
    pub fn get_tag(&self, index: u32) -> (r: Result<TagId, Error>)
        ensures
            (index as int) < self.spec_tags().len() ==> r == Ok::<TagId, Error>(self.spec_tags()[index as int]),
            (index as int) >= self.spec_tags().len() ==> r == Err::<TagId, Error>(
                Error::Resolution { kind: EntityKind::Tag, index },
            ),
    {
        resolve(&self.tags, index, EntityKind::Tag)
    }
}

/// One index space: the index given to each arena slot, and how many indices
/// have been handed out.
pub struct IndexSpace {
    slots: Vec<Option<u32>>,
    count: u32,
}

impl IndexSpace {
    /// The index given to `slot`, if any.
    pub closed spec fn index_of(&self, slot: usize) -> Option<u32> {
        if slot < self.slots@.len() {
            self.slots@[slot as int]
        } else {
            None
        }
    }

    /// How many indices have been handed out.
    pub closed spec fn spec_count(&self) -> nat {
        self.count as nat
    }

    pub fn new() -> (r: IndexSpace)
        ensures
            r.spec_count() == 0,
            forall|s: usize| r.index_of(s) is None,
    {
        IndexSpace { slots: Vec::new(), count: 0 }
    }

    /// Gives `slot` the next index.
    pub fn push(&mut self, slot: usize) -> (r: u32)
        requires
            old(self).spec_count() < u32::MAX,
            slot < usize::MAX,
        ensures
            r == old(self).spec_count(),
            final(self).spec_count() == old(self).spec_count() + 1,
            final(self).index_of(slot) == Some(r),
            forall|s: usize| s != slot ==> final(self).index_of(s) == old(self).index_of(s),
    {
        let ghost pre = self.slots@;
        while self.slots.len() <= slot
            invariant
                pre.len() <= self.slots@.len(),
                self.slots@.len() == pre.len() || self.slots@.len() <= slot + 1,
                forall|i: int| 0 <= i < pre.len() ==> self.slots@[i] == pre[i],
                forall|i: int| pre.len() <= i < self.slots@.len() ==> self.slots@[i] is None,
                self.count == old(self).count,
            decreases slot + 1 - self.slots@.len(),
        {
            self.slots.push(None);
        }
        let r = self.count;
        self.slots.set(slot, Some(r));
        self.count = r + 1;
        r
    }

    /// The index given to `slot`, if any.
    pub fn get(&self, slot: usize) -> (r: Option<u32>)
        ensures
            r == self.index_of(slot),
    {
        if slot < self.slots.len() {
            self.slots[slot]
        } else {
            None
        }
    }
}

/// The indices given while emitting, one space per kind of entity.
pub struct IdsToIndices {
    pub types: IndexSpace,
    pub funcs: IndexSpace,
    pub globals: IndexSpace,
    pub tags: IndexSpace,
}

/// The index found for `slot`, or the error that names the identifier.
fn found(r: Option<u32>, kind: EntityKind, slot: usize) -> (out: Result<u32, Error>)
    ensures
        r is Some ==> out == Ok::<u32, Error>(r->Some_0),
        r is None ==> out == Err::<u32, Error>(Error::NotFound { kind, id: slot }),
{
    match r {
        Some(i) => Ok(i),
        None => Err(Error::NotFound { kind, id: slot }),
    }
}

impl IdsToIndices {
    /// No index handed out yet.
    pub fn new() -> (r: IdsToIndices)
        ensures
            r.types.spec_count() == 0 && forall|s: usize| r.types.index_of(s) is None,
            r.funcs.spec_count() == 0 && forall|s: usize| r.funcs.index_of(s) is None,
            r.globals.spec_count() == 0 && forall|s: usize| r.globals.index_of(s) is None,
            r.tags.spec_count() == 0 && forall|s: usize| r.tags.index_of(s) is None,
    {
        IdsToIndices {
            types: IndexSpace::new(),
            funcs: IndexSpace::new(),
            globals: IndexSpace::new(),
            tags: IndexSpace::new(),
        }
    }

    /// The index of a type that has been emitted.
    pub fn get_type_index(&self, id: TypeId) -> (r: Result<u32, Error>)
        ensures
            self.types.index_of(id.index) is Some ==> r == Ok::<u32, Error>(self.types.index_of(id.index)->Some_0),
            self.types.index_of(id.index) is None ==> r == Err::<u32, Error>(
                Error::NotFound { kind: EntityKind::Type, id: id.index },
            ),
    {
        found(self.types.get(id.index), EntityKind::Type, id.index)
    }

    /// The index of a function that has been emitted.
    pub fn get_func_index(&self, id: FunctionId) -> (r: Result<u32, Error>)
        ensures
            self.funcs.index_of(id.index) is Some ==> r == Ok::<u32, Error>(self.funcs.index_of(id.index)->Some_0),
            self.funcs.index_of(id.index) is None ==> r == Err::<u32, Error>(
                Error::NotFound { kind: EntityKind::Function, id: id.index },
            ),
    {
        found(self.funcs.get(id.index), EntityKind::Function, id.index)
    }

    /// The index of a global that has been emitted.
    pub fn get_global_index(&self, id: GlobalId) -> (r: Result<u32, Error>)
        ensures
            self.globals.index_of(id.index) is Some ==> r == Ok::<u32, Error>(self.globals.index_of(id.index)->Some_0),
            self.globals.index_of(id.index) is None ==> r == Err::<u32, Error>(
                Error::NotFound { kind: EntityKind::Global, id: id.index },
            ),
    {
        found(self.globals.get(id.index), EntityKind::Global, id.index)
    }

    /// The index of a tag that has been emitted.
    pub fn get_tag_index(&self, id: TagId) -> (r: Result<u32, Error>)
        ensures
            self.tags.index_of(id.index) is Some ==> r == Ok::<u32, Error>(self.tags.index_of(id.index)->Some_0),
            self.tags.index_of(id.index) is None ==> r == Err::<u32, Error>(
                Error::NotFound { kind: EntityKind::Tag, id: id.index },
            ),
    {
        found(self.tags.get(id.index), EntityKind::Tag, id.index)
    }
}

} // verus!
