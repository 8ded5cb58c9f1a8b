//! The deduplicating table of function types.

use crate::arena::{live_slots, TombstoneArena};
use crate::error::{EntityKind, Error};
use crate::ids::TypeId;
use crate::indices::IdsToIndices;
use crate::ty::{copy_val_types, same_val_types, Type, ValType};
use vstd::prelude::*;

verus! {

/// Whether `t` has the signature `(params, results)` and the entry flag `entry`.
pub open spec fn has_signature(t: Type, params: Seq<ValType>, results: Seq<ValType>, entry: bool) -> bool {
    &&& t.spec_params() == params
    &&& t.spec_results() == results
    &&& t.spec_is_for_function_entry() == entry
}

/// The identifiers of the live types that go into the type section, in
/// arena order: entry-block types are left out.
pub open spec fn emitted_types(s: Seq<Option<Type>>) -> Seq<TypeId>
    decreases s.len(),
{
    if s.len() == 0 {
        seq![]
    } else {
        let rest = emitted_types(s.drop_last());
        match s.last() {
            Some(t) => if t.spec_is_for_function_entry() {
                rest
            } else {
                rest.push(TypeId { index: (s.len() - 1) as usize })
            },
            None => rest,
        }
    }
}

/// All function types of a module.
pub struct ModuleTypes {
    arena: TombstoneArena<Type>,
}

impl View for ModuleTypes {
    type V = Seq<Option<Type>>;

    closed spec fn view(&self) -> Seq<Option<Type>> {
        self.arena@
    }
}

impl ModuleTypes {
    pub open spec fn live(&self, i: int) -> bool {
        0 <= i < self@.len() && self@[i] is Some
    }

    pub open spec fn type_at(&self, i: int) -> Type {
        self@[i]->Some_0
    }

    /// Whether `id` names a live type with the signature `(params, results)`
    /// and the entry flag `entry`.
    pub open spec fn holds(&self, id: TypeId, params: Seq<ValType>, results: Seq<ValType>, entry: bool) -> bool {
        &&& self.live(id.index as int)
        &&& has_signature(self.type_at(id.index as int), params, results, entry)
    }

    /// Whether some live type has the signature and entry flag.
    pub open spec fn contains(&self, params: Seq<ValType>, results: Seq<ValType>, entry: bool) -> bool {
        exists|i: int| self.live(i) && has_signature(#[trigger] self.type_at(i), params, results, entry)
    }

    /// Each live type sits in the slot that its identifier names, and no two
    /// live types are equal.
    pub open spec fn wf(&self) -> bool {
        &&& forall|i: int| #[trigger] self.live(i) ==> self.type_at(i).spec_id() == (TypeId { index: i as usize })
        &&& forall|i: int, j: int|
            #[trigger] self.live(i) && #[trigger] self.live(j) && i != j ==> !self.type_at(i).same_as(&self.type_at(j))
    }

    /// An empty table.
    pub fn new() -> (r: ModuleTypes)
        ensures
            r.wf(),
            r@ == Seq::<Option<Type>>::empty(),
    {
        ModuleTypes { arena: TombstoneArena::new() }
    }

    /// The identifier of the type with this signature, adding one if there
    /// is none. Types are deduplicated: adding a signature that is already
    /// present returns the identifier it has and changes nothing.
    pub fn add(&mut self, params: &[ValType], results: &[ValType]) -> (r: TypeId)
        requires
            old(self).wf(),
            old(self)@.len() < usize::MAX,
        ensures
            final(self).wf(),
            final(self).holds(r, params@, results@, false),
            old(self).contains(params@, results@, false) ==> final(self)@ == old(self)@,
            !old(self).contains(params@, results@, false) ==> {
                &&& r.index == old(self)@.len()
                &&& final(self)@.len() == old(self)@.len() + 1
                &&& final(self)@.subrange(0, old(self)@.len() as int) == old(self)@
            },
    {
        self.intern(params, results, false)
    }

    /// The identifier of the entry-block type with these results, adding one
    /// if there is none. Such types never reach the type section.
    pub fn add_entry_ty(&mut self, results: &[ValType]) -> (r: TypeId)
        requires
            old(self).wf(),
            old(self)@.len() < usize::MAX,
        ensures
            final(self).wf(),
            final(self).holds(r, Seq::<ValType>::empty(), results@, true),
            old(self).contains(Seq::<ValType>::empty(), results@, true) ==> final(self)@ == old(self)@,
            !old(self).contains(Seq::<ValType>::empty(), results@, true) ==> {
                &&& r.index == old(self)@.len()
                &&& final(self)@.len() == old(self)@.len() + 1
                &&& final(self)@.subrange(0, old(self)@.len() as int) == old(self)@
            },
    {
        let none: Vec<ValType> = Vec::new();
        let r = self.intern(none.as_slice(), results, true);
        assert(none@ =~= Seq::<ValType>::empty());
        r
    }

    /// The identifier of the type with this signature, if there is one.
    pub fn find(&self, params: &[ValType], results: &[ValType]) -> (r: Option<TypeId>)
        requires
            self.wf(),
        ensures
            r is Some ==> self.holds(r->Some_0, params@, results@, false),
            r is None ==> !self.contains(params@, results@, false),
    {
        self.lookup(params, results, false)
    }

    /// The type with this identifier, unless it was deleted or never added.
    pub fn get(&self, id: TypeId) -> (r: Result<&Type, Error>)
        ensures
            self.live(id.index as int) ==> r == Ok::<&Type, Error>(&self.type_at(id.index as int)),
            !self.live(id.index as int) ==> r == Err::<&Type, Error>(Error::NotFound { kind: EntityKind::Type, id: id.index }),
    {
        match self.arena.get(id.index) {
            Some(t) => Ok(t),
            None => Err(Error::NotFound { kind: EntityKind::Type, id: id.index }),
        }
    }

    /// Deletes a type. Its identifier stays allocated and names nothing;
    /// deleting what refers to it is the caller's part.
    pub fn delete(&mut self, id: TypeId)
        requires
            old(self).wf(),
        ensures
            final(self).wf(),
            id.index < old(self)@.len() ==> final(self)@ == old(self)@.update(id.index as int, None),
            id.index >= old(self)@.len() ==> final(self)@ == old(self)@,
    {
        self.arena.delete(id.index);
        proof {
            assert forall|i: int| #[trigger] self.live(i) implies old(self).live(i) && self.type_at(i) == old(
                self,
            ).type_at(i) by {}
        }
    }

    /// The identifiers of the live types, in the order they were added.
    pub fn iter(&self) -> (r: Vec<TypeId>)
        ensures
            r@.len() == live_slots(self@).len(),
            forall|k: int| 0 <= k < r@.len() ==> (#[trigger] r@[k]).index == live_slots(self@)[k],
    {
        let slots = self.arena.live();
        let mut r: Vec<TypeId> = Vec::new();
        let mut k: usize = 0;
        while k < slots.len()
            invariant
                k <= slots@.len(),
                slots@ == live_slots(self@),
                r@.len() == k,
                forall|j: int| 0 <= j < k ==> (#[trigger] r@[j]).index == slots@[j],
            decreases slots@.len() - k,
        {
            r.push(TypeId { index: slots[k] });
            k += 1;
        }
        r
    }

    /// Gives each type of the type section the next type index, in arena
    /// order, and returns their identifiers in that order.
    pub fn emit(&self, ix: &mut IdsToIndices) -> (r: Vec<TypeId>)
        requires
            old(ix).types.spec_count() + self@.len() < u32::MAX,
        ensures
            r@ == emitted_types(self@),
            final(ix).types.spec_count() == old(ix).types.spec_count() + r@.len(),
            forall|k: int| 0 <= k < r@.len() ==> final(ix).types.index_of((#[trigger] r@[k]).index) == Some(
                (old(ix).types.spec_count() + k) as u32,
            ),
            final(ix).funcs == old(ix).funcs,
            final(ix).globals == old(ix).globals,
            final(ix).tags == old(ix).tags,
    {
        let n = self.arena.next_id();
        let mut r: Vec<TypeId> = Vec::new();
        let mut i: usize = 0;
        let ghost base = ix.types.spec_count();
        proof {
            assert(self@.subrange(0, 0) =~= Seq::<Option<Type>>::empty());
        }
        while i < n
            invariant
                n == self@.len(),
                i <= n,
                r@ == emitted_types(self@.subrange(0, i as int)),
                r@.len() <= i,
                base == old(ix).types.spec_count(),
                base + n < u32::MAX,
                ix.types.spec_count() == base + r@.len(),
                forall|k: int| 0 <= k < r@.len() ==> (#[trigger] r@[k]).index < i,
                forall|k: int| 0 <= k < r@.len() ==> ix.types.index_of((#[trigger] r@[k]).index) == Some(
                    (base + k) as u32,
                ),
                ix.funcs == old(ix).funcs,
                ix.globals == old(ix).globals,
                ix.tags == old(ix).tags,
            decreases n - i,
        {
            assert(self@.subrange(0, i + 1).drop_last() =~= self@.subrange(0, i as int));
            match self.arena.get(i) {
                Some(t) => {
                    if !t.is_for_function_entry() {
                        let ghost before = r@;
                        ix.types.push(i);
                        r.push(TypeId { index: i });
                        assert forall|k: int| 0 <= k < r@.len() implies ix.types.index_of(
                            (#[trigger] r@[k]).index,
                        ) == Some((base + k) as u32) by {
                            if k < before.len() {
                                assert(r@[k] == before[k]);
                            }
                        }
                    }
                },
                None => {},
            }
            i += 1;
        }
        assert(self@.subrange(0, i as int) =~= self@);
        r
    }

    /// The live type with this signature and entry flag, if there is one.
    fn lookup(&self, params: &[ValType], results: &[ValType], entry: bool) -> (r: Option<TypeId>)
        requires
            self.wf(),
        ensures
            r is Some ==> self.holds(r->Some_0, params@, results@, entry),
            r is None ==> !self.contains(params@, results@, entry),
    {
        let n = self.arena.next_id();
        let mut i: usize = 0;
        while i < n
            invariant
                n == self@.len(),
                i <= n,
                forall|k: int| 0 <= k < i && #[trigger] self.live(k) ==> !has_signature(self.type_at(k), params@, results@, entry),
            decreases n - i,
        {
            match self.arena.get(i) {
                Some(t) => {
                    let p = t.params();
                    let rs = t.results();
                    if same_val_types(p, params) && same_val_types(rs, results)
                        && t.is_for_function_entry() == entry {
                        return Some(TypeId { index: i });
                    }
                },
                None => {},
            }
            i += 1;
        }
        None
    }

    /// Stores a type with this signature and entry flag unless an equal one
    /// is live, and returns the identifier of the one that holds it.
    fn intern(&mut self, params: &[ValType], results: &[ValType], entry: bool) -> (r: TypeId)
        requires
            old(self).wf(),
            old(self)@.len() < usize::MAX,
            entry ==> params@.len() == 0,
        ensures
            final(self).wf(),
            final(self).holds(r, params@, results@, entry),
            old(self).contains(params@, results@, entry) ==> final(self)@ == old(self)@,
            !old(self).contains(params@, results@, entry) ==> {
                &&& r.index == old(self)@.len()
                &&& final(self)@.len() == old(self)@.len() + 1
                &&& final(self)@.subrange(0, old(self)@.len() as int) == old(self)@
            },
    {
        match self.lookup(params, results, entry) {
            Some(id) => id,
            None => {
                let id = TypeId { index: self.arena.next_id() };
                let t = if entry {
                    Type::for_function_entry(id, copy_val_types(results))
                } else {
                    Type::new(id, copy_val_types(params), copy_val_types(results))
                };
                proof {
                    if entry {
                        assert(params@ =~= Seq::<ValType>::empty());
                    }
                    assert(has_signature(t, params@, results@, entry));
                }
                let ghost old_view = self@;
                self.arena.allocate(t);
                assert(self@.subrange(0, old_view.len() as int) =~= old_view);
                proof {
                    let n = old_view.len() as int;
                    assert(self@ == old_view.push(Some(t)));
                    assert(self.type_at(n) == t);
                    assert forall|i: int| #[trigger] self.live(i) implies self.type_at(i).spec_id() == (TypeId {
                        index: i as usize,
                    }) by {
                        if i < n {
                            assert(old(self).live(i));
                        }
                    }
                    assert forall|i: int, j: int|
                        #[trigger] self.live(i) && #[trigger] self.live(j) && i != j implies !self.type_at(i).same_as(
                        &self.type_at(j),
                    ) by {
                        if i < n && j < n {
                            assert(old(self).live(i) && old(self).live(j));
                        } else if i == n {
                            assert(old(self).live(j));
                            assert(!has_signature(old(self).type_at(j), params@, results@, entry));
                        } else {
                            assert(old(self).live(i));
                            assert(!has_signature(old(self).type_at(i), params@, results@, entry));
                        }
                    }
                }
                id
            },
        }
    }
}

/// Deduplication: in a well-formed table, two identifiers that hold the same
/// signature (and entry flag) are the same identifier. So a second `add` of
/// a signature returns the identifier that the first returned.
pub proof fn lemma_same_signature_same_id(
    m: ModuleTypes,
    a: TypeId,
    b: TypeId,
    params: Seq<ValType>,
    results: Seq<ValType>,
    entry: bool,
)
    requires
        m.wf(),
        m.holds(a, params, results, entry),
        m.holds(b, params, results, entry),
    ensures
        a == b,
{
    if a.index != b.index {
        assert(m.type_at(a.index as int).same_as(&m.type_at(b.index as int)));
    }
}

proof fn lemma_emitted_types_facts(s: Seq<Option<Type>>)
    requires
        s.len() <= usize::MAX,
    ensures
        forall|k: int| 0 <= k < emitted_types(s).len() ==> {
            let i = (#[trigger] emitted_types(s)[k]).index as int;
            &&& 0 <= i < s.len()
            &&& s[i] is Some
            &&& !s[i]->Some_0.spec_is_for_function_entry()
        },
        forall|k: int, l: int| 0 <= k < l < emitted_types(s).len() ==> (#[trigger] emitted_types(s)[k]).index < (#[trigger] emitted_types(s)[l]).index,
        forall|i: int| 0 <= i < s.len() && s[i] is Some && !s[i]->Some_0.spec_is_for_function_entry() ==> exists|k: int|
            0 <= k < emitted_types(s).len() && (#[trigger] emitted_types(s)[k]).index == i,
    decreases s.len(),
{
    if s.len() > 0 {
        let p = s.drop_last();
        lemma_emitted_types_facts(p);
        assert forall|i: int| 0 <= i < s.len() && s[i] is Some && !s[i]->Some_0.spec_is_for_function_entry() implies exists|k: int|
            0 <= k < emitted_types(s).len() && (#[trigger] emitted_types(s)[k]).index == i by {
            if i < p.len() {
                assert(p[i] == s[i]);
                let k = choose|k: int| 0 <= k < emitted_types(p).len() && (#[trigger] emitted_types(p)[k]).index == i;
                assert(emitted_types(s)[k] == emitted_types(p)[k]);
            } else {
                let k = emitted_types(p).len() as int;
                assert(emitted_types(s)[k].index == i);
            }
        }
        assert forall|k: int| 0 <= k < emitted_types(s).len() implies {
            let i = (#[trigger] emitted_types(s)[k]).index as int;
            &&& 0 <= i < s.len()
            &&& s[i] is Some
            &&& !s[i]->Some_0.spec_is_for_function_entry()
        } by {
            if k < emitted_types(p).len() {
                assert(emitted_types(s)[k] == emitted_types(p)[k]);
                assert(p[emitted_types(p)[k].index as int] == s[emitted_types(p)[k].index as int]);
            }
        }
        assert forall|k: int, l: int| 0 <= k < l < emitted_types(s).len() implies (#[trigger] emitted_types(s)[k]).index < (#[trigger] emitted_types(s)[l]).index by {
            if l < emitted_types(p).len() {
                assert(emitted_types(s)[k] == emitted_types(p)[k]);
                assert(emitted_types(s)[l] == emitted_types(p)[l]);
            } else {
                assert(emitted_types(s)[k] == emitted_types(p)[k]);
            }
        }
    }
}

/// The type section holds exactly one entry for each signature present in a
/// well-formed table: one entry with it, and no two.
pub proof fn lemma_one_entry_per_signature(m: ModuleTypes, params: Seq<ValType>, results: Seq<ValType>)
    requires
        m.wf(),
        m@.len() <= usize::MAX,
        m.contains(params, results, false),
    ensures
        exists|k: int| 0 <= k < emitted_types(m@).len() && m.holds(#[trigger] emitted_types(m@)[k], params, results, false),
        forall|k: int, l: int|
            0 <= k < emitted_types(m@).len() && 0 <= l < emitted_types(m@).len() && m.holds(#[trigger] emitted_types(m@)[k], params, results, false)
                && m.holds(#[trigger] emitted_types(m@)[l], params, results, false) ==> k == l,
{
    lemma_emitted_types_facts(m@);
    let i = choose|i: int| m.live(i) && has_signature(#[trigger] m.type_at(i), params, results, false);
    let k = choose|k: int| 0 <= k < emitted_types(m@).len() && (#[trigger] emitted_types(m@)[k]).index == i;
    assert(m.type_at(i).spec_id() == (TypeId { index: i as usize }));
    assert(emitted_types(m@)[k] == (TypeId { index: i as usize }));
    assert(m.holds(emitted_types(m@)[k], params, results, false));
    assert forall|k: int, l: int|
        0 <= k < emitted_types(m@).len() && 0 <= l < emitted_types(m@).len() && m.holds(#[trigger] emitted_types(m@)[k], params, results, false)
            && m.holds(#[trigger] emitted_types(m@)[l], params, results, false) implies k == l by {
        lemma_same_signature_same_id(m, emitted_types(m@)[k], emitted_types(m@)[l], params, results, false);
        if k < l {
            assert(emitted_types(m@)[k].index < emitted_types(m@)[l].index);
        } else if l < k {
            assert(emitted_types(m@)[l].index < emitted_types(m@)[k].index);
        }
    }
}

/// Deleting a live type that belongs in the type section removes exactly one
/// entry from it.
pub proof fn lemma_delete_emitted_type(s: Seq<Option<Type>>, i: int)
    requires
        0 <= i < s.len(),
        s[i] is Some,
        !s[i]->Some_0.spec_is_for_function_entry(),
    ensures
        emitted_types(s.update(i, None)).len() + 1 == emitted_types(s).len(),
    decreases s.len(),
{
    let t = s.update(i, None);
    if i < s.len() - 1 {
        assert(t.drop_last() =~= s.drop_last().update(i, None));
        lemma_delete_emitted_type(s.drop_last(), i);
    } else {
        assert(t.drop_last() =~= s.drop_last());
    }
}

} // verus!
