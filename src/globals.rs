//! Globals: imported, or local with a constant initializer.

use crate::arena::{lemma_live_slots_in_range, live_slots, TombstoneArena};
use crate::const_expr::{expr_bytes, ConstExpr};
use crate::encoding::{uleb, uleb_len};
use crate::error::{EntityKind, Error, Structure};
use crate::ids::{GlobalId, ImportId};
use crate::indices::IdsToIndices;
use crate::ty::{val_type_bytes, write_val_type, ValType};
use vstd::prelude::*;
use wasm_encoder::Encode;

verus! {

/// Where a global comes from.
#[derive(Debug, Clone)]
pub enum GlobalKind {
    /// An imported global.
    Import(ImportId),
    /// A global of this module, with its initializer.
    Local(ConstExpr),
}

/// A global of a module.
#[derive(Debug, Clone)]
pub struct Global {
    pub id: GlobalId,
    pub ty: ValType,
    pub mutable: bool,
    pub shared: bool,
    pub kind: GlobalKind,
}

/// The slots of the live local globals, in arena order.
pub open spec fn local_globals(s: Seq<Option<Global>>) -> Seq<usize>
    decreases s.len(),
{
    if s.len() == 0 {
        seq![]
    } else {
        let rest = local_globals(s.drop_last());
        match s.last() {
            Some(g) => if g.kind is Local {
                rest.push((s.len() - 1) as usize)
            } else {
                rest
            },
            None => rest,
        }
    }
}

/// The flags byte of a global's type.
pub open spec fn global_flags(g: Global) -> u8 {
    ((if g.mutable { 1int } else { 0int }) + (if g.shared { 2int } else { 0int })) as u8
}

/// The entry of a local global in the global section: its type, its flags,
/// then its initializer closed by `end`.
pub open spec fn global_entry(g: Global, ix: IdsToIndices) -> Result<Seq<u8>, Error> {
    match g.kind {
        GlobalKind::Local(init) => match expr_bytes(init@, ix) {
            Ok(e) => Ok(val_type_bytes(g.ty) + seq![global_flags(g)] + e + seq![0x0Bu8]),
            Err(err) => Err(err),
        },
        GlobalKind::Import(_) => Ok(seq![]),
    }
}

/// The entries of the global section, one per live local global in arena
/// order, or the first error.
pub open spec fn global_entries(s: Seq<Option<Global>>, ix: IdsToIndices) -> Result<Seq<Seq<u8>>, Error>
    decreases s.len(),
{
    if s.len() == 0 {
        Ok(seq![])
    } else {
        match global_entries(s.drop_last(), ix) {
            Err(e) => Err(e),
            Ok(p) => match s.last() {
                Some(g) => if g.kind is Local {
                    match global_entry(g, ix) {
                        Ok(e) => Ok(p.push(e)),
                        Err(e) => Err(e),
                    }
                } else {
                    Ok(p)
                },
                None => Ok(p),
            },
        }
    }
}

/// The bytes of several entries, one after the other.
pub open spec fn flatten(es: Seq<Seq<u8>>) -> Seq<u8>
    decreases es.len(),
{
    if es.len() == 0 {
        seq![]
    } else {
        flatten(es.drop_last()) + es.last()
    }
}

/// A section without its id byte: the size of its contents, then the number
/// of entries and the entries.
pub open spec fn section_encoding(es: Seq<Seq<u8>>) -> Seq<u8> {
    let contents = uleb(es.len()) + flatten(es);
    uleb(contents.len()) + contents
}

#[verifier::external_type_specification]
#[verifier::external_body]
pub struct ExGlobalSection(wasm_encoder::GlobalSection);

/// The entries written into a wasm-encoder global section, in order.
pub uninterp spec fn global_section_entries(s: wasm_encoder::GlobalSection) -> Seq<Seq<u8>>;

/// Relies on wasm_encoder::GlobalSection::new: a section with no globals.
#[verifier::external_body]
fn new_global_section() -> (r: wasm_encoder::GlobalSection)
    ensures
        global_section_entries(r) == Seq::<Seq<u8>>::empty(),
{
    wasm_encoder::GlobalSection::new()
}

/// Relies on wasm_encoder::GlobalSection::raw: appends one global given by
/// its encoded bytes.
#[verifier::external_body]
fn push_raw_global(s: &mut wasm_encoder::GlobalSection, entry: &[u8])
    requires
        global_section_entries(*old(s)).len() < u32::MAX,
    ensures
        global_section_entries(*final(s)) == global_section_entries(*old(s)).push(entry@),
{
    s.raw(entry);
}

/// Relies on wasm-encoder's `Encode` for `GlobalSection`: the size of the
/// contents, the number of globals, then their bytes.
#[verifier::external_body]
fn global_section_bytes(s: &wasm_encoder::GlobalSection) -> (r: Vec<u8>)
    requires
        (uleb(global_section_entries(*s).len()) + flatten(global_section_entries(*s))).len() <= u32::MAX,
    ensures
        r@ == section_encoding(global_section_entries(*s)),
{
    let mut out = Vec::new();
    s.encode(&mut out);
    out
}

/// All globals of a module.
pub struct ModuleGlobals {
    arena: TombstoneArena<Global>,
}

impl View for ModuleGlobals {
    type V = Seq<Option<Global>>;

    closed spec fn view(&self) -> Seq<Option<Global>> {
        self.arena@
    }
}

impl ModuleGlobals {
    pub open spec fn live(&self, i: int) -> bool {
        0 <= i < self@.len() && self@[i] is Some
    }

    pub open spec fn global_at(&self, i: int) -> Global {
        self@[i]->Some_0
    }

    /// No globals.
    pub fn new() -> (r: ModuleGlobals)
        ensures
            r@ == Seq::<Option<Global>>::empty(),
    {
        ModuleGlobals { arena: TombstoneArena::new() }
    }

    /// Adds a local global with its initializer.
    pub fn add_local(&mut self, ty: ValType, mutable: bool, shared: bool, init: ConstExpr) -> (r: GlobalId)
        requires
            old(self)@.len() < usize::MAX,
        ensures
            r.index == old(self)@.len(),
            final(self)@ == old(self)@.push(Some(Global { id: r, ty, mutable, shared, kind: GlobalKind::Local(init) })),
    {
        let id = GlobalId { index: self.arena.next_id() };
        self.arena.allocate(Global { id, ty, mutable, shared, kind: GlobalKind::Local(init) });
        id
    }

    /// Adds an imported global.
    pub fn add_import(&mut self, ty: ValType, mutable: bool, shared: bool, import: ImportId) -> (r: GlobalId)
        requires
            old(self)@.len() < usize::MAX,
        ensures
            r.index == old(self)@.len(),
            final(self)@ == old(self)@.push(Some(Global { id: r, ty, mutable, shared, kind: GlobalKind::Import(import) })),
    {
        let id = GlobalId { index: self.arena.next_id() };
        self.arena.allocate(Global { id, ty, mutable, shared, kind: GlobalKind::Import(import) });
        id
    }

    /// The global with this identifier, unless it was deleted or never added.
    pub fn get(&self, id: GlobalId) -> (r: Result<&Global, Error>)
        ensures
            self.live(id.index as int) ==> r == Ok::<&Global, Error>(&self.global_at(id.index as int)),
            !self.live(id.index as int) ==> r == Err::<&Global, Error>(Error::NotFound { kind: EntityKind::Global, id: id.index }),
    {
        match self.arena.get(id.index) {
            Some(g) => Ok(g),
            None => Err(Error::NotFound { kind: EntityKind::Global, id: id.index }),
        }
    }

    /// Mutable access to the global with this identifier.
    pub fn get_mut(&mut self, id: GlobalId) -> (r: Result<&mut Global, Error>)
        ensures
            old(self).live(id.index as int) ==> r is Ok && *r->Ok_0 == old(self).global_at(id.index as int)
                && final(self)@ == old(self)@.update(id.index as int, Some(*final(r->Ok_0))),
            !old(self).live(id.index as int) ==> r == Err::<&mut Global, Error>(Error::NotFound { kind: EntityKind::Global, id: id.index })
                && final(self)@ == old(self)@,
    {
        match self.arena.get_mut(id.index) {
            Some(g) => Ok(g),
            None => Err(Error::NotFound { kind: EntityKind::Global, id: id.index }),
        }
    }

    /// Deletes a global. Its identifier stays allocated and names nothing;
    /// deleting what refers to it is the caller's part.
    pub fn delete(&mut self, id: GlobalId)
        ensures
            id.index < old(self)@.len() ==> final(self)@ == old(self)@.update(id.index as int, None),
            id.index >= old(self)@.len() ==> final(self)@ == old(self)@,
    {
        self.arena.delete(id.index);
    }

    /// The identifiers of the live globals, in the order they were added.
    pub fn iter(&self) -> (r: Vec<GlobalId>)
        ensures
            r@.len() == live_slots(self@).len(),
            forall|k: int| 0 <= k < r@.len() ==> (#[trigger] r@[k]).index == live_slots(self@)[k],
    {
        let slots = self.arena.live();
        let mut r: Vec<GlobalId> = Vec::new();
        let mut k: usize = 0;
        while k < slots.len()
            invariant
                k <= slots@.len(),
                slots@ == live_slots(self@),
                r@.len() == k,
                forall|j: int| 0 <= j < k ==> (#[trigger] r@[j]).index == slots@[j],
            decreases slots@.len() - k,
        {
            r.push(GlobalId { index: slots[k] });
            k += 1;
        }
        r
    }

    /// Gives each live local global the next global index, in arena order;
    /// imported globals get theirs with the imports, before this. Then
    /// writes the global section, each initializer encoded with the indices
    /// given by then.
    pub fn emit(&self, ix: &mut IdsToIndices) -> (r: Result<Vec<u8>, Error>)
        requires
            old(ix).globals.spec_count() + self@.len() < u32::MAX,
        ensures
            final(ix).globals.spec_count() == old(ix).globals.spec_count() + local_globals(self@).len(),
            forall|k: int| 0 <= k < local_globals(self@).len() ==> final(ix).globals.index_of(
                #[trigger] local_globals(self@)[k],
            ) == Some((old(ix).globals.spec_count() + k) as u32),
            forall|s: usize| !local_globals(self@).contains(s) ==> final(ix).globals.index_of(s) == old(ix).globals.index_of(s),
            final(ix).types == old(ix).types,
            final(ix).funcs == old(ix).funcs,
            final(ix).tags == old(ix).tags,
            (r is Ok) == (global_entries(self@, *final(ix)) is Ok
                && (uleb(global_entries(self@, *final(ix))->Ok_0.len()) + flatten(global_entries(self@, *final(ix))->Ok_0)).len() <= u32::MAX),
            r is Ok ==> r->Ok_0@ == section_encoding(global_entries(self@, *final(ix))->Ok_0),
            r is Err && global_entries(self@, *final(ix)) is Err ==> r->Err_0 == global_entries(self@, *final(ix))->Err_0,
            r is Err && global_entries(self@, *final(ix)) is Ok ==> r->Err_0 == Error::Structure(Structure::TooLarge),
    {
        let n = self.arena.next_id();
        let mut i: usize = 0;
        let ghost base = ix.globals.spec_count();
        let ghost mut slots: Seq<usize> = seq![];
        proof {
            assert(self@.subrange(0, 0) =~= Seq::<Option<Global>>::empty());
        }
        while i < n
            invariant
                n == self@.len(),
                i <= n,
                slots == local_globals(self@.subrange(0, i as int)),
                slots.len() <= i,
                base == old(ix).globals.spec_count(),
                base + n < u32::MAX,
                ix.globals.spec_count() == base + slots.len(),
                forall|k: int| 0 <= k < slots.len() ==> slots[k] < i,
                forall|k: int| 0 <= k < slots.len() ==> ix.globals.index_of(#[trigger] slots[k]) == Some(
                    (base + k) as u32,
                ),
                forall|s: usize| !slots.contains(s) ==> ix.globals.index_of(s) == old(ix).globals.index_of(s),
                ix.types == old(ix).types,
                ix.funcs == old(ix).funcs,
                ix.tags == old(ix).tags,
            decreases n - i,
        {
            assert(self@.subrange(0, i + 1).drop_last() =~= self@.subrange(0, i as int));
            match self.arena.get(i) {
                Some(g) => {
                    match g.kind {
                        GlobalKind::Local(_) => {
                            let ghost before = slots;
                            ix.globals.push(i);
                            proof {
                                slots = slots.push(i);
                                assert forall|k: int| 0 <= k < slots.len() implies ix.globals.index_of(
                                    #[trigger] slots[k],
                                ) == Some((base + k) as u32) by {
                                    if k < before.len() {
                                        assert(slots[k] == before[k]);
                                    }
                                }
                                assert forall|s: usize| !slots.contains(s) implies ix.globals.index_of(s)
                                    == old(ix).globals.index_of(s) by {
                                    assert(!before.contains(s)) by {
                                        if before.contains(s) {
                                            let k = choose|k: int| 0 <= k < before.len() && before[k] == s;
                                            assert(slots[k] == s);
                                        }
                                    }
                                    assert(s != i) by {
                                        assert(slots[slots.len() - 1] == i);
                                    }
                                }
                            }
                        },
                        GlobalKind::Import(_) => {},
                    }
                },
                None => {},
            }
            i += 1;
        }
        assert(self@.subrange(0, i as int) =~= self@);
        let mut section = new_global_section();
        let mut i: usize = 0;
        let mut count: u64 = 0;
        let mut total: u64 = 0;
        let mut over = false;
        proof {
            assert(self@.subrange(0, 0) =~= Seq::<Option<Global>>::empty());
        }
        while i < n
            invariant
                n == self@.len(),
                i <= n,
                n < u32::MAX,
                global_entries(self@.subrange(0, i as int), *ix) == Ok::<Seq<Seq<u8>>, Error>(global_section_entries(section)),
                global_section_entries(section).len() <= i,
                count == global_section_entries(section).len(),
                base == old(ix).globals.spec_count(),
                ix.globals.spec_count() == base + local_globals(self@).len(),
                forall|k: int| 0 <= k < local_globals(self@).len() ==> ix.globals.index_of(
                    #[trigger] local_globals(self@)[k],
                ) == Some((base + k) as u32),
                forall|s: usize| !local_globals(self@).contains(s) ==> ix.globals.index_of(s) == old(ix).globals.index_of(s),
                ix.types == old(ix).types,
                ix.funcs == old(ix).funcs,
                ix.tags == old(ix).tags,
                !over ==> total == flatten(global_section_entries(section)).len() && total <= u32::MAX,
                over ==> flatten(global_section_entries(section)).len() > u32::MAX,
            decreases n - i,
        {
            assert(self@.subrange(0, i + 1).drop_last() =~= self@.subrange(0, i as int));
            match self.arena.get(i) {
                Some(g) => {
                    match &g.kind {
                        GlobalKind::Local(init) => {
                            let mut entry: Vec<u8> = Vec::new();
                            write_val_type(g.ty, &mut entry);
                            let flags: u8 = (if g.mutable { 1u8 } else { 0u8 }) + (if g.shared { 2u8 } else { 0u8 });
                            entry.push(flags);
                            let ghost head = entry@;
                            match init.to_encodable_form(ix) {
                                Ok(e) => {
                                    let mut k: usize = 0;
                                    while k < e.len()
                                        invariant
                                            k <= e@.len(),
                                            entry@ == head + e@.subrange(0, k as int),
                                        decreases e@.len() - k,
                                    {
                                        entry.push(e[k]);
                                        k += 1;
                                        assert(entry@ =~= head + e@.subrange(0, k as int));
                                    }
                                    entry.push(0x0B);
                                    assert(e@.subrange(0, k as int) =~= e@);
                                    assert(entry@ =~= val_type_bytes(g.ty) + seq![global_flags(*g)] + e@ + seq![0x0Bu8]);
                                },
                                Err(err) => {
                                    proof {
                                        lemma_global_entries_err(self@, (i + 1) as int, *ix);
                                    }
                                    return Err(err);
                                },
                            }
                            let ghost prev = global_section_entries(section);
                            push_raw_global(&mut section, entry.as_slice());
                            assert(global_section_entries(section).drop_last() =~= prev);
                            count = count + 1;
                            if !over {
                                if entry.len() as u64 > 0xFFFF_FFFF - total {
                                    over = true;
                                } else {
                                    total = total + entry.len() as u64;
                                }
                            }
                        },
                        GlobalKind::Import(_) => {},
                    }
                },
                None => {},
            }
            i += 1;
        }
        assert(self@.subrange(0, i as int) =~= self@);
        if over || uleb_len(count) as u64 > 0xFFFF_FFFF - total {
            return Err(Error::Structure(Structure::TooLarge));
        }
        Ok(global_section_bytes(&section))
    }
}

/// Once the entries of a prefix fail, the entries of every longer prefix
/// fail with the same error.
proof fn lemma_global_entries_err(s: Seq<Option<Global>>, i: int, ix: IdsToIndices)
    requires
        0 < i <= s.len(),
    ensures
        global_entries(s.subrange(0, i), ix) is Err ==> global_entries(s, ix) == global_entries(s.subrange(0, i), ix),
    decreases s.len() - i,
{
    if i < s.len() {
        lemma_global_entries_err(s, i + 1, ix);
        assert(s.subrange(0, i + 1).drop_last() =~= s.subrange(0, i));
    } else {
        assert(s.subrange(0, i) =~= s);
    }
}

/// Deleting a live local global removes exactly one entry from the global
/// section.
pub proof fn lemma_delete_local_global(s: Seq<Option<Global>>, i: int)
    requires
        0 <= i < s.len(),
        s[i] is Some,
        s[i]->Some_0.kind is Local,
    ensures
        local_globals(s.update(i, None)).len() + 1 == local_globals(s).len(),
    decreases s.len(),
{
    let t = s.update(i, None);
    if i < s.len() - 1 {
        assert(t.drop_last() =~= s.drop_last().update(i, None));
        lemma_delete_local_global(s.drop_last(), i);
    } else {
        assert(t.drop_last() =~= s.drop_last());
    }
}

} // verus!
