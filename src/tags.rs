//! Tags for exception handling.

use crate::arena::{lemma_live_slots_in_range, live_slots, TombstoneArena};
use crate::encoding::{read_u32_at, uleb};
use crate::error::{EntityKind, Error};
use crate::ids::{ImportId, TagId, TypeId};
use crate::ty::ValType;
use crate::types::{lemma_same_signature_same_id, ModuleTypes};
use crate::indices::{IdsToIndices, IndexSpace, IndicesToIds};
use vstd::prelude::*;
use wasm_encoder::Encode;

verus! {

/// A tag in a WebAssembly module, used for exception handling.
#[derive(Debug, Clone, Copy, PartialEq, Eq, Structural)]
pub struct Tag {
    /// The id of this tag.
    pub id: TagId,
    /// The type signature of this tag (function type).
    pub ty: TypeId,
    /// The kind of tag (imported or local).
    pub kind: TagKind,
}

/// The kind of tag.
#[derive(Debug, Clone, Copy, PartialEq, Eq, Structural)]
pub enum TagKind {
    /// An imported tag.
    Import(ImportId),
    /// A locally defined tag.
    Local,
}

impl Tag {
    /// Create a new local tag with the given type.
    pub fn new(id: TagId, ty: TypeId) -> (r: Tag)
        ensures
            r == (Tag { id, ty, kind: TagKind::Local }),
    {
        Tag { id, ty, kind: TagKind::Local }
    }

    /// Get the id of this tag.
    pub fn id(&self) -> (r: TagId)
        ensures
            r == self.id,
    {
        self.id
    }

    /// Get the type of this tag.
    pub fn ty(&self) -> (r: TypeId)
        ensures
            r == self.ty,
    {
        self.ty
    }
}

/// The slots of the live local tags, in arena order.
pub open spec fn local_slots(s: Seq<Option<Tag>>) -> Seq<usize>
    decreases s.len(),
{
    if s.len() == 0 {
        seq![]
    } else {
        let rest = local_slots(s.drop_last());
        match s.last() {
            Some(t) => if t.kind is Local {
                rest.push((s.len() - 1) as usize)
            } else {
                rest
            },
            None => rest,
        }
    }
}

/// The entries of the tag section, the type index of each live local tag in
/// arena order, or the error for the first one whose type has no index.
pub open spec fn tag_entries(s: Seq<Option<Tag>>, types: IndexSpace) -> Result<Seq<u32>, Error>
    decreases s.len(),
{
    if s.len() == 0 {
        Ok(seq![])
    } else {
        match tag_entries(s.drop_last(), types) {
            Err(e) => Err(e),
            Ok(p) => match s.last() {
                Some(t) => if t.kind is Local {
                    match types.index_of(t.ty.index) {
                        Some(i) => Ok(p.push(i)),
                        None => Err(Error::NotFound { kind: EntityKind::Type, id: t.ty.index }),
                    }
                } else {
                    Ok(p)
                },
                None => Ok(p),
            },
        }
    }
}

/// All tags in a WebAssembly module.
pub struct ModuleTags {
    arena: TombstoneArena<Tag>,
}

impl View for ModuleTags {
    type V = Seq<Option<Tag>>;

    closed spec fn view(&self) -> Seq<Option<Tag>> {
        self.arena@
    }
}

impl ModuleTags {
    pub open spec fn live(&self, i: int) -> bool {
        0 <= i < self@.len() && self@[i] is Some
    }

    pub open spec fn tag_at(&self, i: int) -> Tag {
        self@[i]->Some_0
    }

    /// Create a new empty tag arena.
    pub fn new() -> (r: ModuleTags)
        ensures
            r@ == Seq::<Option<Tag>>::empty(),
    {
        ModuleTags { arena: TombstoneArena::new() }
    }

    /// Add a new local tag to this module.
    pub fn add(&mut self, ty: TypeId) -> (r: TagId)
        requires
            old(self)@.len() < usize::MAX,
        ensures
            r.index == old(self)@.len(),
            final(self)@ == old(self)@.push(Some(Tag { id: r, ty, kind: TagKind::Local })),
    {
        let id = TagId { index: self.arena.next_id() };
        let tag = Tag::new(id, ty);
        self.arena.allocate(tag);
        id
    }

    /// Add an imported tag to this module.
    pub fn add_import(&mut self, ty: TypeId, import: ImportId) -> (r: TagId)
        requires
            old(self)@.len() < usize::MAX,
        ensures
            r.index == old(self)@.len(),
            final(self)@ == old(self)@.push(Some(Tag { id: r, ty, kind: TagKind::Import(import) })),
    {
        let id = TagId { index: self.arena.next_id() };
        let tag = Tag { id, ty, kind: TagKind::Import(import) };
        self.arena.allocate(tag);
        id
    }

    /// Get a tag by id, unless it was deleted or never added.
    pub fn get(&self, id: TagId) -> (r: Result<&Tag, Error>)
        ensures
            self.live(id.index as int) ==> r == Ok::<&Tag, Error>(&self.tag_at(id.index as int)),
            !self.live(id.index as int) ==> r == Err::<&Tag, Error>(Error::NotFound { kind: EntityKind::Tag, id: id.index }),
    {
        match self.arena.get(id.index) {
            Some(t) => Ok(t),
            None => Err(Error::NotFound { kind: EntityKind::Tag, id: id.index }),
        }
    }

    /// Get a mutable reference to a tag by id, unless it was deleted or never
    /// added.
    pub fn get_mut(&mut self, id: TagId) -> (r: Result<&mut Tag, Error>)
        ensures
            old(self).live(id.index as int) ==> r is Ok && *r->Ok_0 == old(self).tag_at(id.index as int)
                && final(self)@ == old(self)@.update(id.index as int, Some(*final(r->Ok_0))),
            !old(self).live(id.index as int) ==> r == Err::<&mut Tag, Error>(Error::NotFound { kind: EntityKind::Tag, id: id.index })
                && final(self)@ == old(self)@,
    {
        match self.arena.get_mut(id.index) {
            Some(t) => Ok(t),
            None => Err(Error::NotFound { kind: EntityKind::Tag, id: id.index }),
        }
    }

    /// The live tags, in the order they were added.
    pub fn iter(&self) -> (r: Vec<Tag>)
        ensures
            r@.len() == live_slots(self@).len(),
            forall|k: int| 0 <= k < r@.len() ==> #[trigger] r@[k] == self.tag_at(live_slots(self@)[k] as int),
    {
        let _n = self.arena.next_id();
        let slots = self.arena.live();
        let mut r: Vec<Tag> = Vec::new();
        let mut k: usize = 0;
        proof {
            lemma_live_slots_in_range(self@);
        }
        while k < slots.len()
            invariant
                k <= slots@.len(),
                slots@ == live_slots(self@),
                forall|j: int| 0 <= j < slots@.len() ==> self.live(#[trigger] slots@[j] as int),
                r@.len() == k,
                forall|j: int| 0 <= j < k ==> #[trigger] r@[j] == self.tag_at(slots@[j] as int),
            decreases slots@.len() - k,
        {
            let t = self.arena.get(slots[k]);
            match t {
                Some(t) => r.push(*t),
                None => {
                    assert(false);
                },
            }
            k += 1;
        }
        r
    }

    /// Delete a tag from this module. Its identifier stays allocated and
    /// names nothing; deleting what refers to it is the caller's part.
    pub fn delete(&mut self, id: TagId)
        ensures
            id.index < old(self)@.len() ==> final(self)@ == old(self)@.update(id.index as int, None),
            id.index >= old(self)@.len() ==> final(self)@ == old(self)@,
    {
        self.arena.delete(id.index);
    }

    /// Gives each live local tag the next tag index, in arena order, and
    /// returns the entries of the tag section: the type index of each.
    /// Imported tags get their indices with the imports, before this.
    pub fn emit(&self, ix: &mut IdsToIndices) -> (r: Result<Vec<u32>, Error>)
        requires
            old(ix).tags.spec_count() + self@.len() < u32::MAX,
        ensures
            (r is Ok) == (tag_entries(self@, old(ix).types) is Ok),
            r is Ok ==> r->Ok_0@ == tag_entries(self@, old(ix).types)->Ok_0,
            r is Err ==> r->Err_0 == tag_entries(self@, old(ix).types)->Err_0,
            r is Ok ==> final(ix).tags.spec_count() == old(ix).tags.spec_count() + local_slots(self@).len(),
            r is Ok ==> forall|k: int| 0 <= k < local_slots(self@).len() ==> final(ix).tags.index_of(
                #[trigger] local_slots(self@)[k],
            ) == Some((old(ix).tags.spec_count() + k) as u32),
            r is Ok ==> forall|s: usize| !local_slots(self@).contains(s) ==> final(ix).tags.index_of(s) == old(
                ix,
            ).tags.index_of(s),
            final(ix).types == old(ix).types,
            final(ix).funcs == old(ix).funcs,
            final(ix).globals == old(ix).globals,
    {
        let n = self.arena.next_id();
        let mut entries: Vec<u32> = Vec::new();
        let mut i: usize = 0;
        let ghost base = ix.tags.spec_count();
        let ghost mut slots: Seq<usize> = seq![];
        proof {
            assert(self@.subrange(0, 0) =~= Seq::<Option<Tag>>::empty());
        }
        while i < n
            invariant
                n == self@.len(),
                i <= n,
                tag_entries(self@.subrange(0, i as int), old(ix).types) == Ok::<Seq<u32>, Error>(entries@),
                slots == local_slots(self@.subrange(0, i as int)),
                slots.len() <= i,
                base == old(ix).tags.spec_count(),
                base + n < u32::MAX,
                ix.tags.spec_count() == base + slots.len(),
                forall|k: int| 0 <= k < slots.len() ==> slots[k] < i,
                forall|k: int| 0 <= k < slots.len() ==> ix.tags.index_of(#[trigger] slots[k]) == Some(
                    (base + k) as u32,
                ),
                forall|s: usize| !slots.contains(s) ==> ix.tags.index_of(s) == old(ix).tags.index_of(s),
                ix.types == old(ix).types,
                ix.funcs == old(ix).funcs,
                ix.globals == old(ix).globals,
            decreases n - i,
        {
            assert(self@.subrange(0, i + 1).drop_last() =~= self@.subrange(0, i as int));
            match self.arena.get(i) {
                Some(t) => {
                    match t.kind {
                        TagKind::Local => {
                            let ghost before = slots;
                            ix.tags.push(i);
                            match ix.get_type_index(t.ty) {
                                Ok(ty_idx) => entries.push(ty_idx),
                                Err(e) => {
                                    proof {
                                        lemma_tag_entries_err(self@, (i + 1) as int, old(ix).types);
                                        assert(self@.subrange(0, i + 1) =~= self@.subrange(0, i + 1));
                                    }
                                    return Err(e);
                                },
                            }
                            proof {
                                slots = slots.push(i);
                                assert forall|k: int| 0 <= k < slots.len() implies ix.tags.index_of(
                                    #[trigger] slots[k],
                                ) == Some((base + k) as u32) by {
                                    if k < before.len() {
                                        assert(slots[k] == before[k]);
                                    }
                                }
                                assert forall|s: usize| !slots.contains(s) implies ix.tags.index_of(s)
                                    == old(ix).tags.index_of(s) by {
                                    assert(!before.contains(s)) by {
                                        if before.contains(s) {
                                            let k = choose|k: int| 0 <= k < before.len() && before[k] == s;
                                            assert(slots[k] == s);
                                        }
                                    }
                                    assert(s != i) by {
                                        assert(slots[slots.len() - 1] == i);
                                    }
                                }
                            }
                        },
                        TagKind::Import(_) => {},
                    }
                },
                None => {},
            }
            i += 1;
        }
        assert(self@.subrange(0, i as int) =~= self@);
        Ok(entries)
    }
}

/// Once the entries of a prefix fail, the entries of every longer prefix
/// fail with the same error.
proof fn lemma_tag_entries_err(s: Seq<Option<Tag>>, i: int, types: IndexSpace)
    requires
        0 < i <= s.len(),
    ensures
        tag_entries(s.subrange(0, i), types) is Err ==> tag_entries(s, types) == tag_entries(s.subrange(0, i), types),
    decreases s.len() - i,
{
    if i < s.len() {
        lemma_tag_entries_err(s, i + 1, types);
        assert(s.subrange(0, i + 1).drop_last() =~= s.subrange(0, i));
    } else {
        assert(s.subrange(0, i) =~= s);
    }
}

#[verifier::external_type_specification]
#[verifier::external_body]
pub struct ExTagSection(wasm_encoder::TagSection);

/// The type indices of the tags written into a wasm-encoder tag section, in
/// order.
pub uninterp spec fn tag_section_types(s: wasm_encoder::TagSection) -> Seq<u32>;

/// The encoding of one exception tag: its attribute byte, then its type index.
pub open spec fn tag_entry_bytes(idx: u32) -> Seq<u8> {
    seq![0x00u8] + uleb(idx as nat)
}

pub open spec fn tag_entries_bytes(es: Seq<u32>) -> Seq<u8>
    decreases es.len(),
{
    if es.len() == 0 {
        seq![]
    } else {
        tag_entries_bytes(es.drop_last()) + tag_entry_bytes(es.last())
    }
}

/// The contents of a tag section: the number of entries, then the entries.
pub open spec fn tag_section_contents(es: Seq<u32>) -> Seq<u8> {
    uleb(es.len()) + tag_entries_bytes(es)
}

/// A tag section without its id byte: the size of its contents, then the
/// contents.
pub open spec fn tag_section_encoding(es: Seq<u32>) -> Seq<u8> {
    uleb(tag_section_contents(es).len()) + tag_section_contents(es)
}

/// Relies on wasm_encoder::TagSection::new: a section with no tags.
#[verifier::external_body]
fn new_tag_section() -> (r: wasm_encoder::TagSection)
    ensures
        tag_section_types(r) == Seq::<u32>::empty(),
{
    wasm_encoder::TagSection::new()
}

/// Relies on wasm_encoder::TagSection::tag: appends an exception tag of the
/// given type index.
#[verifier::external_body]
fn push_exception_tag(s: &mut wasm_encoder::TagSection, func_type_idx: u32)
    requires
        tag_section_types(*old(s)).len() < u32::MAX,
    ensures
        tag_section_types(*final(s)) == tag_section_types(*old(s)).push(func_type_idx),
{
    s.tag(wasm_encoder::TagType { kind: wasm_encoder::TagKind::Exception, func_type_idx });
}

/// Relies on wasm-encoder's `Encode` for `TagSection`: the size of the
/// contents, the count of tags, then each tag's attribute byte and type
/// index, all in the shortest LEB128 forms.
#[verifier::external_body]
fn tag_section_bytes(s: &wasm_encoder::TagSection) -> (r: Vec<u8>)
    requires
        tag_section_contents(tag_section_types(*s)).len() <= u32::MAX,
    ensures
        r@ == tag_section_encoding(tag_section_types(*s)),
{
    let mut out = Vec::new();
    s.encode(&mut out);
    out
}

/// What wasmparser's tag-section reader reads from `pos` on for `count`
/// more entries: each an attribute byte 0 and a type index, with nothing
/// left after the last; `None` where it fails.
pub open spec fn tag_entries_read(b: Seq<u8>, pos: int, count: nat) -> Option<Seq<u32>>
    decreases count,
{
    if count == 0 {
        if pos == b.len() {
            Some(seq![])
        } else {
            None
        }
    } else if pos < 0 || pos >= b.len() || b[pos] != 0 {
        None
    } else {
        match read_u32_at(b, pos + 1) {
            None => None,
            Some((v, n)) => match tag_entries_read(b, pos + 1 + n, (count - 1) as nat) {
                Some(rest) => Some(seq![v] + rest),
                None => None,
            },
        }
    }
}

/// What wasmparser's tag-section reader gives for the contents of a tag
/// section: the count, then that many entries.
pub open spec fn tag_section_read(b: Seq<u8>) -> Option<Seq<u32>> {
    match read_u32_at(b, 0) {
        Some((count, n)) => tag_entries_read(b, n as int, count as nat),
        None => None,
    }
}

/// Relies on wasmparser's `TagSectionReader` over the contents of a tag
/// section: it reads the count, then each entry, and fails on bytes left
/// over, as `tag_section_read` says. So contents in the shortest form read
/// back as their entries; each entry takes at least two bytes.
#[verifier::external_body]
fn read_tag_section(contents: &[u8]) -> (r: Option<Vec<u32>>)
    ensures
        (r is Some) == (tag_section_read(contents@) is Some),
        r is Some ==> r->Some_0@ == tag_section_read(contents@)->Some_0,
        r is Some ==> r->Some_0@.len() <= contents@.len(),
        forall|es: Seq<u32>| es.len() <= u32::MAX && #[trigger] tag_section_contents(es) == contents@
            ==> r is Some && r->Some_0@ == es,
{
    let reader = wasmparser::TagSectionReader::new(wasmparser::BinaryReader::new(contents, 0)).ok()?;
    reader.into_iter().map(|t| t.map(|t| t.func_type_idx)).collect::<Result<Vec<u32>, _>>().ok()
}

/// The tag section for these entries, as the binary format writes it after
/// the section id.
pub fn encode_tag_section(entries: &[u32]) -> (r: Vec<u8>)
    requires
        entries@.len() < u32::MAX,
        tag_section_contents(entries@).len() <= u32::MAX,
    ensures
        r@ == tag_section_encoding(entries@),
{
    let mut section = new_tag_section();
    let mut i: usize = 0;
    while i < entries.len()
        invariant
            i <= entries@.len() < u32::MAX,
            tag_section_types(section) == entries@.subrange(0, i as int),
        decreases entries@.len() - i,
    {
        push_exception_tag(&mut section, entries[i]);
        i += 1;
        assert(tag_section_types(section) =~= entries@.subrange(0, i as int));
    }
    assert(entries@.subrange(0, i as int) =~= entries@);
    tag_section_bytes(&section)
}

/// Whether `after`/`ids_after` are `before`/`ids_before` with one local tag
/// added for each type index of `es`, in order, each resolved through the
/// types met so far.
pub open spec fn added_parsed(
    before: Seq<Option<Tag>>,
    after: Seq<Option<Tag>>,
    ids_before: IndicesToIds,
    ids_after: IndicesToIds,
    es: Seq<u32>,
) -> bool {
    let n = before.len();
    &&& after.len() == n + es.len()
    &&& after.subrange(0, n as int) == before
    &&& forall|k: int| 0 <= k < es.len() ==> #[trigger] after[n + k] == Some(Tag {
        id: TagId { index: (n + k) as usize },
        ty: ids_before.spec_types()[es[k] as int],
        kind: TagKind::Local,
    })
    &&& ids_after.spec_tags().len() == ids_before.spec_tags().len() + es.len()
    &&& ids_after.spec_tags().subrange(0, ids_before.spec_tags().len() as int) == ids_before.spec_tags()
    &&& forall|k: int| 0 <= k < es.len() ==> #[trigger] ids_after.spec_tags()[ids_before.spec_tags().len() + k] == (TagId {
        index: (n + k) as usize,
    })
    &&& ids_after.spec_types() == ids_before.spec_types()
    &&& ids_after.spec_funcs() == ids_before.spec_funcs()
    &&& ids_after.spec_globals() == ids_before.spec_globals()
}

/// Whether every type index of `es` names a type met so far.
pub open spec fn all_resolve(es: Seq<u32>, ids: IndicesToIds) -> bool {
    forall|k: int| 0 <= k < es.len() ==> (#[trigger] es[k] as int) < ids.spec_types().len()
}

/// The error for the first type index of `es` that names no type.
pub open spec fn first_unresolved(r: Error, es: Seq<u32>, ids: IndicesToIds) -> bool {
    exists|j: int|
        0 <= j < es.len() && (es[j] as int) >= ids.spec_types().len() && (forall|k: int|
            0 <= k < j ==> (#[trigger] es[k] as int) < ids.spec_types().len()) && r == (Error::Resolution {
            kind: EntityKind::Type,
            index: es[j],
        })
}

impl ModuleTags {
    /// Adds a local tag for each type index of a parsed tag section, in
    /// order, and records each new tag at the next tag index of `ids`.
    pub fn add_parsed(&mut self, es: &[u32], ids: &mut IndicesToIds) -> (r: Result<(), Error>)
        requires
            old(self)@.len() + es@.len() < usize::MAX,
        ensures
            (r is Ok) == all_resolve(es@, *old(ids)),
            r is Ok ==> added_parsed(old(self)@, final(self)@, *old(ids), *final(ids), es@),
            r is Err ==> first_unresolved(r->Err_0, es@, *old(ids)),
    {
        let ghost n = self@.len();
        let ghost t0 = ids.spec_tags().len();
        let mut i: usize = 0;
        proof {
            assert(self@.subrange(0, n as int) =~= old(self)@);
            assert(ids.spec_tags().subrange(0, t0 as int) =~= old(ids).spec_tags());
        }
        while i < es.len()
            invariant
                i <= es@.len(),
                n == old(self)@.len(),
                t0 == old(ids).spec_tags().len(),
                n + es@.len() < usize::MAX,
                self@.len() == n + i,
                self@.subrange(0, n as int) == old(self)@,
                forall|k: int| 0 <= k < i ==> #[trigger] self@[n + k] == Some(Tag {
                    id: TagId { index: (n + k) as usize },
                    ty: old(ids).spec_types()[es@[k] as int],
                    kind: TagKind::Local,
                }),
                forall|k: int| 0 <= k < i ==> (#[trigger] es@[k] as int) < old(ids).spec_types().len(),
                ids.spec_tags().len() == t0 + i,
                ids.spec_tags().subrange(0, t0 as int) == old(ids).spec_tags(),
                forall|k: int| 0 <= k < i ==> #[trigger] ids.spec_tags()[t0 + k] == (TagId { index: (n + k) as usize }),
                ids.spec_types() == old(ids).spec_types(),
                ids.spec_funcs() == old(ids).spec_funcs(),
                ids.spec_globals() == old(ids).spec_globals(),
            decreases es@.len() - i,
        {
            let ty = match ids.get_type(es[i]) {
                Ok(ty) => ty,
                Err(e) => {
                    assert(first_unresolved(e, es@, *old(ids))) by {
                        assert((es@[i as int] as int) >= old(ids).spec_types().len());
                    }
                    return Err(e);
                },
            };
            let ghost before = self@;
            let ghost tags_before = ids.spec_tags();
            let id = self.add(ty);
            ids.push_tag(id);
            proof {
                assert(self@.subrange(0, n as int) =~= before.subrange(0, n as int));
                assert forall|k: int| 0 <= k < i + 1 implies #[trigger] self@[n + k] == Some(Tag {
                    id: TagId { index: (n + k) as usize },
                    ty: old(ids).spec_types()[es@[k] as int],
                    kind: TagKind::Local,
                }) by {
                    if k < i {
                        assert(self@[n + k] == before[n + k]);
                    }
                }
                assert(ids.spec_tags().subrange(0, t0 as int) =~= tags_before.subrange(0, t0 as int));
                assert forall|k: int| 0 <= k < i + 1 implies #[trigger] ids.spec_tags()[t0 + k] == (TagId {
                    index: (n + k) as usize,
                }) by {
                    if k < i {
                        assert(ids.spec_tags()[t0 + k] == tags_before[t0 + k]);
                    }
                }
            }
            i += 1;
        }
        Ok(())
    }

    /// Parses the contents of a tag section (what follows its size) and adds
    /// its tags as `add_parsed` does.
    pub fn parse_tags(&mut self, contents: &[u8], ids: &mut IndicesToIds) -> (r: Result<(), Error>)
        requires
            old(self)@.len() + contents@.len() < usize::MAX,
        ensures
            tag_section_read(contents@) is None ==> r == Err::<(), Error>(Error::Decode { offset: 0 }),
            tag_section_read(contents@) is Some ==> {
                let es = tag_section_read(contents@)->Some_0;
                &&& (r is Ok) == all_resolve(es, *old(ids))
                &&& r is Ok ==> added_parsed(old(self)@, final(self)@, *old(ids), *final(ids), es)
                &&& r is Err ==> first_unresolved(r->Err_0, es, *old(ids))
            },
            forall|es: Seq<u32>| es.len() <= u32::MAX && #[trigger] tag_section_contents(es) == contents@ ==> {
                &&& (r is Ok) == all_resolve(es, *old(ids))
                &&& r is Ok ==> added_parsed(old(self)@, final(self)@, *old(ids), *final(ids), es)
                &&& r is Err ==> first_unresolved(r->Err_0, es, *old(ids))
            },
    {
        match read_tag_section(contents) {
            Some(es) => self.add_parsed(es.as_slice(), ids),
            None => Err(Error::Decode { offset: 0 }),
        }
    }
}

/// The entries of the tag section follow the live local tags one for one:
/// entry `k` is the type index of the `k`-th local tag.
pub proof fn lemma_tag_entries_follow_local_slots(s: Seq<Option<Tag>>, types: IndexSpace)
    requires
        tag_entries(s, types) is Ok,
        s.len() <= usize::MAX,
    ensures
        tag_entries(s, types)->Ok_0.len() == local_slots(s).len(),
        forall|k: int| 0 <= k < local_slots(s).len() ==> {
            let i = (#[trigger] local_slots(s)[k]) as int;
            &&& 0 <= i < s.len()
            &&& s[i] is Some
            &&& s[i]->Some_0.kind is Local
            &&& types.index_of(s[i]->Some_0.ty.index) == Some(tag_entries(s, types)->Ok_0[k])
        },
    decreases s.len(),
{
    if s.len() > 0 {
        let p = s.drop_last();
        lemma_tag_entries_follow_local_slots(p, types);
        assert forall|k: int| 0 <= k < local_slots(s).len() implies {
            let i = (#[trigger] local_slots(s)[k]) as int;
            &&& 0 <= i < s.len()
            &&& s[i] is Some
            &&& s[i]->Some_0.kind is Local
            &&& types.index_of(s[i]->Some_0.ty.index) == Some(tag_entries(s, types)->Ok_0[k])
        } by {
            if k < local_slots(p).len() {
                assert(local_slots(s)[k] == local_slots(p)[k]);
                assert(tag_entries(s, types)->Ok_0[k] == tag_entries(p, types)->Ok_0[k]);
                assert(s[local_slots(p)[k] as int] == p[local_slots(p)[k] as int]);
            }
        }
    }
}

/// Tag round trip, for the tags that the tag section carries: parsing the
/// entries that `emit` wrote into an empty table, with a type index space
/// that maps each emitted type index back to its type, gives one local tag
/// for each live local tag of the original, in order and with the same type.
pub proof fn lemma_tag_round_trip(
    m: ModuleTags,
    ix: IdsToIndices,
    ids: IndicesToIds,
    ids_after: IndicesToIds,
    parsed: Seq<Option<Tag>>,
    es: Seq<u32>,
)
    requires
        m@.len() <= usize::MAX,
        tag_entries(m@, ix.types) == Ok::<Seq<u32>, Error>(es),
        forall|i: int|
            0 <= i < m@.len() && (#[trigger] m@[i]) is Some && ix.types.index_of(m@[i]->Some_0.ty.index) is Some ==> {
                let j = ix.types.index_of(m@[i]->Some_0.ty.index)->Some_0 as int;
                j < ids.spec_types().len() && ids.spec_types()[j] == m@[i]->Some_0.ty
            },
        added_parsed(Seq::<Option<Tag>>::empty(), parsed, ids, ids_after, es),
    ensures
        parsed.len() == local_slots(m@).len(),
        forall|k: int| 0 <= k < parsed.len() ==> {
            &&& (#[trigger] parsed[k]) is Some
            &&& parsed[k]->Some_0.kind is Local
            &&& parsed[k]->Some_0.ty == m@[local_slots(m@)[k] as int]->Some_0.ty
        },
{
    lemma_tag_entries_follow_local_slots(m@, ix.types);
    assert forall|k: int| 0 <= k < parsed.len() implies {
        &&& (#[trigger] parsed[k]) is Some
        &&& parsed[k]->Some_0.kind is Local
        &&& parsed[k]->Some_0.ty == m@[local_slots(m@)[k] as int]->Some_0.ty
    } by {
        let i = local_slots(m@)[k] as int;
        assert(parsed[0 + k] == parsed[k]);
        assert(ix.types.index_of(m@[i]->Some_0.ty.index) == Some(es[k]));
    }
}

/// Deleting a live local tag removes exactly one entry from what the tag
/// section carries.
pub proof fn lemma_delete_local_tag(s: Seq<Option<Tag>>, i: int)
    requires
        0 <= i < s.len(),
        s[i] is Some,
        s[i]->Some_0.kind is Local,
    ensures
        local_slots(s.update(i, None)).len() + 1 == local_slots(s).len(),
    decreases s.len(),
{
    let t = s.update(i, None);
    if i < s.len() - 1 {
        assert(t.drop_last() =~= s.drop_last().update(i, None));
        lemma_delete_local_tag(s.drop_last(), i);
    } else {
        assert(t.drop_last() =~= s.drop_last());
    }
}

/// Local tags whose types hold the same signature in a well-formed type
/// table share one type: their tag-section entries carry the same type
/// index.
pub proof fn lemma_same_signature_same_entry(
    m: ModuleTags,
    types: ModuleTypes,
    ix: IdsToIndices,
    es: Seq<u32>,
    k1: int,
    k2: int,
    params: Seq<ValType>,
    results: Seq<ValType>,
)
    requires
        m@.len() <= usize::MAX,
        tag_entries(m@, ix.types) == Ok::<Seq<u32>, Error>(es),
        0 <= k1 < local_slots(m@).len(),
        0 <= k2 < local_slots(m@).len(),
        types.wf(),
        types.holds(m@[local_slots(m@)[k1] as int]->Some_0.ty, params, results, false),
        types.holds(m@[local_slots(m@)[k2] as int]->Some_0.ty, params, results, false),
    ensures
        es[k1] == es[k2],
{
    lemma_tag_entries_follow_local_slots(m@, ix.types);
    let t1 = m@[local_slots(m@)[k1] as int]->Some_0.ty;
    let t2 = m@[local_slots(m@)[k2] as int]->Some_0.ty;
    lemma_same_signature_same_id(types, t1, t2, params, results, false);
    assert(ix.types.index_of(t1.index) == Some(es[k1]));
    assert(ix.types.index_of(t2.index) == Some(es[k2]));
}

/// Appending live entries adds one live slot each.
pub proof fn lemma_live_slots_extend<T>(before: Seq<Option<T>>, after: Seq<Option<T>>)
    requires
        before.len() <= after.len(),
        after.subrange(0, before.len() as int) == before,
        forall|i: int| before.len() <= i < after.len() ==> (#[trigger] after[i]) is Some,
    ensures
        live_slots(after).len() == live_slots(before).len() + (after.len() - before.len()),
    decreases after.len(),
{
    if after.len() == before.len() {
        assert(after =~= before);
    } else {
        let p = after.drop_last();
        assert(p.subrange(0, before.len() as int) =~= after.subrange(0, before.len() as int));
        assert forall|i: int| before.len() <= i < p.len() implies (#[trigger] p[i]) is Some by {
            assert(p[i] == after[i]);
        }
        lemma_live_slots_extend(before, p);
    }
}

/// Tag count after a round trip: parsing the entries that `emit` wrote into
/// a table that already holds some tags (the imported ones) leaves it with
/// those tags and one more for each local tag of the original.
pub proof fn lemma_parsed_tag_count(
    m: ModuleTags,
    ix: IdsToIndices,
    before: Seq<Option<Tag>>,
    after: Seq<Option<Tag>>,
    ids: IndicesToIds,
    ids_after: IndicesToIds,
    es: Seq<u32>,
)
    requires
        m@.len() <= usize::MAX,
        tag_entries(m@, ix.types) == Ok::<Seq<u32>, Error>(es),
        added_parsed(before, after, ids, ids_after, es),
    ensures
        live_slots(after).len() == live_slots(before).len() + local_slots(m@).len(),
{
    lemma_tag_entries_follow_local_slots(m@, ix.types);
    assert forall|i: int| before.len() <= i < after.len() implies (#[trigger] after[i]) is Some by {
        assert(after[before.len() + (i - before.len())] == after[i]);
    }
    lemma_live_slots_extend(before, after);
}

/// A table with no local tags writes no tag-section entries.
proof fn lemma_no_local_entries(s: Seq<Option<Tag>>, types: IndexSpace)
    requires
        forall|i: int| 0 <= i < s.len() && (#[trigger] s[i]) is Some ==> !(s[i]->Some_0.kind is Local),
    ensures
        tag_entries(s, types) == Ok::<Seq<u32>, Error>(seq![]),
    decreases s.len(),
{
    if s.len() > 0 {
        let p = s.drop_last();
        assert forall|i: int| 0 <= i < p.len() && (#[trigger] p[i]) is Some implies !(p[i]->Some_0.kind is Local) by {
            assert(p[i] == s[i]);
        }
        lemma_no_local_entries(p, types);
        assert(s[s.len() - 1] == s.last());
    }
}

/// The entries written for the tags parsed from `es`, when each parsed type
/// gets back the index it was read at.
proof fn lemma_parsed_entries(
    before: Seq<Option<Tag>>,
    after: Seq<Option<Tag>>,
    ids: IndicesToIds,
    types: IndexSpace,
    es: Seq<u32>,
    m: int,
)
    requires
        before.len() <= m <= after.len(),
        after.len() == before.len() + es.len(),
        after.subrange(0, before.len() as int) == before,
        forall|i: int| 0 <= i < before.len() && (#[trigger] before[i]) is Some ==> !(before[i]->Some_0.kind is Local),
        forall|k: int| 0 <= k < es.len() ==> #[trigger] after[before.len() + k] == Some(Tag {
            id: TagId { index: (before.len() + k) as usize },
            ty: ids.spec_types()[es[k] as int],
            kind: TagKind::Local,
        }),
        all_resolve(es, ids),
        forall|j: int| 0 <= j < ids.spec_types().len() ==> types.index_of(#[trigger] ids.spec_types()[j].index) == Some(j as u32),
    ensures
        tag_entries(after.subrange(0, m), types) == Ok::<Seq<u32>, Error>(es.subrange(0, m - before.len())),
    decreases m,
{
    let n = before.len() as int;
    if m == n {
        assert(after.subrange(0, m) =~= before);
        lemma_no_local_entries(before, types);
        assert(es.subrange(0, 0) =~= Seq::<u32>::empty());
    } else {
        lemma_parsed_entries(before, after, ids, types, es, m - 1);
        let s = after.subrange(0, m);
        assert(s.drop_last() =~= after.subrange(0, m - 1));
        let k = m - 1 - n;
        assert(s.last() == after[n + k]);
        assert((es[k] as int) < ids.spec_types().len());
        assert(es.subrange(0, m - n) =~= es.subrange(0, m - 1 - n).push(es[k]));
    }
}

/// Tag section round trip: when a table that holds only imported tags parses
/// the entries `es` and each parsed type gets back, on emission, the type
/// index it was read at, the tag section it writes has exactly the entries
/// `es` again, so `encode_tag_section` writes the same bytes.
pub proof fn lemma_reemit_parsed_tags(
    before: Seq<Option<Tag>>,
    after: Seq<Option<Tag>>,
    ids: IndicesToIds,
    ids_after: IndicesToIds,
    types: IndexSpace,
    es: Seq<u32>,
)
    requires
        forall|i: int| 0 <= i < before.len() && (#[trigger] before[i]) is Some ==> !(before[i]->Some_0.kind is Local),
        added_parsed(before, after, ids, ids_after, es),
        all_resolve(es, ids),
        forall|j: int| 0 <= j < ids.spec_types().len() ==> types.index_of(#[trigger] ids.spec_types()[j].index) == Some(j as u32),
    ensures
        tag_entries(after, types) == Ok::<Seq<u32>, Error>(es),
{
    let n = before.len() as int;
    assert forall|k: int| 0 <= k < es.len() implies #[trigger] after[n + k] == Some(Tag {
        id: TagId { index: (n + k) as usize },
        ty: ids.spec_types()[es[k] as int],
        kind: TagKind::Local,
    }) by {}
    lemma_parsed_entries(before, after, ids, types, es, after.len() as int);
    assert(after.subrange(0, after.len() as int) =~= after);
    assert(es.subrange(0, es.len() as int) =~= es);
}

} // verus!
