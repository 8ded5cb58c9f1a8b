//! Function bodies: nested instruction sequences, built without knowing the
//! identifiers of branch targets in advance, and written back as bytes.

use crate::arena::TombstoneArena;
use crate::const_expr::{encode_op, lower_op, raw_op_bytes, ConstOp, RawConstOp, Value};
use crate::encoding::{sleb, uleb, write_i64, write_u32};
use crate::error::{EntityKind, Error, Structure};
use crate::ids::{FunctionId, InstrSeqId, TagId, TypeId};
use crate::indices::IdsToIndices;
use crate::ty::{val_type_bytes, write_val_type, ValType};
use vstd::prelude::*;

verus! {

/// The type of a block: no result, one value, or a function type.
#[derive(Debug, Clone, Copy, PartialEq, Eq, Structural)]
pub enum BlockType {
    Empty,
    Value(ValType),
    Func(TypeId),
}

/// A clause of a legacy `try`.
#[derive(Debug, Clone, Copy, PartialEq, Eq, Structural)]
pub enum LegacyCatch {
    /// Runs `handler` when an exception of `tag` is thrown.
    Catch { tag: TagId, handler: InstrSeqId },
    /// Runs `handler` for any exception.
    CatchAll { handler: InstrSeqId },
    /// Hands exceptions on to the enclosing `try` that is `relative_depth`
    /// levels out, or to the caller.
    Delegate { relative_depth: u32 },
}

/// A clause of a `try_table`: each names the block to branch to.
#[derive(Debug, Clone, Copy, PartialEq, Eq, Structural)]
pub enum TryTableCatch {
    Catch { tag: TagId, label: InstrSeqId },
    CatchRef { tag: TagId, label: InstrSeqId },
    CatchAll { label: InstrSeqId },
    CatchAllRef { label: InstrSeqId },
}

/// An instruction. Nested code lives in other sequences, named by their
/// identifiers.
#[derive(Debug, Clone)]
pub enum Instr {
    Block { seq: InstrSeqId },
    Loop { seq: InstrSeqId },
    IfElse { consequent: InstrSeqId, alternative: InstrSeqId },
    Br { block: InstrSeqId },
    BrIf { block: InstrSeqId },
    Const { value: Value },
    Drop,
    Unreachable,
    Nop,
    Return,
    Call { func: FunctionId },
    LocalGet { local: u32 },
    LocalSet { local: u32 },
    Throw { tag: TagId },
    ThrowRef,
    Rethrow { relative_depth: u32 },
    /// A legacy `try`: `seq` is the body.
    Try { seq: InstrSeqId, catches: Vec<LegacyCatch> },
    TryTable { seq: InstrSeqId, catches: Vec<TryTableCatch> },
}

/// A sequence of instructions with its block type.
pub struct InstrSeq {
    pub ty: BlockType,
    pub instrs: Vec<Instr>,
}

/// The sequences of one function body.
pub struct FunctionBody {
    seqs: TombstoneArena<InstrSeq>,
}

impl View for FunctionBody {
    type V = Seq<Option<InstrSeq>>;

    closed spec fn view(&self) -> Seq<Option<InstrSeq>> {
        self.seqs@
    }
}

/// `r` with `p` put in front of its bytes.
pub open spec fn cat(p: Seq<u8>, r: Result<Seq<u8>, Error>) -> Result<Seq<u8>, Error> {
    match r {
        Ok(t) => Ok(p + t),
        Err(e) => Err(e),
    }
}

/// The bytes of `a` then those of `b`, or the first error.
pub open spec fn join(a: Result<Seq<u8>, Error>, b: Result<Seq<u8>, Error>) -> Result<Seq<u8>, Error> {
    match a {
        Ok(x) => cat(x, b),
        Err(e) => Err(e),
    }
}

/// The encoding of a block type.
pub open spec fn block_type_bytes(bt: BlockType, ix: IdsToIndices) -> Result<Seq<u8>, Error> {
    match bt {
        BlockType::Empty => Ok(seq![0x40u8]),
        BlockType::Value(v) => Ok(val_type_bytes(v)),
        BlockType::Func(t) => match ix.types.index_of(t.index) {
            Some(i) => Ok(sleb(i as int)),
            None => Err(Error::NotFound { kind: EntityKind::Type, id: t.index }),
        },
    }
}

/// How many labels lie between the top of `stack` and `target`.
pub open spec fn label_depth(stack: Seq<InstrSeqId>, target: InstrSeqId) -> Option<nat>
    decreases stack.len(),
{
    if stack.len() == 0 {
        None
    } else if stack.last() == target {
        Some(0)
    } else {
        match label_depth(stack.drop_last(), target) {
            Some(d) => Some(d + 1),
            None => None,
        }
    }
}

/// The encoding of a branch to `target`.
pub open spec fn label_bytes(stack: Seq<InstrSeqId>, target: InstrSeqId) -> Result<Seq<u8>, Error> {
    match label_depth(stack, target) {
        Some(d) => if d <= u32::MAX {
            Ok(uleb(d))
        } else {
            Err(Error::Structure(Structure::TooLarge))
        },
        None => Err(Error::Structure(Structure::LabelNotEnclosing)),
    }
}

/// The operation that pushes a value, as a constant expression writes it.
pub open spec fn value_raw(v: Value) -> RawConstOp {
    match v {
        Value::I32(x) => RawConstOp::I32Const(x),
        Value::I64(x) => RawConstOp::I64Const(x),
        Value::F32(x) => RawConstOp::F32Const(x),
        Value::F64(x) => RawConstOp::F64Const(x),
        Value::V128(x) => RawConstOp::V128Const(x),
    }
}

/// An index given in `ix`, as its LEB128 form after an opcode.
pub open spec fn indexed(op: u8, i: Option<u32>, kind: EntityKind, id: usize) -> Result<Seq<u8>, Error> {
    match i {
        Some(k) => Ok(seq![op] + uleb(k as nat)),
        None => Err(Error::NotFound { kind, id }),
    }
}

pub open spec fn is_live(b: Seq<Option<InstrSeq>>, s: InstrSeqId) -> bool {
    s.index < b.len() && b[s.index as int] is Some
}

pub open spec fn seq_at(b: Seq<Option<InstrSeq>>, s: InstrSeqId) -> InstrSeq {
    b[s.index as int]->Some_0
}

/// The block type of a sequence, then its instructions, then what follows.
pub open spec fn typed(
    b: Seq<Option<InstrSeq>>,
    s: InstrSeqId,
    ix: IdsToIndices,
    rest: Result<Seq<u8>, Error>,
) -> Result<Seq<u8>, Error> {
    if is_live(b, s) {
        join(block_type_bytes(seq_at(b, s).ty, ix), rest)
    } else {
        Err(Error::NotFound { kind: EntityKind::InstrSeq, id: s.index })
    }
}

/// Whether a legacy `try` has a `delegate` clause.
pub open spec fn has_delegate(cs: Seq<LegacyCatch>) -> bool {
    exists|i: int| 0 <= i < cs.len() && (#[trigger] cs[i]) is Delegate
}

/// The instructions of sequence `s`, with `s` pushed on the label stack; at
/// most `fuel` sequences deep.
pub open spec fn seq_bytes(
    b: Seq<Option<InstrSeq>>,
    s: InstrSeqId,
    stack: Seq<InstrSeqId>,
    ix: IdsToIndices,
    fuel: nat,
) -> Result<Seq<u8>, Error>
    decreases fuel, 0nat, 0nat,
{
    if fuel == 0 {
        Err(Error::Structure(Structure::Cycle))
    } else if !is_live(b, s) {
        Err(Error::NotFound { kind: EntityKind::InstrSeq, id: s.index })
    } else {
        instrs_bytes(b, seq_at(b, s).instrs@, stack.push(s), ix, (fuel - 1) as nat)
    }
}

pub open spec fn instrs_bytes(
    b: Seq<Option<InstrSeq>>,
    instrs: Seq<Instr>,
    stack: Seq<InstrSeqId>,
    ix: IdsToIndices,
    fuel: nat,
) -> Result<Seq<u8>, Error>
    decreases fuel, 3nat, instrs.len(),
{
    if instrs.len() == 0 {
        Ok(seq![])
    } else {
        join(instr_bytes(b, instrs[0], stack, ix, fuel), instrs_bytes(b, instrs.skip(1), stack, ix, fuel))
    }
}

/// One clause of a legacy `try` that has no `delegate`.
pub open spec fn catch_bytes(
    b: Seq<Option<InstrSeq>>,
    c: LegacyCatch,
    stack: Seq<InstrSeqId>,
    ix: IdsToIndices,
    fuel: nat,
) -> Result<Seq<u8>, Error>
    decreases fuel, 1nat, 0nat,
{
    match c {
        LegacyCatch::Catch { tag, handler } => join(
            indexed(0x07, ix.tags.index_of(tag.index), EntityKind::Tag, tag.index),
            seq_bytes(b, handler, stack, ix, fuel),
        ),
        LegacyCatch::CatchAll { handler } => cat(seq![0x19u8], seq_bytes(b, handler, stack, ix, fuel)),
        LegacyCatch::Delegate { .. } => Err(Error::Structure(Structure::MixedDelegate)),
    }
}

/// The handlers of a legacy `try` that has no `delegate`.
pub open spec fn catches_bytes(
    b: Seq<Option<InstrSeq>>,
    cs: Seq<LegacyCatch>,
    stack: Seq<InstrSeqId>,
    ix: IdsToIndices,
    fuel: nat,
) -> Result<Seq<u8>, Error>
    decreases fuel, 1nat, cs.len() + 1,
{
    if cs.len() == 0 {
        Ok(seq![])
    } else {
        join(catch_bytes(b, cs[0], stack, ix, fuel), catches_bytes(b, cs.skip(1), stack, ix, fuel))
    }
}

/// What follows the body of a legacy `try`.
pub open spec fn try_tail(
    b: Seq<Option<InstrSeq>>,
    cs: Seq<LegacyCatch>,
    stack: Seq<InstrSeqId>,
    ix: IdsToIndices,
    fuel: nat,
) -> Result<Seq<u8>, Error>
    decreases fuel, 2nat, 0nat,
{
    if cs.len() == 1 && cs[0] is Delegate {
        Ok(seq![0x18u8] + uleb(cs[0]->relative_depth as nat))
    } else if has_delegate(cs) {
        Err(Error::Structure(Structure::MixedDelegate))
    } else {
        join(catches_bytes(b, cs, stack, ix, fuel), Ok(seq![0x0Bu8]))
    }
}

/// One clause of a `try_table`, whose label is counted from outside it.
pub open spec fn table_catch_bytes(c: TryTableCatch, stack: Seq<InstrSeqId>, ix: IdsToIndices) -> Result<Seq<u8>, Error> {
    match c {
        TryTableCatch::Catch { tag, label } => join(
            indexed(0x00, ix.tags.index_of(tag.index), EntityKind::Tag, tag.index),
            label_bytes(stack, label),
        ),
        TryTableCatch::CatchRef { tag, label } => join(
            indexed(0x01, ix.tags.index_of(tag.index), EntityKind::Tag, tag.index),
            label_bytes(stack, label),
        ),
        TryTableCatch::CatchAll { label } => cat(seq![0x02u8], label_bytes(stack, label)),
        TryTableCatch::CatchAllRef { label } => cat(seq![0x03u8], label_bytes(stack, label)),
    }
}

pub open spec fn table_catches_bytes(cs: Seq<TryTableCatch>, stack: Seq<InstrSeqId>, ix: IdsToIndices) -> Result<
    Seq<u8>,
    Error,
>
    decreases cs.len(),
{
    if cs.len() == 0 {
        Ok(seq![])
    } else {
        join(table_catch_bytes(cs[0], stack, ix), table_catches_bytes(cs.skip(1), stack, ix))
    }
}

/// The encoding of one instruction under the label stack `stack`.
pub open spec fn instr_bytes(
    b: Seq<Option<InstrSeq>>,
    i: Instr,
    stack: Seq<InstrSeqId>,
    ix: IdsToIndices,
    fuel: nat,
) -> Result<Seq<u8>, Error>
    decreases fuel, 2nat, 1nat,
{
    match i {
        Instr::Block { seq } => cat(
            seq![0x02u8],
            typed(b, seq, ix, join(seq_bytes(b, seq, stack, ix, fuel), Ok(seq![0x0Bu8]))),
        ),
        Instr::Loop { seq } => cat(
            seq![0x03u8],
            typed(b, seq, ix, join(seq_bytes(b, seq, stack, ix, fuel), Ok(seq![0x0Bu8]))),
        ),
        Instr::IfElse { consequent, alternative } => cat(
            seq![0x04u8],
            typed(
                b,
                consequent,
                ix,
                join(
                    seq_bytes(b, consequent, stack, ix, fuel),
                    cat(seq![0x05u8], join(seq_bytes(b, alternative, stack, ix, fuel), Ok(seq![0x0Bu8]))),
                ),
            ),
        ),
        Instr::Br { block } => cat(seq![0x0Cu8], label_bytes(stack, block)),
        Instr::BrIf { block } => cat(seq![0x0Du8], label_bytes(stack, block)),
        Instr::Const { value } => Ok(raw_op_bytes(value_raw(value))),
        Instr::Drop => Ok(seq![0x1Au8]),
        Instr::Unreachable => Ok(seq![0x00u8]),
        Instr::Nop => Ok(seq![0x01u8]),
        Instr::Return => Ok(seq![0x0Fu8]),
        Instr::Call { func } => indexed(0x10, ix.funcs.index_of(func.index), EntityKind::Function, func.index),
        Instr::LocalGet { local } => Ok(seq![0x20u8] + uleb(local as nat)),
        Instr::LocalSet { local } => Ok(seq![0x21u8] + uleb(local as nat)),
        Instr::Throw { tag } => indexed(0x08, ix.tags.index_of(tag.index), EntityKind::Tag, tag.index),
        Instr::ThrowRef => Ok(seq![0x0Au8]),
        Instr::Rethrow { relative_depth } => Ok(seq![0x09u8] + uleb(relative_depth as nat)),
        Instr::Try { seq, catches } => cat(
            seq![0x06u8],
            typed(b, seq, ix, join(seq_bytes(b, seq, stack, ix, fuel), try_tail(b, catches@, stack, ix, fuel))),
        ),
        Instr::TryTable { seq, catches } => cat(
            seq![0x1Fu8],
            typed(
                b,
                seq,
                ix,
                if catches@.len() > u32::MAX {
                    Err(Error::Structure(Structure::TooLarge))
                } else {
                    cat(
                        uleb(catches@.len()),
                        join(
                            table_catches_bytes(catches@, stack, ix),
                            join(seq_bytes(b, seq, stack, ix, fuel), Ok(seq![0x0Bu8])),
                        ),
                    )
                },
            ),
        ),
    }
}

/// The expression of a function body whose outermost sequence is `entry`:
/// its instructions, then `end`.
pub open spec fn body_bytes(b: Seq<Option<InstrSeq>>, entry: InstrSeqId, ix: IdsToIndices) -> Result<Seq<u8>, Error> {
    join(seq_bytes(b, entry, seq![], ix, (b.len() + 1) as nat), Ok(seq![0x0Bu8]))
}


/// Whether a writer that returned `r` and took the sink from `before` to
/// `after` wrote what `spec` says: its bytes on success, its error on
/// failure.
pub open spec fn emitted(r: Result<(), Error>, spec: Result<Seq<u8>, Error>, before: Seq<u8>, after: Seq<u8>) -> bool {
    &&& (r is Ok) == (spec is Ok)
    &&& r is Ok ==> after == before + spec->Ok_0
    &&& r is Err ==> r->Err_0 == spec->Err_0
}

fn write_block_type(bt: BlockType, ix: &IdsToIndices, sink: &mut Vec<u8>) -> (r: Result<(), Error>)
    ensures
        emitted(r, block_type_bytes(bt, *ix), old(sink)@, final(sink)@),
{
    let ghost start = sink@;
    match bt {
        BlockType::Empty => sink.push(0x40),
        BlockType::Value(v) => write_val_type(v, sink),
        BlockType::Func(t) => match ix.types.get(t.index) {
            Some(i) => write_i64(i as i64, sink),
            None => {
                return Err(Error::NotFound { kind: EntityKind::Type, id: t.index });
            },
        },
    }
    assert(sink@ =~= start + block_type_bytes(bt, *ix)->Ok_0);
    Ok(())
}

/// How many labels lie between the top of `stack` and `target`.
fn label_index(stack: &Vec<InstrSeqId>, target: InstrSeqId) -> (r: Option<usize>)
    ensures
        r is Some == label_depth(stack@, target) is Some,
        r is Some ==> r->Some_0 as nat == label_depth(stack@, target)->Some_0,
{
    let len = stack.len();
    let mut j: usize = len;
    proof {
        assert(stack@.subrange(0, len as int) =~= stack@);
    }
    while j > 0
        invariant
            j <= len == stack@.len(),
            label_depth(stack@, target) == match label_depth(stack@.subrange(0, j as int), target) {
                Some(d) => Some(d + (len - j) as nat),
                None => None::<nat>,
            },
        decreases j,
    {
        let ghost pre = stack@.subrange(0, j as int);
        assert(pre.drop_last() =~= stack@.subrange(0, j - 1));
        assert(pre.last() == stack@[j - 1]);
        if stack[j - 1] == target {
            return Some(len - j);
        }
        j -= 1;
    }
    assert(stack@.subrange(0, 0) =~= Seq::<InstrSeqId>::empty());
    None
}

fn write_label(stack: &Vec<InstrSeqId>, target: InstrSeqId, sink: &mut Vec<u8>) -> (r: Result<(), Error>)
    ensures
        emitted(r, label_bytes(stack@, target), old(sink)@, final(sink)@),
{
    match label_index(stack, target) {
        Some(d) => {
            if d > 0xFFFF_FFFF {
                return Err(Error::Structure(Structure::TooLarge));
            }
            write_u32(d as u32, sink);
            Ok(())
        },
        None => Err(Error::Structure(Structure::LabelNotEnclosing)),
    }
}

/// Writes `op` and the index that `ix` gives, or fails with the lookup error.
fn write_indexed(op: u8, i: Result<u32, Error>, sink: &mut Vec<u8>) -> (r: Result<(), Error>)
    ensures
        i is Ok ==> r is Ok && final(sink)@ == old(sink)@ + seq![op] + uleb(i->Ok_0 as nat),
        i is Err ==> r == Err::<(), Error>(i->Err_0),
{
    match i {
        Ok(k) => {
            sink.push(op);
            write_u32(k, sink);
            Ok(())
        },
        Err(e) => Err(e),
    }
}

/// Writes the clauses of a `try_table`, their labels counted under `stack`.
fn write_table_catches(cs: &Vec<TryTableCatch>, stack: &Vec<InstrSeqId>, ix: &IdsToIndices, sink: &mut Vec<u8>) -> (r:
    Result<(), Error>)
    ensures
        emitted(r, table_catches_bytes(cs@, stack@, *ix), old(sink)@, final(sink)@),
{
    let ghost start = sink@;
    let ghost mut produced: Seq<u8> = seq![];
    let mut k: usize = 0;
    proof {
        assert(cs@.skip(0) =~= cs@);
        match table_catches_bytes(cs@, stack@, *ix) {
            Ok(t) => assert(produced + t =~= t),
            Err(_) => {},
        }
    }
    while k < cs.len()
        invariant
            k <= cs@.len(),
            sink@ == start + produced,
            start == old(sink)@,
            table_catches_bytes(cs@, stack@, *ix) == cat(produced, table_catches_bytes(cs@.skip(k as int), stack@, *ix)),
        decreases cs@.len() - k,
    {
        let ghost rest = cs@.skip(k as int);
        assert(rest[0] == cs@[k as int]);
        assert(rest.skip(1) =~= cs@.skip(k + 1));
        let ghost before = sink@;
        let r = match cs[k] {
            TryTableCatch::Catch { tag, label } => match write_indexed(0x00, ix.get_tag_index(tag), sink) {
                Ok(()) => write_label(stack, label, sink),
                Err(e) => Err(e),
            },
            TryTableCatch::CatchRef { tag, label } => match write_indexed(0x01, ix.get_tag_index(tag), sink) {
                Ok(()) => write_label(stack, label, sink),
                Err(e) => Err(e),
            },
            TryTableCatch::CatchAll { label } => {
                sink.push(0x02);
                write_label(stack, label, sink)
            },
            TryTableCatch::CatchAllRef { label } => {
                sink.push(0x03);
                write_label(stack, label, sink)
            },
        };
        match r {
            Ok(()) => {},
            Err(e) => {
                return Err(e);
            },
        }
        proof {
            let t = table_catch_bytes(cs@[k as int], stack@, *ix)->Ok_0;
            assert(sink@ =~= before + t);
            match table_catches_bytes(rest.skip(1), stack@, *ix) {
                Ok(u) => assert(produced + t + u =~= produced + (t + u)),
                Err(_) => {},
            }
            produced = produced + t;
        }
        k += 1;
    }
    proof {
        assert(cs@.skip(k as int) =~= Seq::<TryTableCatch>::empty());
        assert(produced + Seq::<u8>::empty() =~= produced);
    }
    Ok(())
}

/// Whether a legacy `try` has a `delegate` clause.
fn has_delegate_exec(cs: &Vec<LegacyCatch>) -> (r: bool)
    ensures
        r == has_delegate(cs@),
{
    let mut k: usize = 0;
    while k < cs.len()
        invariant
            k <= cs@.len(),
            forall|j: int| 0 <= j < k ==> !(#[trigger] cs@[j] is Delegate),
        decreases cs@.len() - k,
    {
        if matches!(cs[k], LegacyCatch::Delegate { .. }) {
            assert(cs@[k as int] is Delegate);
            return true;
        }
        k += 1;
    }
    false
}

impl FunctionBody {
    /// A body with no sequence yet.
    pub fn new() -> (r: FunctionBody)
        ensures
            r@ == Seq::<Option<InstrSeq>>::empty(),
    {
        FunctionBody { seqs: TombstoneArena::new() }
    }

    /// A new empty sequence of type `ty`, not yet placed in any construct.
    /// Its identifier exists at once, so branches can name it before it is
    /// filled.
    pub fn dangling_instr_seq(&mut self, ty: BlockType) -> (r: InstrSeqId)
        requires
            old(self)@.len() < usize::MAX,
        ensures
            r.index == old(self)@.len(),
            final(self)@.len() == old(self)@.len() + 1,
            final(self)@.subrange(0, old(self)@.len() as int) == old(self)@,
            is_live(final(self)@, r),
            seq_at(final(self)@, r).ty == ty,
            seq_at(final(self)@, r).instrs@ == Seq::<Instr>::empty(),
    {
        let ghost before = self@;
        let r = self.seqs.allocate(InstrSeq { ty, instrs: Vec::new() });
        assert(self@.subrange(0, before.len() as int) =~= before);
        InstrSeqId { index: r }
    }

    /// Appends `instr` to sequence `seq`.
    pub fn instr(&mut self, seq: InstrSeqId, instr: Instr) -> (r: Result<(), Error>)
        ensures
            is_live(old(self)@, seq) ==> r is Ok && final(self)@.len() == old(self)@.len()
                && (forall|i: int| 0 <= i < old(self)@.len() && i != seq.index ==> final(self)@[i] == old(self)@[i])
                && is_live(final(self)@, seq) && seq_at(final(self)@, seq).ty == seq_at(old(self)@, seq).ty
                && seq_at(final(self)@, seq).instrs@ == seq_at(old(self)@, seq).instrs@.push(instr),
            !is_live(old(self)@, seq) ==> r == Err::<(), Error>(Error::NotFound { kind: EntityKind::InstrSeq, id: seq.index })
                && final(self)@ == old(self)@,
    {
        match self.seqs.get_mut(seq.index) {
            Some(s) => {
                s.instrs.push(instr);
                Ok(())
            },
            None => Err(Error::NotFound { kind: EntityKind::InstrSeq, id: seq.index }),
        }
    }


    /// Writes the instructions of `s`, with `s` pushed on the label stack
    /// while they are written.
    fn encode_seq(
        &self,
        s: InstrSeqId,
        stack: &mut Vec<InstrSeqId>,
        ix: &IdsToIndices,
        sink: &mut Vec<u8>,
        fuel: usize,
    ) -> (r: Result<(), Error>)
        ensures
            final(stack)@ == old(stack)@,
            emitted(r, seq_bytes(self@, s, old(stack)@, *ix, fuel as nat), old(sink)@, final(sink)@),
        decreases fuel, 0int,
    {
        if fuel == 0 {
            return Err(Error::Structure(Structure::Cycle));
        }
        let seq = match self.seqs.get(s.index) {
            Some(seq) => seq,
            None => {
                return Err(Error::NotFound { kind: EntityKind::InstrSeq, id: s.index });
            },
        };
        let ghost start = sink@;
        let ghost inner = stack@.push(s);
        let ghost all = seq.instrs@;
        let ghost mut produced: Seq<u8> = seq![];
        stack.push(s);
        let mut k: usize = 0;
        proof {
            assert(all.skip(0) =~= all);
            match instrs_bytes(self@, all, inner, *ix, (fuel - 1) as nat) {
                Ok(t) => assert(produced + t =~= t),
                Err(_) => {},
            }
        }
        while k < seq.instrs.len()
            invariant
                fuel > 0,
                is_live(self@, s),
                all == seq_at(self@, s).instrs@,
                all == seq.instrs@,
                k <= all.len(),
                stack@ == inner,
                inner == old(stack)@.push(s),
                sink@ == start + produced,
                start == old(sink)@,
                instrs_bytes(self@, all, inner, *ix, (fuel - 1) as nat) == cat(
                    produced,
                    instrs_bytes(self@, all.skip(k as int), inner, *ix, (fuel - 1) as nat),
                ),
            decreases all.len() - k,
        {
            let ghost rest = all.skip(k as int);
            assert(rest[0] == all[k as int]);
            assert(rest.skip(1) =~= all.skip(k + 1));
            let ghost before = sink@;
            let r = self.encode_instr(&seq.instrs[k], stack, ix, sink, fuel - 1);
            match r {
                Ok(()) => {
                    proof {
                        let t = instr_bytes(self@, all[k as int], inner, *ix, (fuel - 1) as nat)->Ok_0;
                        match instrs_bytes(self@, rest.skip(1), inner, *ix, (fuel - 1) as nat) {
                            Ok(u) => assert(produced + t + u =~= produced + (t + u)),
                            Err(_) => {},
                        }
                        produced = produced + t;
                    }
                },
                Err(e) => {
                    stack.pop();
                    return Err(e);
                },
            }
            k += 1;
        }
        stack.pop();
        proof {
            assert(all.skip(k as int) =~= Seq::<Instr>::empty());
            assert(produced + Seq::<u8>::empty() =~= produced);
        }
        Ok(())
    }

    /// Writes the clauses of a legacy `try` that has no `delegate`, then `end`.
    fn encode_catches(
        &self,
        cs: &Vec<LegacyCatch>,
        stack: &mut Vec<InstrSeqId>,
        ix: &IdsToIndices,
        sink: &mut Vec<u8>,
        fuel: usize,
    ) -> (r: Result<(), Error>)
        requires
            !has_delegate(cs@),
        ensures
            final(stack)@ == old(stack)@,
            emitted(r, join(catches_bytes(self@, cs@, old(stack)@, *ix, fuel as nat), Ok(seq![0x0Bu8])), old(sink)@, final(sink)@),
        decreases fuel, 1int,
    {
        let ghost start = sink@;
        let ghost st = stack@;
        let ghost mut produced: Seq<u8> = seq![];
        let mut k: usize = 0;
        proof {
            assert(cs@.skip(0) =~= cs@);
            match catches_bytes(self@, cs@, st, *ix, fuel as nat) {
                Ok(t) => assert(produced + t =~= t),
                Err(_) => {},
            }
        }
        while k < cs.len()
            invariant
                !has_delegate(cs@),
                k <= cs@.len(),
                stack@ == st,
                st == old(stack)@,
                sink@ == start + produced,
                start == old(sink)@,
                catches_bytes(self@, cs@, st, *ix, fuel as nat) == cat(
                    produced,
                    catches_bytes(self@, cs@.skip(k as int), st, *ix, fuel as nat),
                ),
            decreases cs@.len() - k,
        {
            let ghost rest = cs@.skip(k as int);
            assert(rest[0] == cs@[k as int]);
            assert(rest.skip(1) =~= cs@.skip(k + 1));
            let ghost before = sink@;
            let r = match cs[k] {
                LegacyCatch::Catch { tag, handler } => {
                    match write_indexed(0x07, ix.get_tag_index(tag), sink) {
                        Ok(()) => {
                            let ghost mid = sink@;
                            let r = self.encode_seq(handler, stack, ix, sink, fuel);
                            proof {
                                if r is Ok {
                                    let h = seq_bytes(self@, handler, st, *ix, fuel as nat)->Ok_0;
                                    let ti = ix.tags.index_of(tag.index)->Some_0;
                                    assert(sink@ =~= before + ((seq![0x07u8] + uleb(ti as nat)) + h));
                                }
                            }
                            r
                        },
                        Err(e) => Err(e),
                    }
                },
                LegacyCatch::CatchAll { handler } => {
                    sink.push(0x19);
                    let r = self.encode_seq(handler, stack, ix, sink, fuel);
                    proof {
                        if r is Ok {
                            let h = seq_bytes(self@, handler, st, *ix, fuel as nat)->Ok_0;
                            assert(sink@ =~= before + (seq![0x19u8] + h));
                        }
                    }
                    r
                },
                LegacyCatch::Delegate { .. } => {
                    assert(cs@[k as int] is Delegate);
                    Err(Error::Structure(Structure::MixedDelegate))
                },
            };
            match r {
                Ok(()) => {},
                Err(e) => {
                    return Err(e);
                },
            }
            proof {
                let t = catch_bytes(self@, cs@[k as int], st, *ix, fuel as nat)->Ok_0;
                assert(sink@ =~= before + t);
                match catches_bytes(self@, rest.skip(1), st, *ix, fuel as nat) {
                    Ok(u) => assert(produced + t + u =~= produced + (t + u)),
                    Err(_) => {},
                }
                produced = produced + t;
            }
            k += 1;
        }
        sink.push(0x0B);
        proof {
            assert(cs@.skip(k as int) =~= Seq::<LegacyCatch>::empty());
            assert(sink@ =~= start + (produced + seq![0x0Bu8]));
        }
        Ok(())
    }


    /// Writes a sequence's block type, then its instructions, then `end`.
    fn encode_block(
        &self,
        s: InstrSeqId,
        stack: &mut Vec<InstrSeqId>,
        ix: &IdsToIndices,
        sink: &mut Vec<u8>,
        fuel: usize,
    ) -> (r: Result<(), Error>)
        ensures
            final(stack)@ == old(stack)@,
            emitted(
                r,
                typed(self@, s, *ix, join(seq_bytes(self@, s, old(stack)@, *ix, fuel as nat), Ok(seq![0x0Bu8]))),
                old(sink)@,
                final(sink)@,
            ),
        decreases fuel, 1int,
    {
        let ghost start = sink@;
        let ty = match self.seqs.get(s.index) {
            Some(seq) => seq.ty,
            None => {
                return Err(Error::NotFound { kind: EntityKind::InstrSeq, id: s.index });
            },
        };
        match write_block_type(ty, ix, sink) {
            Ok(()) => {},
            Err(e) => {
                return Err(e);
            },
        }
        let ghost a = sink@;
        match self.encode_seq(s, stack, ix, sink, fuel) {
            Ok(()) => {},
            Err(e) => {
                return Err(e);
            },
        }
        let ghost b = sink@;
        sink.push(0x0B);
        proof {
            let bt = block_type_bytes(ty, *ix)->Ok_0;
            let body = seq_bytes(self@, s, old(stack)@, *ix, fuel as nat)->Ok_0;
            assert(sink@ =~= start + (bt + (body + seq![0x0Bu8])));
        }
        Ok(())
    }

    /// Writes one instruction.
    fn encode_instr(
        &self,
        i: &Instr,
        stack: &mut Vec<InstrSeqId>,
        ix: &IdsToIndices,
        sink: &mut Vec<u8>,
        fuel: usize,
    ) -> (r: Result<(), Error>)
        ensures
            final(stack)@ == old(stack)@,
            emitted(r, instr_bytes(self@, *i, old(stack)@, *ix, fuel as nat), old(sink)@, final(sink)@),
        decreases fuel, 3int,
    {
        let ghost start = sink@;
        let ghost st = stack@;
        match i {
            Instr::Block { seq } => {
                sink.push(0x02);
                let r = self.encode_block(*seq, stack, ix, sink, fuel);
                proof {
                    if r is Ok {
                        let t = typed(self@, *seq, *ix, join(seq_bytes(self@, *seq, st, *ix, fuel as nat), Ok(seq![0x0Bu8])))->Ok_0;
                        assert(sink@ =~= start + (seq![0x02u8] + t));
                    }
                }
                r
            },
            Instr::Loop { seq } => {
                sink.push(0x03);
                let r = self.encode_block(*seq, stack, ix, sink, fuel);
                proof {
                    if r is Ok {
                        let t = typed(self@, *seq, *ix, join(seq_bytes(self@, *seq, st, *ix, fuel as nat), Ok(seq![0x0Bu8])))->Ok_0;
                        assert(sink@ =~= start + (seq![0x03u8] + t));
                    }
                }
                r
            },
            Instr::IfElse { consequent, alternative } => self.encode_if_else(*consequent, *alternative, stack, ix, sink, fuel),
            Instr::Br { block } => {
                sink.push(0x0C);
                let r = write_label(stack, *block, sink);
                proof {
                    if r is Ok {
                        assert(sink@ =~= start + (seq![0x0Cu8] + label_bytes(st, *block)->Ok_0));
                    }
                }
                r
            },
            Instr::BrIf { block } => {
                sink.push(0x0D);
                let r = write_label(stack, *block, sink);
                proof {
                    if r is Ok {
                        assert(sink@ =~= start + (seq![0x0Du8] + label_bytes(st, *block)->Ok_0));
                    }
                }
                r
            },
            Instr::Const { value } => {
                let op = match *value {
                    Value::I32(x) => ConstOp::I32Const(x),
                    Value::I64(x) => ConstOp::I64Const(x),
                    Value::F32(x) => ConstOp::F32Const(x),
                    Value::F64(x) => ConstOp::F64Const(x),
                    Value::V128(x) => ConstOp::V128Const(x),
                };
                assert(lower_op(op, *ix) == Ok::<RawConstOp, Error>(value_raw(*value)));
                encode_op(op, ix, sink)
            },
            Instr::Drop => {
                sink.push(0x1A);
                assert(sink@ =~= start + seq![0x1Au8]);
                Ok(())
            },
            Instr::Unreachable => {
                sink.push(0x00);
                assert(sink@ =~= start + seq![0x00u8]);
                Ok(())
            },
            Instr::Nop => {
                sink.push(0x01);
                assert(sink@ =~= start + seq![0x01u8]);
                Ok(())
            },
            Instr::Return => {
                sink.push(0x0F);
                assert(sink@ =~= start + seq![0x0Fu8]);
                Ok(())
            },
            Instr::ThrowRef => {
                sink.push(0x0A);
                assert(sink@ =~= start + seq![0x0Au8]);
                Ok(())
            },
            Instr::Call { func } => {
                let r = write_indexed(0x10, ix.get_func_index(*func), sink);
                proof {
                    if r is Ok {
                        assert(sink@ =~= start + (seq![0x10u8] + uleb(ix.funcs.index_of(func.index)->Some_0 as nat)));
                    }
                }
                r
            },
            Instr::Throw { tag } => {
                let r = write_indexed(0x08, ix.get_tag_index(*tag), sink);
                proof {
                    if r is Ok {
                        assert(sink@ =~= start + (seq![0x08u8] + uleb(ix.tags.index_of(tag.index)->Some_0 as nat)));
                    }
                }
                r
            },
            Instr::LocalGet { local } => {
                sink.push(0x20);
                write_u32(*local, sink);
                assert(sink@ =~= start + (seq![0x20u8] + uleb(*local as nat)));
                Ok(())
            },
            Instr::LocalSet { local } => {
                sink.push(0x21);
                write_u32(*local, sink);
                assert(sink@ =~= start + (seq![0x21u8] + uleb(*local as nat)));
                Ok(())
            },
            Instr::Rethrow { relative_depth } => {
                sink.push(0x09);
                write_u32(*relative_depth, sink);
                assert(sink@ =~= start + (seq![0x09u8] + uleb(*relative_depth as nat)));
                Ok(())
            },
            Instr::Try { seq, catches } => self.encode_try(*seq, catches, stack, ix, sink, fuel),
            Instr::TryTable { seq, catches } => self.encode_try_table(*seq, catches, stack, ix, sink, fuel),
        }
    }

    /// Writes an `if` with both arms.
    fn encode_if_else(
        &self,
        consequent: InstrSeqId,
        alternative: InstrSeqId,
        stack: &mut Vec<InstrSeqId>,
        ix: &IdsToIndices,
        sink: &mut Vec<u8>,
        fuel: usize,
    ) -> (r: Result<(), Error>)
        ensures
            final(stack)@ == old(stack)@,
            emitted(
                r,
                instr_bytes(self@, Instr::IfElse { consequent, alternative }, old(stack)@, *ix, fuel as nat),
                old(sink)@,
                final(sink)@,
            ),
        decreases fuel, 2int,
    {
        let ghost start = sink@;
        let ghost st = stack@;
            sink.push(0x04);
            let ty = match self.seqs.get(consequent.index) {
                Some(seq) => seq.ty,
                None => {
                    return Err(Error::NotFound { kind: EntityKind::InstrSeq, id: consequent.index });
                },
            };
            match write_block_type(ty, ix, sink) {
                Ok(()) => {},
                Err(e) => {
                    return Err(e);
                },
            }
            match self.encode_seq(consequent, stack, ix, sink, fuel) {
                Ok(()) => {},
                Err(e) => {
                    return Err(e);
                },
            }
            sink.push(0x05);
            match self.encode_seq(alternative, stack, ix, sink, fuel) {
                Ok(()) => {},
                Err(e) => {
                    return Err(e);
                },
            }
            sink.push(0x0B);
            proof {
                let bt = block_type_bytes(ty, *ix)->Ok_0;
                let c = seq_bytes(self@, consequent, st, *ix, fuel as nat)->Ok_0;
                let a = seq_bytes(self@, alternative, st, *ix, fuel as nat)->Ok_0;
                assert(sink@ =~= start + (seq![0x04u8] + (bt + (c + (seq![0x05u8] + (a + seq![0x0Bu8]))))));
            }
            Ok(())
    }

    /// Writes a legacy `try`.
    fn encode_try(
        &self,
        seq: InstrSeqId,
        catches: &Vec<LegacyCatch>,
        stack: &mut Vec<InstrSeqId>,
        ix: &IdsToIndices,
        sink: &mut Vec<u8>,
        fuel: usize,
    ) -> (r: Result<(), Error>)
        ensures
            final(stack)@ == old(stack)@,
            emitted(
                r,
                cat(seq![0x06u8], typed(self@, seq, *ix, join(seq_bytes(self@, seq, old(stack)@, *ix, fuel as nat), try_tail(self@, catches@, old(stack)@, *ix, fuel as nat)))),
                old(sink)@,
                final(sink)@,
            ),
        decreases fuel, 2int,
    {
        let ghost start = sink@;
        let ghost st = stack@;
            sink.push(0x06);
            let ty = match self.seqs.get(seq.index) {
                Some(sq) => sq.ty,
                None => {
                    return Err(Error::NotFound { kind: EntityKind::InstrSeq, id: seq.index });
                },
            };
            match write_block_type(ty, ix, sink) {
                Ok(()) => {},
                Err(e) => {
                    return Err(e);
                },
            }
            match self.encode_seq(seq, stack, ix, sink, fuel) {
                Ok(()) => {},
                Err(e) => {
                    return Err(e);
                },
            }
            let ghost mid = sink@;
            let r = if catches.len() == 1 && matches!(catches[0], LegacyCatch::Delegate { .. }) {
            match catches[0] {
                LegacyCatch::Delegate { relative_depth } => {
                    sink.push(0x18);
                    write_u32(relative_depth, sink);
                    assert(sink@ =~= mid + (seq![0x18u8] + uleb(relative_depth as nat)));
                    Ok(())
                },
                _ => Ok(()),
            }
        } else if has_delegate_exec(catches) {
            Err(Error::Structure(Structure::MixedDelegate))
        } else {
            self.encode_catches(catches, stack, ix, sink, fuel)
        };
            proof {
                if r is Ok {
                    let bt = block_type_bytes(ty, *ix)->Ok_0;
                    let body = seq_bytes(self@, seq, st, *ix, fuel as nat)->Ok_0;
                    let tail = try_tail(self@, catches@, st, *ix, fuel as nat)->Ok_0;
                    assert(sink@ =~= start + (seq![0x06u8] + (bt + (body + tail))));
                }
            }
            r
    }

    /// Writes a `try_table`.
    fn encode_try_table(
        &self,
        seq: InstrSeqId,
        catches: &Vec<TryTableCatch>,
        stack: &mut Vec<InstrSeqId>,
        ix: &IdsToIndices,
        sink: &mut Vec<u8>,
        fuel: usize,
    ) -> (r: Result<(), Error>)
        ensures
            final(stack)@ == old(stack)@,
            emitted(
                r,
                cat(seq![0x1Fu8], typed(self@, seq, *ix, if catches@.len() > u32::MAX {
                    Err(Error::Structure(Structure::TooLarge))
                } else {
                    cat(
                        uleb(catches@.len()),
                        join(
                            table_catches_bytes(catches@, old(stack)@, *ix),
                            join(seq_bytes(self@, seq, old(stack)@, *ix, fuel as nat), Ok(seq![0x0Bu8])),
                        ),
                    )
                })),
                old(sink)@,
                final(sink)@,
            ),
        decreases fuel, 2int,
    {
        let ghost start = sink@;
        let ghost st = stack@;
            sink.push(0x1F);
            let ty = match self.seqs.get(seq.index) {
                Some(sq) => sq.ty,
                None => {
                    return Err(Error::NotFound { kind: EntityKind::InstrSeq, id: seq.index });
                },
            };
            match write_block_type(ty, ix, sink) {
                Ok(()) => {},
                Err(e) => {
                    return Err(e);
                },
            }
            if catches.len() > 0xFFFF_FFFF {
                return Err(Error::Structure(Structure::TooLarge));
            }
            write_u32(catches.len() as u32, sink);
            let ghost a = sink@;
            match write_table_catches(catches, stack, ix, sink) {
                Ok(()) => {},
                Err(e) => {
                    return Err(e);
                },
            }
            let ghost b = sink@;
            let r = self.encode_seq(seq, stack, ix, sink, fuel);
            match r {
                Ok(()) => {},
                Err(e) => {
                    return Err(e);
                },
            }
            sink.push(0x0B);
            proof {
                let bt = block_type_bytes(ty, *ix)->Ok_0;
                let cb = table_catches_bytes(catches@, st, *ix)->Ok_0;
                let body = seq_bytes(self@, seq, st, *ix, fuel as nat)->Ok_0;
                assert(sink@ =~= start + (seq![0x1Fu8] + (bt + (uleb(catches@.len()) + (cb + (body + seq![0x0Bu8]))))));
            }
            Ok(())
    }

    /// The expression of the function body whose outermost sequence is
    /// `entry`: its instructions, then `end`. Branches name sequences, and
    /// are written as the number of labels between them and their target.
    pub fn emit(&self, entry: InstrSeqId, ix: &IdsToIndices) -> (r: Result<Vec<u8>, Error>)
        requires
            self@.len() < usize::MAX,
        ensures
            (r is Ok) == (body_bytes(self@, entry, *ix) is Ok),
            r is Ok ==> r->Ok_0@ == body_bytes(self@, entry, *ix)->Ok_0,
            r is Err ==> r->Err_0 == body_bytes(self@, entry, *ix)->Err_0,
    {
        let mut stack: Vec<InstrSeqId> = Vec::new();
        let mut sink: Vec<u8> = Vec::new();
        let fuel = self.seqs.next_id() + 1;
        assert(stack@ =~= Seq::<InstrSeqId>::empty());
        match self.encode_seq(entry, &mut stack, ix, &mut sink, fuel) {
            Ok(()) => {},
            Err(e) => {
                return Err(e);
            },
        }
        sink.push(0x0B);
        Ok(sink)
    }

    /// The sequence with this identifier.
    pub fn get(&self, seq: InstrSeqId) -> (r: Result<&InstrSeq, Error>)
        ensures
            is_live(self@, seq) ==> r == Ok::<&InstrSeq, Error>(&seq_at(self@, seq)),
            !is_live(self@, seq) ==> r == Err::<&InstrSeq, Error>(Error::NotFound { kind: EntityKind::InstrSeq, id: seq.index }),
    {
        match self.seqs.get(seq.index) {
            Some(s) => Ok(s),
            None => Err(Error::NotFound { kind: EntityKind::InstrSeq, id: seq.index }),
        }
    }
}

} // verus!
