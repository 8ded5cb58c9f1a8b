//! Constant expressions: global initializers and element or data offsets.

use crate::encoding::{
    le_value, read_i32_at, read_i64_at, read_u32_at,
    le_bytes, lemma_first_byte, lemma_le_round_trip, lemma_le_unique, lemma_pow256_bound, lemma_sleb_unique, lemma_uleb_unique, pow256, read_i32, read_i64, read_le, read_u32, sleb, starts_with,
    uleb, write_i32, write_i64, write_le, write_u32,
};
use crate::error::{EntityKind, Error, Unsupported};
use crate::ids::{FunctionId, GlobalId};
use crate::indices::{IdsToIndices, IndicesToIds};
use crate::ty::{AbstractHeapType, HeapType, RefType};
use vstd::prelude::*;
use wasm_encoder::ConstExpr as EncoderExpr;

verus! {

/// An immediate value. Floats are held as their IEEE 754 bit patterns.
#[derive(Debug, Clone, Copy, PartialEq, Eq, Structural)]
pub enum Value {
    I32(i32),
    I64(i64),
    /// The bits of a 32-bit float.
    F32(u32),
    /// The bits of a 64-bit float.
    F64(u64),
    V128(u128),
}

/// Operations allowed in extended constant expressions.
#[derive(Debug, Clone, Copy, PartialEq, Eq, Structural)]
pub enum ConstOp {
    I32Const(i32),
    I64Const(i64),
    /// An f32 constant, by its bits.
    F32Const(u32),
    /// An f64 constant, by its bits.
    F64Const(u64),
    V128Const(u128),
    GlobalGet(GlobalId),
    RefNull(RefType),
    RefFunc(FunctionId),
    I32Add,
    I32Sub,
    I32Mul,
    I64Add,
    I64Sub,
    I64Mul,
}

/// An operation of a constant expression as it stands in the binary, with
/// raw indices.
#[derive(Debug, Clone, Copy, PartialEq, Eq, Structural)]
pub enum RawConstOp {
    I32Const(i32),
    I64Const(i64),
    F32Const(u32),
    F64Const(u64),
    V128Const(u128),
    GlobalGet(u32),
    RefNull(AbstractHeapType),
    RefFunc(u32),
    I32Add,
    I32Sub,
    I32Mul,
    I64Add,
    I64Sub,
    I64Mul,
}

/// A constant expression.
#[derive(Debug, Clone)]
pub enum ConstExpr {
    /// An immediate constant value.
    Value(Value),
    /// The value of a global.
    Global(GlobalId),
    /// A null reference.
    RefNull(RefType),
    /// A function reference.
    RefFunc(FunctionId),
    /// A sequence of operations.
    Extended(Vec<ConstOp>),
}

/// What a `ConstExpr` denotes.
pub enum ConstExprModel {
    Value(Value),
    Global(GlobalId),
    RefNull(RefType),
    RefFunc(FunctionId),
    Extended(Seq<ConstOp>),
}

impl View for ConstExpr {
    type V = ConstExprModel;

    open spec fn view(&self) -> ConstExprModel {
        match self {
            ConstExpr::Value(v) => ConstExprModel::Value(*v),
            ConstExpr::Global(g) => ConstExprModel::Global(*g),
            ConstExpr::RefNull(t) => ConstExprModel::RefNull(*t),
            ConstExpr::RefFunc(f) => ConstExprModel::RefFunc(*f),
            ConstExpr::Extended(ops) => ConstExprModel::Extended(ops@),
        }
    }
}

/// The operation that pushes `v`.
pub open spec fn value_op(v: Value) -> ConstOp {
    match v {
        Value::I32(x) => ConstOp::I32Const(x),
        Value::I64(x) => ConstOp::I64Const(x),
        Value::F32(x) => ConstOp::F32Const(x),
        Value::F64(x) => ConstOp::F64Const(x),
        Value::V128(x) => ConstOp::V128Const(x),
    }
}

/// The operations that an expression stands for.
pub open spec fn as_ops(e: ConstExprModel) -> Seq<ConstOp> {
    match e {
        ConstExprModel::Value(v) => seq![value_op(v)],
        ConstExprModel::Global(g) => seq![ConstOp::GlobalGet(g)],
        ConstExprModel::RefNull(t) => seq![ConstOp::RefNull(t)],
        ConstExprModel::RefFunc(f) => seq![ConstOp::RefFunc(f)],
        ConstExprModel::Extended(ops) => ops,
    }
}

/// The simple form of a single operation that has one, else the sequence.
pub open spec fn canonical(ops: Seq<ConstOp>) -> ConstExprModel {
    if ops.len() == 1 {
        match ops[0] {
            ConstOp::I32Const(x) => ConstExprModel::Value(Value::I32(x)),
            ConstOp::I64Const(x) => ConstExprModel::Value(Value::I64(x)),
            ConstOp::F32Const(x) => ConstExprModel::Value(Value::F32(x)),
            ConstOp::F64Const(x) => ConstExprModel::Value(Value::F64(x)),
            ConstOp::V128Const(x) => ConstExprModel::Value(Value::V128(x)),
            ConstOp::GlobalGet(g) => ConstExprModel::Global(g),
            ConstOp::RefNull(t) => ConstExprModel::RefNull(t),
            ConstOp::RefFunc(f) => ConstExprModel::RefFunc(f),
            _ => ConstExprModel::Extended(ops),
        }
    } else {
        ConstExprModel::Extended(ops)
    }
}

/// The byte that stands for an abstract heap type.
pub open spec fn heap_code(a: AbstractHeapType) -> u8 {
    match a {
        AbstractHeapType::Func => 0x70,
        AbstractHeapType::Extern => 0x6F,
        AbstractHeapType::Any => 0x6E,
        AbstractHeapType::NoneType => 0x71,
        AbstractHeapType::NoExtern => 0x72,
        AbstractHeapType::NoFunc => 0x73,
        AbstractHeapType::Eq => 0x6D,
        AbstractHeapType::Struct => 0x6B,
        AbstractHeapType::Array => 0x6A,
        AbstractHeapType::I31 => 0x6C,
        AbstractHeapType::Exn => 0x69,
        AbstractHeapType::NoExn => 0x74,
    }
}

/// The first byte of an operation's encoding.
pub open spec fn opcode(op: RawConstOp) -> u8 {
    match op {
        RawConstOp::I32Const(_) => 0x41,
        RawConstOp::I64Const(_) => 0x42,
        RawConstOp::F32Const(_) => 0x43,
        RawConstOp::F64Const(_) => 0x44,
        RawConstOp::V128Const(_) => 0xFD,
        RawConstOp::GlobalGet(_) => 0x23,
        RawConstOp::RefNull(_) => 0xD0,
        RawConstOp::RefFunc(_) => 0xD2,
        RawConstOp::I32Add => 0x6A,
        RawConstOp::I32Sub => 0x6B,
        RawConstOp::I32Mul => 0x6C,
        RawConstOp::I64Add => 0x7C,
        RawConstOp::I64Sub => 0x7D,
        RawConstOp::I64Mul => 0x7E,
    }
}

/// The bytes of an operation's encoding that follow its opcode.
pub open spec fn immediates(op: RawConstOp) -> Seq<u8> {
    match op {
        RawConstOp::I32Const(x) => sleb(x as int),
        RawConstOp::I64Const(x) => sleb(x as int),
        RawConstOp::F32Const(x) => le_bytes(x as nat, 4),
        RawConstOp::F64Const(x) => le_bytes(x as nat, 8),
        RawConstOp::V128Const(x) => uleb(12) + le_bytes(x as nat, 16),
        RawConstOp::GlobalGet(i) => uleb(i as nat),
        RawConstOp::RefNull(a) => seq![heap_code(a)],
        RawConstOp::RefFunc(i) => uleb(i as nat),
        _ => seq![],
    }
}

/// The encoding of one operation.
pub open spec fn raw_op_bytes(op: RawConstOp) -> Seq<u8> {
    seq![opcode(op)] + immediates(op)
}

/// The encoding of a sequence of operations, without the closing `end`.
pub open spec fn raw_ops_bytes(ops: Seq<RawConstOp>) -> Seq<u8>
    decreases ops.len(),
{
    if ops.len() == 0 {
        seq![]
    } else {
        raw_op_bytes(ops[0]) + raw_ops_bytes(ops.skip(1))
    }
}

/// The byte that closes an expression.
pub open spec fn end_byte() -> u8 {
    0x0B
}

/// Whether decoding reads the operation back as it is: a `ref.null` in a
/// constant expression must be of `func` or `extern`.
pub open spec fn supported(op: RawConstOp) -> bool {
    op is RefNull ==> (op->RefNull_0 == AbstractHeapType::Func || op->RefNull_0 == AbstractHeapType::Extern)
}

/// Whether `x` is the first byte of an operation allowed in a constant
/// expression.
pub open spec fn is_opcode(x: u8) -> bool {
    x == 0x41 || x == 0x42 || x == 0x43 || x == 0x44 || x == 0xFD || x == 0x23 || x == 0xD0 || x == 0xD2
        || x == 0x6A || x == 0x6B || x == 0x6C || x == 0x7C || x == 0x7D || x == 0x7E
}

/// Whether `b` is the encoding of the operations `w`, followed by `tail`,
/// where `tail` does not start with an operation: decoding reads `w`, then
/// stops at `tail`.
pub open spec fn splits(b: Seq<u8>, w: Seq<RawConstOp>, tail: Seq<u8>) -> bool {
    &&& forall|i: int| 0 <= i < w.len() ==> supported(#[trigger] w[i])
    &&& b == raw_ops_bytes(w) + tail
    &&& (tail.len() == 0 || !is_opcode(tail[0]))
}

pub open spec fn has_split(b: Seq<u8>) -> bool {
    exists|p: (Seq<RawConstOp>, Seq<u8>)| splits(b, p.0, p.1)
}

/// The split of `b`, when it has one (it then has only one).
pub open spec fn the_split(b: Seq<u8>) -> (Seq<RawConstOp>, Seq<u8>) {
    choose|p: (Seq<RawConstOp>, Seq<u8>)| splits(b, p.0, p.1)
}

/// What `eval` gives for input `b` split into operations `w` and a tail:
/// the first resolution error among `w`; else, for a tail of `end` alone,
/// the canonical expression; for no tail, a truncation; for bytes after
/// `end`, an error at the first of them; otherwise the unsupported opcode.
pub open spec fn split_outcome(b: Seq<u8>, w: Seq<RawConstOp>, tail: Seq<u8>, ids: IndicesToIds) -> Result<
    ConstExprModel,
    Error,
> {
    match lift(w, ids) {
        Err(e) => Err(e),
        Ok(ops) => if tail.len() == 0 {
            Err(Error::Decode { offset: b.len() as usize })
        } else if tail[0] == end_byte() {
            if tail.len() == 1 {
                Ok(canonical(ops))
            } else {
                Err(Error::Decode { offset: (raw_ops_bytes(w).len() + 1) as usize })
            }
        } else {
            Err(Error::UnsupportedFeature(Unsupported::Operation(tail[0])))
        },
    }
}

/// `r` with `s` put in front of its success value.
pub open spec fn prepend<T>(s: Seq<T>, r: Result<Seq<T>, Error>) -> Result<Seq<T>, Error> {
    match r {
        Ok(t) => Ok(s + t),
        Err(e) => Err(e),
    }
}

/// The operation with its raw indices resolved, or the resolution error.
pub open spec fn lift_op(op: RawConstOp, ids: IndicesToIds) -> Result<ConstOp, Error> {
    match op {
        RawConstOp::I32Const(x) => Ok(ConstOp::I32Const(x)),
        RawConstOp::I64Const(x) => Ok(ConstOp::I64Const(x)),
        RawConstOp::F32Const(x) => Ok(ConstOp::F32Const(x)),
        RawConstOp::F64Const(x) => Ok(ConstOp::F64Const(x)),
        RawConstOp::V128Const(x) => Ok(ConstOp::V128Const(x)),
        RawConstOp::GlobalGet(i) => if (i as int) < ids.spec_globals().len() {
            Ok(ConstOp::GlobalGet(ids.spec_globals()[i as int]))
        } else {
            Err(Error::Resolution { kind: EntityKind::Global, index: i })
        },
        RawConstOp::RefNull(a) => Ok(ConstOp::RefNull(RefType { nullable: true, heap_type: HeapType::Abstract(a) })),
        RawConstOp::RefFunc(i) => if (i as int) < ids.spec_funcs().len() {
            Ok(ConstOp::RefFunc(ids.spec_funcs()[i as int]))
        } else {
            Err(Error::Resolution { kind: EntityKind::Function, index: i })
        },
        RawConstOp::I32Add => Ok(ConstOp::I32Add),
        RawConstOp::I32Sub => Ok(ConstOp::I32Sub),
        RawConstOp::I32Mul => Ok(ConstOp::I32Mul),
        RawConstOp::I64Add => Ok(ConstOp::I64Add),
        RawConstOp::I64Sub => Ok(ConstOp::I64Sub),
        RawConstOp::I64Mul => Ok(ConstOp::I64Mul),
    }
}

/// The operations with their raw indices resolved, or the first error.
pub open spec fn lift(w: Seq<RawConstOp>, ids: IndicesToIds) -> Result<Seq<ConstOp>, Error>
    decreases w.len(),
{
    if w.len() == 0 {
        Ok(seq![])
    } else {
        match lift_op(w[0], ids) {
            Ok(op) => prepend(seq![op], lift(w.skip(1), ids)),
            Err(e) => Err(e),
        }
    }
}

/// The operation with its identifiers replaced by emitted indices, or the
/// reason it cannot be encoded.
pub open spec fn lower_op(op: ConstOp, ix: IdsToIndices) -> Result<RawConstOp, Error> {
    match op {
        ConstOp::I32Const(x) => Ok(RawConstOp::I32Const(x)),
        ConstOp::I64Const(x) => Ok(RawConstOp::I64Const(x)),
        ConstOp::F32Const(x) => Ok(RawConstOp::F32Const(x)),
        ConstOp::F64Const(x) => Ok(RawConstOp::F64Const(x)),
        ConstOp::V128Const(x) => Ok(RawConstOp::V128Const(x)),
        ConstOp::GlobalGet(g) => match ix.globals.index_of(g.index) {
            Some(i) => Ok(RawConstOp::GlobalGet(i)),
            None => Err(Error::NotFound { kind: EntityKind::Global, id: g.index }),
        },
        ConstOp::RefNull(t) => match t.heap_type {
            HeapType::Abstract(a) => Ok(RawConstOp::RefNull(a)),
            HeapType::Concrete(_) => Err(Error::UnsupportedFeature(Unsupported::ConcreteHeapType)),
        },
        ConstOp::RefFunc(f) => match ix.funcs.index_of(f.index) {
            Some(i) => Ok(RawConstOp::RefFunc(i)),
            None => Err(Error::NotFound { kind: EntityKind::Function, id: f.index }),
        },
        ConstOp::I32Add => Ok(RawConstOp::I32Add),
        ConstOp::I32Sub => Ok(RawConstOp::I32Sub),
        ConstOp::I32Mul => Ok(RawConstOp::I32Mul),
        ConstOp::I64Add => Ok(RawConstOp::I64Add),
        ConstOp::I64Sub => Ok(RawConstOp::I64Sub),
        ConstOp::I64Mul => Ok(RawConstOp::I64Mul),
    }
}

/// The operations with their identifiers replaced, or the first error.
pub open spec fn lower(ops: Seq<ConstOp>, ix: IdsToIndices) -> Result<Seq<RawConstOp>, Error>
    decreases ops.len(),
{
    if ops.len() == 0 {
        Ok(seq![])
    } else {
        match lower_op(ops[0], ix) {
            Ok(op) => prepend(seq![op], lower(ops.skip(1), ix)),
            Err(e) => Err(e),
        }
    }
}

/// The bytes of an expression, without the closing `end`, or the reason it
/// cannot be encoded.
pub open spec fn expr_bytes(e: ConstExprModel, ix: IdsToIndices) -> Result<Seq<u8>, Error> {
    match lower(as_ops(e), ix) {
        Ok(raw) => Ok(raw_ops_bytes(raw)),
        Err(err) => Err(err),
    }
}

pub open spec fn result_view(r: Result<ConstExpr, Error>) -> Result<ConstExprModel, Error> {
    match r {
        Ok(e) => Ok(e@),
        Err(e) => Err(e),
    }
}

/// A prefix made of two parts: each part starts where it should.
pub proof fn lemma_starts_with_split(b: Seq<u8>, pos: int, x: Seq<u8>, y: Seq<u8>)
    requires
        starts_with(b, pos, x + y),
    ensures
        starts_with(b, pos, x),
        starts_with(b, pos + x.len(), y),
{
    let whole = b.subrange(pos, pos + (x + y).len());
    assert(whole == x + y);
    assert(b.subrange(pos, pos + x.len()) =~= whole.subrange(0, x.len() as int));
    assert(whole.subrange(0, x.len() as int) =~= x);
    assert(b.subrange(pos + x.len(), pos + x.len() + y.len()) =~= whole.subrange(
        x.len() as int,
        (x.len() + y.len()) as int,
    ));
    assert(whole.subrange(x.len() as int, (x.len() + y.len()) as int) =~= y);
}

/// What decoding one operation at `pos` gives: the operation, or `None` for
/// `end`, with the offset after it; or the error.
pub open spec fn decode_op(b: Seq<u8>, pos: int) -> Result<(Option<RawConstOp>, int), Error> {
    let len = b.len() as int;
    let p = pos + 1;
    if pos < 0 || pos >= len {
        Err(Error::Decode { offset: pos as usize })
    } else {
        let x = b[pos];
        if x == 0x0B {
            Ok((None, p))
        } else if x == 0x41 {
            match read_i32_at(b, p) {
                Some((v, n)) => Ok((Some(RawConstOp::I32Const(v)), p + n)),
                None => Err(Error::Decode { offset: p as usize }),
            }
        } else if x == 0x42 {
            match read_i64_at(b, p) {
                Some((v, n)) => Ok((Some(RawConstOp::I64Const(v)), p + n)),
                None => Err(Error::Decode { offset: p as usize }),
            }
        } else if x == 0x43 {
            if len - p < 4 {
                Err(Error::Decode { offset: p as usize })
            } else {
                Ok((Some(RawConstOp::F32Const(le_value(b.subrange(p, p + 4)) as u32)), p + 4))
            }
        } else if x == 0x44 {
            if len - p < 8 {
                Err(Error::Decode { offset: p as usize })
            } else {
                Ok((Some(RawConstOp::F64Const(le_value(b.subrange(p, p + 8)) as u64)), p + 8))
            }
        } else if x == 0xFD {
            match read_u32_at(b, p) {
                Some((sub, n)) => if sub != 12 {
                    Err(Error::UnsupportedFeature(Unsupported::Operation(0xFD)))
                } else if len - (p + n) < 16 {
                    Err(Error::Decode { offset: (p + n) as usize })
                } else {
                    Ok((Some(RawConstOp::V128Const(le_value(b.subrange(p + n, p + n + 16)) as u128)), p + n + 16))
                },
                None => Err(Error::Decode { offset: p as usize }),
            }
        } else if x == 0x23 {
            match read_u32_at(b, p) {
                Some((v, n)) => Ok((Some(RawConstOp::GlobalGet(v)), p + n)),
                None => Err(Error::Decode { offset: p as usize }),
            }
        } else if x == 0xD2 {
            match read_u32_at(b, p) {
                Some((v, n)) => Ok((Some(RawConstOp::RefFunc(v)), p + n)),
                None => Err(Error::Decode { offset: p as usize }),
            }
        } else if x == 0xD0 {
            decode_ref_null(b, p)
        } else if x == 0x6A {
            Ok((Some(RawConstOp::I32Add), p))
        } else if x == 0x6B {
            Ok((Some(RawConstOp::I32Sub), p))
        } else if x == 0x6C {
            Ok((Some(RawConstOp::I32Mul), p))
        } else if x == 0x7C {
            Ok((Some(RawConstOp::I64Add), p))
        } else if x == 0x7D {
            Ok((Some(RawConstOp::I64Sub), p))
        } else if x == 0x7E {
            Ok((Some(RawConstOp::I64Mul), p))
        } else {
            Err(Error::UnsupportedFeature(Unsupported::Operation(x)))
        }
    }
}

/// The heap type of a `ref.null` at `p`: `func` or `extern`, possibly
/// behind the `shared` prefix 0x65; a type index (a first byte below 0x40
/// or with the continuation bit) or any other heap type is not supported.
pub open spec fn decode_ref_null(b: Seq<u8>, p: int) -> Result<(Option<RawConstOp>, int), Error> {
    let len = b.len() as int;
    if p >= len {
        Err(Error::Decode { offset: p as usize })
    } else {
        let h = b[p];
        if h == 0x70 {
            Ok((Some(RawConstOp::RefNull(AbstractHeapType::Func)), p + 1))
        } else if h == 0x6F {
            Ok((Some(RawConstOp::RefNull(AbstractHeapType::Extern)), p + 1))
        } else if h == 0x65 {
            if p + 1 >= len {
                Err(Error::Decode { offset: (p + 1) as usize })
            } else if b[p + 1] == 0x70 {
                Ok((Some(RawConstOp::RefNull(AbstractHeapType::Func)), p + 2))
            } else if b[p + 1] == 0x6F {
                Ok((Some(RawConstOp::RefNull(AbstractHeapType::Extern)), p + 2))
            } else {
                Err(Error::UnsupportedFeature(Unsupported::ConstHeapType))
            }
        } else if h < 0x40 || h >= 0x80 {
            Err(Error::UnsupportedFeature(Unsupported::ConcreteHeapType))
        } else {
            Err(Error::UnsupportedFeature(Unsupported::ConstHeapType))
        }
    }
}

/// The operations decoded from `pos` on up to `end`, resolved, or the first
/// error; bytes after `end` are an error at the first of them.
pub open spec fn eval_ops(b: Seq<u8>, pos: int, ids: IndicesToIds) -> Result<Seq<ConstOp>, Error>
    decreases b.len() - pos,
{
    if pos < 0 || pos > b.len() {
        Err(Error::Decode { offset: 0 })
    } else {
        match decode_op(b, pos) {
            Err(e) => Err(e),
            Ok((None, next)) => if next != b.len() {
                Err(Error::Decode { offset: next as usize })
            } else {
                Ok(seq![])
            },
            Ok((Some(raw), next)) => if next <= pos || next > b.len() {
                Err(Error::Decode { offset: pos as usize })
            } else {
                match lift_op(raw, ids) {
                    Err(e) => Err(e),
                    Ok(op) => prepend(seq![op], eval_ops(b, next, ids)),
                }
            },
        }
    }
}

/// What `eval` gives for `b`: the decoded operations, resolved and in
/// canonical form, or the first error.
pub open spec fn eval_spec(b: Seq<u8>, ids: IndicesToIds) -> Result<ConstExprModel, Error> {
    match eval_ops(b, 0, ids) {
        Ok(ops) => Ok(canonical(ops)),
        Err(e) => Err(e),
    }
}

/// The encoding of an operation, or of the closing `end` for `None`.
pub open spec fn item_bytes(item: Option<RawConstOp>) -> Seq<u8> {
    match item {
        Some(op) => raw_op_bytes(op),
        None => seq![end_byte()],
    }
}

/// Whether `b` holds the encoding of `item` from `pos` on, and decoding can
/// read it back.
pub open spec fn expected_at(b: Seq<u8>, pos: int, item: Option<RawConstOp>) -> bool {
    &&& item is Some ==> supported(item->Some_0)
    &&& starts_with(b, pos, item_bytes(item))
}

proof fn lemma_head(b: Seq<u8>, pos: int, x: u8, y: Seq<u8>)
    requires
        starts_with(b, pos, seq![x] + y),
    ensures
        b[pos] == x,
        starts_with(b, pos + 1, y),
{
    lemma_starts_with_split(b, pos, seq![x], y);
    assert(b.subrange(pos, pos + 1)[0] == b[pos]);
}

/// Decodes the operation, or the closing `end` (`None`), that starts at
/// `pos`, and returns it with the offset that follows it, as `decode_op`
/// says. Where `b` holds the encoding of `expect` there, that is what it
/// returns.
fn read_op(bytes: &[u8], pos: usize, Ghost(expect): Ghost<Option<RawConstOp>>) -> (r: Result<
    (Option<RawConstOp>, usize),
    Error,
>)
    requires
        pos <= bytes@.len(),
    ensures
        r is Ok ==> pos < r->Ok_0.1 <= bytes@.len(),
        (r is Ok) == (decode_op(bytes@, pos as int) is Ok),
        r is Ok ==> r->Ok_0.0 == decode_op(bytes@, pos as int)->Ok_0.0 && r->Ok_0.1 as int == decode_op(
            bytes@,
            pos as int,
        )->Ok_0.1,
        r is Err ==> r->Err_0 == decode_op(bytes@, pos as int)->Err_0,
        expected_at(bytes@, pos as int, expect) ==> r == Ok::<(Option<RawConstOp>, usize), Error>(
            (expect, (pos + item_bytes(expect).len()) as usize),
        ),
        pos == bytes@.len() ==> r == Err::<(Option<RawConstOp>, usize), Error>(Error::Decode { offset: pos }),
        pos < bytes@.len() && bytes@[pos as int] == end_byte() ==> r == Ok::<(Option<RawConstOp>, usize), Error>(
            (None, (pos + 1) as usize),
        ),
        pos < bytes@.len() && bytes@[pos as int] != end_byte() && !is_opcode(bytes@[pos as int]) ==> r == Err::<
            (Option<RawConstOp>, usize),
            Error,
        >(Error::UnsupportedFeature(Unsupported::Operation(bytes@[pos as int]))),
{
    let len = bytes.len();
    if pos >= len {
        return Err(Error::Decode { offset: pos });
    }
    let b = bytes[pos];
    let p = pos + 1;
    let ghost exp = expected_at(bytes@, pos as int, expect);
    proof {
        if exp {
            match expect {
                Some(op) => lemma_head(bytes@, pos as int, opcode(op), immediates(op)),
                None => lemma_head(bytes@, pos as int, end_byte(), seq![]),
            }
        }
    }
    if b == 0x0B {
        Ok((None, p))
    } else if b == 0x41 {
        proof {
            if exp {
                assert(starts_with(bytes@, p as int, sleb(expect->Some_0->I32Const_0 as int)));
            }
        }
        match read_i32(bytes, p) {
            Some((v, n)) => Ok((Some(RawConstOp::I32Const(v)), p + n)),
            None => Err(Error::Decode { offset: p }),
        }
    } else if b == 0x42 {
        proof {
            if exp {
                assert(starts_with(bytes@, p as int, sleb(expect->Some_0->I64Const_0 as int)));
            }
        }
        match read_i64(bytes, p) {
            Some((v, n)) => Ok((Some(RawConstOp::I64Const(v)), p + n)),
            None => Err(Error::Decode { offset: p }),
        }
    } else if b == 0x43 {
        proof {
            if exp {
                reveal_with_fuel(pow256, 5);
                lemma_le_round_trip(expect->Some_0->F32Const_0 as nat, 4);
            }
        }
        if len - p < 4 {
            return Err(Error::Decode { offset: p });
        }
        let v = read_le(bytes, p, 4);
        proof {
            reveal_with_fuel(pow256, 5);
        }
        Ok((Some(RawConstOp::F32Const(v as u32)), p + 4))
    } else if b == 0x44 {
        proof {
            if exp {
                reveal_with_fuel(pow256, 9);
                lemma_le_round_trip(expect->Some_0->F64Const_0 as nat, 8);
            }
        }
        if len - p < 8 {
            return Err(Error::Decode { offset: p });
        }
        let v = read_le(bytes, p, 8);
        proof {
            reveal_with_fuel(pow256, 9);
        }
        Ok((Some(RawConstOp::F64Const(v as u64)), p + 8))
    } else if b == 0xFD {
        proof {
            if exp {
                let x = expect->Some_0->V128Const_0;
                lemma_starts_with_split(bytes@, p as int, uleb(12), le_bytes(x as nat, 16));
                assert(uleb(12) =~= seq![12u8]);
                lemma_pow256_bound(15);
                lemma_le_round_trip(x as nat, 16);
            }
        }
        match read_u32(bytes, p) {
            Some((sub, n)) => {
                if sub != 12 {
                    return Err(Error::UnsupportedFeature(Unsupported::Operation(b)));
                }
                let q = p + n;
                if len - q < 16 {
                    return Err(Error::Decode { offset: q });
                }
                let v = read_le(bytes, q, 16);
                proof {
                    if exp {
                        let x = expect->Some_0->V128Const_0;
                        lemma_pow256_bound(15);
                        lemma_le_round_trip(x as nat, 16);
                    }
                }
                Ok((Some(RawConstOp::V128Const(v)), q + 16))
            },
            None => Err(Error::Decode { offset: p }),
        }
    } else if b == 0x23 {
        proof {
            if exp {
                assert(starts_with(bytes@, p as int, uleb(expect->Some_0->GlobalGet_0 as nat)));
            }
        }
        match read_u32(bytes, p) {
            Some((v, n)) => Ok((Some(RawConstOp::GlobalGet(v)), p + n)),
            None => Err(Error::Decode { offset: p }),
        }
    } else if b == 0xD2 {
        proof {
            if exp {
                assert(starts_with(bytes@, p as int, uleb(expect->Some_0->RefFunc_0 as nat)));
            }
        }
        match read_u32(bytes, p) {
            Some((v, n)) => Ok((Some(RawConstOp::RefFunc(v)), p + n)),
            None => Err(Error::Decode { offset: p }),
        }
    } else if b == 0xD0 {
        if p >= len {
            return Err(Error::Decode { offset: p });
        }
        let h = bytes[p];
        proof {
            if exp {
                let a = expect->Some_0->RefNull_0;
                lemma_head(bytes@, p as int, heap_code(a), seq![]);
            }
        }
        if h == 0x70 {
            Ok((Some(RawConstOp::RefNull(AbstractHeapType::Func)), p + 1))
        } else if h == 0x6F {
            Ok((Some(RawConstOp::RefNull(AbstractHeapType::Extern)), p + 1))
        } else if h == 0x65 {
            if p + 1 >= len {
                Err(Error::Decode { offset: p + 1 })
            } else if bytes[p + 1] == 0x70 {
                Ok((Some(RawConstOp::RefNull(AbstractHeapType::Func)), p + 2))
            } else if bytes[p + 1] == 0x6F {
                Ok((Some(RawConstOp::RefNull(AbstractHeapType::Extern)), p + 2))
            } else {
                Err(Error::UnsupportedFeature(Unsupported::ConstHeapType))
            }
        } else if h < 0x40 || h >= 0x80 {
            Err(Error::UnsupportedFeature(Unsupported::ConcreteHeapType))
        } else {
            Err(Error::UnsupportedFeature(Unsupported::ConstHeapType))
        }
    } else if b == 0x6A {
        Ok((Some(RawConstOp::I32Add), p))
    } else if b == 0x6B {
        Ok((Some(RawConstOp::I32Sub), p))
    } else if b == 0x6C {
        Ok((Some(RawConstOp::I32Mul), p))
    } else if b == 0x7C {
        Ok((Some(RawConstOp::I64Add), p))
    } else if b == 0x7D {
        Ok((Some(RawConstOp::I64Sub), p))
    } else if b == 0x7E {
        Ok((Some(RawConstOp::I64Mul), p))
    } else {
        Err(Error::UnsupportedFeature(Unsupported::Operation(b)))
    }
}

/// Resolves the raw indices of an operation.
fn lift_raw(op: RawConstOp, ids: &IndicesToIds) -> (r: Result<ConstOp, Error>)
    ensures
        r == lift_op(op, *ids),
{
    match op {
        RawConstOp::I32Const(x) => Ok(ConstOp::I32Const(x)),
        RawConstOp::I64Const(x) => Ok(ConstOp::I64Const(x)),
        RawConstOp::F32Const(x) => Ok(ConstOp::F32Const(x)),
        RawConstOp::F64Const(x) => Ok(ConstOp::F64Const(x)),
        RawConstOp::V128Const(x) => Ok(ConstOp::V128Const(x)),
        RawConstOp::GlobalGet(i) => match ids.get_global(i) {
            Ok(g) => Ok(ConstOp::GlobalGet(g)),
            Err(e) => Err(e),
        },
        RawConstOp::RefNull(a) => Ok(ConstOp::RefNull(RefType { nullable: true, heap_type: HeapType::Abstract(a) })),
        RawConstOp::RefFunc(i) => match ids.get_func(i) {
            Ok(f) => Ok(ConstOp::RefFunc(f)),
            Err(e) => Err(e),
        },
        RawConstOp::I32Add => Ok(ConstOp::I32Add),
        RawConstOp::I32Sub => Ok(ConstOp::I32Sub),
        RawConstOp::I32Mul => Ok(ConstOp::I32Mul),
        RawConstOp::I64Add => Ok(ConstOp::I64Add),
        RawConstOp::I64Sub => Ok(ConstOp::I64Sub),
        RawConstOp::I64Mul => Ok(ConstOp::I64Mul),
    }
}

impl ConstExpr {
    /// The simple form of a single operation that has one; any other
    /// sequence is kept as it is.
    pub fn canonicalize(ops: Vec<ConstOp>) -> (r: ConstExpr)
        ensures
            r@ == canonical(ops@),
    {
        if ops.len() == 1 {
            match ops[0] {
                ConstOp::I32Const(x) => ConstExpr::Value(Value::I32(x)),
                ConstOp::I64Const(x) => ConstExpr::Value(Value::I64(x)),
                ConstOp::F32Const(x) => ConstExpr::Value(Value::F32(x)),
                ConstOp::F64Const(x) => ConstExpr::Value(Value::F64(x)),
                ConstOp::V128Const(x) => ConstExpr::Value(Value::V128(x)),
                ConstOp::GlobalGet(g) => ConstExpr::Global(g),
                ConstOp::RefNull(t) => ConstExpr::RefNull(t),
                ConstOp::RefFunc(f) => ConstExpr::RefFunc(f),
                _ => ConstExpr::Extended(ops),
            }
        } else {
            ConstExpr::Extended(ops)
        }
    }

    /// Decodes the constant expression in `bytes`, closed by `end`, and
    /// resolves its raw indices with `ids`. A single operation that has a
    /// simple form comes back in that form.
    ///
    /// Whenever `bytes` is the encoding of some operations followed by a
    /// tail that does not start with an operation, the result is settled by
    /// that split: the first resolution error among the operations; else, for
    /// a tail of `end` alone, the operations resolved and in canonical form;
    /// for no tail, a truncation; for bytes after `end`, an error at the
    /// first of them; else the unsupported opcode that starts the tail.
    pub fn eval(bytes: &[u8], ids: &IndicesToIds) -> (r: Result<ConstExpr, Error>)
        ensures
            result_view(r) == eval_spec(bytes@, *ids),
            has_split(bytes@) ==> result_view(r) == split_outcome(bytes@, the_split(bytes@).0, the_split(bytes@).1, *ids),
    {
        let ghost has = has_split(bytes@);
        let ghost w = the_split(bytes@).0;
        let ghost tail = the_split(bytes@).1;
        let len = bytes.len();
        let mut ops: Vec<ConstOp> = Vec::new();
        let mut pos: usize = 0;
        let ghost mut k: int = 0;
        proof {
            match eval_ops(bytes@, 0, *ids) {
                Ok(t) => assert(ops@ + t =~= t),
                Err(_) => {},
            }
            if has {
                assert(splits(bytes@, w, tail));
                assert(w.skip(0) =~= w);
                assert(bytes@.subrange(0, bytes@.len() as int) =~= bytes@);
                assert(lift(w, *ids) == prepend(ops@, lift(w.skip(0), *ids))) by {
                    assert(ops@ + Seq::<ConstOp>::empty() =~= Seq::<ConstOp>::empty());
                    match lift(w, *ids) {
                        Ok(t) => assert(ops@ + t =~= t),
                        Err(_) => {},
                    }
                }
            }
        }
        loop
            invariant
                len == bytes@.len(),
                pos <= len,
                eval_ops(bytes@, 0, *ids) == prepend(ops@, eval_ops(bytes@, pos as int, *ids)),
                has == has_split(bytes@),
                w == the_split(bytes@).0,
                tail == the_split(bytes@).1,
                has ==> splits(bytes@, w, tail),
                has ==> 0 <= k <= w.len(),
                has ==> pos + raw_ops_bytes(w.skip(k)).len() + tail.len() == len,
                has ==> pos == raw_ops_bytes(w).len() - raw_ops_bytes(w.skip(k)).len(),
                has ==> starts_with(bytes@, pos as int, raw_ops_bytes(w.skip(k)) + tail),
                has ==> lift(w, *ids) == prepend(ops@, lift(w.skip(k), *ids)),
                has ==> forall|i: int| 0 <= i < w.len() ==> supported(#[trigger] w[i]),
            decreases len - pos,
        {
            let ghost expect: Option<RawConstOp> = if has && k < w.len() {
                Some(w[k])
            } else {
                None
            };
            proof {
                if has {
                    let rest = w.skip(k);
                    if k < w.len() {
                        assert(raw_ops_bytes(rest) == raw_op_bytes(rest[0]) + raw_ops_bytes(rest.skip(1)));
                        assert(raw_ops_bytes(rest) + tail =~= raw_op_bytes(rest[0]) + (raw_ops_bytes(rest.skip(1))
                            + tail));
                        lemma_starts_with_split(
                            bytes@,
                            pos as int,
                            raw_op_bytes(rest[0]),
                            raw_ops_bytes(rest.skip(1)) + tail,
                        );
                        assert(rest[0] == w[k]);
                    } else {
                        assert(rest =~= Seq::<RawConstOp>::empty());
                        assert(raw_ops_bytes(rest) + tail =~= tail);
                        assert(bytes@.subrange(pos as int, len as int) == tail);
                        if tail.len() > 0 {
                            assert(bytes@[pos as int] == tail[0]);
                        }
                    }
                }
            }
            proof {
                if has && k < w.len() {
                    assert(expected_at(bytes@, pos as int, expect));
                }
            }
            let item = read_op(bytes, pos, Ghost(expect));
            match item {
                Err(e) => {
                    proof {
                        if has {
                            assert(w.skip(k) =~= Seq::<RawConstOp>::empty());
                            assert(ops@ + Seq::<ConstOp>::empty() =~= ops@);
                        }
                    }
                    return Err(e);
                },
                Ok((None, next)) => {
                    if next != len {
                        proof {
                            if has {
                                assert(w.skip(k) =~= Seq::<RawConstOp>::empty());
                                assert(ops@ + Seq::<ConstOp>::empty() =~= ops@);
                            }
                        }
                        return Err(Error::Decode { offset: next });
                    }
                    proof {
                        if has {
                            assert(w.skip(k) =~= Seq::<RawConstOp>::empty());
                            assert(ops@ + Seq::<ConstOp>::empty() =~= ops@);
                            assert(tail =~= seq![end_byte()]);
                        }
                    }
                    return Ok(ConstExpr::canonicalize(ops));
                },
                Ok((Some(raw), next)) => {
                    let op = lift_raw(raw, ids);
                    match op {
                        Err(e) => {
                            return Err(e);
                        },
                        Ok(op) => {
                            proof {
                                match eval_ops(bytes@, next as int, *ids) {
                                    Ok(t) => assert(ops@.push(op) + t =~= ops@ + (seq![op] + t)),
                                    Err(_) => {},
                                }
                                if has {
                                    let rest = w.skip(k);
                                    assert(rest.skip(1) =~= w.skip(k + 1));
                                    assert(raw == rest[0]);
                                    match lift(rest.skip(1), *ids) {
                                        Ok(t) => {
                                            assert(ops@.push(op) + t =~= ops@ + (seq![op] + t));
                                        },
                                        Err(_) => {},
                                    }
                                }
                            }
                            ops.push(op);
                            pos = next;
                            proof {
                                k = k + 1;
                            }
                        },
                    }
                },
            }
        }
    }
}

/// Encoding one more operation appends its bytes.
pub proof fn lemma_raw_ops_bytes_push(s: Seq<RawConstOp>, x: RawConstOp)
    ensures
        raw_ops_bytes(s.push(x)) == raw_ops_bytes(s) + raw_op_bytes(x),
    decreases s.len(),
{
    if s.len() == 0 {
        assert(s.push(x).skip(1) =~= Seq::<RawConstOp>::empty());
        assert(raw_ops_bytes(s.push(x).skip(1)) == Seq::<u8>::empty());
        assert(s.push(x)[0] == x);
        assert(raw_ops_bytes(s) == Seq::<u8>::empty());
        assert(raw_ops_bytes(s.push(x)) =~= raw_ops_bytes(s) + raw_op_bytes(x));
    } else {
        lemma_raw_ops_bytes_push(s.skip(1), x);
        assert(s.push(x).skip(1) =~= s.skip(1).push(x));
        assert(raw_ops_bytes(s.push(x)) =~= raw_ops_bytes(s) + raw_op_bytes(x));
    }
}

/// The byte that stands for an abstract heap type.
pub(crate) fn heap_type_code(a: AbstractHeapType) -> (r: u8)
    ensures
        r == heap_code(a),
{
    match a {
        AbstractHeapType::Func => 0x70,
        AbstractHeapType::Extern => 0x6F,
        AbstractHeapType::Any => 0x6E,
        AbstractHeapType::NoneType => 0x71,
        AbstractHeapType::NoExtern => 0x72,
        AbstractHeapType::NoFunc => 0x73,
        AbstractHeapType::Eq => 0x6D,
        AbstractHeapType::Struct => 0x6B,
        AbstractHeapType::Array => 0x6A,
        AbstractHeapType::I31 => 0x6C,
        AbstractHeapType::Exn => 0x69,
        AbstractHeapType::NoExn => 0x74,
    }
}

/// Appends the encoding of `op`, with its identifiers replaced by the
/// indices in `ix`.
pub(crate) fn encode_op(op: ConstOp, ix: &IdsToIndices, sink: &mut Vec<u8>) -> (r: Result<(), Error>)
    ensures
        (r is Ok) == (lower_op(op, *ix) is Ok),
        r is Ok ==> final(sink)@ == old(sink)@ + raw_op_bytes(lower_op(op, *ix)->Ok_0),
        r is Err ==> r == Err::<(), Error>(lower_op(op, *ix)->Err_0),
{
    let ghost start = sink@;
    match op {
        ConstOp::I32Const(x) => {
            sink.push(0x41);
            write_i32(x, sink);
        },
        ConstOp::I64Const(x) => {
            sink.push(0x42);
            write_i64(x, sink);
        },
        ConstOp::F32Const(x) => {
            sink.push(0x43);
            write_le(x as u128, 4, sink);
        },
        ConstOp::F64Const(x) => {
            sink.push(0x44);
            write_le(x as u128, 8, sink);
        },
        ConstOp::V128Const(x) => {
            sink.push(0xFD);
            write_u32(12, sink);
            write_le(x, 16, sink);
        },
        ConstOp::GlobalGet(g) => match ix.get_global_index(g) {
            Ok(i) => {
                sink.push(0x23);
                write_u32(i, sink);
            },
            Err(e) => {
                return Err(e);
            },
        },
        ConstOp::RefNull(t) => match t.heap_type {
            HeapType::Abstract(a) => {
                sink.push(0xD0);
                sink.push(heap_type_code(a));
            },
            HeapType::Concrete(_) => {
                return Err(Error::UnsupportedFeature(Unsupported::ConcreteHeapType));
            },
        },
        ConstOp::RefFunc(f) => match ix.get_func_index(f) {
            Ok(i) => {
                sink.push(0xD2);
                write_u32(i, sink);
            },
            Err(e) => {
                return Err(e);
            },
        },
        ConstOp::I32Add => sink.push(0x6A),
        ConstOp::I32Sub => sink.push(0x6B),
        ConstOp::I32Mul => sink.push(0x6C),
        ConstOp::I64Add => sink.push(0x7C),
        ConstOp::I64Sub => sink.push(0x7D),
        ConstOp::I64Mul => sink.push(0x7E),
    }
    assert(sink@ =~= start + raw_op_bytes(lower_op(op, *ix)->Ok_0));
    Ok(())
}

impl ConstExpr {
    /// The operations that this expression stands for.
    pub fn ops(&self) -> (r: Vec<ConstOp>)
        ensures
            r@ == as_ops(self@),
    {
        match self {
            ConstExpr::Value(v) => {
                let op = match *v {
                    Value::I32(x) => ConstOp::I32Const(x),
                    Value::I64(x) => ConstOp::I64Const(x),
                    Value::F32(x) => ConstOp::F32Const(x),
                    Value::F64(x) => ConstOp::F64Const(x),
                    Value::V128(x) => ConstOp::V128Const(x),
                };
                vec![op]
            },
            ConstExpr::Global(g) => vec![ConstOp::GlobalGet(*g)],
            ConstExpr::RefNull(t) => vec![ConstOp::RefNull(*t)],
            ConstExpr::RefFunc(f) => vec![ConstOp::RefFunc(*f)],
            ConstExpr::Extended(ops) => {
                let mut r: Vec<ConstOp> = Vec::new();
                let mut i: usize = 0;
                while i < ops.len()
                    invariant
                        i <= ops@.len(),
                        r@ == ops@.subrange(0, i as int),
                    decreases ops@.len() - i,
                {
                    r.push(ops[i]);
                    i += 1;
                    assert(r@ =~= ops@.subrange(0, i as int));
                }
                assert(ops@ =~= ops@.subrange(0, i as int));
                r
            },
        }
    }

    /// The bytes of this expression without the closing `end`, which the
    /// encoder of a constant expression appends. Identifiers are replaced by
    /// the indices given in `ix`; an identifier without an index, or a
    /// `ref.null` of a concrete heap type, fails the whole encoding.
    pub fn to_encodable_form(&self, ix: &IdsToIndices) -> (r: Result<Vec<u8>, Error>)
        ensures
            (r is Ok) == (expr_bytes(self@, *ix) is Ok),
            r is Ok ==> r->Ok_0@ == expr_bytes(self@, *ix)->Ok_0,
            r is Err ==> r->Err_0 == expr_bytes(self@, *ix)->Err_0,
    {
        let ops = self.ops();
        let mut bytes: Vec<u8> = Vec::new();
        let mut i: usize = 0;
        let ghost mut raws: Seq<RawConstOp> = seq![];
        proof {
            assert(ops@.skip(0) =~= ops@);
            match lower(ops@, *ix) {
                Ok(t) => assert(raws + t =~= t),
                Err(_) => {},
            }
        }
        while i < ops.len()
            invariant
                i <= ops@.len(),
                ops@ == as_ops(self@),
                lower(ops@, *ix) == prepend(raws, lower(ops@.skip(i as int), *ix)),
                bytes@ == raw_ops_bytes(raws),
            decreases ops@.len() - i,
        {
            let ghost rest = ops@.skip(i as int);
            assert(rest[0] == ops@[i as int]);
            assert(rest.skip(1) =~= ops@.skip(i + 1));
            match encode_op(ops[i], ix, &mut bytes) {
                Ok(()) => {
                    proof {
                        let x = lower_op(ops@[i as int], *ix)->Ok_0;
                        lemma_raw_ops_bytes_push(raws, x);
                        match lower(rest.skip(1), *ix) {
                            Ok(t) => assert(raws.push(x) + t =~= raws + (seq![x] + t)),
                            Err(_) => {},
                        }
                        raws = raws.push(x);
                    }
                },
                Err(e) => {
                    return Err(e);
                },
            }
            i += 1;
        }
        proof {
            assert(ops@.skip(i as int) =~= Seq::<ConstOp>::empty());
            assert(raws + Seq::<RawConstOp>::empty() =~= raws);
        }
        Ok(bytes)
    }
}

/// Canonical form loses nothing: the expression stands for the same
/// operations it was made from.
pub proof fn lemma_canonical_ops(ops: Seq<ConstOp>)
    ensures
        as_ops(canonical(ops)) == ops,
{
    if ops.len() == 1 {
        assert(seq![ops[0]] =~= ops);
    }
}

/// Whether an operation has a simple (non-extended) form of its own.
pub open spec fn has_simple_form(op: ConstOp) -> bool {
    match op {
        ConstOp::I32Const(_) | ConstOp::I64Const(_) | ConstOp::F32Const(_) | ConstOp::F64Const(_)
        | ConstOp::V128Const(_) | ConstOp::GlobalGet(_) | ConstOp::RefNull(_) | ConstOp::RefFunc(_) => true,
        _ => false,
    }
}

/// A one-operation sequence whose operation has a simple form is never kept
/// as an extended expression, and it encodes to the same bytes as the
/// sequence it came from; any expression encodes as the operations it was
/// made from, canonical or not.
pub proof fn lemma_canonical_encodes_alike(ops: Seq<ConstOp>, ix: IdsToIndices)
    ensures
        expr_bytes(canonical(ops), ix) == expr_bytes(ConstExprModel::Extended(ops), ix),
        ops.len() == 1 && has_simple_form(ops[0]) ==> !(canonical(ops) is Extended),
        ops.len() == 1 && has_simple_form(ops[0]) ==> as_ops(canonical(ops)) == seq![ops[0]],
        ops.len() != 1 ==> canonical(ops) == ConstExprModel::Extended(ops),
{
    lemma_canonical_ops(ops);
}

/// Two operations whose encodings both start at `pos` are the same.
proof fn lemma_op_unique(b: Seq<u8>, pos: int, x: RawConstOp, y: RawConstOp)
    requires
        starts_with(b, pos, raw_op_bytes(x)),
        starts_with(b, pos, raw_op_bytes(y)),
    ensures
        x == y,
{
    lemma_head(b, pos, opcode(x), immediates(x));
    lemma_head(b, pos, opcode(y), immediates(y));
    let p = pos + 1;
    match x {
        RawConstOp::I32Const(u) => lemma_sleb_unique(b, p, u as int, y->I32Const_0 as int),
        RawConstOp::I64Const(u) => lemma_sleb_unique(b, p, u as int, y->I64Const_0 as int),
        RawConstOp::F32Const(u) => {
            let v = y->F32Const_0;
            reveal_with_fuel(pow256, 5);
            lemma_le_round_trip(u as nat, 4);
            lemma_le_round_trip(v as nat, 4);
            lemma_le_unique(u as nat, v as nat, 4);
        },
        RawConstOp::F64Const(u) => {
            let v = y->F64Const_0;
            reveal_with_fuel(pow256, 9);
            lemma_le_round_trip(u as nat, 8);
            lemma_le_round_trip(v as nat, 8);
            lemma_le_unique(u as nat, v as nat, 8);
        },
        RawConstOp::V128Const(u) => {
            let v = y->V128Const_0;
            lemma_pow256_bound(15);
            lemma_starts_with_split(b, p, uleb(12), le_bytes(u as nat, 16));
            lemma_starts_with_split(b, p, uleb(12), le_bytes(v as nat, 16));
            lemma_le_round_trip(u as nat, 16);
            lemma_le_round_trip(v as nat, 16);
            assert(uleb(12) =~= seq![12u8]);
            lemma_le_unique(u as nat, v as nat, 16);
        },
        RawConstOp::GlobalGet(u) => lemma_uleb_unique(b, p, u as nat, y->GlobalGet_0 as nat),
        RawConstOp::RefFunc(u) => lemma_uleb_unique(b, p, u as nat, y->RefFunc_0 as nat),
        RawConstOp::RefNull(a) => {
            lemma_first_byte(b, p, seq![heap_code(a)]);
            lemma_first_byte(b, p, seq![heap_code(y->RefNull_0)]);
        },
        _ => {},
    }
}

/// Input that splits into operations and a tail splits only one way.
pub proof fn lemma_split_unique(b: Seq<u8>, w1: Seq<RawConstOp>, t1: Seq<u8>, w2: Seq<RawConstOp>, t2: Seq<u8>)
    requires
        splits(b, w1, t1),
        splits(b, w2, t2),
    ensures
        w1 == w2,
        t1 == t2,
    decreases w1.len(),
{
    if w1.len() == 0 && w2.len() == 0 {
        assert(w1 =~= w2);
        assert(raw_ops_bytes(w1) =~= Seq::<u8>::empty());
        assert(t1 =~= b);
        assert(t2 =~= b);
    } else if w1.len() > 0 && w2.len() > 0 {
        let r1 = raw_ops_bytes(w1.skip(1)) + t1;
        let r2 = raw_ops_bytes(w2.skip(1)) + t2;
        assert(b =~= raw_op_bytes(w1[0]) + r1);
        assert(b =~= raw_op_bytes(w2[0]) + r2);
        assert(b.subrange(0, b.len() as int) =~= b);
        lemma_starts_with_split(b, 0, raw_op_bytes(w1[0]), r1);
        lemma_starts_with_split(b, 0, raw_op_bytes(w2[0]), r2);
        lemma_op_unique(b, 0, w1[0], w2[0]);
        let n = raw_op_bytes(w1[0]).len() as int;
        let rest = b.subrange(n, b.len() as int);
        assert(rest =~= r1);
        assert(rest =~= r2);
        assert forall|i: int| 0 <= i < w1.skip(1).len() implies supported(#[trigger] w1.skip(1)[i]) by {
            assert(w1.skip(1)[i] == w1[i + 1]);
        }
        assert forall|i: int| 0 <= i < w2.skip(1).len() implies supported(#[trigger] w2.skip(1)[i]) by {
            assert(w2.skip(1)[i] == w2[i + 1]);
        }
        lemma_split_unique(rest, w1.skip(1), t1, w2.skip(1), t2);
        assert(w1 =~= seq![w1[0]] + w1.skip(1));
        assert(w2 =~= seq![w2[0]] + w2.skip(1));
    } else if w1.len() > 0 {
        assert(raw_ops_bytes(w2) =~= Seq::<u8>::empty());
        assert(b =~= t2);
        assert(b[0] == opcode(w1[0]));
    } else {
        assert(raw_ops_bytes(w1) =~= Seq::<u8>::empty());
        assert(b =~= t1);
        assert(b[0] == opcode(w2[0]));
    }
}

/// Whether every `ref.null` among `ops` is of `funcref` or `externref`, the
/// two that a constant expression can read back.
pub open spec fn refnulls_readable(ops: Seq<ConstOp>) -> bool {
    forall|i: int| 0 <= i < ops.len() && (#[trigger] ops[i]) is RefNull ==> (ops[i]->RefNull_0 == RefType::nullable_abstract(
        AbstractHeapType::Func,
    ) || ops[i]->RefNull_0 == RefType::nullable_abstract(AbstractHeapType::Extern))
}

/// Whether parsing resolves each emitted index of a global or function among
/// `ops` back to the identifier it was emitted for.
pub open spec fn indices_invert(ops: Seq<ConstOp>, ix: IdsToIndices, ids: IndicesToIds) -> bool {
    forall|i: int|
        0 <= i < ops.len() ==> match #[trigger] ops[i] {
            ConstOp::GlobalGet(g) => ix.globals.index_of(g.index) is Some ==> {
                let j = ix.globals.index_of(g.index)->Some_0 as int;
                j < ids.spec_globals().len() && ids.spec_globals()[j] == g
            },
            ConstOp::RefFunc(f) => ix.funcs.index_of(f.index) is Some ==> {
                let j = ix.funcs.index_of(f.index)->Some_0 as int;
                j < ids.spec_funcs().len() && ids.spec_funcs()[j] == f
            },
            _ => true,
        }
}

proof fn lemma_lift_lower(ops: Seq<ConstOp>, ix: IdsToIndices, ids: IndicesToIds)
    requires
        lower(ops, ix) is Ok,
        refnulls_readable(ops),
        indices_invert(ops, ix, ids),
    ensures
        lift(lower(ops, ix)->Ok_0, ids) == Ok::<Seq<ConstOp>, Error>(ops),
        forall|i: int| 0 <= i < lower(ops, ix)->Ok_0.len() ==> supported(#[trigger] lower(ops, ix)->Ok_0[i]),
        lower(ops, ix)->Ok_0.len() == ops.len(),
    decreases ops.len(),
{
    if ops.len() > 0 {
        let rest = ops.skip(1);
        assert forall|i: int| 0 <= i < rest.len() && (#[trigger] rest[i]) is RefNull implies (rest[i]->RefNull_0
            == RefType::nullable_abstract(AbstractHeapType::Func) || rest[i]->RefNull_0 == RefType::nullable_abstract(
            AbstractHeapType::Extern,
        )) by {
            assert(rest[i] == ops[i + 1]);
        }
        assert forall|i: int| 0 <= i < rest.len() implies match #[trigger] rest[i] {
            ConstOp::GlobalGet(g) => ix.globals.index_of(g.index) is Some ==> {
                let j = ix.globals.index_of(g.index)->Some_0 as int;
                j < ids.spec_globals().len() && ids.spec_globals()[j] == g
            },
            ConstOp::RefFunc(f) => ix.funcs.index_of(f.index) is Some ==> {
                let j = ix.funcs.index_of(f.index)->Some_0 as int;
                j < ids.spec_funcs().len() && ids.spec_funcs()[j] == f
            },
            _ => true,
        } by {
            assert(rest[i] == ops[i + 1]);
        }
        lemma_lift_lower(rest, ix, ids);
        let x = lower_op(ops[0], ix)->Ok_0;
        let raws = lower(ops, ix)->Ok_0;
        let rr = lower(rest, ix)->Ok_0;
        assert(raws == seq![x] + rr);
        assert(raws[0] == x);
        assert(raws.skip(1) =~= rr);
        assert(ops[0] is RefNull ==> ops[0]->RefNull_0 == RefType::nullable_abstract(AbstractHeapType::Func)
            || ops[0]->RefNull_0 == RefType::nullable_abstract(AbstractHeapType::Extern));
        assert(lift_op(x, ids) == Ok::<ConstOp, Error>(ops[0]));
        assert(seq![ops[0]] + rest =~= ops);
        assert forall|i: int| 0 <= i < raws.len() implies supported(#[trigger] raws[i]) by {
            if i > 0 {
                assert(raws[i] == rr[i - 1]);
            }
        }
        assert(lift(raws, ids) == prepend(seq![ops[0]], lift(rr, ids)));
    } else {
        assert(ops =~= Seq::<ConstOp>::empty());
    }
}

/// Round trip of a constant expression: the bytes it encodes to, closed by
/// `end`, split into exactly the operations it was encoded from, so `eval`
/// gives back its canonical form, whenever parsing resolves each emitted
/// index back to its identifier and each `ref.null` is of `funcref` or
/// `externref`; and encoding that canonical form gives the same bytes again.
pub proof fn lemma_const_expr_round_trip(e: ConstExprModel, ix: IdsToIndices, ids: IndicesToIds)
    requires
        expr_bytes(e, ix) is Ok,
        refnulls_readable(as_ops(e)),
        indices_invert(as_ops(e), ix, ids),
    ensures
        has_split(expr_bytes(e, ix)->Ok_0 + seq![end_byte()]),
        split_outcome(
            expr_bytes(e, ix)->Ok_0 + seq![end_byte()],
            the_split(expr_bytes(e, ix)->Ok_0 + seq![end_byte()]).0,
            the_split(expr_bytes(e, ix)->Ok_0 + seq![end_byte()]).1,
            ids,
        ) == Ok::<ConstExprModel, Error>(canonical(as_ops(e))),
        expr_bytes(canonical(as_ops(e)), ix) == expr_bytes(e, ix),
{
    let ops = as_ops(e);
    let raws = lower(ops, ix)->Ok_0;
    let b = expr_bytes(e, ix)->Ok_0 + seq![end_byte()];
    let end = seq![end_byte()];
    lemma_lift_lower(ops, ix, ids);
    assert(splits(b, raws, end));
    let q = (raws, end);
    assert(splits(b, q.0, q.1));
    let p = the_split(b);
    assert(splits(b, p.0, p.1));
    lemma_split_unique(b, p.0, p.1, raws, end);
    assert(end[0] == end_byte());
    lemma_canonical_ops(ops);
}

#[verifier::external_type_specification]
#[verifier::external_body]
pub struct ExEncoderExpr(EncoderExpr);

/// The instruction bytes that a wasm-encoder constant expression holds; its
/// encoder writes them and then `end`.
pub uninterp spec fn encoder_const_expr_bytes(c: EncoderExpr) -> Seq<u8>;

/// Relies on wasm_encoder::ConstExpr::raw: an expression that holds exactly
/// these instruction bytes.
#[verifier::external_body]
fn raw_const_expr(bytes: Vec<u8>) -> (r: EncoderExpr)
    ensures
        encoder_const_expr_bytes(r) == bytes@,
{
    EncoderExpr::raw(bytes)
}

impl ConstExpr {
    /// This expression as wasm-encoder writes it, with identifiers replaced
    /// by the indices given in `ix`; fails as `to_encodable_form` does.
    pub fn to_wasmencoder_type(&self, ix: &IdsToIndices) -> (r: Result<EncoderExpr, Error>)
        ensures
            (r is Ok) == (expr_bytes(self@, *ix) is Ok),
            r is Ok ==> encoder_const_expr_bytes(r->Ok_0) == expr_bytes(self@, *ix)->Ok_0,
            r is Err ==> r->Err_0 == expr_bytes(self@, *ix)->Err_0,
    {
        match self.to_encodable_form(ix) {
            Ok(bytes) => Ok(raw_const_expr(bytes)),
            Err(e) => Err(e),
        }
    }
}

} // verus!
