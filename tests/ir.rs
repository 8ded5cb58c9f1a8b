use walrus_ir::const_expr::Value;
use walrus_ir::error::{EntityKind, Error, Structure};
use walrus_ir::ids::{FunctionId, InstrSeqId, TagId, TypeId};
use walrus_ir::indices::IdsToIndices;
use walrus_ir::ir::{BlockType, FunctionBody, Instr, LegacyCatch, TryTableCatch};
use walrus_ir::ty::{RefType, ValType};

/// An index space where tag `i` has index `i`, for the first `n` tags.
fn tags_indexed(n: usize) -> IdsToIndices {
    let mut ix = IdsToIndices::new();
    for i in 0..n {
        ix.tags.push(i);
    }
    ix
}

#[test]
fn try_catch_rethrow_emits_deterministically() {
    // (try (do (throw $e0)) (catch $e0 (rethrow 0)))
    let ix = tags_indexed(1);
    let e0 = TagId { index: 0 };
    let mut body = FunctionBody::new();
    let entry = body.dangling_instr_seq(BlockType::Empty);
    let do_seq = body.dangling_instr_seq(BlockType::Empty);
    body.instr(do_seq, Instr::Throw { tag: e0 }).unwrap();
    let handler = body.dangling_instr_seq(BlockType::Empty);
    body.instr(handler, Instr::Rethrow { relative_depth: 0 }).unwrap();
    body.instr(entry, Instr::Try { seq: do_seq, catches: vec![LegacyCatch::Catch { tag: e0, handler }] }).unwrap();

    let wasm = body.emit(entry, &ix).unwrap();
    assert_eq!(wasm, vec![0x06, 0x40, 0x08, 0x00, 0x07, 0x00, 0x09, 0x00, 0x0B, 0x0B]);
    assert_eq!(body.emit(entry, &ix).unwrap(), wasm);
}

#[test]
fn throw_without_its_payload_still_emits() {
    // The tag takes an i32 but nothing is pushed: invalid, yet written.
    let ix = tags_indexed(1);
    let mut body = FunctionBody::new();
    let entry = body.dangling_instr_seq(BlockType::Empty);
    body.instr(entry, Instr::Throw { tag: TagId { index: 0 } }).unwrap();
    assert_eq!(body.emit(entry, &ix).unwrap(), vec![0x08, 0x00, 0x0B]);
}

#[test]
fn nested_delegate_keeps_its_depth() {
    // (try (do (try (do (try (do (throw $e0)) (delegate 1))) (catch_all))) (catch_all))
    let ix = tags_indexed(1);
    let mut body = FunctionBody::new();
    let entry = body.dangling_instr_seq(BlockType::Empty);
    let inner = body.dangling_instr_seq(BlockType::Empty);
    body.instr(inner, Instr::Throw { tag: TagId { index: 0 } }).unwrap();
    let middle = body.dangling_instr_seq(BlockType::Empty);
    body.instr(middle, Instr::Try { seq: inner, catches: vec![LegacyCatch::Delegate { relative_depth: 1 }] }).unwrap();
    let middle_handler = body.dangling_instr_seq(BlockType::Empty);
    let outer = body.dangling_instr_seq(BlockType::Empty);
    body.instr(outer, Instr::Try { seq: middle, catches: vec![LegacyCatch::CatchAll { handler: middle_handler }] })
        .unwrap();
    let outer_handler = body.dangling_instr_seq(BlockType::Empty);
    body.instr(entry, Instr::Try { seq: outer, catches: vec![LegacyCatch::CatchAll { handler: outer_handler }] })
        .unwrap();

    let wasm = body.emit(entry, &ix).unwrap();
    assert_eq!(
        wasm,
        vec![
            0x06, 0x40, // outer try
            0x06, 0x40, // middle try
            0x06, 0x40, 0x08, 0x00, 0x18, 0x01, // inner try ... delegate 1
            0x19, 0x0B, // middle catch_all, end
            0x19, 0x0B, // outer catch_all, end
            0x0B,
        ]
    );
    assert_eq!(body.emit(entry, &ix).unwrap(), wasm);
}

#[test]
fn try_without_clauses_is_written() {
    let ix = IdsToIndices::new();
    let mut body = FunctionBody::new();
    let entry = body.dangling_instr_seq(BlockType::Empty);
    let inner = body.dangling_instr_seq(BlockType::Value(ValType::I32));
    body.instr(inner, Instr::Const { value: Value::I32(1) }).unwrap();
    body.instr(entry, Instr::Try { seq: inner, catches: vec![] }).unwrap();
    assert_eq!(body.emit(entry, &ix).unwrap(), vec![0x06, 0x7F, 0x41, 0x01, 0x0B, 0x0B]);
}

#[test]
fn delegate_beside_other_clauses_fails() {
    let ix = tags_indexed(1);
    let mut body = FunctionBody::new();
    let entry = body.dangling_instr_seq(BlockType::Empty);
    let inner = body.dangling_instr_seq(BlockType::Empty);
    let handler = body.dangling_instr_seq(BlockType::Empty);
    let catches = vec![LegacyCatch::CatchAll { handler }, LegacyCatch::Delegate { relative_depth: 0 }];
    body.instr(entry, Instr::Try { seq: inner, catches }).unwrap();
    assert_eq!(body.emit(entry, &ix).unwrap_err(), Error::Structure(Structure::MixedDelegate));
}

#[test]
fn branch_depths_count_enclosing_blocks() {
    let ix = IdsToIndices::new();
    let mut body = FunctionBody::new();
    let entry = body.dangling_instr_seq(BlockType::Empty);
    let outer = body.dangling_instr_seq(BlockType::Empty);
    let inner = body.dangling_instr_seq(BlockType::Empty);
    // The target's id exists before its contents do.
    body.instr(inner, Instr::Br { block: outer }).unwrap();
    body.instr(inner, Instr::BrIf { block: inner }).unwrap();
    body.instr(inner, Instr::Br { block: entry }).unwrap();
    body.instr(outer, Instr::Loop { seq: inner }).unwrap();
    body.instr(entry, Instr::Block { seq: outer }).unwrap();
    assert_eq!(
        body.emit(entry, &ix).unwrap(),
        vec![0x02, 0x40, 0x03, 0x40, 0x0C, 0x01, 0x0D, 0x00, 0x0C, 0x02, 0x0B, 0x0B, 0x0B]
    );
}

#[test]
fn branch_to_a_sequence_outside_fails() {
    let ix = IdsToIndices::new();
    let mut body = FunctionBody::new();
    let entry = body.dangling_instr_seq(BlockType::Empty);
    let elsewhere = body.dangling_instr_seq(BlockType::Empty);
    body.instr(entry, Instr::Br { block: elsewhere }).unwrap();
    assert_eq!(body.emit(entry, &ix).unwrap_err(), Error::Structure(Structure::LabelNotEnclosing));
}

#[test]
fn sequence_inside_itself_fails() {
    let ix = IdsToIndices::new();
    let mut body = FunctionBody::new();
    let entry = body.dangling_instr_seq(BlockType::Empty);
    let s = body.dangling_instr_seq(BlockType::Empty);
    body.instr(s, Instr::Block { seq: s }).unwrap();
    body.instr(entry, Instr::Block { seq: s }).unwrap();
    assert_eq!(body.emit(entry, &ix).unwrap_err(), Error::Structure(Structure::Cycle));
}

#[test]
fn unknown_sequence_fails() {
    let ix = IdsToIndices::new();
    let mut body = FunctionBody::new();
    let missing = InstrSeqId { index: 5 };
    assert_eq!(
        body.instr(missing, Instr::Nop).unwrap_err(),
        Error::NotFound { kind: EntityKind::InstrSeq, id: 5 }
    );
    let entry = body.dangling_instr_seq(BlockType::Empty);
    body.instr(entry, Instr::Block { seq: missing }).unwrap();
    assert_eq!(body.emit(entry, &ix).unwrap_err(), Error::NotFound { kind: EntityKind::InstrSeq, id: 5 });
}

#[test]
fn try_table_labels_count_from_outside() {
    let ix = tags_indexed(2);
    let mut body = FunctionBody::new();
    let entry = body.dangling_instr_seq(BlockType::Empty);
    let block = body.dangling_instr_seq(BlockType::Value(ValType::Ref(RefType::exnref())));
    let inner = body.dangling_instr_seq(BlockType::Empty);
    body.instr(inner, Instr::Throw { tag: TagId { index: 1 } }).unwrap();
    let catches = vec![
        TryTableCatch::Catch { tag: TagId { index: 1 }, label: entry },
        TryTableCatch::CatchRef { tag: TagId { index: 0 }, label: block },
        TryTableCatch::CatchAll { label: entry },
        TryTableCatch::CatchAllRef { label: block },
    ];
    body.instr(block, Instr::TryTable { seq: inner, catches }).unwrap();
    body.instr(block, Instr::Unreachable).unwrap();
    body.instr(entry, Instr::Block { seq: block }).unwrap();
    body.instr(entry, Instr::ThrowRef).unwrap();
    assert_eq!(
        body.emit(entry, &ix).unwrap(),
        vec![
            0x02, 0x69, // block (result exnref)
            0x1F, 0x40, 4, // try_table, four clauses
            0x00, 0x01, 0x01, 0x01, 0x00, 0x00, 0x02, 0x01, 0x03, 0x00, // clauses
            0x08, 0x01, 0x0B, // throw 1, end
            0x00, 0x0B, // unreachable, end
            0x0A, 0x0B,
        ]
    );
}

#[test]
fn if_else_and_simple_instructions() {
    let mut ix = IdsToIndices::new();
    ix.funcs.push(4);
    ix.types.push(9);
    let mut body = FunctionBody::new();
    let entry = body.dangling_instr_seq(BlockType::Empty);
    let then_seq = body.dangling_instr_seq(BlockType::Func(TypeId { index: 9 }));
    let else_seq = body.dangling_instr_seq(BlockType::Empty);
    body.instr(then_seq, Instr::Call { func: FunctionId { index: 4 } }).unwrap();
    body.instr(else_seq, Instr::Return).unwrap();
    body.instr(entry, Instr::LocalGet { local: 0 }).unwrap();
    body.instr(entry, Instr::IfElse { consequent: then_seq, alternative: else_seq }).unwrap();
    body.instr(entry, Instr::Const { value: Value::I64(-1) }).unwrap();
    body.instr(entry, Instr::Drop).unwrap();
    body.instr(entry, Instr::Nop).unwrap();
    body.instr(entry, Instr::LocalSet { local: 200 }).unwrap();
    assert_eq!(
        body.emit(entry, &ix).unwrap(),
        vec![
            0x20, 0x00, 0x04, 0x00, 0x10, 0x00, 0x05, 0x0F, 0x0B, 0x42, 0x7F, 0x1A, 0x01, 0x21, 0xC8, 0x01, 0x0B,
        ]
    );
}

#[test]
fn throw_of_unindexed_tag_fails() {
    let ix = IdsToIndices::new();
    let mut body = FunctionBody::new();
    let entry = body.dangling_instr_seq(BlockType::Empty);
    body.instr(entry, Instr::Throw { tag: TagId { index: 3 } }).unwrap();
    assert_eq!(body.emit(entry, &ix).unwrap_err(), Error::NotFound { kind: EntityKind::Tag, id: 3 });
}

#[test]
fn dangling_sequences_are_empty_until_filled() {
    let mut body = FunctionBody::new();
    let s = body.dangling_instr_seq(BlockType::Value(ValType::F32));
    assert!(body.get(s).unwrap().instrs.is_empty());
    assert_eq!(body.get(s).unwrap().ty, BlockType::Value(ValType::F32));
    body.instr(s, Instr::Unreachable).unwrap();
    assert_eq!(body.get(s).unwrap().instrs.len(), 1);
}
