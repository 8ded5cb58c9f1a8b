use walrus_ir::const_expr::{ConstExpr, ConstOp, Value};
use walrus_ir::error::{EntityKind, Error, Unsupported};
use walrus_ir::ids::{FunctionId, GlobalId};
use walrus_ir::indices::{IdsToIndices, IndicesToIds};
use walrus_ir::ty::{AbstractHeapType, HeapType, RefType};
use wasm_encoder::Encode;

/// Encodes `init`, decodes the bytes back and encodes the result again.
fn round_trip(init: &ConstExpr, ix: &IdsToIndices, ids: &IndicesToIds) -> (Vec<u8>, ConstExpr, Vec<u8>) {
    let bytes = init.to_encodable_form(ix).unwrap();
    let mut closed = bytes.clone();
    closed.push(0x0B);
    let parsed = ConstExpr::eval(&closed, ids).unwrap();
    let again = parsed.to_encodable_form(ix).unwrap();
    (bytes, parsed, again)
}

fn no_ids() -> (IdsToIndices, IndicesToIds) {
    (IdsToIndices::new(), IndicesToIds::new())
}

fn eval_bytes(bytes: &[u8]) -> Result<ConstExpr, Error> {
    ConstExpr::eval(bytes, &IndicesToIds::new())
}

#[test]
fn create_global_with_extended_const_expr_i32_add() {
    let (ix, ids) = no_ids();
    let init = ConstExpr::Extended(vec![ConstOp::I32Const(5), ConstOp::I32Const(3), ConstOp::I32Add]);
    let (wasm, parsed, wasm2) = round_trip(&init, &ix, &ids);
    assert_eq!(wasm, vec![0x41, 5, 0x41, 3, 0x6A]);
    assert_eq!(parsed.ops(), init.ops());
    assert_eq!(wasm, wasm2, "Round-trip should be deterministic");
}

#[test]
fn create_global_with_extended_const_expr_i32_sub() {
    let (ix, ids) = no_ids();
    let init = ConstExpr::Extended(vec![ConstOp::I32Const(15), ConstOp::I32Const(7), ConstOp::I32Sub]);
    let (wasm, _, wasm2) = round_trip(&init, &ix, &ids);
    assert_eq!(wasm, vec![0x41, 15, 0x41, 7, 0x6B]);
    assert_eq!(wasm, wasm2);
}

#[test]
fn create_global_with_extended_const_expr_i32_mul() {
    let (ix, ids) = no_ids();
    let init = ConstExpr::Extended(vec![ConstOp::I32Const(4), ConstOp::I32Const(6), ConstOp::I32Mul]);
    let (wasm, _, wasm2) = round_trip(&init, &ix, &ids);
    assert_eq!(wasm, vec![0x41, 4, 0x41, 6, 0x6C]);
    assert_eq!(wasm, wasm2);
}

#[test]
fn create_global_with_extended_const_expr_i64_add() {
    let (ix, ids) = no_ids();
    let init = ConstExpr::Extended(vec![ConstOp::I64Const(100), ConstOp::I64Const(50), ConstOp::I64Add]);
    let (wasm, _, wasm2) = round_trip(&init, &ix, &ids);
    // 100 needs two bytes in signed LEB128, since bit 6 of 100 is set.
    assert_eq!(wasm, vec![0x42, 0xE4, 0x00, 0x42, 50, 0x7C]);
    assert_eq!(wasm, wasm2);
}

#[test]
fn create_global_with_extended_const_expr_i64_sub() {
    let (ix, ids) = no_ids();
    let init = ConstExpr::Extended(vec![ConstOp::I64Const(200), ConstOp::I64Const(75), ConstOp::I64Sub]);
    let (wasm, _, wasm2) = round_trip(&init, &ix, &ids);
    assert_eq!(wasm, vec![0x42, 0xC8, 0x01, 0x42, 0xCB, 0x00, 0x7D]);
    assert_eq!(wasm, wasm2);
}

#[test]
fn create_global_with_extended_const_expr_i64_mul() {
    let (ix, ids) = no_ids();
    let init = ConstExpr::Extended(vec![ConstOp::I64Const(8), ConstOp::I64Const(9), ConstOp::I64Mul]);
    let (wasm, _, wasm2) = round_trip(&init, &ix, &ids);
    assert_eq!(wasm, vec![0x42, 8, 0x42, 9, 0x7E]);
    assert_eq!(wasm, wasm2);
}

#[test]
fn create_global_with_extended_const_expr_complex() {
    let (ix, ids) = no_ids();
    let init = ConstExpr::Extended(vec![
        ConstOp::I32Const(10),
        ConstOp::I32Const(5),
        ConstOp::I32Add,
        ConstOp::I32Const(2),
        ConstOp::I32Mul,
    ]);
    let (wasm, parsed, wasm2) = round_trip(&init, &ix, &ids);
    assert_eq!(wasm, vec![0x41, 10, 0x41, 5, 0x6A, 0x41, 2, 0x6C]);
    // More than one operation: kept as an extended expression.
    assert!(matches!(parsed, ConstExpr::Extended(ref ops) if ops.len() == 5));
    assert_eq!(wasm, wasm2);
}

#[test]
fn create_global_with_extended_const_expr_global_get() {
    let mut ix = IdsToIndices::new();
    let mut ids = IndicesToIds::new();
    let base_global = GlobalId { index: 0 };
    let derived_global = GlobalId { index: 1 };
    ix.globals.push(base_global.index);
    ix.globals.push(derived_global.index);
    ids.push_global(GlobalId { index: 7 });
    ids.push_global(GlobalId { index: 8 });

    let base = ConstExpr::Value(Value::I32(42));
    let (wasm_base, parsed_base, _) = round_trip(&base, &ix, &ids);
    assert_eq!(wasm_base, vec![0x41, 42]);
    assert!(matches!(parsed_base, ConstExpr::Value(Value::I32(42))));

    let init = ConstExpr::Extended(vec![ConstOp::GlobalGet(base_global), ConstOp::I32Const(8), ConstOp::I32Add]);
    let bytes = init.to_encodable_form(&ix).unwrap();
    assert_eq!(bytes, vec![0x23, 0, 0x41, 8, 0x6A]);
    let mut closed = bytes.clone();
    closed.push(0x0B);
    let parsed = ConstExpr::eval(&closed, &ids).unwrap();
    assert_eq!(parsed.ops(), vec![ConstOp::GlobalGet(GlobalId { index: 7 }), ConstOp::I32Const(8), ConstOp::I32Add]);
}

#[test]
fn create_global_with_extended_const_expr_f32() {
    let (ix, ids) = no_ids();
    let bits = 3.14f32.to_bits();
    let init = ConstExpr::Extended(vec![ConstOp::F32Const(bits)]);
    let (wasm, parsed, wasm2) = round_trip(&init, &ix, &ids);
    let mut expected = vec![0x43];
    expected.extend_from_slice(&bits.to_le_bytes());
    assert_eq!(wasm, expected);
    assert!(matches!(parsed, ConstExpr::Value(Value::F32(b)) if b == bits));
    assert_eq!(wasm, wasm2);
}

#[test]
fn create_global_with_extended_const_expr_f64() {
    let (ix, ids) = no_ids();
    let bits = 2.71828f64.to_bits();
    let init = ConstExpr::Extended(vec![ConstOp::F64Const(bits)]);
    let (wasm, parsed, wasm2) = round_trip(&init, &ix, &ids);
    let mut expected = vec![0x44];
    expected.extend_from_slice(&bits.to_le_bytes());
    assert_eq!(wasm, expected);
    assert!(matches!(parsed, ConstExpr::Value(Value::F64(b)) if b == bits));
    assert_eq!(wasm, wasm2);
}

#[test]
fn create_global_with_extended_const_expr_v128() {
    let (ix, ids) = no_ids();
    let v: u128 = 0x0102030405060708090a0b0c0d0e0f10;
    let init = ConstExpr::Extended(vec![ConstOp::V128Const(v)]);
    let (wasm, parsed, wasm2) = round_trip(&init, &ix, &ids);
    let mut expected = vec![0xFD, 12];
    expected.extend_from_slice(&v.to_le_bytes());
    assert_eq!(wasm, expected);
    assert!(matches!(parsed, ConstExpr::Value(Value::V128(x)) if x == v));
    assert_eq!(wasm, wasm2);
}

#[test]
fn create_global_with_extended_const_expr_ref_null() {
    let (ix, ids) = no_ids();
    let init = ConstExpr::Extended(vec![ConstOp::RefNull(RefType::funcref())]);
    let (wasm, parsed, wasm2) = round_trip(&init, &ix, &ids);
    assert_eq!(wasm, vec![0xD0, 0x70]);
    assert!(matches!(parsed, ConstExpr::RefNull(t) if t == RefType::funcref()));
    assert_eq!(wasm, wasm2);
}

#[test]
fn create_global_with_extended_const_expr_ref_func() {
    let mut ix = IdsToIndices::new();
    let mut ids = IndicesToIds::new();
    let func_id = FunctionId { index: 3 };
    ix.funcs.push(func_id.index);
    ids.push_func(func_id);
    let init = ConstExpr::Extended(vec![ConstOp::RefFunc(func_id)]);
    let (wasm, parsed, wasm2) = round_trip(&init, &ix, &ids);
    assert_eq!(wasm, vec![0xD2, 0]);
    assert!(matches!(parsed, ConstExpr::RefFunc(f) if f == func_id));
    assert_eq!(wasm, wasm2);
}

#[test]
fn single_operation_encodes_like_simple_form() {
    let (ix, _) = no_ids();
    let extended = ConstExpr::Extended(vec![ConstOp::I32Const(5)]);
    let simple = ConstExpr::Value(Value::I32(5));
    assert_eq!(extended.to_encodable_form(&ix).unwrap(), simple.to_encodable_form(&ix).unwrap());
    let canonical = ConstExpr::canonicalize(vec![ConstOp::I32Const(5)]);
    assert!(matches!(canonical, ConstExpr::Value(Value::I32(5))));
}

#[test]
fn single_arithmetic_operation_stays_extended() {
    let canonical = ConstExpr::canonicalize(vec![ConstOp::I32Add]);
    assert!(matches!(canonical, ConstExpr::Extended(ref ops) if ops == &vec![ConstOp::I32Add]));
    let empty = ConstExpr::canonicalize(vec![]);
    assert!(matches!(empty, ConstExpr::Extended(ref ops) if ops.is_empty()));
}

#[test]
fn eval_simple_forms() {
    assert!(matches!(eval_bytes(&[0x41, 0x05, 0x0B]), Ok(ConstExpr::Value(Value::I32(5)))));
    assert!(matches!(eval_bytes(&[0x41, 0x7F, 0x0B]), Ok(ConstExpr::Value(Value::I32(-1)))));
    assert!(matches!(eval_bytes(&[0x41, 0x80, 0x7F, 0x0B]), Ok(ConstExpr::Value(Value::I32(-128)))));
    assert!(matches!(eval_bytes(&[0xD0, 0x6F, 0x0B]), Ok(ConstExpr::RefNull(t)) if t == RefType::externref()));
}

#[test]
fn negative_and_large_immediates_round_trip() {
    let (ix, ids) = no_ids();
    let init = ConstExpr::Extended(vec![
        ConstOp::I32Const(i32::MIN),
        ConstOp::I32Const(i32::MAX),
        ConstOp::I64Const(i64::MIN),
        ConstOp::I64Const(-1),
        ConstOp::I64Sub,
    ]);
    let (wasm, parsed, wasm2) = round_trip(&init, &ix, &ids);
    assert_eq!(&wasm[0..6], &[0x41, 0x80, 0x80, 0x80, 0x80, 0x78]);
    assert_eq!(parsed.ops(), init.ops());
    assert_eq!(wasm, wasm2);
}

#[test]
fn eval_empty_expression() {
    assert!(matches!(eval_bytes(&[0x0B]), Ok(ConstExpr::Extended(ref ops)) if ops.is_empty()));
}

#[test]
fn eval_rejects_unsupported_operation() {
    // local.get 0
    assert_eq!(
        eval_bytes(&[0x20, 0x00, 0x0B]).unwrap_err(),
        Error::UnsupportedFeature(Unsupported::Operation(0x20))
    );
    // i32.const 1, i32.const 2, i32.div_s
    assert_eq!(
        eval_bytes(&[0x41, 1, 0x41, 2, 0x6D, 0x0B]).unwrap_err(),
        Error::UnsupportedFeature(Unsupported::Operation(0x6D))
    );
}

#[test]
fn eval_rejects_truncated_input() {
    assert_eq!(eval_bytes(&[0x41]).unwrap_err(), Error::Decode { offset: 1 });
    assert_eq!(eval_bytes(&[0x41, 0x05]).unwrap_err(), Error::Decode { offset: 2 });
    assert_eq!(eval_bytes(&[0x43, 0x00, 0x00]).unwrap_err(), Error::Decode { offset: 1 });
    assert_eq!(eval_bytes(&[]).unwrap_err(), Error::Decode { offset: 0 });
}

#[test]
fn eval_rejects_bytes_after_end() {
    assert_eq!(eval_bytes(&[0x41, 0x05, 0x0B, 0x00]).unwrap_err(), Error::Decode { offset: 3 });
}

#[test]
fn eval_reports_unresolved_indices() {
    assert_eq!(
        eval_bytes(&[0x23, 0x03, 0x0B]).unwrap_err(),
        Error::Resolution { kind: EntityKind::Global, index: 3 }
    );
    assert_eq!(
        eval_bytes(&[0xD2, 0x00, 0x0B]).unwrap_err(),
        Error::Resolution { kind: EntityKind::Function, index: 0 }
    );
}

#[test]
fn eval_rejects_unsupported_heap_types() {
    assert_eq!(
        eval_bytes(&[0xD0, 0x6E, 0x0B]).unwrap_err(),
        Error::UnsupportedFeature(Unsupported::ConstHeapType)
    );
    assert_eq!(
        eval_bytes(&[0xD0, 0x00, 0x0B]).unwrap_err(),
        Error::UnsupportedFeature(Unsupported::ConcreteHeapType)
    );
}

#[test]
fn encoding_fails_on_missing_index() {
    let (ix, _) = no_ids();
    let init = ConstExpr::Global(GlobalId { index: 4 });
    assert_eq!(
        init.to_encodable_form(&ix).unwrap_err(),
        Error::NotFound { kind: EntityKind::Global, id: 4 }
    );
    let f = ConstExpr::Extended(vec![ConstOp::I32Const(1), ConstOp::RefFunc(FunctionId { index: 2 })]);
    assert_eq!(f.to_encodable_form(&ix).unwrap_err(), Error::NotFound { kind: EntityKind::Function, id: 2 });
}

#[test]
fn encoding_fails_on_concrete_heap_type() {
    let (ix, _) = no_ids();
    let t = RefType { nullable: true, heap_type: HeapType::Concrete(0) };
    assert_eq!(
        ConstExpr::RefNull(t).to_encodable_form(&ix).unwrap_err(),
        Error::UnsupportedFeature(Unsupported::ConcreteHeapType)
    );
}

#[test]
fn ref_null_encodes_each_abstract_heap_type() {
    let (ix, _) = no_ids();
    let t = RefType { nullable: false, heap_type: HeapType::Abstract(AbstractHeapType::Exn) };
    assert_eq!(ConstExpr::RefNull(t).to_encodable_form(&ix).unwrap(), vec![0xD0, 0x69]);
    let t = RefType { nullable: true, heap_type: HeapType::Abstract(AbstractHeapType::NoneType) };
    assert_eq!(ConstExpr::RefNull(t).to_encodable_form(&ix).unwrap(), vec![0xD0, 0x71]);
}

#[test]
fn large_global_index_uses_leb128() {
    let mut ix = IdsToIndices::new();
    for slot in 0..301 {
        ix.globals.push(slot);
    }
    let init = ConstExpr::Global(GlobalId { index: 300 });
    assert_eq!(init.to_encodable_form(&ix).unwrap(), vec![0x23, 0xAC, 0x02]);
}

#[test]
fn encoder_const_expr_appends_end() {
    let (ix, _) = no_ids();
    let init = ConstExpr::Extended(vec![ConstOp::I32Const(5), ConstOp::I32Const(3), ConstOp::I32Add]);
    let encoded = init.to_wasmencoder_type(&ix).unwrap();
    let mut sink = Vec::new();
    encoded.encode(&mut sink);
    assert_eq!(sink, vec![0x41, 5, 0x41, 3, 0x6A, 0x0B]);
}

#[test]
fn eval_accepts_longer_leb128_forms() {
    assert!(matches!(eval_bytes(&[0x41, 0x85, 0x00, 0x0B]), Ok(ConstExpr::Value(Value::I32(5)))));
    assert!(matches!(
        eval_bytes(&[0x41, 0xFF, 0xFF, 0xFF, 0xFF, 0x7F, 0x0B]),
        Ok(ConstExpr::Value(Value::I32(-1)))
    ));
    assert!(matches!(eval_bytes(&[0x42, 0x80, 0x80, 0x00, 0x0B]), Ok(ConstExpr::Value(Value::I64(0)))));
    assert_eq!(
        eval_bytes(&[0x23, 0x85, 0x00, 0x0B]).unwrap_err(),
        Error::Resolution { kind: EntityKind::Global, index: 5 }
    );
    let mut ids = IndicesToIds::new();
    ids.push_global(GlobalId { index: 9 });
    let parsed = ConstExpr::eval(&[0x23, 0x80, 0x00, 0x41, 0x82, 0x00, 0x6A, 0x0B], &ids).unwrap();
    assert_eq!(parsed.ops(), vec![ConstOp::GlobalGet(GlobalId { index: 9 }), ConstOp::I32Const(2), ConstOp::I32Add]);
}

#[test]
fn eval_rejects_overlong_leb128() {
    // Six bytes for an i32, and a fifth byte with stray high bits.
    assert_eq!(eval_bytes(&[0x41, 0x80, 0x80, 0x80, 0x80, 0x80, 0x00, 0x0B]).unwrap_err(), Error::Decode { offset: 1 });
    assert_eq!(eval_bytes(&[0x23, 0x80, 0x80, 0x80, 0x80, 0x10, 0x0B]).unwrap_err(), Error::Decode { offset: 1 });
}

#[test]
fn eval_ref_null_heap_types() {
    assert!(matches!(eval_bytes(&[0xD0, 0x65, 0x70, 0x0B]), Ok(ConstExpr::RefNull(t)) if t == RefType::funcref()));
    assert!(matches!(eval_bytes(&[0xD0, 0x65, 0x6F, 0x0B]), Ok(ConstExpr::RefNull(t)) if t == RefType::externref()));
    assert_eq!(
        eval_bytes(&[0xD0, 0x65, 0x6E, 0x0B]).unwrap_err(),
        Error::UnsupportedFeature(Unsupported::ConstHeapType)
    );
    assert_eq!(
        eval_bytes(&[0xD0, 0x85, 0x00, 0x0B]).unwrap_err(),
        Error::UnsupportedFeature(Unsupported::ConcreteHeapType)
    );
    assert_eq!(eval_bytes(&[0xD0]).unwrap_err(), Error::Decode { offset: 1 });
}

#[test]
fn eval_rejects_other_prefixed_operators() {
    // i8x16.splat behind the 0xFD prefix.
    assert_eq!(
        eval_bytes(&[0x41, 0x00, 0xFD, 0x0F, 0x0B]).unwrap_err(),
        Error::UnsupportedFeature(Unsupported::Operation(0xFD))
    );
    // v128.const with too few bytes.
    assert_eq!(eval_bytes(&[0xFD, 0x0C, 0x00, 0x0B]).unwrap_err(), Error::Decode { offset: 2 });
}
