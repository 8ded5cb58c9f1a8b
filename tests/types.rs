use walrus_ir::error::{EntityKind, Error, Unsupported};
use walrus_ir::ids::TypeId;
use walrus_ir::indices::IdsToIndices;
use walrus_ir::ty::{AbstractHeapType, DecodedAbstractHeapType, HeapType, RefType, ValType};
use walrus_ir::types::ModuleTypes;

#[test]
fn adding_a_signature_twice_returns_one_id() {
    let mut types = ModuleTypes::new();
    let a = types.add(&[ValType::I32, ValType::I64], &[ValType::F32]);
    let b = types.add(&[ValType::I32, ValType::I64], &[ValType::F32]);
    assert_eq!(a, b);
    assert_eq!(types.iter().len(), 1);

    let mut ix = IdsToIndices::new();
    let section = types.emit(&mut ix);
    assert_eq!(section, vec![a]);
    assert_eq!(ix.get_type_index(a), Ok(0));
}

#[test]
fn different_signatures_get_different_ids() {
    let mut types = ModuleTypes::new();
    let a = types.add(&[ValType::I32], &[]);
    let b = types.add(&[], &[ValType::I32]);
    let c = types.add(&[ValType::Ref(RefType::funcref())], &[]);
    assert_ne!(a, b);
    assert_ne!(a, c);
    assert_ne!(b, c);
    assert_eq!(types.find(&[], &[ValType::I32]), Some(b));
    assert_eq!(types.find(&[ValType::I64], &[]), None);
}

#[test]
fn entry_types_are_kept_apart_and_not_emitted() {
    let mut types = ModuleTypes::new();
    let plain = types.add(&[], &[ValType::I32, ValType::I64]);
    let entry = types.add_entry_ty(&[ValType::I32, ValType::I64]);
    assert_ne!(plain, entry);
    assert_eq!(types.add_entry_ty(&[ValType::I32, ValType::I64]), entry);
    assert!(types.get(entry).unwrap().is_for_function_entry());
    assert!(!types.get(plain).unwrap().is_for_function_entry());

    let mut ix = IdsToIndices::new();
    assert_eq!(types.emit(&mut ix), vec![plain]);
    assert_eq!(ix.get_type_index(entry), Err(Error::NotFound { kind: EntityKind::Type, id: entry.index }));
}

#[test]
fn type_accessors() {
    let mut types = ModuleTypes::new();
    let id = types.add(&[ValType::I32, ValType::F64], &[ValType::V128]);
    let t = types.get(id).unwrap();
    assert_eq!(t.id(), id);
    assert_eq!(t.params(), &[ValType::I32, ValType::F64]);
    assert_eq!(t.results(), &[ValType::V128]);
    assert!(t.name.is_none());
}

#[test]
fn types_compare_by_signature_only() {
    let mut types = ModuleTypes::new();
    let a = types.add(&[ValType::I32], &[]);
    let mut other = ModuleTypes::new();
    other.add(&[ValType::F32], &[]);
    let b = other.add(&[ValType::I32], &[]);
    assert_ne!(a, b);
    let mut ta = types.get(a).unwrap().clone();
    ta.name = Some("named".to_string());
    assert!(ta == *other.get(b).unwrap());
    assert!(*types.get(a).unwrap() != *other.get(TypeId { index: 0 }).unwrap());
}

#[test]
fn deleted_type_is_not_found_and_not_emitted() {
    let mut types = ModuleTypes::new();
    let a = types.add(&[ValType::I32], &[]);
    let b = types.add(&[ValType::I64], &[]);
    let mut ix = IdsToIndices::new();
    assert_eq!(types.emit(&mut ix).len(), 2);

    types.delete(a);
    assert_eq!(types.get(a).unwrap_err(), Error::NotFound { kind: EntityKind::Type, id: a.index });
    assert_eq!(types.iter(), vec![b]);
    let mut ix = IdsToIndices::new();
    assert_eq!(types.emit(&mut ix), vec![b]);
    assert_eq!(ix.get_type_index(b), Ok(0));

    // Slots are never reused: the same signature gets a fresh id.
    let c = types.add(&[ValType::I32], &[]);
    assert_ne!(c, a);
    assert_eq!(c.index, 2);
}

#[test]
fn emit_continues_the_index_space() {
    let mut types = ModuleTypes::new();
    let a = types.add(&[], &[]);
    let b = types.add(&[ValType::I32], &[]);
    let mut ix = IdsToIndices::new();
    ix.types.push(100);
    assert_eq!(types.emit(&mut ix), vec![a, b]);
    assert_eq!(ix.get_type_index(a), Ok(1));
    assert_eq!(ix.get_type_index(b), Ok(2));
}

#[test]
fn value_type_text() {
    assert_eq!(ValType::I32.to_string(), "i32");
    assert_eq!(ValType::I64.to_string(), "i64");
    assert_eq!(ValType::F32.to_string(), "f32");
    assert_eq!(ValType::F64.to_string(), "f64");
    assert_eq!(ValType::V128.to_string(), "v128");
    assert_eq!(ValType::Ref(RefType::funcref()).to_string(), "ref func");
    let non_null = RefType { nullable: false, heap_type: HeapType::Abstract(AbstractHeapType::Extern) };
    assert_eq!(ValType::Ref(non_null).to_string(), "ref null extern");
    let concrete = RefType { nullable: true, heap_type: HeapType::Concrete(42) };
    assert_eq!(ValType::Ref(concrete).to_string(), "ref 42");
}

#[test]
fn heap_type_text() {
    assert_eq!(HeapType::Concrete(0).to_string(), "0");
    assert_eq!(HeapType::Concrete(1234567).to_string(), "1234567");
    assert_eq!(HeapType::Abstract(AbstractHeapType::NoneType).to_string(), "none");
    assert_eq!(AbstractHeapType::NoExtern.name(), "noextern");
    assert_eq!(AbstractHeapType::I31.name(), "i31");
    assert_eq!(AbstractHeapType::NoExn.name(), "noexn");
}

#[test]
fn named_reference_types() {
    assert_eq!(RefType::anyref().heap_type, HeapType::Abstract(AbstractHeapType::Any));
    assert_eq!(RefType::eqref().heap_type, HeapType::Abstract(AbstractHeapType::Eq));
    assert_eq!(RefType::externref().heap_type, HeapType::Abstract(AbstractHeapType::Extern));
    assert_eq!(RefType::i31ref().heap_type, HeapType::Abstract(AbstractHeapType::I31));
    assert_eq!(RefType::arrayref().heap_type, HeapType::Abstract(AbstractHeapType::Array));
    assert_eq!(RefType::exnref().heap_type, HeapType::Abstract(AbstractHeapType::Exn));
    assert!(RefType::funcref().nullable && RefType::exnref().nullable);
}

#[test]
fn stack_switching_heap_types_are_rejected() {
    assert_eq!(AbstractHeapType::try_from_decoded(DecodedAbstractHeapType::NoneType), Ok(AbstractHeapType::NoneType));
    assert_eq!(
        AbstractHeapType::try_from_decoded(DecodedAbstractHeapType::Cont),
        Err(Error::UnsupportedFeature(Unsupported::StackSwitching))
    );
    assert_eq!(
        AbstractHeapType::try_from_decoded(DecodedAbstractHeapType::NoCont),
        Err(Error::UnsupportedFeature(Unsupported::StackSwitching))
    );
}
