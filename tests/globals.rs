use walrus_ir::const_expr::{ConstExpr, ConstOp, Value};
use walrus_ir::error::{EntityKind, Error};
use walrus_ir::globals::{GlobalKind, ModuleGlobals};
use walrus_ir::ids::{FunctionId, GlobalId, ImportId};
use walrus_ir::indices::IdsToIndices;
use walrus_ir::ty::{RefType, ValType};

#[test]
fn global_section_holds_each_local_global() {
    let mut globals = ModuleGlobals::new();
    let base = globals.add_local(ValType::I32, false, false, ConstExpr::Value(Value::I32(42)));
    let derived = globals.add_local(
        ValType::I32,
        true,
        false,
        ConstExpr::Extended(vec![ConstOp::GlobalGet(base), ConstOp::I32Const(8), ConstOp::I32Add]),
    );
    let mut ix = IdsToIndices::new();
    let section = globals.emit(&mut ix).unwrap();
    assert_eq!(
        section,
        vec![
            14, 2, // size, count
            0x7F, 0x00, 0x41, 42, 0x0B, // base
            0x7F, 0x01, 0x23, 0x00, 0x41, 8, 0x6A, 0x0B, // derived
        ]
    );
    assert_eq!(ix.get_global_index(base), Ok(0));
    assert_eq!(ix.get_global_index(derived), Ok(1));
}

#[test]
fn imported_globals_come_first() {
    let mut globals = ModuleGlobals::new();
    let local = globals.add_local(ValType::I64, false, false, ConstExpr::Value(Value::I64(1)));
    let imported = globals.add_import(ValType::I32, false, false, ImportId { index: 0 });
    let mut ix = IdsToIndices::new();
    ix.globals.push(imported.index);
    let section = globals.emit(&mut ix).unwrap();
    assert_eq!(section, vec![6, 1, 0x7E, 0x00, 0x42, 1, 0x0B]);
    assert_eq!(ix.get_global_index(imported), Ok(0));
    assert_eq!(ix.get_global_index(local), Ok(1));
}

#[test]
fn delete_global_removes_one_entry() {
    let mut globals = ModuleGlobals::new();
    let a = globals.add_local(ValType::I32, false, false, ConstExpr::Value(Value::I32(1)));
    let b = globals.add_local(ValType::I32, false, false, ConstExpr::Value(Value::I32(2)));
    let mut ix = IdsToIndices::new();
    assert_eq!(globals.emit(&mut ix).unwrap()[1], 2);

    globals.delete(a);
    assert_eq!(globals.iter(), vec![b]);
    assert_eq!(globals.get(a).unwrap_err(), Error::NotFound { kind: EntityKind::Global, id: a.index });
    let mut ix = IdsToIndices::new();
    let section = globals.emit(&mut ix).unwrap();
    assert_eq!(section, vec![6, 1, 0x7F, 0x00, 0x41, 2, 0x0B]);
    assert_eq!(ix.get_global_index(b), Ok(0));
}

#[test]
fn global_with_unindexed_function_fails() {
    let mut globals = ModuleGlobals::new();
    globals.add_local(ValType::Ref(RefType::funcref()), false, false, ConstExpr::RefFunc(FunctionId { index: 0 }));
    let mut ix = IdsToIndices::new();
    assert_eq!(globals.emit(&mut ix).unwrap_err(), Error::NotFound { kind: EntityKind::Function, id: 0 });
}

#[test]
fn reference_global_and_flags() {
    let mut globals = ModuleGlobals::new();
    let f = FunctionId { index: 0 };
    let g = globals.add_local(ValType::Ref(RefType::funcref()), true, true, ConstExpr::RefFunc(f));
    let mut ix = IdsToIndices::new();
    ix.funcs.push(f.index);
    let section = globals.emit(&mut ix).unwrap();
    assert_eq!(section, vec![6, 1, 0x70, 0x03, 0xD2, 0x00, 0x0B]);
    let global = globals.get_mut(g).unwrap();
    global.mutable = false;
    assert!(!globals.get(g).unwrap().mutable);
    assert!(matches!(globals.get(g).unwrap().kind, GlobalKind::Local(ConstExpr::RefFunc(_))));
    assert_eq!(globals.get(GlobalId { index: 7 }).unwrap_err(), Error::NotFound { kind: EntityKind::Global, id: 7 });
}

#[test]
fn empty_global_section() {
    let globals = ModuleGlobals::new();
    let mut ix = IdsToIndices::new();
    assert_eq!(globals.emit(&mut ix).unwrap(), vec![1, 0]);
}
