use walrus_ir::arena::TombstoneArena;
use walrus_ir::error::{EntityKind, Error};
use walrus_ir::ids::{FunctionId, GlobalId, TypeId};
use walrus_ir::indices::{IdsToIndices, IndicesToIds};

#[test]
fn arena_slots_survive_deletion() {
    let mut a: TombstoneArena<u32> = TombstoneArena::new();
    assert_eq!(a.next_id(), 0);
    let x = a.allocate(10);
    let y = a.allocate(20);
    let z = a.allocate(30);
    assert_eq!((x, y, z), (0, 1, 2));
    a.delete(y);
    assert_eq!(a.get(y), None);
    assert_eq!(a.get(x), Some(&10));
    assert_eq!(a.live(), vec![0, 2]);
    assert_eq!(a.next_id(), 3);
    *a.get_mut(z).unwrap() = 31;
    assert_eq!(a.get(z), Some(&31));
    assert!(a.get_mut(y).is_none());
    assert_eq!(a.get(7), None);
    a.delete(7);
    assert_eq!(a.live(), vec![0, 2]);
}

#[test]
fn parse_time_indices_resolve_in_order() {
    let mut ids = IndicesToIds::new();
    ids.push_type(TypeId { index: 5 });
    ids.push_type(TypeId { index: 6 });
    ids.push_func(FunctionId { index: 1 });
    assert_eq!(ids.get_type(1), Ok(TypeId { index: 6 }));
    assert_eq!(ids.get_func(0), Ok(FunctionId { index: 1 }));
    assert_eq!(ids.get_type(2), Err(Error::Resolution { kind: EntityKind::Type, index: 2 }));
    assert_eq!(ids.get_global(0), Err(Error::Resolution { kind: EntityKind::Global, index: 0 }));
    assert_eq!(ids.get_tag(0), Err(Error::Resolution { kind: EntityKind::Tag, index: 0 }));
}

#[test]
fn emit_time_indices_are_contiguous_per_kind() {
    let mut ix = IdsToIndices::new();
    assert_eq!(ix.globals.push(10), 0);
    assert_eq!(ix.globals.push(3), 1);
    assert_eq!(ix.funcs.push(10), 0);
    assert_eq!(ix.get_global_index(GlobalId { index: 10 }), Ok(0));
    assert_eq!(ix.get_global_index(GlobalId { index: 3 }), Ok(1));
    assert_eq!(ix.get_func_index(FunctionId { index: 10 }), Ok(0));
    assert_eq!(ix.get_func_index(FunctionId { index: 3 }), Err(Error::NotFound { kind: EntityKind::Function, id: 3 }));
    assert_eq!(ix.globals.get(4), None);
}
