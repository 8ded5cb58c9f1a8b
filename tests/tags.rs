use walrus_ir::error::{EntityKind, Error};
use walrus_ir::ids::{ImportId, TagId, TypeId};
use walrus_ir::indices::{IdsToIndices, IndicesToIds};
use walrus_ir::tags::{encode_tag_section, ModuleTags, Tag, TagKind};
use walrus_ir::ty::ValType;
use walrus_ir::types::ModuleTypes;

/// Emits the types and the tag section, then parses them into fresh tables,
/// as a module round trip does. Returns the new tables and the section.
fn emit_and_parse(types: &ModuleTypes, tags: &ModuleTags) -> (ModuleTypes, ModuleTags, Vec<u8>) {
    let mut ix = IdsToIndices::new();
    let emitted = types.emit(&mut ix);
    let entries = tags.emit(&mut ix).unwrap();
    let section = encode_tag_section(&entries);

    let mut types2 = ModuleTypes::new();
    let mut ids = IndicesToIds::new();
    for id in emitted {
        let t = types.get(id).unwrap();
        let id2 = types2.add(t.params(), t.results());
        ids.push_type(id2);
    }
    assert_eq!(section[0] as usize, section.len() - 1);
    let mut tags2 = ModuleTags::new();
    tags2.parse_tags(&section[1..], &mut ids).unwrap();
    (types2, tags2, section)
}

#[test]
fn create_tag_and_export() {
    let mut types = ModuleTypes::new();
    let mut tags = ModuleTags::new();
    let tag_type = types.add(&[ValType::I32, ValType::I32], &[]);
    let tag_id = tags.add(tag_type);
    assert_eq!(tags.get(tag_id).unwrap().ty(), tag_type);

    let (types2, tags2, wasm) = emit_and_parse(&types, &tags);
    assert_eq!(wasm, vec![3, 1, 0x00, 0]);
    let (_, _, wasm2) = emit_and_parse(&types2, &tags2);
    assert_eq!(wasm, wasm2, "Round-trip should be deterministic");
}

#[test]
fn create_multiple_tags() {
    let mut types = ModuleTypes::new();
    let mut tags = ModuleTags::new();
    let tag_type1 = types.add(&[ValType::I32], &[]);
    let tag_type2 = types.add(&[ValType::I64, ValType::I32], &[]);
    let tag_type3 = types.add(&[], &[]);
    tags.add(tag_type1);
    tags.add(tag_type2);
    tags.add(tag_type3);

    let (types2, tags2, wasm) = emit_and_parse(&types, &tags);
    assert_eq!(wasm, vec![7, 3, 0x00, 0, 0x00, 1, 0x00, 2]);
    assert_eq!(tags2.iter().len(), 3);
    let (_, _, wasm2) = emit_and_parse(&types2, &tags2);
    assert_eq!(wasm, wasm2);
}

#[test]
fn mutate_tag_type() {
    let mut types = ModuleTypes::new();
    let mut tags = ModuleTags::new();
    let tag_type1 = types.add(&[ValType::I32], &[]);
    let tag_id = tags.add(tag_type1);

    let tag_type2 = types.add(&[ValType::I64], &[]);
    let tag = tags.get_mut(tag_id).unwrap();
    tag.ty = tag_type2;

    let (types2, tags2, _) = emit_and_parse(&types, &tags);
    let parsed_tag = tags2.iter()[0];
    let parsed_type = types2.get(parsed_tag.ty).unwrap();
    assert_eq!(parsed_type.params(), &[ValType::I64]);
}

#[test]
fn delete_tag() {
    let mut types = ModuleTypes::new();
    let mut tags = ModuleTags::new();
    let tag_type1 = types.add(&[ValType::I32], &[]);
    let tag_id1 = tags.add(tag_type1);
    let tag_type2 = types.add(&[ValType::I64], &[]);
    let tag_id2 = tags.add(tag_type2);
    assert_eq!(tags.iter().len(), 2);

    tags.delete(tag_id1);
    assert_eq!(tags.iter().len(), 1);
    assert_eq!(tags.iter()[0].id(), tag_id2);
    assert_eq!(tags.get(tag_id1).unwrap_err(), Error::NotFound { kind: EntityKind::Tag, id: tag_id1.index });

    let (_, tags2, _) = emit_and_parse(&types, &tags);
    assert_eq!(tags2.iter().len(), 1);
}

#[test]
fn imported_tag() {
    let mut types = ModuleTypes::new();
    let mut tags = ModuleTags::new();
    let ty = types.add(&[ValType::I32], &[]);
    let id = tags.add_import(ty, ImportId { index: 0 });
    assert_eq!(tags.iter().len(), 1);
    let tag = tags.iter()[0];
    assert!(matches!(tag.kind, TagKind::Import(_)));
    assert_eq!(tag.id, id);

    // Imported tags are numbered with the imports: the tag section leaves
    // them out and numbers the local ones after them.
    let local = tags.add(ty);
    let mut ix = IdsToIndices::new();
    types.emit(&mut ix);
    ix.tags.push(id.index);
    let entries = tags.emit(&mut ix).unwrap();
    assert_eq!(entries, vec![0]);
    assert_eq!(ix.get_tag_index(id), Ok(0));
    assert_eq!(ix.get_tag_index(local), Ok(1));
}

#[test]
fn parse_module_with_tags() {
    // A tag section with one tag of type 0.
    let contents = [1u8, 0x00, 0x00];
    let mut types = ModuleTypes::new();
    let mut ids = IndicesToIds::new();
    ids.push_type(types.add(&[ValType::I32], &[]));
    let mut tags = ModuleTags::new();
    tags.parse_tags(&contents, &mut ids).unwrap();
    assert_eq!(tags.iter().len(), 1);
    assert_eq!(ids.get_tag(0), Ok(TagId { index: 0 }));
    assert!(matches!(tags.iter()[0].kind, TagKind::Local));
}

#[test]
fn parse_tags_reports_unknown_type() {
    let contents = [2u8, 0x00, 0x00, 0x00, 0x05];
    let mut ids = IndicesToIds::new();
    ids.push_type(TypeId { index: 0 });
    let mut tags = ModuleTags::new();
    assert_eq!(
        tags.parse_tags(&contents, &mut ids).unwrap_err(),
        Error::Resolution { kind: EntityKind::Type, index: 5 }
    );
}

#[test]
fn parse_tags_rejects_malformed_sections() {
    let mut ids = IndicesToIds::new();
    ids.push_type(TypeId { index: 0 });
    let mut tags = ModuleTags::new();
    // Bad attribute byte.
    assert_eq!(tags.parse_tags(&[1, 0x01, 0x00], &mut ids).unwrap_err(), Error::Decode { offset: 0 });
    // Count says two, one present.
    assert_eq!(tags.parse_tags(&[2, 0x00, 0x00], &mut ids).unwrap_err(), Error::Decode { offset: 0 });
    // Bytes left over.
    assert_eq!(tags.parse_tags(&[1, 0x00, 0x00, 0x00], &mut ids).unwrap_err(), Error::Decode { offset: 0 });
}

#[test]
fn emit_fails_for_tag_with_unindexed_type() {
    let mut tags = ModuleTags::new();
    tags.add(TypeId { index: 9 });
    let mut ix = IdsToIndices::new();
    assert_eq!(tags.emit(&mut ix).unwrap_err(), Error::NotFound { kind: EntityKind::Type, id: 9 });
}

#[test]
fn tag_constructor_and_accessors() {
    let t = Tag::new(TagId { index: 4 }, TypeId { index: 2 });
    assert_eq!(t.id(), TagId { index: 4 });
    assert_eq!(t.ty(), TypeId { index: 2 });
    assert_eq!(t.kind, TagKind::Local);
}

#[test]
fn empty_tag_section() {
    assert_eq!(encode_tag_section(&[]), vec![1, 0]);
}

#[test]
fn large_type_index_in_tag_section() {
    assert_eq!(encode_tag_section(&[200]), vec![4, 1, 0x00, 0xC8, 0x01]);
}

#[test]
fn parse_tags_accepts_longer_leb128_forms() {
    let mut ids = IndicesToIds::new();
    ids.push_type(TypeId { index: 0 });
    ids.push_type(TypeId { index: 1 });
    let mut tags = ModuleTags::new();
    tags.parse_tags(&[0x82, 0x00, 0x00, 0x81, 0x00, 0x00, 0x00], &mut ids).unwrap();
    let parsed = tags.iter();
    assert_eq!(parsed.len(), 2);
    assert_eq!(parsed[0].ty, TypeId { index: 1 });
    assert_eq!(parsed[1].ty, TypeId { index: 0 });
    // A malformed section: count one, attribute byte, no type index.
    let mut tags = ModuleTags::new();
    assert_eq!(tags.parse_tags(&[1, 0x00], &mut ids).unwrap_err(), Error::Decode { offset: 0 });
}

#[test]
fn emit_keeps_earlier_tag_indices() {
    let mut types = ModuleTypes::new();
    let mut tags = ModuleTags::new();
    let ty = types.add(&[], &[]);
    let imported = tags.add_import(ty, ImportId { index: 0 });
    let mut ix = IdsToIndices::new();
    types.emit(&mut ix);
    ix.tags.push(imported.index);
    assert_eq!(tags.emit(&mut ix).unwrap(), Vec::<u32>::new());
    assert_eq!(ix.get_tag_index(imported), Ok(0));
}
