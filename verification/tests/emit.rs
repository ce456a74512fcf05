use packsmith::emit::{file_tree, zip, EmitError, FileTree};
use packsmith::ir::{Body, Command, Ir, Pack, Resource, StatementAddress, Target};
use packsmith::json::Json;
use packsmith::mcversion::{Category, PackFormat, PackKind, TargetData};

fn s(v: &str) -> Json {
    Json::Str(v.to_string())
}

fn obj(members: Vec<(&str, Json)>) -> Json {
    Json::Object(members.into_iter().map(|(k, v)| (k.to_string(), v)).collect())
}

fn category(directory: &str, extension: &str) -> Category {
    Category { directory: directory.to_string(), extension: extension.to_string() }
}

/// The tables of the 26.2 data file that the emitter reads.
fn target() -> TargetData {
    TargetData::new(
        "26.2".to_string(),
        vec![("data".to_string(), PackFormat { major: 107, minor: 1 })],
        vec![
            ("data".to_string(), PackKind { root: "data".to_string(), format: "data".to_string() }),
            ("resource".to_string(), PackKind { root: "assets".to_string(), format: "resource".to_string() }),
        ],
        vec![
            ("advancement".to_string(), category("advancement", "json")),
            ("function".to_string(), category("function", "mcfunction")),
            ("item_modifier".to_string(), category("item_modifier", "json")),
            ("loot_table".to_string(), category("loot_table", "json")),
            ("predicate".to_string(), category("predicate", "json")),
            ("recipe".to_string(), category("recipe", "json")),
            ("tags/function".to_string(), category("tags/function", "json")),
        ],
        Vec::new(),
        Vec::new(),
        Vec::new(),
        obj(vec![("type", s("root"))]),
    )
}

fn empty_pack_ir() -> Ir {
    Ir {
        version: 0,
        target: Target { id: "26.2".to_string() },
        packs: vec![Pack {
            kind: "data".to_string(),
            description: Some(s("An empty Packsmith project.")),
            resources: Vec::new(),
        }],
    }
}

fn addr() -> StatementAddress {
    StatementAddress { node: None, slot: "root".to_string(), index: 0 }
}

fn resource(category: &str, id: &str, body: Body) -> Resource {
    Resource { category: category.to_string(), id: id.to_string(), origin: addr(), body }
}

fn text_at(tree: &FileTree, path: &str) -> String {
    String::from_utf8(tree.get(path).expect("present").clone()).unwrap()
}

#[test]
fn empty_pack_is_one_pack_mcmeta_shaped_from_target_data() {
    let tree = file_tree(&empty_pack_ir(), &target()).expect("emits");
    assert_eq!(tree.keys(), vec!["pack.mcmeta"]);
    assert_eq!(
        text_at(&tree, "pack.mcmeta"),
        "{\"pack\":{\"description\":\"An empty Packsmith project.\",\
         \"min_format\":[107,1],\"max_format\":107}}\n"
    );
}

#[test]
fn an_unsupported_pack_kind_is_a_diagnostic_not_a_panic() {
    let mut ir = empty_pack_ir();
    ir.packs[0].kind = "worldgen".to_string();
    assert!(matches!(file_tree(&ir, &target()), Err(EmitError::UnsupportedPackKind { .. })));
}

#[test]
fn a_function_resource_lands_where_target_data_says_with_lf_and_a_trailing_newline() {
    let mut ir = empty_pack_ir();
    ir.packs[0].description = None;
    ir.packs[0].resources = vec![resource(
        "function",
        "example:hello",
        Body::Commands {
            statements: vec![Command::Text { command: "say Hello, world!".to_string(), origin: addr() }],
        },
    )];
    let tree = file_tree(&ir, &target()).expect("emits");
    assert_eq!(text_at(&tree, "data/example/function/hello.mcfunction"), "say Hello, world!\n");
}

#[test]
fn a_json_resource_is_written_with_sorted_keys_and_a_trailing_newline() {
    let mut ir = empty_pack_ir();
    ir.packs[0].description = None;
    ir.packs[0].resources = vec![resource(
        "tags/function",
        "minecraft:load",
        Body::Json { value: obj(vec![("values", Json::Array(vec![s("example:hello")]))]) },
    )];
    let tree = file_tree(&ir, &target()).expect("emits");
    assert_eq!(text_at(&tree, "data/minecraft/tags/function/load.json"), "{\"values\":[\"example:hello\"]}\n");
}

#[test]
fn an_unknown_category_is_a_diagnostic_not_a_panic() {
    let mut ir = empty_pack_ir();
    ir.packs[0].resources = vec![resource("worldgen/biome", "example:x", Body::Json { value: obj(vec![]) })];
    assert!(matches!(file_tree(&ir, &target()), Err(EmitError::UnsupportedCategory { .. })));
}

#[test]
fn zip_is_byte_identical_across_runs() {
    let tree = file_tree(&empty_pack_ir(), &target()).expect("emits");
    assert_eq!(zip(&tree), zip(&tree));
}

#[test]
fn zip_has_a_local_header_and_an_end_of_central_directory() {
    let bytes = zip(&file_tree(&empty_pack_ir(), &target()).expect("emits"));
    assert_eq!(&bytes[..4], b"PK\x03\x04");
    assert_eq!(&bytes[bytes.len() - 22..bytes.len() - 18], b"PK\x05\x06");
}

#[test]
fn an_id_without_a_namespace_cannot_be_placed() {
    let mut ir = empty_pack_ir();
    ir.packs[0].resources = vec![resource("function", "hello", Body::Commands { statements: Vec::new() })];
    let err = file_tree(&ir, &target()).err().expect("refused");
    assert!(matches!(err, EmitError::UnnamespacedId { .. }));
    assert_eq!(err.message(), "resource id 'hello' has no namespace");
}

#[test]
fn emit_errors_read_as_sentences() {
    let e = EmitError::UnsupportedPackKind { target: "26.2".to_string(), kind: "worldgen".to_string() };
    assert_eq!(e.message(), "target 26.2 does not support pack kind 'worldgen'");
    let e = EmitError::UnsupportedCategory { target: "26.2".to_string(), category: "x".to_string() };
    assert_eq!(e.message(), "target 26.2 does not define resource category 'x'");
}

#[test]
fn a_kind_without_a_format_is_unsupported() {
    let mut ir = empty_pack_ir();
    ir.packs[0].kind = "resource".to_string();
    assert!(matches!(file_tree(&ir, &target()), Err(EmitError::UnsupportedPackKind { .. })));
}

#[test]
fn the_tree_is_sorted_by_path_and_a_repeated_path_keeps_the_last() {
    let mut tree = FileTree::new();
    tree.insert("b".to_string(), vec![1]);
    tree.insert("a".to_string(), vec![2]);
    tree.insert("c".to_string(), vec![3]);
    tree.insert("b".to_string(), vec![4]);
    assert_eq!(tree.keys(), vec!["a", "b", "c"]);
    assert_eq!(tree.get("b"), Some(&vec![4]));
    assert_eq!(tree.len(), 3);
    assert!(tree.get("d").is_none());
}

#[test]
fn a_stored_zip_records_crc_and_sizes() {
    let mut tree = FileTree::new();
    tree.insert("a.txt".to_string(), b"hi".to_vec());
    let z = zip(&tree);
    // Local header: signature, version 20, flags 0, method 0, time 0, date 1980-01-01.
    assert_eq!(&z[4..14], &[20, 0, 0, 0, 0, 0, 0, 0, 0x21, 0]);
    // CRC-32 of "hi" is 0xD8932AAC.
    assert_eq!(&z[14..18], &[0xAC, 0x2A, 0x93, 0xD8]);
    assert_eq!(&z[18..22], &[2, 0, 0, 0]);
    assert_eq!(&z[22..26], &[2, 0, 0, 0]);
    assert_eq!(&z[26..28], &[5, 0]);
    assert_eq!(&z[30..35], b"a.txt");
    assert_eq!(&z[35..37], b"hi");
    // Central directory right after, then the end record with one entry.
    assert_eq!(&z[37..41], b"PK\x01\x02");
    let end = z.len() - 22;
    assert_eq!(&z[end + 8..end + 10], &[1, 0]);
}

#[test]
fn a_file_tree_round_trips_through_zip() {
    let mut ir = empty_pack_ir();
    ir.packs[0].resources = vec![resource(
        "function",
        "example:hello",
        Body::Commands {
            statements: vec![Command::Text { command: "say Hello, world!".to_string(), origin: addr() }],
        },
    )];
    let tree = file_tree(&ir, &target()).expect("emits");
    let back = packsmith::conformance::read_store_zip(&zip(&tree)).expect("reads back");
    assert_eq!(back.keys(), tree.keys());
    for k in tree.keys() {
        assert_eq!(back.get(&k), tree.get(&k));
    }
}
