use packsmith::json::Json;
use packsmith::mcversion::{Category, PackFormat, PackKind, TargetData};

fn s(v: &str) -> Json {
    Json::Str(v.to_string())
}

fn obj(members: Vec<(&str, Json)>) -> Json {
    Json::Object(members.into_iter().map(|(k, v)| (k.to_string(), v)).collect())
}

fn category(directory: &str, extension: &str) -> Category {
    Category { directory: directory.to_string(), extension: extension.to_string() }
}

fn ids(v: &[&str]) -> Vec<String> {
    v.iter().map(|x| x.to_string()).collect()
}

/// The 26.2 tables, with short registry lists and command tree.
fn target_26_2() -> TargetData {
    TargetData::new(
        "26.2".to_string(),
        vec![
            ("data".to_string(), PackFormat { major: 107, minor: 1 }),
            ("resource".to_string(), PackFormat { major: 84, minor: 0 }),
        ],
        vec![
            ("data".to_string(), PackKind { root: "data".to_string(), format: "data".to_string() }),
            ("resource".to_string(), PackKind { root: "assets".to_string(), format: "resource".to_string() }),
        ],
        vec![
            ("advancement".to_string(), category("advancement", "json")),
            ("function".to_string(), category("function", "mcfunction")),
            ("item_modifier".to_string(), category("item_modifier", "json")),
            ("loot_table".to_string(), category("loot_table", "json")),
            ("predicate".to_string(), category("predicate", "json")),
            ("recipe".to_string(), category("recipe", "json")),
            ("tags/function".to_string(), category("tags/function", "json")),
        ],
        ids(&["minecraft:dirt", "minecraft:stone"]),
        ids(&["minecraft:diamond", "minecraft:stick"]),
        ids(&["minecraft:creeper", "minecraft:zombie"]),
        obj(vec![
            ("children", obj(vec![("say", obj(vec![("type", s("literal"))]))])),
            ("type", s("root")),
        ]),
    )
}

fn find_key<'a>(v: &'a Json, key: &str) -> Option<&'a Json> {
    match v {
        Json::Object(members) => {
            if let Some(found) = v.get(key) {
                return Some(found);
            }
            members.iter().find_map(|(_, child)| find_key(child, key))
        }
        Json::Array(items) => items.iter().find_map(|child| find_key(child, key)),
        _ => None,
    }
}

#[test]
fn data_pack_format_is_resolved_through_the_kind() {
    let t = target_26_2();
    let fmt = t.pack_format("data").expect("data kind is defined for 26.2");
    assert_eq!(fmt, PackFormat { major: 107, minor: 1 });
    assert!(t.pack_format("nonsense").is_none());
}

#[test]
fn function_category_lands_where_target_data_says() {
    let t = target_26_2();
    let f = t.category("function").expect("function category is defined");
    assert_eq!(f.directory, "function");
    assert_eq!(f.extension, "mcfunction");
    assert_eq!(t.category("tags/function").map(|c| c.extension.as_str()), Some("json"));
    assert!(t.category("worldgen/biome").is_none(), "not a v1 category");
}

#[test]
fn registry_lists_are_namespaced_and_populated() {
    let t = target_26_2();
    assert!(t.blocks().contains(&"minecraft:stone".to_string()));
    assert!(t.items().contains(&"minecraft:stick".to_string()));
    assert!(t.entity_types().contains(&"minecraft:creeper".to_string()));
}

#[test]
fn command_tree_carries_grammar_but_not_permissions() {
    let t = target_26_2();
    let root = t.commands();
    assert_eq!(root.get("type"), Some(&s("root")));
    assert!(root.get("children").and_then(|c| c.get("say")).map(|x| x.is_object()).unwrap_or(false));
    assert!(find_key(root, "permissions").is_none(), "permissions are stripped: they are not grammar");
}

#[test]
fn the_pack_kind_gives_the_root_directory() {
    let t = target_26_2();
    assert_eq!(t.pack_kind("resource").map(|k| k.root.as_str()), Some("assets"));
    assert!(t.pack_kind("worldgen").is_none());
    assert_eq!(t.target(), "26.2");
    assert_eq!(t.categories().len(), 7);
}

#[test]
fn tables_are_kept_as_sorted_maps() {
    let t = TargetData::new(
        "x".to_string(),
        vec![
            ("resource".to_string(), PackFormat { major: 1, minor: 0 }),
            ("data".to_string(), PackFormat { major: 2, minor: 0 }),
            ("data".to_string(), PackFormat { major: 3, minor: 1 }),
        ],
        vec![("data".to_string(), PackKind { root: "data".to_string(), format: "data".to_string() })],
        vec![
            ("recipe".to_string(), category("recipe", "json")),
            ("function".to_string(), category("function", "mcfunction")),
        ],
        Vec::new(),
        Vec::new(),
        Vec::new(),
        Json::Null,
    );
    assert_eq!(t.pack_format("data"), Some(PackFormat { major: 3, minor: 1 }));
    let names: Vec<&str> = t.categories().iter().map(|(k, _)| k.as_str()).collect();
    assert_eq!(names, vec!["function", "recipe"]);
}
