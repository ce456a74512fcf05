use packsmith::json::Json;
use packsmith::sync::{
    build_target, civil_from_days, id_list, parse_sync_args, pin_for, strip_extracted, strip_permissions,
    today_from_secs, VersionInfo,
};

fn s(v: &str) -> Json {
    Json::Str(v.to_string())
}

fn obj(members: Vec<(&str, Json)>) -> Json {
    Json::Object(members.into_iter().map(|(k, v)| (k.to_string(), v)).collect())
}

#[test]
fn civil_from_days_matches_known_dates() {
    assert_eq!(civil_from_days(0), (1970, 1, 1));
    assert_eq!(civil_from_days(18_993), (2022, 1, 1));
    assert_eq!(civil_from_days(20_663), (2026, 7, 29));
}

#[test]
fn civil_from_days_handles_days_before_the_epoch() {
    assert_eq!(civil_from_days(-1), (1969, 12, 31));
    assert_eq!(civil_from_days(-719_468), (0, 3, 1));
    assert_eq!(civil_from_days(11_016), (2000, 2, 29));
}

#[test]
fn today_is_written_year_month_day() {
    assert_eq!(today_from_secs(0), "1970-01-01");
    assert_eq!(today_from_secs(20_663 * 86_400 + 3_600), "2026-07-29");
}

#[test]
fn strip_permissions_is_recursive() {
    let input = obj(vec![
        (
            "children",
            obj(vec![(
                "say",
                obj(vec![("permissions", obj(vec![("level", s("gamemasters"))])), ("type", s("literal"))]),
            )]),
        ),
        ("permissions", obj(vec![("level", s("gamemasters"))])),
        ("type", s("root")),
    ]);
    let out = strip_permissions(input);
    assert!(out.get("permissions").is_none());
    let say = out.get("children").and_then(|c| c.get("say")).expect("say");
    assert!(say.get("permissions").is_none());
    assert_eq!(say.get("type"), Some(&s("literal")));
}

#[test]
fn id_list_namespaces_and_sorts() {
    let registries = vec![(
        "block".to_string(),
        Json::Array(vec![s("stone"), s("minecraft:acacia_door"), s("dirt")]),
    )];
    assert_eq!(
        id_list(&registries, "block").unwrap(),
        vec!["minecraft:acacia_door", "minecraft:dirt", "minecraft:stone"]
    );
}

#[test]
fn id_list_drops_repeats_and_non_strings() {
    let registries = vec![(
        "item".to_string(),
        Json::Array(vec![s("stick"), s("minecraft:stick"), Json::Null, s("apple")]),
    )];
    assert_eq!(id_list(&registries, "item").unwrap(), vec!["minecraft:apple", "minecraft:stick"]);
    assert_eq!(
        id_list(&registries, "block").err().unwrap(),
        "mcmeta registries has no array for 'block'"
    );
}

#[test]
fn only_pinned_targets_can_be_synced() {
    let pin = pin_for("26.2").expect("pinned");
    assert_eq!(pin.tag, "26.2-summary");
    assert!(pin_for("1.16").is_none());
}

#[test]
fn sync_arguments_need_a_pinned_version() {
    let args = |v: &[&str]| v.iter().map(|s| s.to_string()).collect::<Vec<String>>();
    let a = parse_sync_args(&args(&["--version", "26.2", "--check"])).unwrap();
    assert_eq!(a.version, "26.2");
    assert!(a.check);
    assert_eq!(parse_sync_args(&args(&[])).err().unwrap(), "sync-target: --version <v> is required");
    assert_eq!(parse_sync_args(&args(&["--version"])).err().unwrap(), "--version needs a value, e.g. 26.2");
    assert_eq!(parse_sync_args(&args(&["--frob"])).err().unwrap(), "sync-target: unexpected argument '--frob'");
    assert_eq!(
        parse_sync_args(&args(&["--version", "1.0"])).err().unwrap(),
        "no mcmeta pin for '1.0'; add one to xtask/src/sync_target.rs"
    );
}

#[test]
fn only_the_extracted_line_is_blanked() {
    let json = "{\n  \"provenance\": {\n    \"extracted\": \"2026-07-29\",\r\n    \"mcmeta_tag\": \"x\"\n  }\n}\n";
    assert_eq!(
        strip_extracted(json),
        "{\n  \"provenance\": {\n    \"extracted\": \"\",\n    \"mcmeta_tag\": \"x\"\n  }\n}"
    );
    assert_eq!(strip_extracted(json), strip_extracted(&json.replace("2026-07-29", "2027-01-01")));
}

fn registries(with_recipe: bool) -> Vec<(String, Json)> {
    let mut r = vec![
        ("advancement".to_string(), Json::Array(vec![])),
        ("block".to_string(), Json::Array(vec![s("stone")])),
        ("entity_type".to_string(), Json::Array(vec![s("creeper")])),
        ("item".to_string(), Json::Array(vec![s("stick")])),
        ("loot_table".to_string(), Json::Array(vec![])),
    ];
    if with_recipe {
        r.push(("recipe".to_string(), Json::Array(vec![])));
    }
    r
}

fn version() -> VersionInfo {
    VersionInfo {
        id: "26.2".to_string(),
        data_pack_version: 107,
        data_pack_version_minor: 1,
        resource_pack_version: 84,
        resource_pack_version_minor: 0,
    }
}

#[test]
fn a_target_file_carries_the_tables_and_the_stripped_tree() {
    let pin = pin_for("26.2").unwrap();
    let commands = obj(vec![("permissions", s("x")), ("type", s("root"))]);
    let tf = build_target("26.2", &version(), &registries(true), &commands, &pin, Vec::new(), "2026-07-29".to_string())
        .expect("builds");
    assert_eq!(tf.target, "26.2");
    assert_eq!(tf.categories.len(), 7);
    assert_eq!(tf.categories[1].0, "function");
    assert_eq!(tf.categories[1].1.extension, "mcfunction");
    assert_eq!(tf.pack_formats[0].1.major, 107);
    assert_eq!(tf.pack_kinds[1].1.root, "assets");
    assert_eq!(tf.registries.block, vec!["minecraft:stone"]);
    assert_eq!(tf.commands, obj(vec![("type", s("root"))]));
    assert_eq!(tf.provenance.extracted, "2026-07-29");
}

#[test]
fn a_missing_registry_backed_category_stops_the_build() {
    let pin = pin_for("26.2").unwrap();
    let e = build_target("26.2", &version(), &registries(false), &Json::Null, &pin, Vec::new(), String::new())
        .err()
        .unwrap();
    assert_eq!(e, "mcmeta 26.2-summary no longer lists registry 'recipe'; the category table needs review");
}
