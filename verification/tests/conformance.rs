use packsmith::conformance::{check_cases, compare, read_store_zip, sort_names, u16_at, u32_at, CaseFiles};
use packsmith::emit::FileTree;

/// A minimal STORE zip: one entry, `a.txt` -> `hi`, no compression, no data
/// descriptor.
fn store_zip_one_entry() -> Vec<u8> {
    let name = b"a.txt";
    let data = b"hi";
    let mut z = Vec::new();
    z.extend_from_slice(b"PK\x03\x04");
    z.extend_from_slice(&20u16.to_le_bytes());
    z.extend_from_slice(&0u16.to_le_bytes());
    z.extend_from_slice(&0u16.to_le_bytes());
    z.extend_from_slice(&0u16.to_le_bytes());
    z.extend_from_slice(&0u16.to_le_bytes());
    z.extend_from_slice(&0u32.to_le_bytes());
    z.extend_from_slice(&(data.len() as u32).to_le_bytes());
    z.extend_from_slice(&(data.len() as u32).to_le_bytes());
    z.extend_from_slice(&(name.len() as u16).to_le_bytes());
    z.extend_from_slice(&0u16.to_le_bytes());
    z.extend_from_slice(name);
    z.extend_from_slice(data);
    z.extend_from_slice(b"PK\x05\x06");
    z
}

fn tree(entries: &[(&str, &[u8])]) -> FileTree {
    let mut t = FileTree::new();
    for (k, v) in entries {
        t.insert(k.to_string(), v.to_vec());
    }
    t
}

#[test]
fn reads_a_store_entry_back() {
    let tree = read_store_zip(&store_zip_one_entry()).expect("parses");
    assert_eq!(tree.get("a.txt").map(Vec::as_slice), Some(b"hi".as_slice()));
}

#[test]
fn compare_flags_a_byte_difference() {
    let a = tree(&[("pack.mcmeta", b"one")]);
    let b = tree(&[("pack.mcmeta", b"two")]);
    assert!(compare(&a, &b).is_err());
    assert!(compare(&a, &a).is_ok());
}

#[test]
fn compare_flags_a_missing_file() {
    let a = tree(&[("pack.mcmeta", b"x")]);
    let b = FileTree::new();
    assert!(compare(&a, &b).is_err());
}

#[test]
fn compare_says_what_differs() {
    let a = tree(&[("pack.mcmeta", b"one\n")]);
    let b = tree(&[("pack.mcmeta", b"two\n")]);
    assert_eq!(
        compare(&a, &b).err().unwrap(),
        "pack.mcmeta differs:\n    expected: one\n    built:    two"
    );
    let c = tree(&[]);
    assert_eq!(compare(&a, &c).err().unwrap(), "file set differs: expected [\"pack.mcmeta\"], built []");
}

#[test]
fn a_compressed_entry_is_refused() {
    let mut z = store_zip_one_entry();
    z[8] = 8;
    assert_eq!(read_store_zip(&z).err().unwrap(), "zip entry is compressed; the emitter must use STORE");
}

#[test]
fn truncated_zips_are_refused() {
    let z = store_zip_one_entry();
    assert_eq!(read_store_zip(&z[..20]).err().unwrap(), "truncated local file header");
    assert_eq!(read_store_zip(&z[..32]).err().unwrap(), "truncated entry name");
    assert_eq!(read_store_zip(&z[..36]).err().unwrap(), "truncated entry data");
}

#[test]
fn a_name_that_is_not_utf8_is_refused() {
    let mut z = store_zip_one_entry();
    z[30] = 0xFF;
    assert_eq!(read_store_zip(&z).err().unwrap(), "entry name is not UTF-8");
}

#[test]
fn little_endian_fields_read_back() {
    let b = [0x34, 0x12, 0x78, 0x56];
    assert_eq!(u16_at(&b, 0), Some(0x1234));
    assert_eq!(u32_at(&b, 0), Some(0x5678_1234));
    assert_eq!(u16_at(&b, 3), None);
    assert_eq!(u32_at(&b, 1), None);
}

#[test]
fn anything_but_a_local_header_ends_the_walk() {
    assert_eq!(read_store_zip(b"not a zip").expect("empty").len(), 0);
}

fn case(name: &str, has_tree: bool, has_diagnostics: bool) -> CaseFiles {
    CaseFiles {
        name: name.to_string(),
        has_input: true,
        has_target: true,
        has_readme: true,
        has_tree,
        has_diagnostics,
    }
}

#[test]
fn missing_expected_result_is_a_problem() {
    let err = check_cases("cases", &[case("broken", false, false)]).expect_err("case has no expected result");
    assert!(err.iter().any(|p| p.contains("broken: needs expected/")));
}

#[test]
fn a_well_formed_suite_counts_its_cases() {
    assert_eq!(check_cases("cases", &[case("a", true, false), case("b", false, true)]), Ok(2));
    assert_eq!(check_cases("cases", &[]), Err(vec!["no cases in cases".to_string()]));
    let mut missing = case("c", true, true);
    missing.has_readme = false;
    assert_eq!(
        check_cases("cases", &[missing]),
        Err(vec![
            "c: missing README.md".to_string(),
            "c: has both expected/ and expected-diagnostics.json; a case is one or the other".to_string(),
        ])
    );
}

#[test]
fn case_names_are_sorted() {
    let names = vec!["b".to_string(), "a".to_string(), "c".to_string()];
    assert_eq!(sort_names(&names), vec!["a", "b", "c"]);
}
