//! The on-disk document text: exact layout, round trips, rejection of
//! malformed documents, and agreement with an independent JSON reader.

use modpack_manifest::Manifest;

fn sample() -> Manifest {
    Manifest::new(
        "My Pack".to_string(),
        "1.0.0".to_string(),
        "Alice".to_string(),
        "1.20.1".to_string(),
    )
}

#[test]
fn to_json_writes_exact_empty_document() {
    let m = sample();
    let expected = "{\n  \"minecraft\": {\n    \"version\": \"1.20.1\",\n    \"modLoaders\": []\n  },\n  \"manifestType\": \"minecraftModpack\",\n  \"manifestVersion\": 1,\n  \"name\": \"My Pack\",\n  \"version\": \"1.0.0\",\n  \"author\": \"Alice\",\n  \"files\": [],\n  \"overrides\": \"overrides\"\n}";
    assert_eq!(m.to_json(), expected);
}

#[test]
fn to_json_writes_exact_populated_document() {
    let mut m = sample();
    m.add_mod_loader("forge-47.1.0".to_string(), true);
    m.add_file(123456, 789);
    let expected = "{\n  \"minecraft\": {\n    \"version\": \"1.20.1\",\n    \"modLoaders\": [{\"id\": \"forge-47.1.0\", \"primary\": true}]\n  },\n  \"manifestType\": \"minecraftModpack\",\n  \"manifestVersion\": 1,\n  \"name\": \"My Pack\",\n  \"version\": \"1.0.0\",\n  \"author\": \"Alice\",\n  \"files\": [{\"projectID\": 123456, \"fileID\": 789, \"required\": true}],\n  \"overrides\": \"overrides\"\n}";
    assert_eq!(m.to_json(), expected);
}

#[test]
fn round_trip_reproduces_manifest() {
    let mut m = sample();
    m.add_mod_loader("forge-47.1.0".to_string(), true);
    m.add_mod_loader("fabric-0.15.0".to_string(), false);
    m.add_file(123456, 789);
    m.add_file(0, u64::MAX);
    let text = m.to_json();
    let back = Manifest::from_json(&text).expect("canonical document must parse");
    assert_eq!(back, m);
}

#[test]
fn round_trip_with_escaped_characters() {
    let mut m = Manifest::new(
        "a\"b\\c".to_string(),
        "v\n1".to_string(),
        "tab\tand\u{1}ctl".to_string(),
        "1.20.1".to_string(),
    );
    m.add_mod_loader("weird\"\\loader\u{1f}".to_string(), true);
    let text = m.to_json();
    assert!(text.contains("\\u000a"));
    assert!(text.contains("\\u001f"));
    assert!(text.contains("\\\""));
    let back = Manifest::from_json(&text).expect("escaped document must parse");
    assert_eq!(back, m);
}

#[test]
fn reading_twice_gives_equal_manifests() {
    let mut m = sample();
    m.add_file(7, 8);
    let text = m.to_json();
    let first = Manifest::from_json(&text).unwrap();
    let second = Manifest::from_json(&text).unwrap();
    assert_eq!(first, second);
}

#[test]
fn from_json_rejects_malformed_documents() {
    let good = sample().to_json();
    assert!(Manifest::from_json(&good).is_some());
    assert!(Manifest::from_json("").is_none());
    assert!(Manifest::from_json("{}").is_none());
    assert!(Manifest::from_json("not json at all").is_none());
    let truncated = &good[..good.len() - 1];
    assert!(Manifest::from_json(truncated).is_none());
    let trailing = format!("{} ", good);
    assert!(Manifest::from_json(&trailing).is_none());
    let missing_field = good.replace("\"author\"", "\"writer\"");
    assert!(Manifest::from_json(&missing_field).is_none());
}

#[test]
fn from_json_rejects_out_of_range_numbers() {
    let good = sample().to_json();
    let big_version = good.replace("\"manifestVersion\": 1", "\"manifestVersion\": 256");
    assert!(Manifest::from_json(&big_version).is_none());
    let mut m = sample();
    m.add_file(123456, 789);
    let text = m.to_json();
    let overflow = text.replace("123456", "18446744073709551616");
    assert!(Manifest::from_json(&overflow).is_none());
    let max = text.replace("123456", "18446744073709551615");
    let back = Manifest::from_json(&max).unwrap();
    assert_eq!(back.files[0].project_id, u64::MAX);
}

#[test]
fn document_agrees_with_independent_json_reader() {
    let mut m = sample();
    m.add_mod_loader("forge-47.1.0".to_string(), true);
    m.add_file(123456, 789);
    let text = m.to_json();
    let v: serde_json::Value = serde_json::from_str(&text).expect("output must be valid JSON");
    assert_eq!(v["minecraft"]["version"].as_str(), Some("1.20.1"));
    assert_eq!(v["minecraft"]["modLoaders"][0]["id"].as_str(), Some("forge-47.1.0"));
    assert_eq!(v["minecraft"]["modLoaders"][0]["primary"].as_bool(), Some(true));
    assert_eq!(v["manifestType"].as_str(), Some("minecraftModpack"));
    assert_eq!(v["manifestVersion"].as_u64(), Some(1));
    assert_eq!(v["name"].as_str(), Some("My Pack"));
    assert_eq!(v["version"].as_str(), Some("1.0.0"));
    assert_eq!(v["author"].as_str(), Some("Alice"));
    assert_eq!(v["files"][0]["projectID"].as_u64(), Some(123456));
    assert_eq!(v["files"][0]["fileID"].as_u64(), Some(789));
    assert_eq!(v["files"][0]["required"].as_bool(), Some(true));
    assert_eq!(v["overrides"].as_str(), Some("overrides"));
}

#[test]
fn escapes_agree_with_independent_json_reader() {
    let m = Manifest::new(
        "a\"b\\c\nd".to_string(),
        "1.0".to_string(),
        "e\u{1f}f".to_string(),
        "1.20.1".to_string(),
    );
    let text = m.to_json();
    let v: serde_json::Value = serde_json::from_str(&text).expect("output must be valid JSON");
    assert_eq!(v["name"].as_str(), Some("a\"b\\c\nd"));
    assert_eq!(v["author"].as_str(), Some("e\u{1f}f"));
}

#[test]
fn multiple_entries_use_comma_space_separators() {
    let mut m = sample();
    m.add_mod_loader("forge".to_string(), true);
    m.add_mod_loader("fabric".to_string(), false);
    m.add_file(1, 2);
    m.add_file(3, 4);
    let text = m.to_json();
    assert!(text.contains(
        "[{\"id\": \"forge\", \"primary\": true}, {\"id\": \"fabric\", \"primary\": false}]"
    ));
    assert!(text.contains(
        "[{\"projectID\": 1, \"fileID\": 2, \"required\": true}, {\"projectID\": 3, \"fileID\": 4, \"required\": true}]"
    ));
    let back = Manifest::from_json(&text).unwrap();
    assert_eq!(back, m);
}

#[test]
fn format_version_boundary_values() {
    let good = sample().to_json();
    let at_limit = good.replace("\"manifestVersion\": 1", "\"manifestVersion\": 255");
    let back = Manifest::from_json(&at_limit).unwrap();
    assert_eq!(back.manifest_version, 255);
    let zeros = good.replace("\"manifestVersion\": 1", "\"manifestVersion\": 007");
    let back = Manifest::from_json(&zeros).unwrap();
    assert_eq!(back.manifest_version, 7);
}

#[test]
fn empty_metadata_strings_round_trip() {
    let m = Manifest::new(String::new(), String::new(), String::new(), String::new());
    let text = m.to_json();
    let back = Manifest::from_json(&text).unwrap();
    assert_eq!(back, m);
    assert_eq!(back.name, "");
}
