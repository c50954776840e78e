use cargo_prefetch_dependencies::{
    collect_crates, entry_version, extract_manifest, position_of, keep_marked, manifest_dependencies,
    parse_document, retain_valid, transform_dependencies, versioned_entries, CrateSet, ManifestError, Package,
};

fn pkg(name: &str, version: &str) -> Package {
    Package { name: name.to_string(), version: version.to_string() }
}

fn s(x: &str) -> String {
    x.to_string()
}

#[test]
fn no_sections_yield_empty_lists() {
    let m = extract_manifest("[package]\nname = \"demo\"\nversion = \"0.1.0\"\n").unwrap();
    assert!(m.dependencies.is_empty());
    assert!(m.dev_dependencies.is_empty());
}

#[test]
fn empty_text_yields_empty_lists() {
    let m = extract_manifest("").unwrap();
    assert!(m.dependencies.is_empty());
    assert!(m.dev_dependencies.is_empty());
}

#[test]
fn plain_entry_is_kept() {
    let m = extract_manifest("[dependencies]\nserde = \"1.0\"\n").unwrap();
    assert_eq!(m.dependencies, vec![pkg("serde", "1.0")]);
    assert!(m.dev_dependencies.is_empty());
}

#[test]
fn table_entry_uses_version_field() {
    let m = extract_manifest("[dependencies]\nclap = { version = \"~2.33\", features = [\"yaml\"], optional = true }\n")
        .unwrap();
    assert_eq!(m.dependencies, vec![pkg("clap", "~2.33")]);
}

#[test]
fn dev_dependencies_are_read() {
    let m = extract_manifest("[dev-dependencies]\nproptest = \">=0.9, <1.0\"\n").unwrap();
    assert!(m.dependencies.is_empty());
    assert_eq!(m.dev_dependencies, vec![pkg("proptest", ">=0.9, <1.0")]);
}

#[test]
fn requirement_operators_are_accepted() {
    let text = "[dependencies]\na = \"^1.2.3\"\nb = \"~1.2\"\nc = \"*\"\nd = \"=0.4.1\"\ne = \"1.x\"\n";
    let m = extract_manifest(text).unwrap();
    assert_eq!(m.dependencies, vec![pkg("a", "^1.2.3"), pkg("b", "~1.2"), pkg("c", "*"), pkg("d", "=0.4.1"), pkg("e", "1.x")]);
}

#[test]
fn invalid_requirements_are_dropped_silently() {
    let text = "[dependencies]\nbar = \"not-a-version\"\ngit = \"https://github.com/a/b\"\nlocal = \"../foo\"\nok = \"0.3\"\n";
    let m = extract_manifest(text).unwrap();
    assert_eq!(m.dependencies, vec![pkg("ok", "0.3")]);
}

#[test]
fn not_a_version_yields_empty_list() {
    let m = extract_manifest("[dependencies]\nbar = \"not-a-version\"\n").unwrap();
    assert!(m.dependencies.is_empty());
    assert!(m.dev_dependencies.is_empty());
    let crates = collect_crates(&vec![s("[dependencies]\nbar = \"not-a-version\"\n")]).unwrap();
    assert_eq!(crates.len(), 0);
}

#[test]
fn path_dependency_without_version_fails() {
    let r = extract_manifest("[dependencies]\nfoo = { path = \"../foo\" }\n");
    assert_eq!(r, Err(ManifestError::MissingVersion(s("foo"))));
    let run = collect_crates(&vec![s("[dependencies]\nserde = \"1.0\"\n"), s("[dependencies]\nfoo = { path = \"../foo\" }\n")]);
    assert_eq!(run.err(), Some(ManifestError::MissingVersion(s("foo"))));
}

#[test]
fn table_version_that_is_not_a_string_fails() {
    let r = extract_manifest("[dependencies]\nfoo = { version = 3 }\n");
    assert_eq!(r, Err(ManifestError::MissingVersion(s("foo"))));
}

#[test]
fn array_entry_fails() {
    let r = extract_manifest("[dev-dependencies]\nfoo = [\"1.0\"]\n");
    assert_eq!(r, Err(ManifestError::MissingVersion(s("foo"))));
}

#[test]
fn section_that_is_not_a_table_fails() {
    let r = extract_manifest("dependencies = \"1.0\"\n");
    assert_eq!(r, Err(ManifestError::NotATable(s("dependencies"))));
    let r = extract_manifest("dev-dependencies = 3\n");
    assert_eq!(r, Err(ManifestError::NotATable(s("dev-dependencies"))));
}

#[test]
fn malformed_document_fails_with_parse_error() {
    let r = extract_manifest("[dependencies\nserde = ");
    assert!(matches!(r, Err(ManifestError::Parse(ref m)) if !m.is_empty()));
    let run = collect_crates(&vec![s("[[[")]);
    assert!(matches!(run, Err(ManifestError::Parse(_))));
}

#[test]
fn same_pair_from_two_manifests_is_stored_once() {
    let crates = collect_crates(&vec![s("[dependencies]\nrand = \"0.8\"\n"), s("[dependencies]\nrand = \"0.8\"\n")]).unwrap();
    assert_eq!(crates.len(), 1);
    assert!(crates.contains(&s("rand"), &s("0.8")));
}

#[test]
fn same_name_two_versions_gives_two_pairs() {
    let crates = collect_crates(&vec![s("[dependencies]\nrand = \"0.7\"\n"), s("[dependencies]\nrand = \"0.8\"\n")]).unwrap();
    assert_eq!(crates.len(), 2);
    assert!(crates.contains(&s("rand"), &s("0.7")));
    assert!(crates.contains(&s("rand"), &s("0.8")));
}

#[test]
fn regular_and_dev_entries_collapse() {
    let crates = collect_crates(&vec![s("[dependencies]\nserde = \"1.0\"\n"), s("[dev-dependencies]\nserde = \"1.0\"\n")]).unwrap();
    assert_eq!(crates.len(), 1);
    assert!(crates.contains(&s("serde"), &s("1.0")));
}

#[test]
fn no_manifests_give_empty_set() {
    let crates = collect_crates(&Vec::new()).unwrap();
    assert_eq!(crates.len(), 0);
}

#[test]
fn rendered_manifest_of_empty_set() {
    let text = CrateSet::new().render_manifest();
    assert_eq!(text, "[package]\nname = \"temp_prefetch_project\"\nversion = \"0.0.0\"\n\n[dependencies]\n");
}

#[test]
fn rendered_manifest_lines() {
    let mut crates = CrateSet::new();
    assert!(crates.insert(s("serde"), s("1.0")));
    assert!(crates.insert(s("log"), s("^0.4")));
    assert!(!crates.insert(s("serde"), s("1.0")));
    assert_eq!(crates.len(), 2);
    let text = crates.render_manifest();
    assert_eq!(
        text,
        "[package]\nname = \"temp_prefetch_project\"\nversion = \"0.0.0\"\n\n[dependencies]\n\"serde\" = \"1.0\"\n\"log\" = \"^0.4\"\n"
    );
}

#[test]
fn rendered_manifest_always_has_package_section() {
    let crates = collect_crates(&vec![s("[dependencies]\na = \"1\"\n[dev-dependencies]\nb = \"2\"\n")]).unwrap();
    let text = crates.render_manifest();
    assert!(text.starts_with("[package]\nname = \"temp_prefetch_project\"\nversion = \"0.0.0\"\n"));
    assert_eq!(crates.len(), 2);
}

#[test]
fn rendered_manifest_reads_back_as_the_same_set() {
    let crates = collect_crates(&vec![
        s("[dependencies]\nserde = \"1.0\"\nlog = { version = \"0.4\", default-features = false }\n"),
        s("[dev-dependencies]\nrand = \"^0.8.5\"\nbad = \"nope\"\n"),
    ])
    .unwrap();
    assert_eq!(crates.len(), 3);
    let text = crates.render_manifest();
    let back = extract_manifest(&text).unwrap();
    assert!(back.dev_dependencies.is_empty());
    assert_eq!(back.dependencies.len(), 3);
    let mut again = CrateSet::new();
    for p in &back.dependencies {
        assert!(crates.contains(&p.name, &p.version));
        again.insert(p.name.clone(), p.version.clone());
    }
    assert_eq!(again.len(), 3);
}

#[test]
fn parse_document_keeps_declaration_order() {
    let doc = parse_document("zeta = \"1\"\nalpha = 3\n[t]\nv = \"1\"\n").unwrap();
    let keys: Vec<&str> = doc.iter().map(|(k, _)| k.as_str()).collect();
    assert_eq!(keys, vec!["zeta", "alpha", "t"]);
    assert_eq!(doc[0].1, toml::Value::String(s("1")));
    assert_eq!(doc[1].1, toml::Value::Integer(3));
    assert!(parse_document("= 1").is_err());
}

#[test]
fn dependencies_come_out_in_declaration_order() {
    let m = extract_manifest("[dependencies]\nzeta = '1.0'\nalpha = '2.0'\n").unwrap();
    assert_eq!(m.dependencies, vec![pkg("zeta", "1.0"), pkg("alpha", "2.0")]);
}

fn table_of(text: &str) -> Vec<(String, toml::Value)> {
    let doc = parse_document(text).unwrap();
    match doc.into_iter().next() {
        Some((_, toml::Value::Table(t))) => t.into_iter().collect(),
        _ => panic!("expected a table"),
    }
}

fn hand_table() -> Vec<(String, toml::Value)> {
    table_of("[d]\nx = \"1.2\"\ny = { features = [], version = \"0.5\" }\nz = \"git+https://x\"\n")
}

#[test]
fn position_of_takes_the_first_match() {
    let entries = vec![
        (s("k"), toml::Value::String(s("one"))),
        (s("k"), toml::Value::String(s("two"))),
        (s("j"), toml::Value::Boolean(true)),
    ];
    assert_eq!(position_of(&entries, "k"), Some(0));
    assert_eq!(position_of(&entries, "j"), Some(2));
    assert_eq!(position_of(&entries, "missing"), None);
}

#[test]
fn entry_version_shapes() {
    assert_eq!(entry_version(toml::Value::String(s("1"))), Some(s("1")));
    let t = table_of("[t]\npath = \"../a\"\nversion = \"2\"\n");
    assert_eq!(entry_version(toml::Value::Table(t.into_iter().collect())), Some(s("2")));
    let no_version = table_of("[t]\npath = \"../a\"\n");
    assert_eq!(entry_version(toml::Value::Table(no_version.into_iter().collect())), None);
    assert_eq!(entry_version(toml::Value::Integer(1)), None);
    assert_eq!(entry_version(toml::Value::Array(Vec::new())), None);
}

#[test]
fn versioned_entries_keep_every_entry() {
    let ps = versioned_entries(hand_table()).unwrap();
    assert_eq!(ps, vec![pkg("x", "1.2"), pkg("y", "0.5"), pkg("z", "git+https://x")]);
}

#[test]
fn transform_filters_invalid_requirements() {
    let ps = transform_dependencies(hand_table()).unwrap();
    assert_eq!(ps, vec![pkg("x", "1.2"), pkg("y", "0.5")]);
}

#[test]
fn adding_invalid_entry_changes_nothing() {
    let mut longer = hand_table();
    longer.push((s("w"), toml::Value::String(s("../local"))));
    assert_eq!(transform_dependencies(longer), transform_dependencies(hand_table()));
}

#[test]
fn transform_reports_first_missing_version() {
    let entries = table_of("[d]\na = \"1\"\nb = 2\nc = {}\n");
    assert_eq!(transform_dependencies(entries), Err(ManifestError::MissingVersion(s("b"))));
}

#[test]
fn keep_marked_selects_by_mark() {
    let cands = vec![pkg("a", "1"), pkg("b", "2"), pkg("c", "3")];
    assert_eq!(keep_marked(&cands, &vec![true, false, true]), vec![pkg("a", "1"), pkg("c", "3")]);
    assert_eq!(keep_marked(&cands, &vec![false, false, false]), Vec::<Package>::new());
}

#[test]
fn retain_valid_uses_requirement_grammar() {
    let cands = vec![pkg("a", "1.0"), pkg("b", "latest"), pkg("c", ">= 2"), pkg("d", "abc")];
    assert_eq!(retain_valid(&cands), vec![pkg("a", "1.0"), pkg("c", ">= 2")]);
}

#[test]
fn manifest_dependencies_on_parsed_document() {
    let doc = parse_document("[dev-dependencies]\nq = \"3\"\n[package]\nname = \"p\"\n[dependencies]\nx = \"1.2\"\nz = \"nope\"\n").unwrap();
    let m = manifest_dependencies(doc).unwrap();
    assert_eq!(m.dependencies, vec![pkg("x", "1.2")]);
    assert_eq!(m.dev_dependencies, vec![pkg("q", "3")]);
    let bad = vec![(s("dev-dependencies"), toml::Value::Integer(1))];
    assert_eq!(manifest_dependencies(bad), Err(ManifestError::NotATable(s("dev-dependencies"))));
}

#[test]
fn first_failing_manifest_gives_the_error() {
    let missing = s("[dependencies]\nfoo = { path = \"../foo\" }\n");
    let broken = s("[dependencies\n");
    let r = collect_crates(&vec![missing.clone(), broken.clone()]);
    assert_eq!(r.err(), Some(ManifestError::MissingVersion(s("foo"))));
    let r = collect_crates(&vec![broken, missing]);
    assert!(matches!(r, Err(ManifestError::Parse(_))));
}

