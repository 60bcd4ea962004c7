//! Catalog loading and category queries, on the embedded document and
//! on hand-written ones.

use create_cli::catalog::{Category, Libraries, Library};
use create_cli::errors::CreateCliError;

fn names_of(libs: &[Library]) -> Vec<String> {
    let mut v: Vec<String> = libs.iter().map(|l| l.name.clone()).collect();
    v.sort();
    v
}

#[test]
fn embedded_catalog_loads() {
    let libs = Libraries::new().expect("embedded catalog must load");
    assert!(!libs.list.is_empty());
    let arg = libs.get_for_category(Category::ArgParsing);
    assert_eq!(names_of(&arg), vec!["argh".to_string(), "clap".to_string(), "lexopt".to_string()]);
}

#[test]
fn for_category_only_matching() {
    let libs = Libraries::new().unwrap();
    for c in [
        Category::ArgParsing,
        Category::CommandGen,
        Category::Formatting,
        Category::StructOutput,
        Category::ErrLogDiag,
        Category::Interactivity,
        Category::Testing,
        Category::Other,
    ] {
        for l in libs.get_for_category(c) {
            assert_eq!(l.category, c);
        }
    }
}

#[test]
fn load_small_document() {
    let doc = "[[libraries]]\nname = \"a\"\ncategory = \"formatting\"\ncreate_cli = true\n";
    let libs = Libraries::load(doc).unwrap();
    assert_eq!(libs.list.len(), 1);
    assert_eq!(libs.list[0].name, "a");
    assert_eq!(libs.list[0].category, Category::Formatting);
    assert!(libs.list[0].create_cli);
    assert!(!libs.list[0].axo_use);
    assert!(libs.list[0].description.is_none());
}

#[test]
fn load_empty_document_is_empty_catalog() {
    let libs = Libraries::load("").unwrap();
    assert!(libs.list.is_empty());
}

#[test]
fn unknown_field_rejected() {
    let doc = "[[libraries]]\nname = \"a\"\ncategory = \"other\"\nfoo = \"bar\"\n";
    let e = Libraries::load(doc).unwrap_err();
    assert_eq!(e, CreateCliError::CatalogLoad);
}

#[test]
fn unknown_category_rejected() {
    let doc = "[[libraries]]\nname = \"a\"\ncategory = \"cooking\"\n";
    assert_eq!(Libraries::load(doc).unwrap_err(), CreateCliError::CatalogLoad);
}

#[test]
fn entry_without_name_rejected() {
    let doc = "[[libraries]]\ncategory = \"other\"\n";
    assert_eq!(Libraries::load(doc).unwrap_err(), CreateCliError::CatalogLoad);
}

#[test]
fn entry_without_category_rejected() {
    let doc = "[[libraries]]\nname = \"a\"\n";
    assert_eq!(Libraries::load(doc).unwrap_err(), CreateCliError::CatalogLoad);
}

#[test]
fn key_outside_entry_rejected() {
    let doc = "name = \"a\"\n";
    assert_eq!(Libraries::load(doc).unwrap_err(), CreateCliError::CatalogLoad);
}

#[test]
fn backslash_in_string_rejected() {
    let doc = "[[libraries]]\nname = \"a\\b\"\ncategory = \"other\"\n";
    assert_eq!(Libraries::load(doc).unwrap_err(), CreateCliError::CatalogLoad);
}

#[test]
fn duplicate_name_last_wins() {
    let doc = "[[libraries]]\nname = \"a\"\ncategory = \"other\"\ncreate_cli = false\n\n[[libraries]]\nname = \"a\"\ncategory = \"testing\"\ncreate_cli = true\n";
    let libs = Libraries::load(doc).unwrap();
    assert_eq!(libs.list.len(), 1);
    assert_eq!(libs.list[0].category, Category::Testing);
    assert!(libs.list[0].create_cli);
}

#[test]
fn every_category_label_parses() {
    let labels = [
        ("argparsing", Category::ArgParsing),
        ("commandgen", Category::CommandGen),
        ("formatting", Category::Formatting),
        ("structoutput", Category::StructOutput),
        ("errlogdiag", Category::ErrLogDiag),
        ("interactivity", Category::Interactivity),
        ("testing", Category::Testing),
        ("other", Category::Other),
    ];
    for (label, cat) in labels {
        let doc = format!("[[libraries]]\nname = \"x\"\ncategory = \"{}\"\n", label);
        let libs = Libraries::load(&doc).unwrap();
        assert_eq!(libs.list[0].category, cat);
        assert_eq!(libs.get_for_category(cat).len(), 1);
    }
}

#[test]
fn blank_lines_and_descriptions_accepted() {
    let doc = "\n[[libraries]]\n\nname = \"a\"\ndescription = \"\"\ncategory = \"other\"\n\n";
    let libs = Libraries::load(doc).unwrap();
    assert_eq!(libs.list[0].description.as_deref(), Some(""));
}
