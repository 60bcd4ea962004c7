//! Rendering the fixed templates and resolving their destinations.

use create_cli::catalog::{Category, Library};
use create_cli::errors::CreateCliError;
use create_cli::generate::{Generate, Metadata};
use create_cli::templating::Templating;

fn clap_lib() -> Library {
    Library {
        name: "clap".to_string(),
        description: Some("Command-line argument parsing".to_string()),
        axo_use: true,
        create_cli: true,
        category: Category::ArgParsing,
    }
}

fn filled_metadata() -> Metadata {
    Metadata {
        name: "foo".to_string(),
        description: "a tool".to_string(),
        use_defaults: false,
        lib_argparsing: Some(clap_lib()),
    }
}

#[test]
fn registry_initializes() {
    let t = Templating::new().expect("embedded templates must parse");
    assert_eq!(t.entries.len(), 2);
    assert_eq!(t.entries[0].name, "Cargo.toml");
    assert_eq!(t.entries[0].dest, "Cargo.toml");
    assert_eq!(t.entries[1].name, "main.rs");
    assert_eq!(t.entries[1].dest, "src/main.rs");
}

#[test]
fn manifest_renders_exactly() {
    let t = Templating::new().unwrap();
    let out = t.render("Cargo.toml", &filled_metadata()).unwrap();
    let expected = "[package]\nname = \"foo\"\ndescription = \"a tool\"\nversion = \"0.1.0\"\nedition = \"2021\"\n\n[dependencies]\nclap = \"*\"\n";
    assert_eq!(out, expected);
}

#[test]
fn entry_point_renders_exactly() {
    let t = Templating::new().unwrap();
    let out = t.render("main.rs", &filled_metadata()).unwrap();
    let expected = "//! a tool\n\nfn main() {\n    println!(\"Hello from foo!\");\n}\n";
    assert_eq!(out, expected);
}

#[test]
fn rendering_twice_is_byte_identical() {
    let t = Templating::new().unwrap();
    let md = filled_metadata();
    let a = t.render("Cargo.toml", &md).unwrap();
    let b = t.render("Cargo.toml", &md).unwrap();
    assert_eq!(a.as_bytes(), b.as_bytes());
    let c = t.render("main.rs", &md).unwrap();
    let d = t.render("main.rs", &md).unwrap();
    assert_eq!(c.as_bytes(), d.as_bytes());
}

#[test]
fn unknown_template_name_fails() {
    let t = Templating::new().unwrap();
    let e = t.render("nope", &filled_metadata()).unwrap_err();
    assert_eq!(e, CreateCliError::TemplateRender);
}

#[test]
fn missing_library_fails_manifest_only() {
    let t = Templating::new().unwrap();
    let mut md = filled_metadata();
    md.lib_argparsing = None;
    assert_eq!(t.render("Cargo.toml", &md).unwrap_err(), CreateCliError::TemplateRender);
    assert!(t.render("main.rs", &md).is_ok());
}

#[test]
fn render_to_resolves_paths_under_base() {
    let t = Templating::new().unwrap();
    let md = filled_metadata();
    let f = t.render_to("Cargo.toml", &md, "./foo").unwrap();
    assert_eq!(f.path, "./foo/Cargo.toml");
    assert_eq!(f.parent, "./foo");
    let g = t.render_to("main.rs", &md, "./foo").unwrap();
    assert_eq!(g.path, "./foo/src/main.rs");
    assert_eq!(g.parent, "./foo/src");
}

#[test]
fn render_outputs_covers_both_files() {
    let mut gen = Generate::new_with_args(Some("out/bar".to_string())).unwrap();
    gen.metadata = filled_metadata();
    let files = gen.render_outputs();
    assert_eq!(files.len(), 2);
    assert_eq!(files[0].path, "out/bar/Cargo.toml");
    assert_eq!(files[0].parent, "out/bar");
    assert!(files[0].content.contains("clap = \"*\""));
    assert!(files[0].content.contains("name = \"foo\""));
    assert_eq!(files[1].path, "out/bar/src/main.rs");
    assert_eq!(files[1].parent, "out/bar/src");
    assert!(files[1].content.contains("Hello from foo!"));
}

#[test]
fn error_descriptions_are_stable() {
    assert_eq!(CreateCliError::CatalogLoad.describe(), "the embedded library catalog is malformed");
    assert_eq!(CreateCliError::TemplateParse.describe(), "an embedded template failed to parse");
    assert_eq!(CreateCliError::TemplateRender.describe(), "a template could not be rendered");
    assert_eq!(CreateCliError::Io.describe(), "an input/output operation failed");
}
