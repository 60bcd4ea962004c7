//! Driving the dialogue state machine with scripted answers.

use create_cli::catalog::{Category, Libraries};
use create_cli::dialogue::{prompt_for, DialogueEvent, DialogueState};
use create_cli::generate::Generate;

fn scripted_run(mut gen: Generate, name: &str) -> Generate {
    let mut state = DialogueState::AskName;
    state = gen.dialogue_step(state, DialogueEvent::Text(name.to_string()));
    assert_eq!(state, DialogueState::AskDescription);
    state = gen.dialogue_step(state, DialogueEvent::Text("a tool".to_string()));
    assert_eq!(state, DialogueState::AskUseDefaults);
    state = gen.dialogue_step(state, DialogueEvent::Confirm(false));
    assert_eq!(state, DialogueState::AskArgParsing);
    assert!(!gen.selection_menu(Category::ArgParsing).is_empty());
    state = gen.dialogue_step(state, DialogueEvent::Selection(0));
    assert_eq!(state, DialogueState::ResolveOutputPath);
    state = gen.dialogue_step(state, DialogueEvent::Proceed);
    assert_eq!(state, DialogueState::Done);
    gen
}

#[test]
fn completed_dialogue_fills_metadata() {
    let gen = scripted_run(Generate::new_with_args(None).unwrap(), "foo");
    assert!(!gen.metadata.name.is_empty());
    assert_eq!(gen.metadata.name, "foo");
    assert_eq!(gen.metadata.description, "a tool");
    assert!(!gen.metadata.use_defaults);
    let lib = gen.metadata.lib_argparsing.expect("a library must be chosen");
    assert!(lib.create_cli);
    assert_eq!(lib.category, Category::ArgParsing);
}

#[test]
fn derived_output_path_is_dot_name() {
    let gen = scripted_run(Generate::new_with_args(None).unwrap(), "foo");
    assert_eq!(gen.base_path.as_deref(), Some("./foo"));
}

#[test]
fn explicit_output_path_is_kept() {
    let gen = scripted_run(Generate::new_with_args(Some("out/bar".to_string())).unwrap(), "foo");
    assert_eq!(gen.base_path.as_deref(), Some("out/bar"));
}

#[test]
fn blank_name_is_asked_again() {
    let mut gen = Generate::new_with_args(None).unwrap();
    let mut state = DialogueState::AskName;
    state = gen.dialogue_step(state, DialogueEvent::Text("".to_string()));
    assert_eq!(state, DialogueState::AskName);
    state = gen.dialogue_step(state, DialogueEvent::Text("  \t ".to_string()));
    assert_eq!(state, DialogueState::AskName);
    assert!(gen.metadata.name.is_empty());
    state = gen.dialogue_step(state, DialogueEvent::Text("foo".to_string()));
    assert_eq!(state, DialogueState::AskDescription);
    assert_eq!(gen.metadata.name, "foo");
}

#[test]
fn menu_offers_only_eligible_libraries() {
    let doc = "[[libraries]]\nname = \"a\"\ncategory = \"argparsing\"\ncreate_cli = true\n\n[[libraries]]\nname = \"b\"\ncategory = \"argparsing\"\ncreate_cli = false\n\n[[libraries]]\nname = \"c\"\ncategory = \"formatting\"\ncreate_cli = true\n";
    let mut gen = Generate::new_with_args(None).unwrap();
    gen.libraries = Libraries::load(doc).unwrap();
    let menu = gen.selection_menu(Category::ArgParsing);
    assert_eq!(menu.len(), 1);
    assert_eq!(menu[0].name, "a");
}

#[test]
fn embedded_menu_all_create_cli() {
    let gen = Generate::new_with_args(None).unwrap();
    for c in [
        Category::ArgParsing,
        Category::CommandGen,
        Category::Formatting,
        Category::StructOutput,
        Category::ErrLogDiag,
        Category::Interactivity,
        Category::Testing,
        Category::Other,
    ] {
        for lib in gen.selection_menu(c) {
            assert!(lib.create_cli);
            assert_eq!(lib.category, c);
        }
    }
}

#[test]
fn single_select_resolves_menu_index() {
    let gen = Generate::new_with_args(None).unwrap();
    let menu = gen.selection_menu(Category::ArgParsing);
    let picked = gen.libs_single_select(Category::ArgParsing, 0).unwrap();
    assert_eq!(picked.name, menu[0].name);
    assert!(gen.libs_single_select(Category::ArgParsing, menu.len()).is_none());
}

#[test]
fn prompts_match_the_dialogue() {
    assert_eq!(
        prompt_for(DialogueState::AskName),
        "Let's get started: What do you want your project to be called?"
    );
    assert_eq!(prompt_for(DialogueState::AskDescription), "Enter a short description of your project:");
    assert_eq!(
        prompt_for(DialogueState::AskUseDefaults),
        "Do you want to use the default libraries recommended by Axo?"
    );
    assert_eq!(prompt_for(DialogueState::AskArgParsing), "Select a library for Argument Parsing");
}
