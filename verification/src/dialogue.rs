//! The dialogue as an explicit state machine.
//!
//! The flow is a fixed sequence of states; each state consumes one
//! event (the user's answer, delivered by whatever front end drives the
//! machine) and yields the next state. Keeping the machine explicit
//! isolates the terminal library behind plain values: the driver shows
//! a prompt, collects text, a confirmation or a menu index, and feeds
//! it back in.

use vstd::prelude::*;

verus! {

/// The states of the dialogue, in the order they are visited.
#[derive(Clone, Copy, Debug, PartialEq, Eq, Structural)]
pub enum DialogueState {
    /// Ask for the project name; re-asked until it is not all blank.
    AskName,
    /// Ask for a short free-form description; may be empty.
    AskDescription,
    /// Ask whether to accept the curators' defaults.
    AskUseDefaults,
    /// Ask for one library from the argument-parsing menu.
    AskArgParsing,
    /// No question: fix the output path from what is known.
    ResolveOutputPath,
    /// The dialogue is complete.
    Done,
}

/// One answer fed into the machine.
#[derive(Debug)]
pub enum DialogueEvent {
    /// A line of text.
    Text(String),
    /// A yes/no confirmation.
    Confirm(bool),
    /// The index the user picked from the displayed menu.
    Selection(usize),
    /// No input; advances a state that asks nothing.
    Proceed,
}

/// Which shape of event each state consumes.
pub open spec fn event_fits(s: DialogueState, e: DialogueEvent) -> bool {
    match s {
        DialogueState::AskName => e is Text,
        DialogueState::AskDescription => e is Text,
        DialogueState::AskUseDefaults => e is Confirm,
        DialogueState::AskArgParsing => e is Selection,
        DialogueState::ResolveOutputPath => e is Proceed,
        DialogueState::Done => false,
    }
}

/// The prompt each asking state shows; empty for the silent states.
pub open spec fn spec_prompt(s: DialogueState) -> Seq<char> {
    match s {
        DialogueState::AskName => "Let's get started: What do you want your project to be called?"@,
        DialogueState::AskDescription => "Enter a short description of your project:"@,
        DialogueState::AskUseDefaults => "Do you want to use the default libraries recommended by Axo?"@,
        DialogueState::AskArgParsing => "Select a library for Argument Parsing"@,
        DialogueState::ResolveOutputPath => ""@,
        DialogueState::Done => ""@,
    }
}

/// The prompt to display for a state.
pub fn prompt_for(s: DialogueState) -> (r: &'static str)
    ensures
        r@ == spec_prompt(s),
{
    match s {
        DialogueState::AskName => "Let's get started: What do you want your project to be called?",
        DialogueState::AskDescription => "Enter a short description of your project:",
        DialogueState::AskUseDefaults => "Do you want to use the default libraries recommended by Axo?",
        DialogueState::AskArgParsing => "Select a library for Argument Parsing",
        DialogueState::ResolveOutputPath => "",
        DialogueState::Done => "",
    }
}

} // verus!
