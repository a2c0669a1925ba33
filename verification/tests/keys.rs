use perch::keys::{
    bindings, predicate, shortcuts, KeyAction, Scope, APP, BROWSE, CONTEXT_BROWSE, CONTEXT_MODAL,
    CONTEXT_WATCH, MODAL, TYPING, VOLUME_STEP, WATCH,
};

#[test]
fn every_binding_and_every_context_parses() {
    assert_eq!(bindings().len(), 11);
    for context in [CONTEXT_WATCH, CONTEXT_BROWSE, CONTEXT_MODAL] {
        for word in context.split(' ') {
            assert!(
                !word.is_empty() && word.chars().all(|c| c.is_ascii_alphabetic()),
                "{context} is not a key context"
            );
        }
    }
}

#[test]
fn the_contexts_are_made_of_the_identifiers_the_predicates_test_for() {
    assert_eq!(CONTEXT_WATCH, format!("{APP} {WATCH}"));
    assert_eq!(CONTEXT_BROWSE, format!("{APP} {BROWSE}"));
    assert_eq!(CONTEXT_MODAL, format!("{APP} {MODAL}"));
}

#[test]
fn the_listing_says_something_for_every_line() {
    for line in shortcuts() {
        assert!(!line.description.is_empty(), "{} has no description", line.display);
        assert!(!line.display.is_empty(), "{} shows no key", line.description);
    }
}

#[test]
fn every_documented_key_is_actually_bound() {
    let bound: Vec<&str> = bindings().iter().map(|binding| binding.key).collect();
    for line in shortcuts() {
        for key in &line.keys {
            assert!(
                bound.contains(key),
                "the sheet lists {} ({key}), which nothing binds",
                line.display
            );
        }
    }
}

#[test]
fn every_key_stands_aside_for_typing() {
    assert_eq!(predicate(Scope::Anywhere), format!("{APP} && {TYPING}"));
    assert_eq!(predicate(Scope::Watching), format!("{APP} && {WATCH} && {TYPING}"));
    assert_eq!(predicate(Scope::Browsing), format!("{APP} && {BROWSE} && {TYPING}"));
    assert_eq!(predicate(Scope::InSheet), format!("{APP} && {MODAL} && {TYPING}"));
}

#[test]
fn space_pauses_on_the_watch_page() {
    let space = bindings().into_iter().find(|binding| binding.key == "space").unwrap();
    assert_eq!(space.action, KeyAction::TogglePlayback);
    assert_eq!(space.scope, Scope::Watching);
    assert_eq!(VOLUME_STEP, 5);
}
