use macrayon::error::MacroError;
use macrayon::expand::expand;
use macrayon::loader::load_definitions;
use macrayon::table::{MacroDefinition, MacroTable};
use macrayon::text::is_space_char;

fn strings(items: &[&str]) -> Vec<String> {
    items.iter().map(|s| s.to_string()).collect()
}

fn greet_table() -> MacroTable {
    load_definitions("##greet#name##Hello, name!##").unwrap()
}

#[test]
fn expand_text_without_double_marks_is_unchanged() {
    let table = greet_table();
    for text in ["", "plain text", "a # b # c", "#", "ends with #", "greet#World"] {
        assert_eq!(expand(&table, text).unwrap(), text);
    }
    assert_eq!(expand(&MacroTable::new(), "x # y").unwrap(), "x # y");
}

#[test]
fn expand_one_argument_call() {
    assert_eq!(expand(&greet_table(), "##greet#World##").unwrap(), "Hello, World!");
}

#[test]
fn expand_keeps_surrounding_text() {
    let out = expand(&greet_table(), "before ##greet#Bob## middle ## greet # Ann ## after").unwrap();
    assert_eq!(out, "before Hello, Bob! middle Hello, Ann! after");
}

#[test]
fn expand_zero_parameter_round_trip() {
    let table = load_definitions("##shout##LOUD##").unwrap();
    assert_eq!(expand(&table, "##shout##").unwrap(), "LOUD");
}

#[test]
fn expand_argument_count_mismatch() {
    assert_eq!(
        expand(&greet_table(), "##greet#World#Extra##").err(),
        Some(MacroError::ArgumentCountMismatch)
    );
    assert_eq!(expand(&greet_table(), "##greet##").err(), Some(MacroError::ArgumentCountMismatch));
}

#[test]
fn expand_unknown_macro() {
    assert_eq!(expand(&greet_table(), "##nope##").err(), Some(MacroError::UnknownMacro));
    assert_eq!(expand(&MacroTable::new(), "##nope##").err(), Some(MacroError::UnknownMacro));
}

#[test]
fn expand_truncated_invocation_fails() {
    assert_eq!(expand(&greet_table(), "##greet#World").err(), Some(MacroError::MalformedInvocation));
    assert_eq!(expand(&greet_table(), "text ##greet").err(), Some(MacroError::MalformedInvocation));
    assert_eq!(
        expand(&greet_table(), "##greet#A## then ##greet#B").err(),
        Some(MacroError::MalformedInvocation)
    );
}

#[test]
fn expand_first_error_wins() {
    assert_eq!(
        expand(&greet_table(), "##nope## ##greet#A#B##").err(),
        Some(MacroError::UnknownMacro)
    );
}

#[test]
fn substitution_order_is_by_parameter() {
    let def = MacroDefinition::new(strings(&["a", "ab"]), "a ab".to_string());
    assert_eq!(def.instantiate(&strings(&["X", "Y"])), "X Xb");
    let table = load_definitions("##m#a#ab##a ab##").unwrap();
    assert_eq!(expand(&table, "##m#X#Y##").unwrap(), "X Xb");
}

#[test]
fn substitution_acts_on_earlier_arguments() {
    let def = MacroDefinition::new(strings(&["a", "b"]), "a-b".to_string());
    assert_eq!(def.instantiate(&strings(&["b", "c"])), "c-c");
}

#[test]
fn substitution_of_empty_parameter() {
    let def = MacroDefinition::new(strings(&[""]), "ab".to_string());
    assert_eq!(def.instantiate(&strings(&["X"])), "XaXbX");
    let table = load_definitions("##m# ##ab##").unwrap();
    assert_eq!(expand(&table, "##m#X##").unwrap(), "XaXbX");
}

#[test]
fn substitution_replaces_every_occurrence() {
    let def = MacroDefinition::new(strings(&["aa"]), "aaa aaaa".to_string());
    assert_eq!(def.instantiate(&strings(&["b"])), "ba bb");
}

#[test]
fn expansion_is_not_rescanned() {
    let mut table = MacroTable::new();
    table.insert("shout".to_string(), MacroDefinition::new(vec![], "LOUD".to_string()));
    table.insert(
        "outer".to_string(),
        MacroDefinition::new(vec![], "before ##shout## after".to_string()),
    );
    assert_eq!(expand(&table, "##outer##").unwrap(), "before ##shout## after");
    let table = load_definitions("##wrap#x##[x]##").unwrap();
    assert_eq!(expand(&table, "##wrap#A#B##").err(), Some(MacroError::ArgumentCountMismatch));
}

#[test]
fn table_insert_replaces() {
    let mut table = MacroTable::new();
    table.insert("k".to_string(), MacroDefinition::new(vec![], "one".to_string()));
    table.insert("k".to_string(), MacroDefinition::new(vec![], "two".to_string()));
    assert_eq!(table.len(), 1);
    assert_eq!(table.get("k").unwrap().body, "two");
    assert_eq!(expand(&table, "##k##").unwrap(), "two");
}

#[test]
fn whitespace_matches_std() {
    for u in 0u32..=0x10FFFF {
        if let Some(c) = char::from_u32(u) {
            assert_eq!(is_space_char(c), c.is_whitespace(), "{:?}", c);
        }
    }
}
