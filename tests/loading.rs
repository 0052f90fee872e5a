use macrayon::error::MacroError;
use macrayon::loader::load_definitions;

fn strings(items: &[&str]) -> Vec<String> {
    items.iter().map(|s| s.to_string()).collect()
}

#[test]
fn load_single_definition() {
    let table = load_definitions("##greet#name##Hello, name!##").unwrap();
    assert_eq!(table.len(), 1);
    let def = table.get("greet").unwrap();
    assert_eq!(def.params, strings(&["name"]));
    assert_eq!(def.body, "Hello, name!");
}

#[test]
fn load_zero_parameter_definition() {
    let table = load_definitions("##shout##LOUD##").unwrap();
    let def = table.get("shout").unwrap();
    assert!(def.params.is_empty());
    assert_eq!(def.body, "LOUD");
}

#[test]
fn load_trims_name_params_and_body() {
    let table = load_definitions("##  greet  #  first name  #last##  Hi, first name last!  \n##").unwrap();
    let def = table.get("greet").unwrap();
    assert_eq!(def.params, strings(&["first name", "last"]));
    assert_eq!(def.body, "Hi, first name last!");
}

#[test]
fn load_trims_unicode_whitespace() {
    let table = load_definitions("##\u{3000}wide\u{2003}##\u{a0}body\u{85}##").unwrap();
    let def = table.get("wide").unwrap();
    assert_eq!(def.body, "body");
}

#[test]
fn load_skips_text_between_definitions() {
    let table = load_definitions("intro text\n##a##one##\nmiddle\n##b#x##two x##\ntrailer").unwrap();
    assert_eq!(table.len(), 2);
    assert_eq!(table.get("a").unwrap().body, "one");
    assert_eq!(table.get("b").unwrap().params, strings(&["x"]));
    assert_eq!(table.get("b").unwrap().body, "two x");
    assert!(table.get("intro").is_none());
}

#[test]
fn load_later_definition_replaces_earlier() {
    let table = load_definitions("##a##one## ##a#p##two p##").unwrap();
    assert_eq!(table.len(), 1);
    let def = table.get("a").unwrap();
    assert_eq!(def.params, strings(&["p"]));
    assert_eq!(def.body, "two p");
}

#[test]
fn load_empty_document() {
    let table = load_definitions("").unwrap();
    assert_eq!(table.len(), 0);
    let table = load_definitions("no marks # at all").unwrap();
    assert_eq!(table.len(), 0);
}

#[test]
fn load_body_may_hold_single_marks() {
    let table = load_definitions("##m##a # b##").unwrap();
    assert_eq!(table.get("m").unwrap().body, "a # b");
}

#[test]
fn load_truncated_definition_fails() {
    assert_eq!(load_definitions("##name#param").err(), Some(MacroError::MalformedDefinition));
    assert_eq!(load_definitions("##name").err(), Some(MacroError::MalformedDefinition));
    assert_eq!(load_definitions("##name##body").err(), Some(MacroError::MalformedDefinition));
    assert_eq!(
        load_definitions("##ok##fine## ##name#param").err(),
        Some(MacroError::MalformedDefinition)
    );
}

#[test]
fn error_messages_name_the_kind() {
    assert_eq!(MacroError::MalformedDefinition.message(), "malformed macro definition");
    assert_eq!(MacroError::MalformedInvocation.message(), "malformed macro invocation");
    assert_eq!(MacroError::UnknownMacro.message(), "unknown macro");
    assert_eq!(MacroError::ArgumentCountMismatch.message(), "wrong number of macro arguments");
}
