use verse_lsp::database::SymbolDb;
use verse_lsp::signature_help::{
    build_signature_info, extract_identifier_before, find_function_call, get_signature_help,
};

#[test]
fn test_find_function_call_simple() {
    let result = find_function_call("MyFunc(arg1, ");
    assert!(result.is_some());
    let (name, param) = result.unwrap();
    assert_eq!(name, "MyFunc");
    assert_eq!(param, 1);
}

#[test]
fn test_find_function_call_first_param() {
    let result = find_function_call("MyFunc(");
    assert!(result.is_some());
    let (name, param) = result.unwrap();
    assert_eq!(name, "MyFunc");
    assert_eq!(param, 0);
}

#[test]
fn test_find_function_call_nested() {
    let result = find_function_call("Outer(Inner(a, b), ");
    assert!(result.is_some());
    let (name, param) = result.unwrap();
    assert_eq!(name, "Outer");
    assert_eq!(param, 1);
}

#[test]
fn test_extract_identifier_before_simple() {
    let result = extract_identifier_before("MyFunc");
    assert_eq!(result, Some("MyFunc".to_string()));
}

#[test]
fn test_extract_identifier_before_with_generics() {
    let result = extract_identifier_before("MyFunc<override>");
    assert_eq!(result, Some("MyFunc".to_string()));
}

#[test]
fn no_open_call_gives_none() {
    assert!(find_function_call("Foo(a)").is_none());
    assert!(find_function_call("").is_none());
}

#[test]
fn call_without_name_gives_none() {
    assert!(find_function_call("(a, ").is_none());
    assert!(find_function_call("1(a").is_none());
}

#[test]
fn identifier_must_start_with_letter() {
    assert_eq!(extract_identifier_before("_x"), None);
    assert_eq!(extract_identifier_before("a.b_c  "), Some("b_c".to_string()));
    assert_eq!(extract_identifier_before("<x>"), None);
    assert_eq!(extract_identifier_before("F<<a>>"), Some("F".to_string()));
}

fn sample_db() -> SymbolDb {
    let mut db = SymbolDb::new();
    db.parse_digest(
        "Sim<public> := module:\n    player<public> := class(agent):\n        GetName<public>(Id:int, Alt:string):string\n",
        "Sim",
    );
    db
}

#[test]
fn signature_label_and_parameters() {
    let db = sample_db();
    let help = get_signature_help("X := GetName(1, ", 0, 16, &db).expect("help");
    assert_eq!(help.active_signature, 0);
    assert_eq!(help.active_parameter, 1);
    assert_eq!(help.signatures.len(), 1);
    let sig = &help.signatures[0];
    assert_eq!(sig.label, "GetName(Id:int, Alt:string):string");
    let labels: Vec<&str> = sig.parameters.iter().map(|p| p.label.as_str()).collect();
    assert_eq!(labels, vec!["Id:int", "Alt:string"]);
}

#[test]
fn signature_help_for_unknown_name_is_none() {
    let db = sample_db();
    assert!(get_signature_help("Nope(", 0, 5, &db).is_none());
    assert!(get_signature_help("GetName(", 3, 0, &db).is_none());
}

#[test]
fn column_past_line_end_uses_whole_line() {
    let db = sample_db();
    let help = get_signature_help("GetName(a,", 0, 500, &db).expect("help");
    assert_eq!(help.active_parameter, 1);
}

#[test]
fn only_methods_have_signatures() {
    let db = sample_db();
    let player = db.find_class("player").unwrap();
    assert!(build_signature_info(player).is_none());
}
