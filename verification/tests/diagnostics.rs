use verse_lsp::database::SymbolDb;
use verse_lsp::diagnostics::{diagnose, DiagnosticSeverity};

fn empty_db() -> SymbolDb {
    SymbolDb::new()
}

#[test]
fn test_unmatched_paren() {
    let src = "MyFunc(arg1, arg2";
    let diags = diagnose(src, &empty_db());
    assert!(
        diags
            .iter()
            .any(|d| d.message.contains("Unmatched opening parenthesis")),
        "Should detect unmatched paren"
    );
}

#[test]
fn test_unmatched_closing_paren() {
    let src = "MyFunc)";
    let diags = diagnose(src, &empty_db());
    assert!(
        diags
            .iter()
            .any(|d| d.message.contains("Unmatched closing parenthesis")),
        "Should detect unmatched closing paren"
    );
}

#[test]
fn test_matched_parens_no_error() {
    let src = "MyFunc(arg1, arg2)";
    let diags = diagnose(src, &empty_db());
    assert!(
        diags.iter().all(|d| !d.message.contains("parenthesis")),
        "Should not report errors for matched parens"
    );
}

#[test]
fn test_invalid_using() {
    let src = "using Foo";
    let diags = diagnose(src, &empty_db());
    assert!(
        diags.iter().any(|d| d.message.contains("Invalid using")),
        "Should detect invalid using statement"
    );
}

#[test]
fn test_valid_using() {
    let src = "using {/Verse.org/Simulation}";
    let diags = diagnose(src, &empty_db());
    assert!(
        diags.iter().all(|d| !d.message.contains("Invalid using")),
        "Should not flag valid using statement"
    );
}

#[test]
fn test_comment_lines_skipped() {
    let src = "# This is a comment with unmatched (\n# Another comment";
    let diags = diagnose(src, &empty_db());
    assert!(diags.is_empty(), "Should not report errors in comment lines");
}

#[test]
fn test_block_comment_skipped() {
    let src = "<# This has unmatched ( brackets\nand continues here #>\nMyFunc()";
    let diags = diagnose(src, &empty_db());
    assert!(diags.is_empty(), "Should not report errors in block comments");
}

#[test]
fn test_string_delimiters_ignored() {
    let src = "Message := \"Hello (world\"";
    let diags = diagnose(src, &empty_db());
    assert!(
        diags.iter().all(|d| !d.message.contains("parenthesis")),
        "Should not count delimiters inside strings"
    );
}

#[test]
fn test_failable_brackets() {
    let src = "Result := Player.GetItem[]";
    let diags = diagnose(src, &empty_db());
    assert!(
        diags.iter().all(|d| !d.message.contains("bracket")),
        "Should handle failable call brackets"
    );
}

#[test]
fn test_using_with_no_space() {
    let src = "using{/Verse.org/Simulation}";
    let diags = diagnose(src, &empty_db());
    assert!(
        diags.iter().all(|d| !d.message.contains("Invalid using")),
        "Should accept using{{...}} without space"
    );
}

#[test]
fn unmatched_closing_paren_position() {
    let diags = diagnose("  Foo)", &empty_db());
    assert_eq!(diags.len(), 1);
    assert_eq!(diags[0].line, 0);
    assert_eq!(diags[0].col_start, 5);
    assert_eq!(diags[0].col_end, 6);
    assert_eq!(diags[0].severity, DiagnosticSeverity::Error);
    assert_eq!(diags[0].message, "Unmatched closing parenthesis ')'");
}

#[test]
fn unmatched_closing_bracket_and_brace() {
    let diags = diagnose("a]\nb}", &empty_db());
    assert_eq!(diags.len(), 2);
    assert_eq!(diags[0].message, "Unmatched closing bracket ']'");
    assert_eq!(diags[0].line, 0);
    assert_eq!(diags[1].message, "Unmatched closing brace '}'");
    assert_eq!(diags[1].line, 1);
}

#[test]
fn open_delimiters_reported_after_line_diagnostics_in_kind_order() {
    let diags = diagnose("{ [\n(\nx)\n(", &empty_db());
    let msgs: Vec<&str> = diags.iter().map(|d| d.message.as_str()).collect();
    assert_eq!(
        msgs,
        vec![
            "Unmatched opening parenthesis '('",
            "Unmatched opening bracket '['",
            "Unmatched opening brace '{'",
        ]
    );
    assert_eq!((diags[0].line, diags[0].col_start), (3, 0));
    assert_eq!((diags[1].line, diags[1].col_start), (0, 2));
    assert_eq!((diags[2].line, diags[2].col_start), (0, 0));
}

#[test]
fn columns_are_byte_offsets() {
    let diags = diagnose("é)", &empty_db());
    assert_eq!(diags.len(), 1);
    assert_eq!(diags[0].col_start, 2);
    assert_eq!(diags[0].col_end, 3);
}

#[test]
fn escaped_quote_keeps_string_open() {
    let diags = diagnose("X := \"a\\\"(\"", &empty_db());
    assert!(diags.is_empty());
}

#[test]
fn hash_ends_the_line() {
    let diags = diagnose("Foo() # (", &empty_db());
    assert!(diags.is_empty());
}

#[test]
fn invalid_using_span() {
    let diags = diagnose("  using Foo  ", &empty_db());
    assert_eq!(diags.len(), 1);
    assert_eq!(diags[0].col_start, 2);
    assert_eq!(diags[0].col_end, 11);
    assert_eq!(
        diags[0].message,
        "Invalid using statement. Expected: using {/Path/To/Module}"
    );
}

#[test]
fn bare_using_is_invalid() {
    let diags = diagnose("using", &empty_db());
    assert_eq!(diags.len(), 1);
    assert_eq!((diags[0].col_start, diags[0].col_end), (0, 5));
}

#[test]
fn unknown_type_warning() {
    let diags = diagnose("    var X : Foo = 1", &empty_db());
    assert_eq!(diags.len(), 1);
    assert_eq!(diags[0].severity, DiagnosticSeverity::Warning);
    assert_eq!(diags[0].message, "Unknown type 'Foo'. Is it defined or imported?");
    assert_eq!(diags[0].col_start, 8);
    assert_eq!(diags[0].col_end, 11);
}

#[test]
fn known_type_has_no_warning() {
    let mut db = SymbolDb::new();
    db.parse_digest("Sim<public> := module:\n    Foo<public> := class:\n", "Sim");
    let diags = diagnose("var X : Foo", &db);
    assert!(diags.is_empty());
}

#[test]
fn type_matched_by_search_has_no_warning() {
    let mut db = SymbolDb::new();
    db.parse_digest("Sim<public> := module:\n", "Sim");
    let diags = diagnose("var X : Si", &db);
    assert!(diags.is_empty());
}

#[test]
fn lowercase_types_are_not_checked() {
    let diags = diagnose("var X : int", &empty_db());
    assert!(diags.is_empty());
}

#[test]
fn balanced_text_has_no_diagnostics() {
    let db = empty_db();
    assert!(diagnose("f(a[1], {b})\n\ng()", &db).is_empty());
    let diags = diagnose("f(a]\n)(", &db);
    assert!(!diags.is_empty());
    assert!(diags.iter().all(|d| d.severity == DiagnosticSeverity::Error));
    assert_eq!(diags.len(), 2);
}
