use verse_lsp::completion::{
    complete_builtin_types, complete_global, complete_keywords, complete_member,
    complete_module_path, complete_snippets, guess_type, resolve_type_canonical,
    CompletionItemKind,
};
use verse_lsp::database::SymbolDb;
use verse_lsp::definition::create_digest_uri;
use verse_lsp::documents::{apply_change, character_to_byte_index, Position, Range, Url};
use verse_lsp::hover::{format_hover_markdown, format_signature};
use verse_lsp::lexer::{effect_tags, specifier_tags, visibility_tags, Token, TokenKind};
use verse_lsp::requests::{
    complete_at, database_symbols_matching, definition_at, document_symbol_lines, hover_at,
    workspace_symbols_matching,
};
use verse_lsp::symbol::{SymbolDetail, SymbolKind, Tag};
use verse_lsp::workspace::{find_type_in_buffer, parse_verse_symbols};

const SAMPLE: &str = "Sim<public> := module:
    player<public> := class(agent, entity):
        var<public> Health<public>:int = 100
        GetName<public>(Id:int):string
    (agent:agent).GetPlayer<public>():player
    color<public> := enum:
        Red
    listenable<public> := interface:
        Listen():void";

fn sample_db() -> SymbolDb {
    let mut db = SymbolDb::new();
    db.parse_digest(SAMPLE, "Sim");
    db
}

#[test]
fn digest_symbols_in_order() {
    let db = sample_db();
    let names: Vec<&str> = db.all_symbols().iter().map(|s| s.name.as_str()).collect();
    assert_eq!(
        names,
        vec!["Sim", "player", "Health", "GetName", "GetPlayer", "color"]
    );
    let kinds: Vec<SymbolKind> = db.all_symbols().iter().map(|s| s.kind).collect();
    assert_eq!(
        kinds,
        vec![
            SymbolKind::Module,
            SymbolKind::Class,
            SymbolKind::Field,
            SymbolKind::Method,
            SymbolKind::Method,
            SymbolKind::Enum
        ]
    );
    let lines: Vec<u32> = db.all_symbols().iter().map(|s| s.location.line).collect();
    assert_eq!(lines, vec![1, 2, 3, 4, 5, 6]);
    assert!(db.all_symbols().iter().all(|s| s.location.source == "Sim"));
    assert_eq!(db.modules.len(), 1);
    assert_eq!(db.modules[0].name, "Sim");
    assert_eq!(db.modules[0].path, "Sim");
}

#[test]
fn digest_details() {
    let db = sample_db();
    let player = db.find_class("player").expect("class");
    match &player.detail {
        SymbolDetail::Class { parents, specifiers, .. } => {
            assert_eq!(parents, &vec!["agent".to_string(), "entity".to_string()]);
            assert!(specifiers.is_empty());
        }
        _ => panic!("not a class"),
    }
    let health = &db.all_symbols()[2];
    match &health.detail {
        SymbolDetail::Field { var_kind, type_expr, default_value } => {
            assert_eq!(var_kind.as_deref(), Some("var"));
            assert_eq!(type_expr, "int");
            assert_eq!(default_value.as_deref(), Some("100"));
        }
        _ => panic!("not a field"),
    }
    let get_name = &db.all_symbols()[3];
    match &get_name.detail {
        SymbolDetail::Method { receiver, params, return_type, effects, .. } => {
            assert!(receiver.is_none());
            assert_eq!(params.len(), 1);
            assert_eq!(params[0].name, "Id");
            assert_eq!(params[0].param_type, "int");
            assert_eq!(return_type, "string");
            assert!(effects.is_empty());
        }
        _ => panic!("not a method"),
    }
}

#[test]
fn effects_are_read_from_extension_methods() {
    let mut db = SymbolDb::new();
    db.parse_digest(
        "M<public> := module:\n    (a:agent).Go<public>()<transacts><decides>:void\n",
        "M",
    );
    let ext = db.find_extension_methods("a");
    assert_eq!(ext.len(), 1);
    match &ext[0].detail {
        SymbolDetail::Method { effects, .. } => {
            assert_eq!(effects, &vec![Tag::Transacts, Tag::Decides]);
        }
        _ => panic!("not a method"),
    }
}

#[test]
fn queries_over_the_database() {
    let db = sample_db();
    let found: Vec<&str> = db.search("GET").iter().map(|s| s.name.as_str()).collect();
    assert_eq!(found, vec!["GetName", "GetPlayer"]);
    let ext: Vec<&str> =
        db.find_extension_methods("agent").iter().map(|s| s.name.as_str()).collect();
    assert_eq!(ext, vec!["GetPlayer"]);
    assert!(db.find_class("Player").is_none());
    assert!(db.find_class("color").is_none());
    assert_eq!(db.get_public_symbols().len(), 6);
    assert!(db.get_module("Sim").is_some());
    assert!(db.get_module("sim").is_none());
}

#[test]
fn reading_a_module_again_replaces_it() {
    let mut db = SymbolDb::new();
    db.parse_digest("A<public> := module:\n\nB<public> := module:\n", "one");
    assert_eq!(db.modules.len(), 2);
    db.parse_digest("A<public> := module:\n    x<public> := class:\n", "two");
    let names: Vec<&str> = db.modules.iter().map(|m| m.name.as_str()).collect();
    assert_eq!(names, vec!["A", "B"]);
    let a = db.get_module("A").unwrap();
    assert_eq!(a.symbols.len(), 2);
    assert_eq!(a.symbols[0].location.source, "two");
}

#[test]
fn bundled_modules() {
    let db = SymbolDb::load_bundled();
    let names: Vec<&str> = db.modules.iter().map(|m| m.name.as_str()).collect();
    assert_eq!(names, vec!["Verse", "Fortnite", "UnrealEngine"]);
}

#[test]
fn global_completion_lists_public_symbols() {
    let db = sample_db();
    let items = complete_global(&db);
    assert_eq!(items.len(), 6);
    assert_eq!(items[0].label, "Sim");
    assert_eq!(items[0].kind, Some(CompletionItemKind::MODULE));
    assert_eq!(items[0].detail.as_deref(), Some("Sim"));
    assert_eq!(items[1].detail.as_deref(), Some("class player : agent, entity"));
    assert_eq!(items[1].kind, Some(CompletionItemKind::CLASS));
    assert_eq!(items[2].detail.as_deref(), Some("int"));
    assert_eq!(items[2].kind, Some(CompletionItemKind::FIELD));
    assert_eq!(items[3].detail.as_deref(), Some("GetName(Id:int) : string"));
    assert_eq!(items[5].kind, Some(CompletionItemKind::ENUM));
}

#[test]
fn member_completion_uses_extension_methods() {
    let db = sample_db();
    let items = complete_member(&db, "agent");
    assert_eq!(items.len(), 1);
    assert_eq!(items[0].label, "GetPlayer");
    assert_eq!(items[0].detail.as_deref(), Some("(agent).GetPlayer() : player"));
    assert_eq!(items[0].kind, Some(CompletionItemKind::METHOD));
}

#[test]
fn member_completion_falls_back_to_globals() {
    let db = sample_db();
    assert_eq!(complete_member(&db, "player").len(), 6);
    assert_eq!(complete_member(&db, "nothing").len(), 6);
}

#[test]
fn module_path_completion() {
    let db = sample_db();
    let items = complete_module_path(&db, "SI");
    assert_eq!(items.len(), 1);
    assert_eq!(items[0].label, "Sim");
    assert_eq!(items[0].detail.as_deref(), Some("module: Sim"));
    assert_eq!(items[0].kind, Some(CompletionItemKind::MODULE));
    assert!(complete_module_path(&db, "x").is_empty());
}

#[test]
fn keyword_completion() {
    let labels: Vec<String> = complete_keywords("S").into_iter().map(|i| i.label).collect();
    assert_eq!(labels, vec!["set", "spawn", "sync", "struct", "self", "suspend", "suspends"]);
    let items = complete_keywords("if");
    assert_eq!(items.len(), 1);
    assert_eq!(items[0].kind, Some(CompletionItemKind::KEYWORD));
    assert_eq!(items[0].detail.as_deref(), Some("keyword"));
    assert_eq!(items[0].documentation.as_deref(), Some("Conditional expression"));
    assert_eq!(complete_keywords("").len(), 53);
}

#[test]
fn builtin_type_completion() {
    let labels: Vec<String> = complete_builtin_types("c").into_iter().map(|i| i.label).collect();
    assert_eq!(labels, vec!["char8", "comparable"]);
    let items = complete_builtin_types("INT");
    assert_eq!(items[0].kind, Some(CompletionItemKind::STRUCT));
    assert_eq!(items[0].detail.as_deref(), Some("built-in type"));
    assert_eq!(complete_builtin_types("").len(), 17);
}

#[test]
fn snippet_completion() {
    let items = complete_snippets("on");
    let labels: Vec<&str> = items.iter().map(|i| i.label.as_str()).collect();
    assert_eq!(labels, vec!["on-begin", "on-end"]);
    assert_eq!(
        items[1].detail.as_deref(),
        Some("OnEnd<override>():void =\n    # cleanup logic")
    );
    assert_eq!(items[1].kind, Some(CompletionItemKind::SNIPPET));
    assert_eq!(complete_snippets("").len(), 11);
}

#[test]
fn guessed_types() {
    assert_eq!(guess_type("Player").as_deref(), Some("player"));
    assert_eq!(guess_type("world_context").as_deref(), Some("world_context"));
    assert_eq!(guess_type("player2"), None);
}

#[test]
fn canonical_types() {
    let db = sample_db();
    assert_eq!(resolve_type_canonical(&db, "player<int>").as_deref(), Some("player"));
    assert_eq!(resolve_type_canonical(&db, " Player<int> ").as_deref(), Some("player<int>"));
    assert_eq!(resolve_type_canonical(&db, "  Foo ").as_deref(), Some("foo"));
}

#[test]
fn hover_markdown_and_signatures() {
    let db = sample_db();
    let syms = db.all_symbols();
    assert_eq!(
        format_hover_markdown(&syms[3]),
        "## `GetName`\n\n```verse\nGetName(Id:int):string\n```\n"
    );
    assert_eq!(format_hover_markdown(&syms[2]), "## `Health`\n\n**Type:** `int`\n");
    assert_eq!(
        format_hover_markdown(&syms[1]),
        "## `player`\n\n**Kind:** Class\n**Extends:** agent, entity\n"
    );
    assert_eq!(format_hover_markdown(&syms[0]), "## `Sim`\n\n**Path:** `Sim`\n");
    assert_eq!(format_signature(&syms[3]), "GetName(Id:int) : string");
    assert_eq!(format_signature(&syms[1]), "player");
}

#[test]
fn digest_uri_text() {
    assert_eq!(create_digest_uri("Sim", 4), "digest://Sim/4");
    assert_eq!(create_digest_uri("", 0), "digest:///0");
}

#[test]
fn byte_index_of_positions() {
    let text = "ab\ncd";
    assert_eq!(character_to_byte_index(text, 0, 0), Some(0));
    assert_eq!(character_to_byte_index(text, 0, 1), Some(0));
    assert_eq!(character_to_byte_index(text, 1, 0), Some(3));
    assert_eq!(character_to_byte_index(text, 1, 1), Some(3));
    assert_eq!(character_to_byte_index(text, 1, 2), Some(4));
    assert_eq!(character_to_byte_index(text, 1, 10), Some(5));
    assert_eq!(character_to_byte_index(text, 0, 5), None);
    assert_eq!(character_to_byte_index(text, 2, 0), None);
    assert_eq!(character_to_byte_index("é\nx", 0, 2), Some(0));
    assert_eq!(character_to_byte_index("", 0, 3), Some(0));
}

#[test]
fn edits_replace_ranges() {
    let mut s = String::from("ab\ncd");
    apply_change(
        &mut s,
        Range { start: Position { line: 0, character: 0 }, end: Position { line: 0, character: 0 } },
        "X",
    );
    assert_eq!(s, "Xab\ncd");
    let mut t = String::from("ab\ncd");
    apply_change(
        &mut t,
        Range { start: Position { line: 1, character: 0 }, end: Position { line: 1, character: 2 } },
        "Z",
    );
    assert_eq!(t, "ab\nZd");
    let mut u = String::from("ab");
    apply_change(
        &mut u,
        Range { start: Position { line: 3, character: 0 }, end: Position { line: 3, character: 0 } },
        "Q",
    );
    assert_eq!(u, "ab");
}

#[test]
fn urls_compare_by_text() {
    assert!(Url("file:///a".to_string()) == Url("file:///a".to_string()));
    assert!(Url("file:///a".to_string()) != Url("file:///b".to_string()));
    assert_eq!(Url("x".to_string()).as_str(), "x");
}

#[test]
fn token_kinds_and_tags() {
    assert_eq!(TokenKind::LBrace.text(), "{");
    assert_eq!(TokenKind::EqualsEquals.text(), "==");
    assert_eq!(TokenKind::TypeIdent.text(), "type_ident");
    let t = Token::new(TokenKind::Ident, "x".to_string(), 3, 4);
    assert_eq!((t.line, t.col, t.text.as_str()), (3, 4, "x"));
    assert_eq!(visibility_tags().len(), 5);
    assert_eq!(effect_tags()[0], "computes");
    assert_eq!(specifier_tags().last(), Some(&"final_super_base"));
}

#[test]
fn workspace_symbol_details() {
    let syms = parse_verse_symbols(
        "  var <private> Count : int = 1 + 2\n# var Skipped: int\n    Alias<public> := type {int}\n  Run<public>(X:int)<decides>:logic = external {}\n",
    );
    assert_eq!(syms.len(), 3);
    assert_eq!(syms[0].name, "Count");
    assert_eq!(syms[0].location.line, 1);
    assert_eq!(syms[0].location.source, "workspace");
    match &syms[0].detail {
        SymbolDetail::Field { var_kind, type_expr, default_value } => {
            assert_eq!(var_kind.as_deref(), Some("var"));
            assert_eq!(type_expr, "int");
            assert_eq!(default_value.as_deref(), Some("1 + 2"));
        }
        _ => panic!("not a field"),
    }
    assert_eq!(syms[1].name, "Alias");
    assert_eq!(syms[1].kind, SymbolKind::TypeAlias);
    assert_eq!(syms[1].location.line, 3);
    match &syms[1].detail {
        SymbolDetail::Field { type_expr, .. } => assert_eq!(type_expr, "{int}"),
        _ => panic!("not an alias"),
    }
    assert_eq!(syms[2].name, "Run");
    assert_eq!(syms[2].kind, SymbolKind::Function);
    match &syms[2].detail {
        SymbolDetail::Method { return_type, receiver, .. } => {
            assert_eq!(return_type, "logic");
            assert!(receiver.is_none());
        }
        _ => panic!("not a function"),
    }
}

#[test]
fn type_in_buffer() {
    let content = "    var A : agent = x\n    var B:= 1\nA.";
    assert_eq!(find_type_in_buffer(content, "  A").as_deref(), Some("agent"));
    assert_eq!(find_type_in_buffer(content, "B"), None);
    assert_eq!(find_type_in_buffer(content, "A "), None);
}

#[test]
fn completion_requests() {
    let db = sample_db();
    let items = complete_at(&db, "    var A : Agent = x\nA.", 1, 2).unwrap();
    let labels: Vec<&str> = items.iter().map(|i| i.label.as_str()).collect();
    assert_eq!(labels, vec!["GetPlayer"]);
    let guessed = complete_at(&db, "agent.", 0, 6).unwrap();
    assert_eq!(guessed.len(), 1);
    assert_eq!(complete_at(&db, "x", 0, 1).unwrap().len(), 6);
    assert!(complete_at(&db, "/", 0, 1).unwrap().is_empty());
    assert!(complete_at(&db, "x", 2, 0).is_none());
}

#[test]
fn hover_and_definition_requests() {
    let db = sample_db();
    let text = "\nx := GetName(1)";
    let md = hover_at(&db, text, 1, 6).unwrap();
    assert!(md.starts_with("## `GetName`"));
    let def = definition_at(&db, text, 1, 6).unwrap();
    assert_eq!((def.source.as_str(), def.line, def.name.as_str()), ("Sim", 4, "GetName"));
    assert!(hover_at(&db, text, 1, 0).is_none());
    assert!(definition_at(&db, text, 7, 0).is_none());
}

#[test]
fn symbol_search_requests() {
    let db = sample_db();
    let hits: Vec<(&str, &str)> = database_symbols_matching(&db, "GET")
        .into_iter()
        .map(|(s, m)| (s.name.as_str(), m.as_str()))
        .collect();
    assert_eq!(hits, vec![("GetName", "Sim"), ("GetPlayer", "Sim")]);
    let ws = parse_verse_symbols("class MyClass:\n    var my_x:int = 1\n    var other:int");
    let names: Vec<&str> =
        workspace_symbols_matching(&ws, "MY").into_iter().map(|w| w.name.as_str()).collect();
    assert_eq!(names, vec!["MyClass", "my_x"]);
}

#[test]
fn document_symbol_requests() {
    let db = sample_db();
    let hits: Vec<(usize, &str)> =
        document_symbol_lines(&db, "player stuff\nnothing\nGetName()")
            .into_iter()
            .map(|(i, s)| (i, s.name.as_str()))
            .collect();
    assert_eq!(hits, vec![(0, "player"), (2, "GetName")]);
}

fn pattern_var(line: &str) -> Option<(String, String, Option<String>)> {
    let re = regex::Regex::new(
        r"(?m)^(\s*)var\s+(<[^>]+>\s+)?([A-Za-z_][A-Za-z0-9_]*)\s*:\s*([^=]+)(?:\s*=\s*(.+))?$",
    )
    .unwrap();
    re.captures(line).map(|c| {
        (
            c.get(3).unwrap().as_str().to_string(),
            c.get(4).unwrap().as_str().trim().to_string(),
            c.get(5).map(|m| m.as_str().trim().to_string()),
        )
    })
}

fn pattern_class(line: &str) -> Option<String> {
    let re = regex::Regex::new(
        r"(?m)^(\s*)class\s+(<[^>]+>\s+)?([A-Za-z_][A-Za-z0-9_]*)\s*(?:\([^)]*\))?\s*:?\s*$",
    )
    .unwrap();
    re.captures(line).map(|c| c.get(3).unwrap().as_str().to_string())
}

fn pattern_ext(line: &str) -> Option<(String, String)> {
    let re = regex::Regex::new(r"(?m)^\s*\(([^)]+)\)\.([A-Za-z_][A-Za-z0-9_]*)\s*\([^)]*\)").unwrap();
    re.captures(line).map(|c| {
        (c.get(1).unwrap().as_str().to_string(), c.get(2).unwrap().as_str().to_string())
    })
}

#[test]
fn line_recognisers_agree_with_the_declaration_patterns() {
    let lines = [
        "var x: int",
        "  var<private> y : float = 2.0",
        "var z:",
        "var z: =",
        "var z: = 1",
        "var z : a = ",
        "var z :  ",
        "var z : a == b",
        "var<p>w: t",
        "var <p> w: t",
        "var <> w: t",
        "var <p>w: t",
        "var\tq\t:\tt\t=\tu",
        "var 9q: t",
        "var q t",
        "class Foo",
        "class Foo:",
        "class Foo(bar)",
        "class Foo(bar) :  ",
        "class Foo(bar",
        "class <p> Foo",
        "class Foo extra",
        "class Foo::",
        "class\u{a0}Foo",
        "(A).b(c)",
        "(A).b (c) tail",
        "().b()",
        "(A) .b()",
        "(A).b(",
        "  (x:y).z()",
        "(A).9b()",
    ];
    for line in lines.iter() {
        let syms = parse_verse_symbols(line);
        let expected_var = pattern_var(line);
        let expected_class = pattern_class(line);
        let expected_ext = pattern_ext(line);
        if let Some((name, ty, default)) = expected_var {
            assert_eq!(syms.len(), 1, "{line:?}");
            assert_eq!(syms[0].name, name, "{line:?}");
            match &syms[0].detail {
                SymbolDetail::Field { type_expr, default_value, .. } => {
                    assert_eq!(type_expr, &ty, "{line:?}");
                    assert_eq!(default_value, &default, "{line:?}");
                }
                _ => panic!("{line:?}"),
            }
        } else if let Some(name) = expected_class {
            assert_eq!(syms.len(), 1, "{line:?}");
            assert_eq!(syms[0].kind, SymbolKind::Class, "{line:?}");
            assert_eq!(syms[0].name, name, "{line:?}");
        } else if let Some((receiver, name)) = expected_ext {
            assert_eq!(syms.len(), 1, "{line:?}");
            assert_eq!(syms[0].name, name, "{line:?}");
            match &syms[0].detail {
                SymbolDetail::Method { receiver: r, .. } => {
                    assert_eq!(r.as_deref(), Some(receiver.as_str()), "{line:?}")
                }
                _ => panic!("{line:?}"),
            }
        } else {
            assert!(syms.is_empty(), "{line:?} gave {:?}", syms);
        }
    }
}

#[test]
fn empty_edit_keeps_text() {
    let mut s = String::from("aé\nb");
    apply_change(
        &mut s,
        Range { start: Position { line: 0, character: 2 }, end: Position { line: 0, character: 2 } },
        "",
    );
    assert_eq!(s, "aé\nb");
}

#[test]
fn symbols_carry_their_digest_name() {
    let mut db = SymbolDb::new();
    db.parse_digest("A<public> := module:\n    x<public> := class:\n", "first");
    db.parse_digest("B<public> := module:\n    y<public> := class:\n", "second");
    let b = db.get_module("B").unwrap();
    assert!(b.symbols.iter().all(|s| s.location.source == "second"));
    let a = db.get_module("A").unwrap();
    assert!(a.symbols.iter().all(|s| s.location.source == "first"));
    let bundled = SymbolDb::load_bundled();
    let sources: Vec<&str> =
        bundled.all_symbols().iter().map(|s| s.location.source.as_str()).collect();
    assert_eq!(sources, vec!["Verse", "Fortnite", "UnrealEngine"]);
}

#[test]
fn digests_given_as_texts() {
    let verse = "Verse<public> := module:\n    thing<public> := class:\n        Size<public>():int\n";
    let fortnite = "Fortnite<public> := module:\n";
    let unreal = "UnrealEngine<public> := module:\n    (a:agent).Go<public>():void\n";
    let db = SymbolDb::load_digests(verse, fortnite, unreal);
    let names: Vec<&str> = db.modules.iter().map(|m| m.name.as_str()).collect();
    assert_eq!(names, vec!["Verse", "Fortnite", "UnrealEngine"]);
    let mut d = SymbolDb::new();
    d.parse_digest(verse, "Verse");
    d.parse_digest(fortnite, "Fortnite");
    d.parse_digest(unreal, "UnrealEngine");
    let a: Vec<(&str, &str)> =
        db.all_symbols().iter().map(|s| (s.name.as_str(), s.location.source.as_str())).collect();
    let b: Vec<(&str, &str)> =
        d.all_symbols().iter().map(|s| (s.name.as_str(), s.location.source.as_str())).collect();
    assert_eq!(a, b);
    assert!(db.find_class("thing").is_some());
    assert_eq!(db.find_extension_methods("a").len(), 1);
}

#[test]
fn empty_query_and_prefix_keep_everything() {
    let db = sample_db();
    assert_eq!(db.search("").len(), db.all_symbols().len());
    assert_eq!(complete_builtin_types("").len(), 17);
}

#[test]
fn search_ignores_ascii_case() {
    let db = sample_db();
    let names = |q: &str| -> Vec<String> { db.search(q).iter().map(|s| s.name.clone()).collect() };
    assert_eq!(names("getname"), vec!["GetName"]);
    assert_eq!(names("GETNAME"), names("getname"));
    assert_eq!(names("gEtPlAyEr"), vec!["GetPlayer"]);
    assert_eq!(names("PLAYER"), names("player"));
}

#[test]
fn keyword_completion_narrows_as_the_prefix_grows() {
    let labels = |p: &str| -> Vec<String> {
        complete_keywords(p).into_iter().map(|i| i.label).collect()
    };
    let short = labels("s");
    let long = labels("SU");
    let kept: Vec<String> = short.iter().filter(|l| l.starts_with("su")).cloned().collect();
    assert_eq!(long, kept);
    assert_eq!(long, vec!["suspend", "suspends"]);
    assert_eq!(labels("suspends"), vec!["suspends"]);
    assert!(labels("suspendsx").is_empty());
}

#[test]
fn digests_keep_earlier_modules_and_public_symbols() {
    let mut db = SymbolDb::new();
    db.parse_digest("A<public> := module:\n    a<public> := class:\n", "one");
    let before = db.get_module("A").unwrap().symbols.len();
    db.parse_digest("B<public> := module:\n    b<public>():void\n", "two");
    assert_eq!(db.get_module("A").unwrap().symbols.len(), before);
    assert_eq!(db.get_module("A").unwrap().symbols[0].location.source, "one");
    assert_eq!(db.get_public_symbols().len(), db.all_symbols().len());
    let flat: Vec<String> =
        db.modules.iter().flat_map(|m| m.symbols.iter().map(|s| s.name.clone())).collect();
    let all: Vec<String> = db.all_symbols().iter().map(|s| s.name.clone()).collect();
    assert_eq!(all, flat);
}

#[test]
fn guessed_types_guess_themselves() {
    for id in ["Player", "Agent", "Entity", "Transform", "Vector3", "GameMode", "Character", "WorldContext"] {
        let t = guess_type(id).unwrap();
        assert_eq!(guess_type(&t).as_deref(), Some(t.as_str()));
    }
    assert_eq!(guess_type("GameMode").as_deref(), Some("game_mode"));
    assert_eq!(guess_type("PLAYER"), None);
    assert_eq!(guess_type("foo"), None);
}
