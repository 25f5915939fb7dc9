use regex::Regex;
use verse_lsp::database::SymbolDb;
use verse_lsp::symbol::{Symbol, SymbolDetail, SymbolKind, Tag};

#[derive(Debug, PartialEq)]
enum Expected {
    Field {
        name: String,
        var_kind: Option<String>,
        type_expr: String,
        default_value: Option<String>,
    },
    Method {
        name: String,
        receiver: Option<String>,
        params: Vec<(String, String)>,
        return_type: String,
        effects: Vec<Tag>,
    },
    Class {
        name: String,
        parents: Vec<String>,
        specifiers: Vec<String>,
    },
}

fn effect(tag: &str) -> Option<Tag> {
    match tag {
        "transacts" => Some(Tag::Transacts),
        "decides" => Some(Tag::Decides),
        "computes" => Some(Tag::Computes),
        "reads" => Some(Tag::Reads),
        "writes" => Some(Tag::Writes),
        "suspends" => Some(Tag::Suspends),
        "predicts" => Some(Tag::Predicts),
        "converges" => Some(Tag::Converges),
        "native" => Some(Tag::Native),
        _ => None,
    }
}

fn effects(line: &str) -> Vec<Tag> {
    let re = Regex::new(r"<([^>]+)>").unwrap();
    re.captures_iter(line).filter_map(|c| effect(c.get(1).unwrap().as_str())).collect()
}

fn signature(line: &str) -> (Vec<(String, String)>, String) {
    let re = Regex::new(r"\(([^)]*)\)(?:<([^>]*)>)?:\s*(.+)").unwrap();
    match re.captures(line) {
        Some(c) => {
            let mut params = Vec::new();
            for p in c.get(1).unwrap().as_str().split(',') {
                let p = p.trim();
                if p.is_empty() {
                    continue;
                }
                if let Some((n, t)) = p.split_once(':') {
                    params.push((n.trim().to_string(), t.trim().to_string()));
                }
            }
            (params, c.get(3).unwrap().as_str().to_string())
        }
        None => (Vec::new(), String::new()),
    }
}

fn class_member(line: &str) -> Option<Expected> {
    let line = line.trim();
    let mut found = None;
    if line.starts_with('(') && line.contains(").") {
        let re = Regex::new(r"\(([^:]+):([^)]+)\)\.([A-Za-z_][A-Za-z0-9_]*)").unwrap();
        if let Some(c) = re.captures(line) {
            let (params, return_type) = signature(line);
            found = Some(Expected::Method {
                name: c.get(3).unwrap().as_str().to_string(),
                receiver: Some(c.get(1).unwrap().as_str().to_string()),
                params,
                return_type,
                effects: effects(line),
            });
        }
    }
    if line.contains("(Receiver") || line.starts_with('(') {
        return found;
    }
    if line.starts_with("var<") || line.contains("external {}") {
        let name_re = Regex::new(r"^(?:var<[^>]+>)?\s*([A-Za-z_][A-Za-z0-9_]*)").unwrap();
        let type_re = Regex::new(r":\s*([^=]+)(?:\s*=\s*(.+))?$").unwrap();
        return name_re.captures(line).map(|c| {
            let (type_expr, default_value) = match type_re.captures(line) {
                Some(t) => (
                    t.get(1).unwrap().as_str().trim().to_string(),
                    t.get(2).map(|m| m.as_str().trim().to_string()),
                ),
                None => (String::new(), None),
            };
            Expected::Field {
                name: c.get(1).unwrap().as_str().to_string(),
                var_kind: if line.starts_with("var") { Some("var".to_string()) } else { None },
                type_expr,
                default_value,
            }
        });
    }
    if line.contains("):") || line.ends_with(')') {
        let re = Regex::new(r"^([A-Za-z_][A-Za-z0-9_]*)").unwrap();
        return re.captures(line).map(|c| {
            let (params, return_type) = signature(line);
            Expected::Method {
                name: c.get(1).unwrap().as_str().to_string(),
                receiver: None,
                params,
                return_type,
                effects: effects(line),
            }
        });
    }
    None
}

fn class_header(line: &str) -> Option<Expected> {
    let line = line.trim();
    let re = Regex::new(r"^([A-Za-z_][A-Za-z0-9_]*)<.*>\s*:= class").unwrap();
    let name = re.captures(line)?.get(1).unwrap().as_str().to_string();
    let mut parents = Vec::new();
    let parent_re = Regex::new(r"class\(([^)]+)\)").unwrap();
    if let Some(c) = parent_re.captures(line) {
        for p in c.get(1).unwrap().as_str().split(',') {
            parents.push(p.trim().to_string());
        }
    }
    let tag_re = Regex::new(r"<([^>]+)>").unwrap();
    let specifiers = tag_re
        .captures_iter(line)
        .map(|c| c.get(1).unwrap().as_str().to_string())
        .filter(|t| !t.contains("public") && !t.contains("private") && !t.contains("protected"))
        .collect();
    Some(Expected::Class { name, parents, specifiers })
}

fn actual(sym: &Symbol) -> Expected {
    match &sym.detail {
        SymbolDetail::Field { var_kind, type_expr, default_value } => Expected::Field {
            name: sym.name.clone(),
            var_kind: var_kind.clone(),
            type_expr: type_expr.clone(),
            default_value: default_value.clone(),
        },
        SymbolDetail::Method { receiver, params, return_type, effects, .. } => Expected::Method {
            name: sym.name.clone(),
            receiver: receiver.clone(),
            params: params.iter().map(|p| (p.name.clone(), p.param_type.clone())).collect(),
            return_type: return_type.clone(),
            effects: effects.clone(),
        },
        SymbolDetail::Class { parents, specifiers, .. } => Expected::Class {
            name: sym.name.clone(),
            parents: parents.clone(),
            specifiers: specifiers.clone(),
        },
        _ => panic!("unexpected detail for {}", sym.name),
    }
}

#[test]
fn class_members_agree_with_the_member_patterns() {
    let lines = [
        "var<public> X<public>:int = 5",
        "var<public> X:int",
        "var<public> X<public>:int =",
        "var<public> X :  = 3",
        "var<> X:int",
        "var<a> 9x:int",
        "var<a>",
        "Y<public>:float = external {}",
        "Y<public>:float<x> = external {}",
        "Z():void",
        "Z(A:int, B : string):logic",
        "Z()<transacts>:void",
        "Z(A:int)",
        "Z(A:int)<decides><transacts>:void",
        "Z(A:int):<decides>void",
        "Q(A:int, :int, B):t",
        "W(  ):  spaced  ",
        "F(a:b)c):d",
        "9Z():void",
        "(x:agent).Foo():void",
        "(x:agent).Foo<public>(A:int)<transacts>:void",
        "(Receiver:agent).Foo()",
        "(bad).Foo()",
        "(a:b:c).Go(X:int)<suspends>:t",
        "(x:agent)",
        "Run<native><public>(A:int)<reads>:int",
    ];
    for line in lines.iter() {
        let digest = format!("M<public> := module:\n    c<public> := class:\n        {}\n", line);
        let mut db = SymbolDb::new();
        db.parse_digest(&digest, "M");
        let syms = db.all_symbols();
        assert!(syms.len() >= 2, "{line:?}");
        let got = if syms.len() > 2 { Some(actual(&syms[2])) } else { None };
        assert!(syms.len() <= 3, "{line:?}");
        assert_eq!(got, class_member(line), "{line:?}");
        if let Some(s) = syms.get(2) {
            let kind = if matches!(s.detail, SymbolDetail::Field { .. }) {
                SymbolKind::Field
            } else {
                SymbolKind::Method
            };
            assert_eq!(s.kind, kind, "{line:?}");
            assert_eq!(s.location.line, 3, "{line:?}");
        }
    }
}

#[test]
fn class_headers_agree_with_the_class_patterns() {
    let lines = [
        "c<public> := class:",
        "c<public><abstract> := class(a, b ,c)<final>:",
        "c<public> := class<unique>(agent):",
        "c<epic_internal> := class(a,,b):",
        "c<> := class",
        "c<public>:= class:",
        "c := class:",
        "c<public> := classy:",
        "_c9<x> := class():",
        "c<private_thing> := class(x):",
    ];
    for line in lines.iter() {
        let digest = format!("M<public> := module:\n    {}\n", line);
        let mut db = SymbolDb::new();
        db.parse_digest(&digest, "M");
        let syms = db.all_symbols();
        let got = if syms.len() > 1 { Some(actual(&syms[1])) } else { None };
        assert_eq!(got, class_header(line), "{line:?}");
    }
}

#[test]
fn module_and_using_lines_agree_with_their_patterns() {
    let module_re = Regex::new(r"^([A-Za-z_][A-Za-z0-9_]*)<.*>\s*:= module:").unwrap();
    let using_re = Regex::new(r"using \{([^}]+)\}").unwrap();
    let headers = [
        "A<public> := module:",
        "A<public>   := module:",
        "A<public>:= module:",
        "A := module:",
        "A<> := module: extra",
        "9A<p> := module:",
        "A<p> := module",
    ];
    for header in headers.iter() {
        let mut db = SymbolDb::new();
        db.parse_digest(&format!("{}\nusing {{/x/y}}\n", header), "S");
        let expected = module_re.captures(header).map(|c| c.get(1).unwrap().as_str().to_string());
        let got = db.modules.first().map(|m| m.name.clone());
        assert_eq!(got, expected, "{header:?}");
        if let Some(m) = db.modules.first() {
            let expected_using: Vec<String> = using_re
                .captures("using {/x/y}")
                .map(|c| c.get(1).unwrap().as_str().to_string())
                .into_iter()
                .collect();
            assert_eq!(m.usings, expected_using, "{header:?}");
        }
    }
}

/// The unknown-type check against the declaration pattern itself: with an
/// empty database every captured type is unknown, so a warning comes exactly
/// when the pattern matches, over the span of its capture.
#[test]
fn type_references_agree_with_the_declaration_pattern() {
    let re = Regex::new(r"(?:var\s+(?:<[^>]+>\s+)?[A-Za-z_]\w*\s*:\s*)([A-Z][A-Za-z0-9_]*)")
        .unwrap();
    let db = SymbolDb::new();
    let lines = [
        "var X : Foo = 1",
        "var X:Foo",
        "var<public> Score : Tracker = 0",
        "var <public> Score:Tracker",
        "var<public>Score:Tracker",
        "var café : Thing",
        "var naïve_2 :  Zeta9_x = Zeta9_x{}",
        "var x : int = 0",
        "var x : []Foo = array{}",
        "var x : ?Foo = false",
        "var  x  :  Foo",
        "varx : Foo",
        "xvar a : Bar",
        "set var A : Bar",
        "var 1x : Foo",
        "var x = Foo",
        "var x : foo",
        "var x: Foo, var y: Bar",
        "var x : q, var y : Bar",
        "MyVar : Foo",
        "var <> x : Foo",
        "var <a>x : Foo",
        "var\tx\t:\tFoo",
        "var\u{3000}名前 : Größe",
        "# var x : Foo",
        "",
    ];
    for line in lines {
        let expected = re.captures(line).map(|c| {
            let m = c.get(1).unwrap();
            (m.start() as u32, m.end() as u32, m.as_str().to_string())
        });
        let got = verse_lsp::diagnostics::type_reference_diagnostic(line, 7, &db);
        match (expected, got) {
            (None, None) => {}
            (Some((a, b, name)), Some(d)) => {
                assert_eq!((d.line, d.col_start, d.col_end), (7, a, b), "{:?}", line);
                assert_eq!(d.message, format!("Unknown type '{}'. Is it defined or imported?", name));
            }
            (e, g) => panic!("{:?}: pattern {:?}, library {:?}", line, e, g.map(|d| d.message)),
        }
    }
}

#[test]
fn unicode_word_characters_in_a_variable_name() {
    let db = SymbolDb::new();
    let d = verse_lsp::diagnostics::type_reference_diagnostic("var café : Thing", 0, &db).unwrap();
    assert_eq!((d.col_start, d.col_end), (12, 17));
    assert_eq!(d.message, "Unknown type 'Thing'. Is it defined or imported?");
}
