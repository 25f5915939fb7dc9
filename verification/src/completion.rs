//! Completion items: symbols of the database, members of a class,
//! extension methods, module paths, keywords, built-in types and snippets.
use vstd::prelude::*;

use crate::database::{
    class_index, extension_methods, lemma_take_step, modules_view, public_symbols, refs_view,
    SymbolDb, SymbolDbV, ModuleV,
};
use crate::hover::{labels_of, param_labels, signature_text};
use crate::symbol::{
    lemma_symbols_view_index, lemma_symbols_view_len, opt_view, symbols_view, DetailV, Symbol,
    SymbolDetail, SymbolKind, SymbolV, symbol_kind_text,
};
use crate::text::{
    ascii_lower, ascii_lower_concat, is_ascii_text, append_join, append_str, chars_of, contains,
    contains_exec, eq_str, find_char, find_char_from, join, lowercase, slice_chars, starts_with,
    starts_with_exec, to_lower, to_string, trim, trimmed,
};

verus! {

pub struct CompletionContext {
    pub trigger_character: Option<char>,
    pub query: String,
}

#[allow(non_camel_case_types)]
#[derive(Debug, Clone, Copy, PartialEq, Eq, Structural)]
pub enum CompletionItemKind {
    TEXT,
    METHOD,
    FUNCTION,
    CONSTRUCTOR,
    FIELD,
    VARIABLE,
    CLASS,
    INTERFACE,
    MODULE,
    PROPERTY,
    UNIT,
    VALUE,
    ENUM,
    KEYWORD,
    SNIPPET,
    COLOR,
    FILE,
    REFERENCE,
    FOLDER,
    EnumMember,
    CONSTANT,
    STRUCT,
    EVENT,
    OPERATOR,
    TypeParameter,
}

pub struct CompletionItem {
    pub label: String,
    pub kind: Option<CompletionItemKind>,
    pub detail: Option<String>,
    pub documentation: Option<String>,
}

/// View of a `CompletionItem`.
pub struct CompletionItemV {
    pub label: Seq<char>,
    pub kind: Option<CompletionItemKind>,
    pub detail: Option<Seq<char>>,
    pub documentation: Option<Seq<char>>,
}

impl View for CompletionItem {
    type V = CompletionItemV;

    open spec fn view(&self) -> CompletionItemV {
        CompletionItemV {
            label: self.label@,
            kind: self.kind,
            detail: opt_view(self.detail),
            documentation: opt_view(self.documentation),
        }
    }
}

pub open spec fn items_view(v: Seq<CompletionItem>) -> Seq<CompletionItemV> {
    Seq::new(v.len(), |i: int| v[i]@)
}

pub open spec fn pairs_view(v: Seq<(&str, &str)>) -> Seq<(Seq<char>, Seq<char>)> {
    Seq::new(v.len(), |i: int| (v[i].0@, v[i].1@))
}

pub open spec fn triples_view(v: Seq<(&str, &str, &str)>) -> Seq<(Seq<char>, Seq<char>, Seq<char>)> {
    Seq::new(v.len(), |i: int| (v[i].0@, v[i].1@, v[i].2@))
}

/// The name of a completion kind, in the words `symbol_kind_text` uses.
pub open spec fn completion_kind_text(k: CompletionItemKind) -> Seq<char> {
    match k {
        CompletionItemKind::TEXT => "text"@,
        CompletionItemKind::METHOD => "method"@,
        CompletionItemKind::FUNCTION => "function"@,
        CompletionItemKind::CONSTRUCTOR => "constructor"@,
        CompletionItemKind::FIELD => "field"@,
        CompletionItemKind::VARIABLE => "variable"@,
        CompletionItemKind::CLASS => "class"@,
        CompletionItemKind::INTERFACE => "interface"@,
        CompletionItemKind::MODULE => "module"@,
        CompletionItemKind::PROPERTY => "property"@,
        CompletionItemKind::UNIT => "unit"@,
        CompletionItemKind::VALUE => "value"@,
        CompletionItemKind::ENUM => "enum"@,
        CompletionItemKind::KEYWORD => "keyword"@,
        CompletionItemKind::SNIPPET => "snippet"@,
        CompletionItemKind::COLOR => "color"@,
        CompletionItemKind::FILE => "file"@,
        CompletionItemKind::REFERENCE => "reference"@,
        CompletionItemKind::FOLDER => "folder"@,
        CompletionItemKind::EnumMember => "enum_member"@,
        CompletionItemKind::CONSTANT => "constant"@,
        CompletionItemKind::STRUCT => "struct"@,
        CompletionItemKind::EVENT => "event"@,
        CompletionItemKind::OPERATOR => "operator"@,
        CompletionItemKind::TypeParameter => "type_parameter"@,
    }
}

/// A symbol is offered under the completion kind of the same name: module,
/// class, interface, enum, struct, method, field or function; a type alias,
/// which has no completion kind of its own, is offered as a struct.
pub proof fn completion_kind_names_symbol_kind(k: SymbolKind)
    ensures
        k != SymbolKind::TypeAlias ==> completion_kind_text(kind_for(k)) == symbol_kind_text(k),
        k == SymbolKind::TypeAlias ==> completion_kind_text(kind_for(k)) == symbol_kind_text(
            SymbolKind::Struct,
        ),
{
}

/// Completion kind shown for a kind of symbol.
pub open spec fn kind_for(k: SymbolKind) -> CompletionItemKind {
    match k {
        SymbolKind::Module => CompletionItemKind::MODULE,
        SymbolKind::Class => CompletionItemKind::CLASS,
        SymbolKind::Interface => CompletionItemKind::INTERFACE,
        SymbolKind::Enum => CompletionItemKind::ENUM,
        SymbolKind::Struct => CompletionItemKind::STRUCT,
        SymbolKind::Method => CompletionItemKind::METHOD,
        SymbolKind::Field => CompletionItemKind::FIELD,
        SymbolKind::Function => CompletionItemKind::FUNCTION,
        SymbolKind::TypeAlias => CompletionItemKind::STRUCT,
    }
}

/// One-line detail of a symbol: a method's signature, a field's type, a
/// class with its parents, the name otherwise.
pub open spec fn symbol_detail_text(s: SymbolV) -> Seq<char> {
    match s.detail {
        DetailV::Method { .. } => signature_text(s),
        DetailV::Field { type_expr, .. } => type_expr,
        DetailV::Class { parents, .. } => if parents.len() == 0 {
            "class "@ + s.name
        } else {
            "class "@ + s.name + " : "@ + join(parents, ", "@)
        },
        _ => s.name,
    }
}

/// Signature of an extension method, `(receiver).name(params) : return`;
/// the name for any other symbol.
pub open spec fn ext_signature_text(s: SymbolV) -> Seq<char> {
    match s.detail {
        DetailV::Method { params, return_type, receiver: Some(rcv), .. } => "("@ + rcv + ")."@
            + s.name + "("@ + join(param_labels(params), ", "@) + ") : "@ + return_type,
        _ => s.name,
    }
}

/// Completion item for a symbol.
pub open spec fn symbol_item(s: SymbolV) -> CompletionItemV {
    CompletionItemV {
        label: s.name,
        kind: Some(kind_for(s.kind)),
        detail: Some(symbol_detail_text(s)),
        documentation: s.doc,
    }
}

/// Completion item for an extension method.
pub open spec fn ext_item(s: SymbolV) -> CompletionItemV {
    CompletionItemV {
        label: s.name,
        kind: Some(kind_for(s.kind)),
        detail: Some(ext_signature_text(s)),
        documentation: s.doc,
    }
}

pub open spec fn symbol_items(ss: Seq<SymbolV>) -> Seq<CompletionItemV> {
    Seq::new(ss.len(), |i: int| symbol_item(ss[i]))
}

pub open spec fn ext_items(ss: Seq<SymbolV>) -> Seq<CompletionItemV> {
    Seq::new(ss.len(), |i: int| ext_item(ss[i]))
}

/// Items for every public symbol of the database, in order.
pub open spec fn global_items(db: SymbolDbV) -> Seq<CompletionItemV> {
    symbol_items(public_symbols(db.all_symbols))
}

/// Items for the members of the first class named `t`, if there is one.
pub open spec fn class_member_items(db: SymbolDbV, t: Seq<char>) -> Seq<CompletionItemV> {
    let i = class_index(db.all_symbols, t, 0);
    if 0 <= i < db.all_symbols.len() {
        match db.all_symbols[i].detail {
            DetailV::Class { members, .. } => symbol_items(members),
            _ => Seq::empty(),
        }
    } else {
        Seq::empty()
    }
}

/// Items after `receiver.`: the class's members, then the extension
/// methods on it; every public symbol when there are none.
pub open spec fn member_items(db: SymbolDbV, t: Seq<char>) -> Seq<CompletionItemV> {
    let items = class_member_items(db, t) + ext_items(extension_methods(db.all_symbols, t));
    if items.len() == 0 {
        global_items(db)
    } else {
        items
    }
}

/// Items for the modules whose lower-cased path contains `p`, in order.
pub open spec fn module_path_items(ms: Seq<ModuleV>, p: Seq<char>) -> Seq<CompletionItemV>
    decreases ms.len(),
{
    if ms.len() == 0 {
        Seq::empty()
    } else {
        let rest = module_path_items(ms.drop_last(), p);
        let m = ms.last();
        if contains(lowercase(m.path), p) {
            rest.push(
                CompletionItemV {
                    label: m.path,
                    kind: Some(CompletionItemKind::MODULE),
                    detail: Some("module: "@ + m.path),
                    documentation: None,
                },
            )
        } else {
            rest
        }
    }
}

/// Items for the entries `(label, documentation)` of `t` whose label
/// starts with `p`, in order, all of kind `kind` and with detail `detail`.
pub open spec fn table_items(
    t: Seq<(Seq<char>, Seq<char>)>,
    p: Seq<char>,
    kind: CompletionItemKind,
    detail: Seq<char>,
) -> Seq<CompletionItemV>
    decreases t.len(),
{
    if t.len() == 0 {
        Seq::empty()
    } else {
        let rest = table_items(t.drop_last(), p, kind, detail);
        let e = t.last();
        if starts_with(e.0, p) {
            rest.push(
                CompletionItemV {
                    label: e.0,
                    kind: Some(kind),
                    detail: Some(detail),
                    documentation: Some(e.1),
                },
            )
        } else {
            rest
        }
    }
}

/// Items for the snippets `(name, body, documentation)` whose name starts
/// with `p`, in order; the body is the detail.
pub open spec fn snippet_items(t: Seq<(Seq<char>, Seq<char>, Seq<char>)>, p: Seq<char>) -> Seq<
    CompletionItemV,
>
    decreases t.len(),
{
    if t.len() == 0 {
        Seq::empty()
    } else {
        let rest = snippet_items(t.drop_last(), p);
        let e = t.last();
        if starts_with(e.0, p) {
            rest.push(
                CompletionItemV {
                    label: e.0,
                    kind: Some(CompletionItemKind::SNIPPET),
                    detail: Some(e.1),
                    documentation: Some(e.2),
                },
            )
        } else {
            rest
        }
    }
}

/// Type suggested for a well-known identifier.
pub open spec fn guessed_type(id: Seq<char>) -> Option<Seq<char>> {
    if id == "Player"@ || id == "player"@ {
        Some("player"@)
    } else if id == "Agent"@ || id == "agent"@ {
        Some("agent"@)
    } else if id == "Entity"@ || id == "entity"@ {
        Some("entity"@)
    } else if id == "Transform"@ || id == "transform"@ {
        Some("transform"@)
    } else if id == "Vector3"@ || id == "vector3"@ {
        Some("vector3"@)
    } else if id == "GameMode"@ || id == "game_mode"@ {
        Some("game_mode"@)
    } else if id == "Character"@ || id == "character"@ {
        Some("character"@)
    } else if id == "WorldContext"@ || id == "world_context"@ {
        Some("world_context"@)
    } else {
        None
    }
}

/// Member completion offers the members of the class found under the
/// receiver type, then the extension methods on that type, in that order;
/// when there are neither, it offers exactly what global completion offers.
pub proof fn member_completion_falls_back_to_global(db: SymbolDbV, t: Seq<char>)
    ensures
        class_member_items(db, t).len() + extension_methods(db.all_symbols, t).len() == 0
            ==> member_items(db, t) == global_items(db),
        class_member_items(db, t).len() + extension_methods(db.all_symbols, t).len() > 0
            ==> member_items(db, t) == class_member_items(db, t) + ext_items(
            extension_methods(db.all_symbols, t),
        ),
{
}

/// A guessed type, taken as an identifier, guesses itself.
pub proof fn guessed_type_is_stable(x: Seq<char>)
    ensures
        match guessed_type(x) {
            Some(t) => guessed_type(t) == Some(t),
            None => true,
        },
{
    reveal_strlit("Player");
    reveal_strlit("player");
    reveal_strlit("Agent");
    reveal_strlit("agent");
    reveal_strlit("Entity");
    reveal_strlit("entity");
    reveal_strlit("Transform");
    reveal_strlit("transform");
    reveal_strlit("Vector3");
    reveal_strlit("vector3");
    reveal_strlit("GameMode");
    reveal_strlit("game_mode");
    reveal_strlit("Character");
    reveal_strlit("character");
    reveal_strlit("WorldContext");
    reveal_strlit("world_context");
}

/// The part of a type expression before its first `<`, trimmed.
pub open spec fn base_type(t: Seq<char>) -> Seq<char> {
    trim(t.take(find_char(t, 0, '<')))
}

/// Canonical, lower-cased name of a type expression: its base type when
/// that names a class, else the whole expression, trimmed.
pub open spec fn canonical_type(db: SymbolDbV, t: Seq<char>) -> Seq<char> {
    if class_index(db.all_symbols, base_type(t), 0) >= 0 {
        lowercase(base_type(t))
    } else {
        lowercase(trim(t))
    }
}

/// Keywords offered for completion, each with its description.
pub open spec fn keyword_entries() -> Seq<(Seq<char>, Seq<char>)> {
    seq![
        ("if"@, "Conditional expression"@),
        ("else"@, "Else branch"@),
        ("for"@, "For loop — iterates over a collection"@),
        ("loop"@, "Infinite loop — breaks with break"@),
        ("var"@, "Mutable variable declaration"@),
        ("set"@, "Assign to a mutable variable"@),
        ("return"@, "Return from function"@),
        ("break"@, "Break out of a loop"@),
        ("block"@, "Structured concurrency block"@),
        ("spawn"@, "Spawn a concurrent task"@),
        ("sync"@, "Wait for all concurrent tasks"@),
        ("race"@, "Wait for first concurrent task"@),
        ("rush"@, "Run tasks, cancel losers"@),
        ("branch"@, "Branch concurrent execution"@),
        ("defer"@, "Defer execution until scope exit"@),
        ("using"@, "Import a module path"@),
        ("class"@, "Define a class"@),
        ("struct"@, "Define a struct"@),
        ("enum"@, "Define an enum"@),
        ("interface"@, "Define an interface"@),
        ("where"@, "Type constraint clause"@),
        ("case"@, "Pattern matching case"@),
        ("not"@, "Logical negation"@),
        ("and"@, "Logical and"@),
        ("or"@, "Logical or"@),
        ("true"@, "Boolean true"@),
        ("false"@, "Boolean false"@),
        ("self"@, "Current instance"@),
        ("module"@, "Module declaration"@),
        ("event"@, "Event declaration"@),
        ("then"@, "Then clause"@),
        ("do"@, "Do expression"@),
        ("override"@, "Override a parent method"@),
        ("suspend"@, "Suspend coroutine"@),
        ("decides"@, "Effect — expression may fail"@),
        ("transacts"@, "Effect — may read/write with rollback"@),
        ("computes"@, "Effect — pure, no side effects"@),
        ("converges"@, "Effect — computes + guaranteed to terminate"@),
        ("reads"@, "Effect — may read mutable state"@),
        ("writes"@, "Effect — may write mutable state"@),
        ("allocates"@, "Effect — may allocate objects"@),
        ("suspends"@, "Effect — async, may take multiple frames"@),
        ("no_rollback"@, "Effect — cannot be undone"@),
        ("varies"@, "Effect — result may vary between calls"@),
        ("native"@, "Specifier — implemented in C++"@),
        ("abstract"@, "Specifier — abstract class or method"@),
        ("final"@, "Specifier — cannot be subclassed/overridden"@),
        ("unique"@, "Specifier — unique class identity"@),
        ("concrete"@, "Specifier — must provide all field defaults"@),
        ("public"@, "Access — accessible everywhere"@),
        ("private"@, "Access — only within same scope"@),
        ("protected"@, "Access — same scope + subclasses"@),
        ("internal"@, "Access — same module only"@),
    ]
}

/// Built-in types offered for completion, each with its description.
pub open spec fn builtin_type_entries() -> Seq<(Seq<char>, Seq<char>)> {
    seq![
        ("int"@, "Integer type"@),
        ("float"@, "Floating-point type"@),
        ("string"@, "String type"@),
        ("char8"@, "8-bit character type"@),
        ("logic"@, "Boolean logic type (true/false)"@),
        ("void"@, "Void type — no value"@),
        ("any"@, "Any type — top of the type hierarchy"@),
        ("comparable"@, "Comparable type — supports ordering"@),
        ("type"@, "Type metatype"@),
        ("tuple"@, "Tuple type"@),
        ("array"@, "Array container type"@),
        ("map"@, "Map / dictionary container type"@),
        ("option"@, "Optional value (?type)"@),
        ("generator"@, "Generator coroutine type"@),
        ("locale"@, "Locale type for internationalization"@),
        ("message"@, "Localizable message type"@),
        ("subtype"@, "Subtype constraint"@),
    ]
}

/// Snippets offered for completion: name, body and description.
pub open spec fn snippet_entries() -> Seq<(Seq<char>, Seq<char>, Seq<char>)> {
    seq![
        ("if-then"@, "if (Condition):\n    # body"@, "If-then block"@),
        ("if-else"@, "if (Condition):\n    # then\nelse:\n    # else"@, "If-else block"@),
        ("for-loop"@, "for (Item : Collection):\n    # body"@, "For loop over collection"@),
        ("class-def"@, "my_class := class:\n    # fields and methods"@, "Class definition"@),
        ("device-class"@, "my_device := class(creative_device):\n    @editable\n    MyProp : type = default"@, "UEFN Creative device class"@),
        ("on-begin"@, "OnBegin<override>()<suspends>:void =\n    # startup logic"@, "OnBegin lifecycle override"@),
        ("on-end"@, "OnEnd<override>():void =\n    # cleanup logic"@, "OnEnd lifecycle override"@),
        ("subscribe"@, "EventSource.Subscribe(handler)"@, "Subscribe to an event"@),
        ("spawn-task"@, "spawn:\n    # async task"@, "Spawn an async concurrent task"@),
        ("using-block"@, "using {/Path/To/Module}"@, "Import a module"@),
        ("editable-prop"@, "@editable\nMyProp : type = default"@, "Editable property for UEFN"@),
    ]
}

fn keyword_table() -> (r: Vec<(&'static str, &'static str)>)
    ensures
        pairs_view(r@) == keyword_entries(),
{
    let r = vec![
        ("if", "Conditional expression"),
        ("else", "Else branch"),
        ("for", "For loop — iterates over a collection"),
        ("loop", "Infinite loop — breaks with break"),
        ("var", "Mutable variable declaration"),
        ("set", "Assign to a mutable variable"),
        ("return", "Return from function"),
        ("break", "Break out of a loop"),
        ("block", "Structured concurrency block"),
        ("spawn", "Spawn a concurrent task"),
        ("sync", "Wait for all concurrent tasks"),
        ("race", "Wait for first concurrent task"),
        ("rush", "Run tasks, cancel losers"),
        ("branch", "Branch concurrent execution"),
        ("defer", "Defer execution until scope exit"),
        ("using", "Import a module path"),
        ("class", "Define a class"),
        ("struct", "Define a struct"),
        ("enum", "Define an enum"),
        ("interface", "Define an interface"),
        ("where", "Type constraint clause"),
        ("case", "Pattern matching case"),
        ("not", "Logical negation"),
        ("and", "Logical and"),
        ("or", "Logical or"),
        ("true", "Boolean true"),
        ("false", "Boolean false"),
        ("self", "Current instance"),
        ("module", "Module declaration"),
        ("event", "Event declaration"),
        ("then", "Then clause"),
        ("do", "Do expression"),
        ("override", "Override a parent method"),
        ("suspend", "Suspend coroutine"),
        ("decides", "Effect — expression may fail"),
        ("transacts", "Effect — may read/write with rollback"),
        ("computes", "Effect — pure, no side effects"),
        ("converges", "Effect — computes + guaranteed to terminate"),
        ("reads", "Effect — may read mutable state"),
        ("writes", "Effect — may write mutable state"),
        ("allocates", "Effect — may allocate objects"),
        ("suspends", "Effect — async, may take multiple frames"),
        ("no_rollback", "Effect — cannot be undone"),
        ("varies", "Effect — result may vary between calls"),
        ("native", "Specifier — implemented in C++"),
        ("abstract", "Specifier — abstract class or method"),
        ("final", "Specifier — cannot be subclassed/overridden"),
        ("unique", "Specifier — unique class identity"),
        ("concrete", "Specifier — must provide all field defaults"),
        ("public", "Access — accessible everywhere"),
        ("private", "Access — only within same scope"),
        ("protected", "Access — same scope + subclasses"),
        ("internal", "Access — same module only"),
    ];
    assert(pairs_view(r@) =~= keyword_entries());
    r
}

fn builtin_type_table() -> (r: Vec<(&'static str, &'static str)>)
    ensures
        pairs_view(r@) == builtin_type_entries(),
{
    let r = vec![
        ("int", "Integer type"),
        ("float", "Floating-point type"),
        ("string", "String type"),
        ("char8", "8-bit character type"),
        ("logic", "Boolean logic type (true/false)"),
        ("void", "Void type — no value"),
        ("any", "Any type — top of the type hierarchy"),
        ("comparable", "Comparable type — supports ordering"),
        ("type", "Type metatype"),
        ("tuple", "Tuple type"),
        ("array", "Array container type"),
        ("map", "Map / dictionary container type"),
        ("option", "Optional value (?type)"),
        ("generator", "Generator coroutine type"),
        ("locale", "Locale type for internationalization"),
        ("message", "Localizable message type"),
        ("subtype", "Subtype constraint"),
    ];
    assert(pairs_view(r@) =~= builtin_type_entries());
    r
}

fn snippet_table() -> (r: Vec<(&'static str, &'static str, &'static str)>)
    ensures
        triples_view(r@) == snippet_entries(),
{
    let r = vec![
        ("if-then", "if (Condition):\n    # body", "If-then block"),
        ("if-else", "if (Condition):\n    # then\nelse:\n    # else", "If-else block"),
        ("for-loop", "for (Item : Collection):\n    # body", "For loop over collection"),
        ("class-def", "my_class := class:\n    # fields and methods", "Class definition"),
        ("device-class", "my_device := class(creative_device):\n    @editable\n    MyProp : type = default", "UEFN Creative device class"),
        ("on-begin", "OnBegin<override>()<suspends>:void =\n    # startup logic", "OnBegin lifecycle override"),
        ("on-end", "OnEnd<override>():void =\n    # cleanup logic", "OnEnd lifecycle override"),
        ("subscribe", "EventSource.Subscribe(handler)", "Subscribe to an event"),
        ("spawn-task", "spawn:\n    # async task", "Spawn an async concurrent task"),
        ("using-block", "using {/Path/To/Module}", "Import a module"),
        ("editable-prop", "@editable\nMyProp : type = default", "Editable property for UEFN"),
    ];
    assert(triples_view(r@) =~= snippet_entries());
    r
}

/// Every item taken from a table has a label that starts with the prefix,
/// and the kind and detail of that table.
pub proof fn table_items_match_prefix(
    t: Seq<(Seq<char>, Seq<char>)>,
    p: Seq<char>,
    kind: CompletionItemKind,
    detail: Seq<char>,
)
    ensures
        forall|i: int|
            0 <= i < table_items(t, p, kind, detail).len() ==> starts_with(
                (#[trigger] table_items(t, p, kind, detail)[i]).label,
                p,
            ) && table_items(t, p, kind, detail)[i].kind == Some(kind) && table_items(
                t,
                p,
                kind,
                detail,
            )[i].detail == Some(detail),
    decreases t.len(),
{
    if t.len() > 0 {
        table_items_match_prefix(t.drop_last(), p, kind, detail);
        let rest = table_items(t.drop_last(), p, kind, detail);
        assert forall|i: int| 0 <= i < table_items(t, p, kind, detail).len() implies starts_with(
            (#[trigger] table_items(t, p, kind, detail)[i]).label,
            p,
        ) && table_items(t, p, kind, detail)[i].kind == Some(kind) && table_items(
            t,
            p,
            kind,
            detail,
        )[i].detail == Some(detail) by {
            if i < rest.len() {
                assert(table_items(t, p, kind, detail)[i] == rest[i]);
            }
        }
    }
}

/// Every module-path item names a module whose lower-cased path contains
/// the query, has the module kind, the detail `module: <path>` and no
/// documentation; every such module gives one.
pub proof fn module_path_items_shape(ms: Seq<ModuleV>, p: Seq<char>)
    ensures
        forall|i: int|
            0 <= i < module_path_items(ms, p).len() ==> {
                let it = #[trigger] module_path_items(ms, p)[i];
                &&& it.kind == Some(CompletionItemKind::MODULE)
                &&& it.detail == Some("module: "@ + it.label)
                &&& it.documentation is None
                &&& exists|j: int|
                    0 <= j < ms.len() && ms[j].path == it.label && contains(
                        lowercase(ms[j].path),
                        p,
                    )
            },
        forall|j: int|
            0 <= j < ms.len() && contains(lowercase((#[trigger] ms[j]).path), p) ==> exists|
                i: int,
            | 0 <= i < module_path_items(ms, p).len() && module_path_items(ms, p)[i].label
                == ms[j].path,
    decreases ms.len(),
{
    if ms.len() > 0 {
        let rest = module_path_items(ms.drop_last(), p);
        let all = module_path_items(ms, p);
        module_path_items_shape(ms.drop_last(), p);
        assert forall|i: int| 0 <= i < all.len() implies {
            let it = #[trigger] all[i];
            &&& it.kind == Some(CompletionItemKind::MODULE)
            &&& it.detail == Some("module: "@ + it.label)
            &&& it.documentation is None
            &&& exists|j: int|
                0 <= j < ms.len() && ms[j].path == it.label && contains(lowercase(ms[j].path), p)
        } by {
            if i < rest.len() {
                assert(all[i] == rest[i]);
                let j = choose|j: int|
                    0 <= j < ms.drop_last().len() && ms.drop_last()[j].path == rest[i].label
                        && contains(lowercase(ms.drop_last()[j].path), p);
                assert(ms[j] == ms.drop_last()[j]);
            } else {
                assert(ms[ms.len() - 1] == ms.last());
            }
        }
        assert forall|j: int|
            0 <= j < ms.len() && contains(lowercase((#[trigger] ms[j]).path), p) implies exists|
                i: int,
            | 0 <= i < all.len() && all[i].label == ms[j].path by {
            if j < ms.len() - 1 {
                assert(ms.drop_last()[j] == ms[j]);
                let i = choose|i: int| 0 <= i < rest.len() && rest[i].label == ms.drop_last()[j].path;
                assert(all[i] == rest[i]);
            } else {
                assert(all[rest.len() as int].label == ms[j].path);
            }
        }
    }
}

/// The empty prefix keeps every entry of a table.
pub proof fn table_items_empty_prefix(
    t: Seq<(Seq<char>, Seq<char>)>,
    kind: CompletionItemKind,
    detail: Seq<char>,
)
    ensures
        table_items(t, Seq::empty(), kind, detail).len() == t.len(),
    decreases t.len(),
{
    if t.len() > 0 {
        table_items_empty_prefix(t.drop_last(), kind, detail);
        assert(t.last().0.subrange(0, 0) =~= Seq::<char>::empty());
    }
}

/// Lengthening the prefix narrows the items offered: for a prefix `p2`
/// that extends `p1`, the items are those offered for `p1` whose label
/// starts with `p2`, in the same order.
pub proof fn table_items_narrow(
    t: Seq<(Seq<char>, Seq<char>)>,
    p1: Seq<char>,
    p2: Seq<char>,
    kind: CompletionItemKind,
    detail: Seq<char>,
)
    requires
        starts_with(p2, p1),
    ensures
        table_items(t, p2, kind, detail) == table_items(t, p1, kind, detail).filter(
            |it: CompletionItemV| starts_with(it.label, p2),
        ),
    decreases t.len(),
{
    reveal(Seq::filter);
    let f = |it: CompletionItemV| starts_with(it.label, p2);
    if t.len() == 0 {
        assert(table_items(t, p1, kind, detail).filter(f) =~= Seq::<CompletionItemV>::empty());
    } else {
        table_items_narrow(t.drop_last(), p1, p2, kind, detail);
        let r1 = table_items(t.drop_last(), p1, kind, detail);
        let a1 = table_items(t, p1, kind, detail);
        let e = t.last();
        if starts_with(e.0, p2) {
            assert(e.0.subrange(0, p1.len() as int) =~= e.0.subrange(0, p2.len() as int).subrange(
                0,
                p1.len() as int,
            ));
            assert(p2.subrange(0, p1.len() as int) =~= p1);
            assert(starts_with(e.0, p1));
        }
        if starts_with(e.0, p1) {
            assert(a1.drop_last() =~= r1);
        } else {
            assert(a1 == r1);
        }
    }
}

/// Completion from a table narrows as an ASCII prefix grows: the items
/// offered for `p + q` are those offered for `p` whose label starts with
/// `p + q` lower-cased, in the same order.
pub proof fn completion_narrows_as_prefix_grows(
    t: Seq<(Seq<char>, Seq<char>)>,
    p: Seq<char>,
    q: Seq<char>,
    kind: CompletionItemKind,
    detail: Seq<char>,
)
    requires
        is_ascii_text(p),
        is_ascii_text(q),
    ensures
        is_ascii_text(p + q),
        table_items(t, ascii_lower(p + q), kind, detail) == table_items(
            t,
            ascii_lower(p),
            kind,
            detail,
        ).filter(|it: CompletionItemV| starts_with(it.label, ascii_lower(p + q))),
{
    ascii_lower_concat(p, q);
    table_items_narrow(t, ascii_lower(p), ascii_lower(p + q), kind, detail);
}

/// Every snippet offered has a name that starts with the prefix.
pub proof fn snippet_items_match_prefix(t: Seq<(Seq<char>, Seq<char>, Seq<char>)>, p: Seq<char>)
    ensures
        forall|i: int|
            0 <= i < snippet_items(t, p).len() ==> starts_with(
                (#[trigger] snippet_items(t, p)[i]).label,
                p,
            ) && snippet_items(t, p)[i].kind == Some(CompletionItemKind::SNIPPET),
    decreases t.len(),
{
    if t.len() > 0 {
        snippet_items_match_prefix(t.drop_last(), p);
        let rest = snippet_items(t.drop_last(), p);
        assert forall|i: int| 0 <= i < snippet_items(t, p).len() implies starts_with(
            (#[trigger] snippet_items(t, p)[i]).label,
            p,
        ) && snippet_items(t, p)[i].kind == Some(CompletionItemKind::SNIPPET) by {
            if i < rest.len() {
                assert(snippet_items(t, p)[i] == rest[i]);
            }
        }
    }
}

fn symbol_kind_to_completion_kind(kind: &SymbolKind) -> (r: CompletionItemKind)
    ensures
        r == kind_for(*kind),
{
    match kind {
        SymbolKind::Module => CompletionItemKind::MODULE,
        SymbolKind::Class => CompletionItemKind::CLASS,
        SymbolKind::Interface => CompletionItemKind::INTERFACE,
        SymbolKind::Enum => CompletionItemKind::ENUM,
        SymbolKind::Struct => CompletionItemKind::STRUCT,
        SymbolKind::Method => CompletionItemKind::METHOD,
        SymbolKind::Field => CompletionItemKind::FIELD,
        SymbolKind::Function => CompletionItemKind::FUNCTION,
        SymbolKind::TypeAlias => CompletionItemKind::STRUCT,
    }
}

fn format_symbol_detail(symbol: &Symbol) -> (r: String)
    ensures
        r@ == symbol_detail_text(symbol@),
{
    match &symbol.detail {
        SymbolDetail::Method { .. } => crate::hover::format_signature(symbol),
        SymbolDetail::Field { type_expr, .. } => type_expr.clone(),
        SymbolDetail::Class { parents, .. } => {
            let mut r = to_string("class ");
            append_str(&mut r, symbol.name.as_str());
            if parents.len() > 0 {
                append_str(&mut r, " : ");
                append_join(&mut r, parents, ", ");
            }
            assert(r@ =~= symbol_detail_text(symbol@));
            r
        },
        _ => symbol.name.clone(),
    }
}

fn format_ext_method_signature(symbol: &Symbol) -> (r: String)
    ensures
        r@ == ext_signature_text(symbol@),
{
    match &symbol.detail {
        SymbolDetail::Method { params, return_type, receiver: Some(rcv), .. } => {
            let mut r = to_string("(");
            append_str(&mut r, rcv.as_str());
            append_str(&mut r, ").");
            append_str(&mut r, symbol.name.as_str());
            append_str(&mut r, "(");
            let labels = labels_of(params);
            append_join(&mut r, &labels, ", ");
            append_str(&mut r, ") : ");
            append_str(&mut r, return_type.as_str());
            assert(r@ =~= ext_signature_text(symbol@));
            r
        },
        _ => symbol.name.clone(),
    }
}

fn make_symbol_item(s: &Symbol) -> (r: CompletionItem)
    ensures
        r@ == symbol_item(s@),
{
    CompletionItem {
        label: s.name.clone(),
        kind: Some(symbol_kind_to_completion_kind(&s.kind)),
        detail: Some(format_symbol_detail(s)),
        documentation: crate::symbol::copy_opt(&s.doc),
    }
}

fn make_ext_item(s: &Symbol) -> (r: CompletionItem)
    ensures
        r@ == ext_item(s@),
{
    CompletionItem {
        label: s.name.clone(),
        kind: Some(symbol_kind_to_completion_kind(&s.kind)),
        detail: Some(format_ext_method_signature(s)),
        documentation: crate::symbol::copy_opt(&s.doc),
    }
}

/// Items for every public symbol of the database.
pub fn complete_global(db: &SymbolDb) -> (r: Vec<CompletionItem>)
    ensures
        items_view(r@) == global_items(db@),
{
    let ps = db.get_public_symbols();
    let mut items: Vec<CompletionItem> = Vec::new();
    let mut i: usize = 0;
    while i < ps.len()
        invariant
            i <= ps@.len(),
            items@.len() == i,
            forall|k: int| 0 <= k < i ==> #[trigger] items@[k]@ == symbol_item(ps@[k]@),
        decreases ps@.len() - i,
    {
        items.push(make_symbol_item(ps[i]));
        i = i + 1;
    }
    assert(items_view(items@) =~= symbol_items(refs_view(ps@)));
    items
}

/// Items after `receiver_type.`: the members of the class of that name,
/// then the extension methods on it; every public symbol when neither
/// gives one.
pub fn complete_member(db: &SymbolDb, receiver_type: &str) -> (r: Vec<CompletionItem>)
    ensures
        items_view(r@) == member_items(db@, receiver_type@),
{
    let mut items: Vec<CompletionItem> = Vec::new();
    proof {
        crate::database::lemma_class_index_range(db@.all_symbols, receiver_type@, 0);
    }
    match db.find_class(receiver_type) {
        Some(class) => {
            match &class.detail {
                SymbolDetail::Class { members, .. } => {
                    proof {
                        lemma_symbols_view_len(members@);
                    }
                    let mut k: usize = 0;
                    while k < members.len()
                        invariant
                            k <= members@.len(),
                            items@.len() == k,
                            forall|j: int|
                                0 <= j < k ==> #[trigger] items@[j]@ == symbol_item(
                                    symbols_view(members@)[j],
                                ),
                        decreases members@.len() - k,
                    {
                        proof {
                            lemma_symbols_view_index(members@, k as int);
                        }
                        items.push(make_symbol_item(&members[k]));
                        k = k + 1;
                    }
                    assert(items_view(items@) =~= symbol_items(symbols_view(members@)));
                },
                _ => {},
            }
        },
        None => {},
    }
    let ghost first = items_view(items@);
    assert(first == class_member_items(db@, receiver_type@));
    let exts = db.find_extension_methods(receiver_type);
    let mut i: usize = 0;
    while i < exts.len()
        invariant
            i <= exts@.len(),
            items@.len() == first.len() + i,
            forall|k: int| 0 <= k < first.len() ==> #[trigger] items@[k]@ == first[k],
            forall|k: int|
                0 <= k < i ==> #[trigger] items@[first.len() + k]@ == ext_item(exts@[k]@),
        decreases exts@.len() - i,
    {
        items.push(make_ext_item(exts[i]));
        i = i + 1;
    }
    assert forall|k: int| 0 <= k < items@.len() implies #[trigger] items_view(items@)[k] == (first
        + ext_items(refs_view(exts@)))[k] by {
        if k >= first.len() {
            let j = k - first.len();
            assert(items@[first.len() + j]@ == ext_item(exts@[j]@));
        }
    }
    assert(items_view(items@) =~= first + ext_items(refs_view(exts@)));
    if items.len() == 0 {
        return complete_global(db);
    }
    items
}

/// Items for the modules whose path, lower-cased, contains `partial`
/// lower-cased.
pub fn complete_module_path(db: &SymbolDb, partial: &str) -> (r: Vec<CompletionItem>)
    ensures
        items_view(r@) == module_path_items(db@.modules, lowercase(partial@)),
        is_ascii_text(partial@) ==> items_view(r@) == module_path_items(
            db@.modules,
            ascii_lower(partial@),
        ),
{
    let pl = to_lower(partial);
    let pv = chars_of(pl.as_str());
    let mods = db.module_list();
    let ghost ms = modules_view(mods@);
    let mut items: Vec<CompletionItem> = Vec::new();
    let mut i: usize = 0;
    while i < mods.len()
        invariant
            i <= mods@.len(),
            ms == modules_view(mods@),
            pv@ == lowercase(partial@),
            items_view(items@) == module_path_items(ms.take(i as int), lowercase(partial@)),
        decreases mods@.len() - i,
    {
        proof {
            lemma_take_step(ms, i as int);
        }
        let m = &mods[i];
        let lp = to_lower(m.path.as_str());
        let lv = chars_of(lp.as_str());
        if contains_exec(&lv, &pv) {
            let mut detail = to_string("module: ");
            append_str(&mut detail, m.path.as_str());
            let item = CompletionItem {
                label: m.path.clone(),
                kind: Some(CompletionItemKind::MODULE),
                detail: Some(detail),
                documentation: None,
            };
            items.push(item);
        }
        assert(items_view(items@) =~= module_path_items(ms.take(i + 1), lowercase(partial@)));
        i = i + 1;
    }
    assert(ms.take(i as int) =~= ms);
    items
}

/// Items for the entries of `tab` whose label starts with `prefix`
/// lower-cased.
fn matching_pairs(tab: &Vec<(&str, &str)>, prefix: &str, kind: CompletionItemKind, detail: &str) -> (r:
    Vec<CompletionItem>)
    ensures
        items_view(r@) == table_items(pairs_view(tab@), lowercase(prefix@), kind, detail@),
        prefix@.len() == 0 ==> r@.len() == tab@.len(),
        is_ascii_text(prefix@) ==> items_view(r@) == table_items(
            pairs_view(tab@),
            ascii_lower(prefix@),
            kind,
            detail@,
        ),
{
    let pl = to_lower(prefix);
    proof {
        if prefix@.len() == 0 {
            assert(pl@ =~= Seq::<char>::empty());
            table_items_empty_prefix(pairs_view(tab@), kind, detail@);
        }
    }
    let pv = chars_of(pl.as_str());
    let ghost t = pairs_view(tab@);
    let mut items: Vec<CompletionItem> = Vec::new();
    let mut i: usize = 0;
    while i < tab.len()
        invariant
            i <= tab@.len(),
            t == pairs_view(tab@),
            pv@ == lowercase(prefix@),
            items_view(items@) == table_items(t.take(i as int), lowercase(prefix@), kind, detail@),
        decreases tab@.len() - i,
    {
        proof {
            lemma_take_step(t, i as int);
        }
        let (label, doc) = tab[i];
        let lv = chars_of(label);
        if starts_with_exec(&lv, &pv) {
            let item = CompletionItem {
                label: to_string(label),
                kind: Some(kind),
                detail: Some(to_string(detail)),
                documentation: Some(to_string(doc)),
            };
            items.push(item);
        }
        assert(items_view(items@) =~= table_items(
            t.take(i + 1),
            lowercase(prefix@),
            kind,
            detail@,
        ));
        i = i + 1;
    }
    assert(t.take(i as int) =~= t);
    items
}

/// Keywords starting with `prefix`, compared lower-cased.
pub fn complete_keywords(prefix: &str) -> (r: Vec<CompletionItem>)
    ensures
        items_view(r@) == table_items(
            keyword_entries(),
            lowercase(prefix@),
            CompletionItemKind::KEYWORD,
            "keyword"@,
        ),
        prefix@.len() == 0 ==> r@.len() == keyword_entries().len(),
        is_ascii_text(prefix@) ==> items_view(r@) == table_items(
            keyword_entries(),
            ascii_lower(prefix@),
            CompletionItemKind::KEYWORD,
            "keyword"@,
        ),
{
    let tab = keyword_table();
    matching_pairs(&tab, prefix, CompletionItemKind::KEYWORD, "keyword")
}

/// Built-in types starting with `prefix`, compared lower-cased.
pub fn complete_builtin_types(prefix: &str) -> (r: Vec<CompletionItem>)
    ensures
        items_view(r@) == table_items(
            builtin_type_entries(),
            lowercase(prefix@),
            CompletionItemKind::STRUCT,
            "built-in type"@,
        ),
        prefix@.len() == 0 ==> r@.len() == builtin_type_entries().len(),
        is_ascii_text(prefix@) ==> items_view(r@) == table_items(
            builtin_type_entries(),
            ascii_lower(prefix@),
            CompletionItemKind::STRUCT,
            "built-in type"@,
        ),
{
    let tab = builtin_type_table();
    matching_pairs(&tab, prefix, CompletionItemKind::STRUCT, "built-in type")
}

/// Snippets whose name starts with `prefix`, compared lower-cased.
pub fn complete_snippets(prefix: &str) -> (r: Vec<CompletionItem>)
    ensures
        items_view(r@) == snippet_items(snippet_entries(), lowercase(prefix@)),
        is_ascii_text(prefix@) ==> items_view(r@) == snippet_items(
            snippet_entries(),
            ascii_lower(prefix@),
        ),
{
    let tab = snippet_table();
    let pl = to_lower(prefix);
    let pv = chars_of(pl.as_str());
    let ghost t = triples_view(tab@);
    let mut items: Vec<CompletionItem> = Vec::new();
    let mut i: usize = 0;
    while i < tab.len()
        invariant
            i <= tab@.len(),
            t == triples_view(tab@),
            t == snippet_entries(),
            pv@ == lowercase(prefix@),
            items_view(items@) == snippet_items(t.take(i as int), lowercase(prefix@)),
        decreases tab@.len() - i,
    {
        proof {
            lemma_take_step(t, i as int);
        }
        let (name, body, doc) = tab[i];
        let nv = chars_of(name);
        if starts_with_exec(&nv, &pv) {
            let item = CompletionItem {
                label: to_string(name),
                kind: Some(CompletionItemKind::SNIPPET),
                detail: Some(to_string(body)),
                documentation: Some(to_string(doc)),
            };
            items.push(item);
        }
        assert(items_view(items@) =~= snippet_items(t.take(i + 1), lowercase(prefix@)));
        i = i + 1;
    }
    assert(t.take(i as int) =~= t);
    items
}

/// The type of a well-known identifier such as `Player` or `agent`.
pub fn guess_type(identifier: &str) -> (r: Option<String>)
    ensures
        opt_view(r) == guessed_type(identifier@),
{
    let v = chars_of(identifier);
    if eq_str(&v, "Player") || eq_str(&v, "player") {
        Some(to_string("player"))
    } else if eq_str(&v, "Agent") || eq_str(&v, "agent") {
        Some(to_string("agent"))
    } else if eq_str(&v, "Entity") || eq_str(&v, "entity") {
        Some(to_string("entity"))
    } else if eq_str(&v, "Transform") || eq_str(&v, "transform") {
        Some(to_string("transform"))
    } else if eq_str(&v, "Vector3") || eq_str(&v, "vector3") {
        Some(to_string("vector3"))
    } else if eq_str(&v, "GameMode") || eq_str(&v, "game_mode") {
        Some(to_string("game_mode"))
    } else if eq_str(&v, "Character") || eq_str(&v, "character") {
        Some(to_string("character"))
    } else if eq_str(&v, "WorldContext") || eq_str(&v, "world_context") {
        Some(to_string("world_context"))
    } else {
        None
    }
}

/// The lower-cased canonical name of a type expression: its base type
/// (before any `<`) when a class has that name, else the whole expression.
pub fn resolve_type_canonical(db: &SymbolDb, type_expr: &str) -> (r: Option<String>)
    ensures
        opt_view(r) == Some(canonical_type(db@, type_expr@)),
{
    let v = chars_of(type_expr);
    let j = find_char_from(&v, 0, '<');
    let head = slice_chars(&v, 0, j);
    assert(head@ =~= v@.take(j as int));
    let base = trimmed(&head);
    let base_s = crate::text::string_of_all(&base);
    if db.find_class(base_s.as_str()).is_some() {
        Some(to_lower(base_s.as_str()))
    } else {
        let t = trimmed(&v);
        let ts = crate::text::string_of_all(&t);
        Some(to_lower(ts.as_str()))
    }
}

} // verus!
