//! Line-by-line digest parser: a state machine over module, class, enum
//! and interface blocks that records the symbols it meets.
use vstd::prelude::*;

use crate::pattern::{
    angle_group_spans, angle_groups, class_paren, class_paren_from, decl_name, decl_name_end,
    effect_tag, effect_tag_exec, effect_tags_read_their_words, is_effect, extension_from,
    extension_spans, field_name, field_name_span, field_type_from, field_type_spans, signature_from,
    signature_spans, using_from, using_path,
};
use crate::symbol::{
    lemma_symbols_view_push, symbols_view, DetailV, Location, LocationV, Param, ParamV, Symbol,
    SymbolDetail, SymbolKind, SymbolV, Tag, Visibility, copy_symbols, no_strings, no_symbols,
    tag_text, params_view,
};
use crate::text::{
    chars_of, char_len_utf8, contains, contains_exec, ends_with, ends_with_exec, find_char,
    find_char_from, lemma_utf8_len_take_step, split, split_on, starts_with, starts_with_exec,
    string_of, trim, trimmed, utf8_len, views, ws_end,
};

verus! {

#[derive(Debug, Clone, Copy, PartialEq, Eq, Structural)]
pub enum ParseState {
    TopLevel,
    InModule,
    InClass,
    InEnum,
    InInterface,
}

pub struct Parser {
    state: ParseState,
    current_module: Option<String>,
    current_class: Option<String>,
    symbols: Vec<Symbol>,
    module_using: Vec<(String, Vec<String>)>,
}

/// View of a `Parser`.
pub struct ParserV {
    pub state: ParseState,
    pub current_module: Option<Seq<char>>,
    pub current_class: Option<Seq<char>>,
    pub symbols: Seq<SymbolV>,
    pub module_using: Seq<(Seq<char>, Seq<Seq<char>>)>,
}

pub open spec fn usings_view(v: Seq<(String, Vec<String>)>) -> Seq<(Seq<char>, Seq<Seq<char>>)> {
    Seq::new(v.len(), |i: int| (v[i].0@, views(v[i].1@)))
}

impl View for Parser {
    type V = ParserV;

    closed spec fn view(&self) -> ParserV {
        ParserV {
            state: self.state,
            current_module: crate::symbol::opt_view(self.current_module),
            current_class: crate::symbol::opt_view(self.current_class),
            symbols: symbols_view(self.symbols@),
            module_using: usings_view(self.module_using@),
        }
    }
}

/// A public symbol recorded at `line` of `source`.
pub open spec fn recorded(
    name: Seq<char>,
    kind: SymbolKind,
    source: Seq<char>,
    line: u32,
    detail: DetailV,
) -> SymbolV {
    SymbolV {
        name,
        kind,
        visibility: Visibility::Public,
        tags: Seq::empty(),
        doc: None,
        location: LocationV { source, line },
        detail,
    }
}

pub open spec fn span_text(s: Seq<char>, sp: (int, int)) -> Seq<char> {
    s.subrange(sp.0, sp.1)
}

/// Indentation in bytes of a line, counted up to 8.
pub open spec fn indent_level(line: Seq<char>) -> int {
    let n = utf8_len(line.take(ws_end(line, 0)));
    if n < 8 {
        n as int
    } else {
        8
    }
}

/// Parents listed in `class(P1, P2)`, each trimmed.
pub open spec fn class_parents(line: Seq<char>) -> Seq<Seq<char>> {
    match class_paren_from(line, 0) {
        Some((a, b)) => split(line.subrange(a, b), ',').map_values(|x: Seq<char>| trim(x)),
        None => Seq::empty(),
    }
}

/// The `<...>` groups among `groups` that name no visibility.
pub open spec fn specifiers_in(line: Seq<char>, groups: Seq<(int, int)>) -> Seq<Seq<char>>
    decreases groups.len(),
{
    if groups.len() == 0 {
        Seq::empty()
    } else {
        let rest = specifiers_in(line, groups.drop_last());
        let t = span_text(line, groups.last());
        if !contains(t, "public"@) && !contains(t, "private"@) && !contains(t, "protected"@) {
            rest.push(t)
        } else {
            rest
        }
    }
}

/// The specifiers of a line follow its `<...>` groups: those of two runs of
/// groups come one after the other, and a single group is kept, as its
/// text, exactly when that text mentions none of `public`, `private` and
/// `protected`.
pub proof fn specifiers_follow_groups(
    line: Seq<char>,
    g1: Seq<(int, int)>,
    g2: Seq<(int, int)>,
    g: (int, int),
)
    ensures
        specifiers_in(line, g1 + g2) == specifiers_in(line, g1) + specifiers_in(line, g2),
        specifiers_in(line, seq![g]) == if contains(span_text(line, g), "public"@) || contains(
            span_text(line, g),
            "private"@,
        ) || contains(span_text(line, g), "protected"@) {
            Seq::<Seq<char>>::empty()
        } else {
            seq![span_text(line, g)]
        },
    decreases g2.len(),
{
    let one = seq![g];
    assert(one.drop_last() =~= Seq::<(int, int)>::empty());
    assert(one.last() == g);
    assert(specifiers_in(line, one.drop_last()) == Seq::<Seq<char>>::empty());
    assert(Seq::<Seq<char>>::empty().push(span_text(line, g)) =~= seq![span_text(line, g)]);
    if g2.len() == 0 {
        assert(g1 + g2 =~= g1);
        assert(specifiers_in(line, g1) + specifiers_in(line, g2) =~= specifiers_in(line, g1));
    } else {
        specifiers_follow_groups(line, g1, g2.drop_last(), g);
        assert((g1 + g2).drop_last() =~= g1 + g2.drop_last());
        assert((g1 + g2).last() == g2.last());
        let a = specifiers_in(line, g1);
        let b = specifiers_in(line, g2.drop_last());
        let t = span_text(line, g2.last());
        assert((a + b).push(t) =~= a + b.push(t));
    }
}

/// The effect tags named by the `<...>` groups among `groups`.
pub open spec fn effects_in(line: Seq<char>, groups: Seq<(int, int)>) -> Seq<Tag>
    decreases groups.len(),
{
    if groups.len() == 0 {
        Seq::empty()
    } else {
        let rest = effects_in(line, groups.drop_last());
        match effect_tag(span_text(line, groups.last())) {
            Some(t) => rest.push(t),
            None => rest,
        }
    }
}

/// The effects of a line follow its `<...>` groups: those of two runs of
/// groups come one after the other, a group whose text spells an effect
/// gives that effect, and a group that spells none gives nothing.
pub proof fn effects_follow_groups(
    line: Seq<char>,
    g1: Seq<(int, int)>,
    g2: Seq<(int, int)>,
    g: (int, int),
    t: Tag,
)
    ensures
        effects_in(line, g1 + g2) == effects_in(line, g1) + effects_in(line, g2),
        is_effect(t) && span_text(line, g) == tag_text(t) ==> effects_in(line, seq![g]) == seq![t],
        (forall|u: Tag| is_effect(u) ==> span_text(line, g) != tag_text(u)) ==> effects_in(
            line,
            seq![g],
        ) == Seq::<Tag>::empty(),
    decreases g2.len(),
{
    let one = seq![g];
    assert(one.drop_last() =~= Seq::<(int, int)>::empty());
    assert(one.last() == g);
    assert(effects_in(line, one.drop_last()) == Seq::<Tag>::empty());
    effect_tags_read_their_words(span_text(line, g), t);
    match effect_tag(span_text(line, g)) {
        Some(u) => {
            effect_tags_read_their_words(span_text(line, g), u);
            assert(effects_in(line, one) =~= seq![u]);
        },
        None => {
            assert(effects_in(line, one) =~= Seq::<Tag>::empty());
        },
    }
    if g2.len() == 0 {
        assert(g1 + g2 =~= g1);
        assert(effects_in(line, g1) + effects_in(line, g2) =~= effects_in(line, g1));
    } else {
        effects_follow_groups(line, g1, g2.drop_last(), g, t);
        assert((g1 + g2).drop_last() =~= g1 + g2.drop_last());
        assert((g1 + g2).last() == g2.last());
        let a = effects_in(line, g1);
        let b = effects_in(line, g2.drop_last());
        match effect_tag(span_text(line, g2.last())) {
            Some(u) => {
                assert((a + b).push(u) =~= a + b.push(u));
            },
            None => {},
        }
    }
}

/// The parameter a `name: type` piece of a parameter list stands for.
pub open spec fn param_of_piece(piece: Seq<char>) -> Option<ParamV> {
    let t = trim(piece);
    let c = find_char(t, 0, ':');
    if t.len() > 0 && c < t.len() {
        Some(
            ParamV {
                name: trim(t.subrange(0, c)),
                param_type: trim(t.subrange(c + 1, t.len() as int)),
                default_value: None,
                is_local: false,
            },
        )
    } else {
        None
    }
}

/// Parameters of the comma-separated pieces `pieces`.
pub open spec fn params_of_pieces(pieces: Seq<Seq<char>>) -> Seq<ParamV>
    decreases pieces.len(),
{
    if pieces.len() == 0 {
        Seq::empty()
    } else {
        let rest = params_of_pieces(pieces.drop_last());
        match param_of_piece(pieces.last()) {
            Some(p) => rest.push(p),
            None => rest,
        }
    }
}

/// Parameters of a parameter list text.
pub open spec fn params_of(text: Seq<char>) -> Seq<ParamV> {
    params_of_pieces(split(text, ','))
}

/// Parameters and return type of the first signature on a line.
pub open spec fn signature_of(line: Seq<char>) -> (Seq<ParamV>, Seq<char>) {
    match signature_from(line, 0) {
        Some((a, b, x, y)) => (params_of(line.subrange(a, b)), line.subrange(x, y)),
        None => (Seq::empty(), Seq::empty()),
    }
}

pub open spec fn method_detail(line: Seq<char>, receiver: Option<Seq<char>>) -> DetailV {
    DetailV::Method {
        receiver,
        params: signature_of(line).0,
        effects: effects_in(line, angle_groups(line)),
        return_type: signature_of(line).1,
        is_var: false,
    }
}

pub open spec fn push_symbol(p: ParserV, s: SymbolV) -> ParserV {
    ParserV { symbols: p.symbols.push(s), ..p }
}

/// Index of the entry for module `m`, or -1.
pub open spec fn using_index(list: Seq<(Seq<char>, Seq<Seq<char>>)>, m: Seq<char>, i: int) -> int
    decreases list.len() - i,
{
    if i < 0 || i >= list.len() {
        -1
    } else if list[i].0 == m {
        i
    } else {
        using_index(list, m, i + 1)
    }
}

/// Records `path` as used by module `m`.
pub open spec fn add_using(
    list: Seq<(Seq<char>, Seq<Seq<char>>)>,
    m: Seq<char>,
    path: Seq<char>,
) -> Seq<(Seq<char>, Seq<Seq<char>>)> {
    let i = using_index(list, m, 0);
    if i >= 0 {
        list.update(i, (m, list[i].1.push(path)))
    } else {
        list.push((m, seq![path]))
    }
}

/// An extension method line: `(Receiver:type).Name(params)<effects>: type`.
pub open spec fn extension_step(p: ParserV, line: Seq<char>, num: u32, src: Seq<char>) -> ParserV {
    if starts_with(line, "("@) && contains(line, ")."@) {
        match extension_from(line, 0) {
            Some((a, b, x, y)) => push_symbol(
                p,
                recorded(
                    line.subrange(x, y),
                    SymbolKind::Method,
                    src,
                    num,
                    method_detail(line, Some(line.subrange(a, b))),
                ),
            ),
            None => p,
        }
    } else {
        p
    }
}

/// Outside any block: a `Name<...> := module:` line opens a module.
pub open spec fn toplevel_step(
    p: ParserV,
    line: Seq<char>,
    level: int,
    num: u32,
    src: Seq<char>,
) -> ParserV {
    if level > 0 {
        p
    } else {
        match decl_name_end(line, ":= module:"@) {
            Some(n) => {
                let name = line.subrange(0, n);
                push_symbol(
                    ParserV { state: ParseState::InModule, current_module: Some(name), ..p },
                    recorded(
                        name,
                        SymbolKind::Module,
                        src,
                        num,
                        DetailV::Module { path: name, usings: Seq::empty() },
                    ),
                )
            },
            None => p,
        }
    }
}

/// Inside a module block.
pub open spec fn module_step(
    p: ParserV,
    line: Seq<char>,
    level: int,
    num: u32,
    src: Seq<char>,
) -> ParserV {
    if level < 4 {
        toplevel_step(
            ParserV { state: ParseState::TopLevel, current_module: None, ..p },
            line,
            level,
            num,
            src,
        )
    } else if starts_with(line, "using {"@) {
        match (p.current_module, using_from(line, 0)) {
            (Some(m), Some(sp)) => ParserV {
                module_using: add_using(p.module_using, m, span_text(line, sp)),
                ..p
            },
            _ => p,
        }
    } else {
        match decl_name_end(line, ":= class"@) {
            Some(n) => {
                let name = line.subrange(0, n);
                push_symbol(
                    ParserV { state: ParseState::InClass, current_class: Some(name), ..p },
                    recorded(
                        name,
                        SymbolKind::Class,
                        src,
                        num,
                        DetailV::Class {
                            specifiers: specifiers_in(line, angle_groups(line)),
                            parents: class_parents(line),
                            type_params: Seq::empty(),
                            members: Seq::empty(),
                        },
                    ),
                )
            },
            None => if contains(line, ":= enum:"@) {
                match decl_name_end(line, ":= enum:"@) {
                    Some(n) => push_symbol(
                        ParserV { state: ParseState::InEnum, ..p },
                        recorded(
                            line.subrange(0, n),
                            SymbolKind::Enum,
                            src,
                            num,
                            DetailV::Enum { variants: Seq::empty() },
                        ),
                    ),
                    None => p,
                }
            } else if contains(line, ":= interface:"@) {
                match decl_name_end(line, ":= interface:"@) {
                    Some(n) => push_symbol(
                        ParserV { state: ParseState::InInterface, ..p },
                        recorded(
                            line.subrange(0, n),
                            SymbolKind::Interface,
                            src,
                            num,
                            DetailV::Interface { methods: Seq::empty() },
                        ),
                    ),
                    None => p,
                }
            } else {
                extension_step(p, line, num, src)
            },
        }
    }
}

/// Inside a class block.
pub open spec fn class_step(
    p: ParserV,
    line: Seq<char>,
    level: int,
    num: u32,
    src: Seq<char>,
) -> ParserV {
    if level < 8 {
        module_step(
            ParserV { state: ParseState::InModule, current_class: None, ..p },
            line,
            level,
            num,
            src,
        )
    } else {
        let q = extension_step(p, line, num, src);
        if contains(line, "(Receiver"@) || starts_with(line, "("@) {
            q
        } else if starts_with(line, "var<"@) || contains(line, "external {}"@) {
            match field_name_span(line) {
                Some(sp) => push_symbol(
                    q,
                    recorded(
                        span_text(line, sp),
                        SymbolKind::Field,
                        src,
                        num,
                        DetailV::Field {
                            var_kind: if starts_with(line, "var"@) {
                                Some("var"@)
                            } else {
                                None
                            },
                            type_expr: field_type_from(line, 0).0,
                            default_value: field_type_from(line, 0).1,
                        },
                    ),
                ),
                None => q,
            }
        } else if contains(line, "):"@) || ends_with(line, ")"@) {
            let n = crate::text::ident_end(line, 0);
            if crate::text::ident_at(line, 0) {
                push_symbol(
                    q,
                    recorded(
                        line.subrange(0, n),
                        SymbolKind::Method,
                        src,
                        num,
                        method_detail(line, None),
                    ),
                )
            } else {
                q
            }
        } else {
            q
        }
    }
}

/// Inside an enum or interface block: only leaving it matters.
pub open spec fn inner_block_step(
    p: ParserV,
    line: Seq<char>,
    level: int,
    num: u32,
    src: Seq<char>,
) -> ParserV {
    if level < 4 {
        module_step(ParserV { state: ParseState::InModule, ..p }, line, level, num, src)
    } else {
        p
    }
}

/// The effect of one digest line on the parser.
pub open spec fn line_step(p: ParserV, line: Seq<char>, num: u32, src: Seq<char>) -> ParserV {
    let t = trim(line);
    let level = indent_level(line);
    if t.len() == 0 {
        p
    } else {
        match p.state {
            ParseState::TopLevel => toplevel_step(p, t, level, num, src),
            ParseState::InModule => module_step(p, t, level, num, src),
            ParseState::InClass => class_step(p, t, level, num, src),
            ParseState::InEnum => inner_block_step(p, t, level, num, src),
            ParseState::InInterface => inner_block_step(p, t, level, num, src),
        }
    }
}

/// Every symbol of `ss` was read from the digest named `src`.
pub open spec fn from_source(ss: Seq<SymbolV>, src: Seq<char>) -> bool {
    forall|i: int| 0 <= i < ss.len() ==> (#[trigger] ss[i]).location.source == src
}

proof fn lemma_push_from_source(p: ParserV, s: SymbolV, src: Seq<char>)
    requires
        from_source(p.symbols, src),
        s.location.source == src,
    ensures
        from_source(push_symbol(p, s).symbols, src),
{
    let q = push_symbol(p, s).symbols;
    assert forall|i: int| 0 <= i < q.len() implies (#[trigger] q[i]).location.source == src by {
        if i < p.symbols.len() {
            assert(q[i] == p.symbols[i]);
        }
    }
}

proof fn lemma_extension_step_source(p: ParserV, line: Seq<char>, num: u32, src: Seq<char>)
    requires
        from_source(p.symbols, src),
    ensures
        from_source(extension_step(p, line, num, src).symbols, src),
{
    if starts_with(line, "("@) && contains(line, ")."@) {
        match extension_from(line, 0) {
            Some((a, b, x, y)) => lemma_push_from_source(
                p,
                recorded(
                    line.subrange(x, y),
                    SymbolKind::Method,
                    src,
                    num,
                    method_detail(line, Some(line.subrange(a, b))),
                ),
                src,
            ),
            None => {},
        }
    }
}

proof fn lemma_toplevel_step_source(
    p: ParserV,
    line: Seq<char>,
    level: int,
    num: u32,
    src: Seq<char>,
)
    requires
        from_source(p.symbols, src),
    ensures
        from_source(toplevel_step(p, line, level, num, src).symbols, src),
{
    if level <= 0 {
        match decl_name_end(line, ":= module:"@) {
            Some(n) => {
                let name = line.subrange(0, n);
                lemma_push_from_source(
                    ParserV { state: ParseState::InModule, current_module: Some(name), ..p },
                    recorded(
                        name,
                        SymbolKind::Module,
                        src,
                        num,
                        DetailV::Module { path: name, usings: Seq::empty() },
                    ),
                    src,
                );
            },
            None => {},
        }
    }
}

proof fn lemma_module_step_source(
    p: ParserV,
    line: Seq<char>,
    level: int,
    num: u32,
    src: Seq<char>,
)
    requires
        from_source(p.symbols, src),
    ensures
        from_source(module_step(p, line, level, num, src).symbols, src),
{
    if level < 4 {
        lemma_toplevel_step_source(
            ParserV { state: ParseState::TopLevel, current_module: None, ..p },
            line,
            level,
            num,
            src,
        );
    } else if !starts_with(line, "using {"@) {
        match decl_name_end(line, ":= class"@) {
            Some(n) => {
                let name = line.subrange(0, n);
                lemma_push_from_source(
                    ParserV { state: ParseState::InClass, current_class: Some(name), ..p },
                    recorded(
                        name,
                        SymbolKind::Class,
                        src,
                        num,
                        DetailV::Class {
                            specifiers: specifiers_in(line, angle_groups(line)),
                            parents: class_parents(line),
                            type_params: Seq::empty(),
                            members: Seq::empty(),
                        },
                    ),
                    src,
                );
            },
            None => {
                if contains(line, ":= enum:"@) {
                    match decl_name_end(line, ":= enum:"@) {
                        Some(n) => lemma_push_from_source(
                            ParserV { state: ParseState::InEnum, ..p },
                            recorded(
                                line.subrange(0, n),
                                SymbolKind::Enum,
                                src,
                                num,
                                DetailV::Enum { variants: Seq::empty() },
                            ),
                            src,
                        ),
                        None => {},
                    }
                } else if contains(line, ":= interface:"@) {
                    match decl_name_end(line, ":= interface:"@) {
                        Some(n) => lemma_push_from_source(
                            ParserV { state: ParseState::InInterface, ..p },
                            recorded(
                                line.subrange(0, n),
                                SymbolKind::Interface,
                                src,
                                num,
                                DetailV::Interface { methods: Seq::empty() },
                            ),
                            src,
                        ),
                        None => {},
                    }
                } else {
                    lemma_extension_step_source(p, line, num, src);
                }
            },
        }
    }
}

proof fn lemma_class_step_source(
    p: ParserV,
    line: Seq<char>,
    level: int,
    num: u32,
    src: Seq<char>,
)
    requires
        from_source(p.symbols, src),
    ensures
        from_source(class_step(p, line, level, num, src).symbols, src),
{
    if level < 8 {
        lemma_module_step_source(
            ParserV { state: ParseState::InModule, current_class: None, ..p },
            line,
            level,
            num,
            src,
        );
    } else {
        lemma_extension_step_source(p, line, num, src);
        let q = extension_step(p, line, num, src);
        if !(contains(line, "(Receiver"@) || starts_with(line, "("@)) {
            if starts_with(line, "var<"@) || contains(line, "external {}"@) {
                match field_name_span(line) {
                    Some(sp) => lemma_push_from_source(
                        q,
                        recorded(
                            span_text(line, sp),
                            SymbolKind::Field,
                            src,
                            num,
                            DetailV::Field {
                                var_kind: if starts_with(line, "var"@) {
                                    Some("var"@)
                                } else {
                                    None
                                },
                                type_expr: field_type_from(line, 0).0,
                                default_value: field_type_from(line, 0).1,
                            },
                        ),
                        src,
                    ),
                    None => {},
                }
            } else if contains(line, "):"@) || ends_with(line, ")"@) {
                let n = crate::text::ident_end(line, 0);
                if crate::text::ident_at(line, 0) {
                    lemma_push_from_source(
                        q,
                        recorded(
                            line.subrange(0, n),
                            SymbolKind::Method,
                            src,
                            num,
                            method_detail(line, None),
                        ),
                        src,
                    );
                }
            }
        }
    }
}

/// Every symbol the parser records carries the name of the digest being
/// read: a line of a digest named `src` adds only symbols from `src`.
pub proof fn line_step_keeps_source(p: ParserV, line: Seq<char>, num: u32, src: Seq<char>)
    requires
        from_source(p.symbols, src),
    ensures
        from_source(line_step(p, line, num, src).symbols, src),
{
    let t = trim(line);
    let level = indent_level(line);
    if t.len() > 0 {
        match p.state {
            ParseState::TopLevel => lemma_toplevel_step_source(p, t, level, num, src),
            ParseState::InModule => lemma_module_step_source(p, t, level, num, src),
            ParseState::InClass => lemma_class_step_source(p, t, level, num, src),
            _ => if level < 4 {
                lemma_module_step_source(
                    ParserV { state: ParseState::InModule, ..p },
                    t,
                    level,
                    num,
                    src,
                );
            },
        }
    }
}

/// A symbol as the parser records it at line `num` of the digest `src`:
/// public, without tags or documentation.
pub open spec fn recorded_at(s: SymbolV, src: Seq<char>, num: u32) -> bool {
    &&& s.visibility == Visibility::Public
    &&& s.tags.len() == 0
    &&& s.doc is None
    &&& s.location == (LocationV { source: src, line: num })
}

/// `new` is `old`, or `old` with one symbol recorded at (`src`, `num`) after it.
pub open spec fn keeps_and_adds_one(
    old: Seq<SymbolV>,
    new: Seq<SymbolV>,
    src: Seq<char>,
    num: u32,
) -> bool {
    new == old || (new.len() == old.len() + 1 && new.drop_last() == old && recorded_at(
        new.last(),
        src,
        num,
    ))
}

proof fn lemma_push_one(p: ParserV, s: SymbolV, src: Seq<char>, num: u32)
    requires
        recorded_at(s, src, num),
    ensures
        keeps_and_adds_one(p.symbols, push_symbol(p, s).symbols, src, num),
{
    assert(p.symbols.push(s).drop_last() =~= p.symbols);
}

proof fn lemma_extension_step_one(p: ParserV, line: Seq<char>, num: u32, src: Seq<char>)
    ensures
        keeps_and_adds_one(p.symbols, extension_step(p, line, num, src).symbols, src, num),
        !starts_with(line, "("@) ==> extension_step(p, line, num, src) == p,
{
    if starts_with(line, "("@) && contains(line, ")."@) {
        match extension_from(line, 0) {
            Some((a, b, x, y)) => lemma_push_one(
                p,
                recorded(
                    line.subrange(x, y),
                    SymbolKind::Method,
                    src,
                    num,
                    method_detail(line, Some(line.subrange(a, b))),
                ),
                src,
                num,
            ),
            None => {},
        }
    }
}

proof fn lemma_toplevel_step_one(
    p: ParserV,
    line: Seq<char>,
    level: int,
    num: u32,
    src: Seq<char>,
)
    ensures
        keeps_and_adds_one(p.symbols, toplevel_step(p, line, level, num, src).symbols, src, num),
{
    if level <= 0 {
        match decl_name_end(line, ":= module:"@) {
            Some(n) => {
                let name = line.subrange(0, n);
                lemma_push_one(
                    ParserV { state: ParseState::InModule, current_module: Some(name), ..p },
                    recorded(
                        name,
                        SymbolKind::Module,
                        src,
                        num,
                        DetailV::Module { path: name, usings: Seq::empty() },
                    ),
                    src,
                    num,
                );
            },
            None => {},
        }
    }
}

proof fn lemma_module_step_one(
    p: ParserV,
    line: Seq<char>,
    level: int,
    num: u32,
    src: Seq<char>,
)
    ensures
        keeps_and_adds_one(p.symbols, module_step(p, line, level, num, src).symbols, src, num),
{
    if level < 4 {
        lemma_toplevel_step_one(
            ParserV { state: ParseState::TopLevel, current_module: None, ..p },
            line,
            level,
            num,
            src,
        );
    } else if !starts_with(line, "using {"@) {
        match decl_name_end(line, ":= class"@) {
            Some(n) => {
                let name = line.subrange(0, n);
                lemma_push_one(
                    ParserV { state: ParseState::InClass, current_class: Some(name), ..p },
                    recorded(
                        name,
                        SymbolKind::Class,
                        src,
                        num,
                        DetailV::Class {
                            specifiers: specifiers_in(line, angle_groups(line)),
                            parents: class_parents(line),
                            type_params: Seq::empty(),
                            members: Seq::empty(),
                        },
                    ),
                    src,
                    num,
                );
            },
            None => {
                if contains(line, ":= enum:"@) {
                    match decl_name_end(line, ":= enum:"@) {
                        Some(n) => lemma_push_one(
                            ParserV { state: ParseState::InEnum, ..p },
                            recorded(
                                line.subrange(0, n),
                                SymbolKind::Enum,
                                src,
                                num,
                                DetailV::Enum { variants: Seq::empty() },
                            ),
                            src,
                            num,
                        ),
                        None => {},
                    }
                } else if contains(line, ":= interface:"@) {
                    match decl_name_end(line, ":= interface:"@) {
                        Some(n) => lemma_push_one(
                            ParserV { state: ParseState::InInterface, ..p },
                            recorded(
                                line.subrange(0, n),
                                SymbolKind::Interface,
                                src,
                                num,
                                DetailV::Interface { methods: Seq::empty() },
                            ),
                            src,
                            num,
                        ),
                        None => {},
                    }
                } else {
                    lemma_extension_step_one(p, line, num, src);
                }
            },
        }
    }
}

proof fn lemma_class_step_one(p: ParserV, line: Seq<char>, level: int, num: u32, src: Seq<char>)
    ensures
        keeps_and_adds_one(p.symbols, class_step(p, line, level, num, src).symbols, src, num),
{
    if level < 8 {
        lemma_module_step_one(
            ParserV { state: ParseState::InModule, current_class: None, ..p },
            line,
            level,
            num,
            src,
        );
    } else {
        lemma_extension_step_one(p, line, num, src);
        if !(contains(line, "(Receiver"@) || starts_with(line, "("@)) {
            if starts_with(line, "var<"@) || contains(line, "external {}"@) {
                match field_name_span(line) {
                    Some(sp) => lemma_push_one(
                        p,
                        recorded(
                            span_text(line, sp),
                            SymbolKind::Field,
                            src,
                            num,
                            DetailV::Field {
                                var_kind: if starts_with(line, "var"@) {
                                    Some("var"@)
                                } else {
                                    None
                                },
                                type_expr: field_type_from(line, 0).0,
                                default_value: field_type_from(line, 0).1,
                            },
                        ),
                        src,
                        num,
                    ),
                    None => {},
                }
            } else if contains(line, "):"@) || ends_with(line, ")"@) {
                let n = crate::text::ident_end(line, 0);
                if crate::text::ident_at(line, 0) {
                    lemma_push_one(
                        p,
                        recorded(
                            line.subrange(0, n),
                            SymbolKind::Method,
                            src,
                            num,
                            method_detail(line, None),
                        ),
                        src,
                        num,
                    );
                }
            }
        }
    }
}

/// Reading a line keeps every symbol recorded so far and adds at most one,
/// public, without tags or documentation, at the line's number in the
/// digest being read; a blank line changes nothing.
pub proof fn line_step_adds_at_most_one(p: ParserV, line: Seq<char>, num: u32, src: Seq<char>)
    ensures
        keeps_and_adds_one(p.symbols, line_step(p, line, num, src).symbols, src, num),
        trim(line).len() == 0 ==> line_step(p, line, num, src) == p,
{
    let t = trim(line);
    let level = indent_level(line);
    if t.len() > 0 {
        match p.state {
            ParseState::TopLevel => lemma_toplevel_step_one(p, t, level, num, src),
            ParseState::InModule => lemma_module_step_one(p, t, level, num, src),
            ParseState::InClass => lemma_class_step_one(p, t, level, num, src),
            _ => if level < 4 {
                lemma_module_step_one(
                    ParserV { state: ParseState::InModule, ..p },
                    t,
                    level,
                    num,
                    src,
                );
            },
        }
    }
}

/// The parser names the module it is in whenever it is inside a block, and
/// the class it is in whenever it is inside a class block.
pub open spec fn state_consistent(p: ParserV) -> bool {
    &&& p.state != ParseState::TopLevel ==> p.current_module is Some
    &&& p.state == ParseState::InClass ==> p.current_class is Some
}

proof fn lemma_toplevel_step_state(p: ParserV, line: Seq<char>, level: int, num: u32, src: Seq<char>)
    requires
        p.state == ParseState::TopLevel,
    ensures
        state_consistent(toplevel_step(p, line, level, num, src)),
{
}

proof fn lemma_module_step_state(p: ParserV, line: Seq<char>, level: int, num: u32, src: Seq<char>)
    requires
        p.state == ParseState::InModule,
        p.current_module is Some,
    ensures
        state_consistent(module_step(p, line, level, num, src)),
{
    if level < 4 {
        lemma_toplevel_step_state(
            ParserV { state: ParseState::TopLevel, current_module: None, ..p },
            line,
            level,
            num,
            src,
        );
    }
}

/// Reading a line keeps the parser's state consistent.
pub proof fn line_step_keeps_state_consistent(p: ParserV, line: Seq<char>, num: u32, src: Seq<char>)
    requires
        state_consistent(p),
    ensures
        state_consistent(line_step(p, line, num, src)),
{
    let t = trim(line);
    let level = indent_level(line);
    if t.len() > 0 {
        match p.state {
            ParseState::TopLevel => lemma_toplevel_step_state(p, t, level, num, src),
            ParseState::InModule => lemma_module_step_state(p, t, level, num, src),
            ParseState::InClass => {
                if level < 8 {
                    lemma_module_step_state(
                        ParserV { state: ParseState::InModule, current_class: None, ..p },
                        t,
                        level,
                        num,
                        src,
                    );
                }
            },
            _ => if level < 4 {
                lemma_module_step_state(
                    ParserV { state: ParseState::InModule, ..p },
                    t,
                    level,
                    num,
                    src,
                );
            },
        }
    }
}

/// Indentation of `line` in bytes, counted up to 8.
fn indent_of(line: &Vec<char>) -> (r: usize)
    ensures
        r == indent_level(line@),
{
    let w = crate::text::skip_ws(line, 0);
    let mut acc: usize = 0;
    let mut k: usize = 0;
    while k < w
        invariant
            k <= w <= line.len(),
            w == ws_end(line@, 0),
            acc <= 8,
            acc < 8 ==> acc == utf8_len(line@.take(k as int)),
            acc == 8 ==> utf8_len(line@.take(k as int)) >= 8,
        decreases w - k,
    {
        let c = char_len_utf8(line[k]);
        proof {
            lemma_utf8_len_take_step(line@, k as int);
        }
        if acc < 8 {
            if acc + c < 8 {
                acc = acc + c;
            } else {
                acc = 8;
            }
        }
        k = k + 1;
    }
    acc
}

/// Characters of `line[a..b]` as a `String`.
fn text_of(line: &Vec<char>, a: usize, b: usize) -> (r: String)
    requires
        a <= b <= line.len(),
    ensures
        r@ == line@.subrange(a as int, b as int),
{
    string_of(line, a, b)
}

/// Parameters of the piece list.
fn params_from_text(text: &Vec<char>) -> (r: Vec<Param>)
    ensures
        params_view(r@) == params_of(text@),
{
    let pieces = split_on(text, ',');
    let mut r: Vec<Param> = Vec::new();
    let mut i: usize = 0;
    while i < pieces.len()
        invariant
            i <= pieces.len(),
            pieces@.len() == split(text@, ',').len(),
            forall|k: int| 0 <= k < pieces@.len() ==> #[trigger] pieces@[k]@ == split(text@, ',')[k],
            params_view(r@) == params_of_pieces(split(text@, ',').take(i as int)),
        decreases pieces.len() - i,
    {
        let t = trimmed(&pieces[i]);
        let ghost before = split(text@, ',').take(i as int);
        proof {
            assert(split(text@, ',').take(i + 1).drop_last() =~= before);
        }
        if t.len() > 0 {
            let c = find_char_from(&t, 0, ':');
            if c < t.len() {
                let name_chars = crate::text::slice_chars(&t, 0, c);
                let ty_chars = crate::text::slice_chars(&t, c + 1, t.len());
                let nt = trimmed(&name_chars);
                let tt = trimmed(&ty_chars);
                let p = Param {
                    name: string_of(&nt, 0, nt.len()),
                    param_type: string_of(&tt, 0, tt.len()),
                    default_value: None,
                    is_local: false,
                };
                proof {
                    assert(nt@.subrange(0, nt@.len() as int) =~= nt@);
                    assert(tt@.subrange(0, tt@.len() as int) =~= tt@);
                    assert(params_view(r@.push(p)) =~= params_view(r@).push(p@));
                }
                r.push(p);
            }
        }
        i = i + 1;
    }
    proof {
        assert(split(text@, ',').take(pieces.len() as int) =~= split(text@, ','));
    }
    r
}

/// Spec-level length of `specifiers_in`/`effects_in` unfolding on prefixes.
proof fn lemma_groups_take(g: Seq<(int, int)>, i: int)
    requires
        0 <= i < g.len(),
    ensures
        g.take(i + 1).drop_last() == g.take(i),
        g.take(i + 1).last() == g[i],
{
    assert(g.take(i + 1).drop_last() =~= g.take(i));
}

/// Specifiers of a class declaration line.
fn specifiers_of(line: &Vec<char>) -> (r: Vec<String>)
    ensures
        views(r@) == specifiers_in(line@, angle_groups(line@)),
{
    let spans = angle_group_spans(line);
    let ghost g = angle_groups(line@);
    let pub_lit = chars_of("public");
    let priv_lit = chars_of("private");
    let prot_lit = chars_of("protected");
    let mut r: Vec<String> = Vec::new();
    let mut i: usize = 0;
    while i < spans.len()
        invariant
            i <= spans.len(),
            g == angle_groups(line@),
            spans@.len() == g.len(),
            forall|k: int|
                0 <= k < spans@.len() ==> (#[trigger] spans@[k]).0 == g[k].0 && spans@[k].1
                    == g[k].1 && spans@[k].0 <= spans@[k].1 <= line.len(),
            pub_lit@ == "public"@,
            priv_lit@ == "private"@,
            prot_lit@ == "protected"@,
            views(r@) == specifiers_in(line@, g.take(i as int)),
        decreases spans.len() - i,
    {
        let (a, b) = spans[i];
        let t = crate::text::slice_chars(line, a, b);
        proof {
            lemma_groups_take(g, i as int);
        }
        if !contains_exec(&t, &pub_lit) && !contains_exec(&t, &priv_lit) && !contains_exec(
            &t,
            &prot_lit,
        ) {
            let s = string_of(&t, 0, t.len());
            proof {
                assert(t@.subrange(0, t@.len() as int) =~= t@);
                assert(views(r@.push(s)) =~= views(r@).push(s@));
            }
            r.push(s);
        }
        i = i + 1;
    }
    proof {
        assert(g.take(spans.len() as int) =~= g);
    }
    r
}

/// Effect tags on a line.
fn effects_of(line: &Vec<char>) -> (r: Vec<Tag>)
    ensures
        r@ == effects_in(line@, angle_groups(line@)),
{
    let spans = angle_group_spans(line);
    let ghost g = angle_groups(line@);
    let mut r: Vec<Tag> = Vec::new();
    let mut i: usize = 0;
    while i < spans.len()
        invariant
            i <= spans.len(),
            g == angle_groups(line@),
            spans@.len() == g.len(),
            forall|k: int|
                0 <= k < spans@.len() ==> (#[trigger] spans@[k]).0 == g[k].0 && spans@[k].1
                    == g[k].1 && spans@[k].0 <= spans@[k].1 <= line.len(),
            r@ == effects_in(line@, g.take(i as int)),
        decreases spans.len() - i,
    {
        let (a, b) = spans[i];
        let t = crate::text::slice_chars(line, a, b);
        proof {
            lemma_groups_take(g, i as int);
        }
        match effect_tag_exec(&t) {
            Some(tag) => {
                r.push(tag);
            },
            None => {},
        }
        i = i + 1;
    }
    proof {
        assert(g.take(spans.len() as int) =~= g);
    }
    r
}

/// Parents of a class declaration line.
fn parents_of(line: &Vec<char>) -> (r: Vec<String>)
    ensures
        views(r@) == class_parents(line@),
{
    match class_paren(line) {
        Some((a, b)) => {
            let inner = crate::text::slice_chars(line, a, b);
            let pieces = split_on(&inner, ',');
            let mut r: Vec<String> = Vec::new();
            let mut i: usize = 0;
            while i < pieces.len()
                invariant
                    i <= pieces.len(),
                    pieces@.len() == split(inner@, ',').len(),
                    forall|k: int|
                        0 <= k < pieces@.len() ==> #[trigger] pieces@[k]@ == split(inner@, ',')[k],
                    r@.len() == i,
                    forall|k: int| 0 <= k < i ==> #[trigger] r@[k]@ == trim(split(inner@, ',')[k]),
                decreases pieces.len() - i,
            {
                let t = trimmed(&pieces[i]);
                let s = string_of(&t, 0, t.len());
                proof {
                    assert(t@.subrange(0, t@.len() as int) =~= t@);
                }
                r.push(s);
                i = i + 1;
            }
            proof {
                assert(views(r@) =~= split(inner@, ',').map_values(|x: Seq<char>| trim(x)));
            }
            r
        },
        None => {
            let r: Vec<String> = Vec::new();
            assert(views(r@) =~= Seq::<Seq<char>>::empty());
            r
        },
    }
}

/// Parameters and return type of the first signature on a line.
fn signature_parts(line: &Vec<char>) -> (r: (Vec<Param>, String))
    ensures
        params_view(r.0@) == signature_of(line@).0,
        r.1@ == signature_of(line@).1,
{
    match signature_spans(line) {
        Some((a, b, x, y)) => {
            let inner = crate::text::slice_chars(line, a, b);
            (params_from_text(&inner), text_of(line, x, y))
        },
        None => {
            let r: Vec<Param> = Vec::new();
            assert(params_view(r@) =~= Seq::<ParamV>::empty());
            (r, String::new())
        },
    }
}

fn method_symbol(line: &Vec<char>, name: String, receiver: Option<String>, num: u32, src: &str) -> (r:
    Symbol)
    ensures
        r@ == recorded(
            name@,
            SymbolKind::Method,
            src@,
            num,
            method_detail(line@, crate::symbol::opt_view(receiver)),
        ),
{
    let (params, ret) = signature_parts(line);
    let effects = effects_of(line);
    let detail = SymbolDetail::Method {
        receiver,
        params,
        effects,
        return_type: ret,
        is_var: false,
    };
    Symbol::new(
        name,
        SymbolKind::Method,
        Visibility::Public,
        Location { source: crate::text::to_string(src), line: num },
        detail,
    )
}

impl Parser {
    pub fn symbols(&self) -> (r: &[Symbol])
        ensures
            symbols_view(r@) == self@.symbols,
    {
        self.symbols.as_slice()
    }

    pub fn new() -> (r: Self)
        ensures
            r@ == (ParserV {
                state: ParseState::TopLevel,
                current_module: None,
                current_class: None,
                symbols: Seq::empty(),
                module_using: Seq::empty(),
            }),
    {
        let r = Parser {
            state: ParseState::TopLevel,
            current_module: None,
            current_class: None,
            symbols: Vec::new(),
            module_using: Vec::new(),
        };
        assert(symbols_view(r.symbols@) =~= Seq::<SymbolV>::empty());
        assert(usings_view(r.module_using@) =~= Seq::<(Seq<char>, Seq<Seq<char>>)>::empty());
        r
    }

    /// A copy of the symbols recorded so far.
    pub(crate) fn copy_symbols(&self) -> (r: Vec<Symbol>)
        ensures
            symbols_view(r@) == self@.symbols,
    {
        copy_symbols(&self.symbols)
    }

    pub fn into_symbols(self) -> (r: Vec<Symbol>)
        ensures
            symbols_view(r@) == self@.symbols,
    {
        self.symbols
    }

    fn push(&mut self, s: Symbol)
        ensures
            final(self)@ == push_symbol(old(self)@, s@),
    {
        proof {
            lemma_symbols_view_push(self.symbols@, s);
        }
        self.symbols.push(s);
    }

    pub fn parse_line(&mut self, line: &str, line_num: u32, source: &str)
        ensures
            final(self)@ == line_step(old(self)@, line@, line_num, source@),
    {
        let chars = chars_of(line);
        let t = trimmed(&chars);
        if t.len() == 0 {
            return;
        }
        let indent = indent_of(&chars);
        match self.state {
            ParseState::TopLevel => self.parse_toplevel(&t, indent, line_num, source),
            ParseState::InModule => self.parse_in_module(&t, indent, line_num, source),
            ParseState::InClass => self.parse_in_class(&t, indent, line_num, source),
            ParseState::InEnum => self.parse_in_enum(&t, indent, line_num, source),
            ParseState::InInterface => self.parse_in_interface(&t, indent, line_num, source),
        }
    }

    fn parse_toplevel(&mut self, line: &Vec<char>, indent: usize, line_num: u32, source: &str)
        ensures
            final(self)@ == toplevel_step(old(self)@, line@, indent as int, line_num, source@),
    {
        if indent > 0 {
            return;
        }
        let tail = chars_of(":= module:");
        match decl_name(line, &tail) {
            Some(n) => {
                let name = text_of(line, 0, n);
                self.current_module = Some(name.clone());
                self.state = ParseState::InModule;
                let detail = SymbolDetail::Module { path: name.clone(), usings: no_strings() };
                let sym = Symbol::new(
                    name,
                    SymbolKind::Module,
                    Visibility::Public,
                    Location { source: crate::text::to_string(source), line: line_num },
                    detail,
                );
                self.push(sym);
            },
            None => {},
        }
    }

    fn add_using(&mut self, module: &String, path: String)
        ensures
            final(self)@ == (ParserV {
                module_using: add_using(old(self)@.module_using, module@, path@),
                ..old(self)@
            }),
    {
        let ghost list = self@.module_using;
        let mut i: usize = 0;
        while i < self.module_using.len()
            invariant
                i <= self.module_using.len(),
                self@ == old(self)@,
                list == self@.module_using,
                using_index(list, module@, 0) == using_index(list, module@, i as int),
            decreases self.module_using.len() - i,
        {
            if self.module_using[i].0 == *module {
                proof {
                    assert(list[i as int].0 == module@);
                }
                let ghost old_mu = self.module_using@;
                let ghost pv = path@;
                self.module_using[i].1.push(path);
                proof {
                    assert(self.module_using@[i as int].1@ == old_mu[i as int].1@.push(path));
                    assert(self.module_using@[i as int].0 == old_mu[i as int].0);
                    assert(views(self.module_using@[i as int].1@) =~= views(
                        old_mu[i as int].1@,
                    ).push(pv));
                    assert forall|k: int|
                        0 <= k < self.module_using@.len() && k != i implies #[trigger]
                    self.module_using@[k] == old_mu[k] by {}
                    assert(usings_view(self.module_using@) =~= list.update(
                        i as int,
                        (module@, list[i as int].1.push(path@)),
                    ));
                }
                return;
            }
            i = i + 1;
        }
        let mut paths: Vec<String> = Vec::new();
        paths.push(path);
        proof {
            assert(views(paths@) =~= seq![path@]);
        }
        self.module_using.push((module.clone(), paths));
        proof {
            assert(usings_view(self.module_using@) =~= list.push((module@, seq![path@])));
        }
    }

    fn parse_in_module(&mut self, line: &Vec<char>, indent: usize, line_num: u32, source: &str)
        ensures
            final(self)@ == module_step(old(self)@, line@, indent as int, line_num, source@),
    {
        if indent < 4 {
            self.state = ParseState::TopLevel;
            self.current_module = None;
            self.parse_toplevel(line, indent, line_num, source);
            return;
        }
        let using_lit = chars_of("using {");
        if starts_with_exec(line, &using_lit) {
            match &self.current_module {
                Some(m) => {
                    match using_path(line) {
                        Some((a, b)) => {
                            let m2 = m.clone();
                            let path = text_of(line, a, b);
                            self.add_using(&m2, path);
                        },
                        None => {},
                    }
                },
                None => {},
            }
            return;
        }
        let class_tail = chars_of(":= class");
        match decl_name(line, &class_tail) {
            Some(n) => {
                let name = text_of(line, 0, n);
                self.current_class = Some(name.clone());
                self.state = ParseState::InClass;
                let parents = parents_of(line);
                let specifiers = specifiers_of(line);
                let detail = SymbolDetail::Class {
                    specifiers,
                    parents,
                    type_params: no_strings(),
                    members: no_symbols(),
                };
                let sym = Symbol::new(
                    name,
                    SymbolKind::Class,
                    Visibility::Public,
                    Location { source: crate::text::to_string(source), line: line_num },
                    detail,
                );
                self.push(sym);
                return;
            },
            None => {},
        }
        let enum_tail = chars_of(":= enum:");
        if contains_exec(line, &enum_tail) {
            match decl_name(line, &enum_tail) {
                Some(n) => {
                    self.state = ParseState::InEnum;
                    let detail = SymbolDetail::Enum { variants: no_strings() };
                    let sym = Symbol::new(
                        text_of(line, 0, n),
                        SymbolKind::Enum,
                        Visibility::Public,
                        Location { source: crate::text::to_string(source), line: line_num },
                        detail,
                    );
                    self.push(sym);
                },
                None => {},
            }
            return;
        }
        let interface_tail = chars_of(":= interface:");
        if contains_exec(line, &interface_tail) {
            match decl_name(line, &interface_tail) {
                Some(n) => {
                    self.state = ParseState::InInterface;
                    let detail = SymbolDetail::Interface { methods: no_symbols() };
                    let sym = Symbol::new(
                        text_of(line, 0, n),
                        SymbolKind::Interface,
                        Visibility::Public,
                        Location { source: crate::text::to_string(source), line: line_num },
                        detail,
                    );
                    self.push(sym);
                },
                None => {},
            }
            return;
        }
        self.parse_extension_method(line, line_num, source);
    }

    fn parse_in_class(&mut self, line: &Vec<char>, indent: usize, line_num: u32, source: &str)
        ensures
            final(self)@ == class_step(old(self)@, line@, indent as int, line_num, source@),
    {
        if indent < 8 {
            self.state = ParseState::InModule;
            self.current_class = None;
            self.parse_in_module(line, indent, line_num, source);
            return;
        }
        self.parse_extension_method(line, line_num, source);
        let recv_lit = chars_of("(Receiver");
        if contains_exec(line, &recv_lit) || (line.len() > 0 && line[0] == '(') {
            proof {
                reveal_strlit("(");
                if line@.len() > 0 && line@[0] == '(' {
                    assert(line@.subrange(0, 1) =~= "("@);
                }
            }
            return;
        }
        proof {
            reveal_strlit("(");
            if starts_with(line@, "("@) {
                assert(line@.subrange(0, 1)[0] == line@[0]);
            }
        }
        let var_tag_lit = chars_of("var<");
        let external_lit = chars_of("external {}");
        if starts_with_exec(line, &var_tag_lit) || contains_exec(line, &external_lit) {
            match field_name(line) {
                Some((a, b)) => {
                    let var_lit = chars_of("var");
                    let var_kind = if starts_with_exec(line, &var_lit) {
                        Some(crate::text::to_string("var"))
                    } else {
                        None
                    };
                    let (type_expr, default_value) = field_type_of(line);
                    let detail = SymbolDetail::Field { var_kind, type_expr, default_value };
                    let sym = Symbol::new(
                        text_of(line, a, b),
                        SymbolKind::Field,
                        Visibility::Public,
                        Location { source: crate::text::to_string(source), line: line_num },
                        detail,
                    );
                    self.push(sym);
                },
                None => {},
            }
            return;
        }
        let close_colon = chars_of("):");
        let close = chars_of(")");
        if contains_exec(line, &close_colon) || ends_with_exec(line, &close) {
            if line.len() > 0 && crate::text::ident_start(line[0]) {
                let n = crate::text::skip_ident(line, 0);
                let sym = method_symbol(line, text_of(line, 0, n), None, line_num, source);
                self.push(sym);
            }
        }
    }

    fn parse_in_enum(&mut self, line: &Vec<char>, indent: usize, line_num: u32, source: &str)
        ensures
            final(self)@ == inner_block_step(old(self)@, line@, indent as int, line_num, source@),
    {
        if indent < 4 {
            self.state = ParseState::InModule;
            self.parse_in_module(line, indent, line_num, source);
        }
    }

    fn parse_in_interface(&mut self, line: &Vec<char>, indent: usize, line_num: u32, source: &str)
        ensures
            final(self)@ == inner_block_step(old(self)@, line@, indent as int, line_num, source@),
    {
        if indent < 4 {
            self.state = ParseState::InModule;
            self.parse_in_module(line, indent, line_num, source);
        }
    }

    fn parse_extension_method(&mut self, line: &Vec<char>, line_num: u32, source: &str)
        ensures
            final(self)@ == extension_step(old(self)@, line@, line_num, source@),
    {
        let dot_lit = chars_of(").");
        proof {
            reveal_strlit("(");
            if line@.len() > 0 && line@[0] == '(' {
                assert(line@.subrange(0, 1) =~= "("@);
            }
            if starts_with(line@, "("@) {
                assert(line@.subrange(0, 1)[0] == line@[0]);
            }
        }
        if line.len() > 0 && line[0] == '(' && contains_exec(line, &dot_lit) {
            match extension_spans(line) {
                Some((a, b, x, y)) => {
                    let receiver = Some(text_of(line, a, b));
                    let sym = method_symbol(line, text_of(line, x, y), receiver, line_num, source);
                    self.push(sym);
                },
                None => {},
            }
        }
    }
}

/// Type and default texts of a field line.
fn field_type_of(line: &Vec<char>) -> (r: (String, Option<String>))
    ensures
        r.0@ == field_type_from(line@, 0).0,
        crate::symbol::opt_view(r.1) == field_type_from(line@, 0).1,
{
    match field_type_spans(line) {
        Some((p, e, n)) => {
            let ty = crate::text::slice_chars(line, p + 1, e);
            let tt = trimmed(&ty);
            let d = if e < n {
                let dv = crate::text::slice_chars(line, e + 1, n);
                let dt = trimmed(&dv);
                proof {
                    assert(dt@.subrange(0, dt@.len() as int) =~= dt@);
                }
                Some(string_of(&dt, 0, dt.len()))
            } else {
                None
            };
            proof {
                assert(tt@.subrange(0, tt@.len() as int) =~= tt@);
            }
            (string_of(&tt, 0, tt.len()), d)
        },
        None => (String::new(), None),
    }
}

impl Default for Parser {
    fn default() -> (r: Self)
        ensures
            r@ == (ParserV {
                state: ParseState::TopLevel,
                current_module: None,
                current_class: None,
                symbols: Seq::empty(),
                module_using: Seq::empty(),
            }),
    {
        Self::new()
    }
}

} // verus!
