//! Hover text and one-line signatures of symbols.
use vstd::prelude::*;

use crate::definition::{sym_refs, target_index, target_symbol};
use crate::symbol::{tag_text, DetailV, Param, ParamV, Symbol, SymbolDetail, SymbolV, Tag};
use crate::text::{append_join, append_str, contains, decimal, join, occurs_at, push_decimal, views};

verus! {

/// `name:type` of a parameter.
pub open spec fn param_label(p: ParamV) -> Seq<char> {
    p.name + ":"@ + p.param_type
}

pub open spec fn param_labels(ps: Seq<ParamV>) -> Seq<Seq<char>> {
    Seq::new(ps.len(), |i: int| param_label(ps[i]))
}

pub open spec fn tag_texts(ts: Seq<Tag>) -> Seq<Seq<char>> {
    Seq::new(ts.len(), |i: int| tag_text(ts[i]))
}

/// `<e1><e2>...` for a non-empty list of effects, empty otherwise.
pub open spec fn effects_text(ts: Seq<Tag>) -> Seq<char> {
    if ts.len() == 0 {
        Seq::empty()
    } else {
        "<"@ + join(tag_texts(ts), "><"@) + ">"@
    }
}

/// The effects text lists every effect as `<word>`, in order: nothing for no
/// effects, and one more effect adds its own `<word>` at the end.
pub proof fn effects_text_lists_each_effect(ts: Seq<Tag>, t: Tag)
    ensures
        effects_text(Seq::empty()) == Seq::<char>::empty(),
        effects_text(ts.push(t)) == effects_text(ts) + "<"@ + tag_text(t) + ">"@,
{
    let tt = tag_texts(ts.push(t));
    if ts.len() == 0 {
        assert(tt.len() == 1);
        assert(tt[0] == tag_text(t));
        assert(effects_text(ts) =~= Seq::<char>::empty());
        assert(effects_text(ts.push(t)) =~= effects_text(ts) + "<"@ + tag_text(t) + ">"@);
    } else {
        assert(tt.drop_last() =~= tag_texts(ts));
        assert(tt.last() == tag_text(t));
        assert(join(tt, "><"@) == join(tag_texts(ts), "><"@) + "><"@ + tag_text(t));
        reveal_strlit("><");
        reveal_strlit("<");
        reveal_strlit(">");
        assert(effects_text(ts.push(t)) =~= effects_text(ts) + "<"@ + tag_text(t) + ">"@);
    }
}

/// Labels `name:type` of the parameters, in order.
pub fn labels_of(params: &Vec<Param>) -> (r: Vec<String>)
    ensures
        views(r@) == param_labels(crate::symbol::params_view(params@)),
{
    let mut r: Vec<String> = Vec::new();
    let mut i: usize = 0;
    while i < params.len()
        invariant
            i <= params.len(),
            r@.len() == i,
            forall|k: int| 0 <= k < i ==> #[trigger] r@[k]@ == param_label(params@[k]@),
        decreases params.len() - i,
    {
        let mut l = params[i].name.clone();
        append_str(&mut l, ":");
        append_str(&mut l, params[i].param_type.as_str());
        r.push(l);
        i = i + 1;
    }
    assert(views(r@) =~= param_labels(crate::symbol::params_view(params@)));
    r
}

/// Texts of the tags, in order.
pub fn tag_strings(tags: &Vec<Tag>) -> (r: Vec<String>)
    ensures
        views(r@) == tag_texts(tags@),
{
    let mut r: Vec<String> = Vec::new();
    let mut i: usize = 0;
    while i < tags.len()
        invariant
            i <= tags.len(),
            r@.len() == i,
            forall|k: int| 0 <= k < i ==> #[trigger] r@[k]@ == tag_text(tags@[k]),
        decreases tags.len() - i,
    {
        r.push(crate::text::to_string(tags[i].text()));
        i = i + 1;
    }
    assert(views(r@) =~= tag_texts(tags@));
    r
}

/// Appends the effects text of `tags`.
pub fn append_effects(s: &mut String, tags: &Vec<Tag>)
    ensures
        final(s)@ == old(s)@ + effects_text(tags@),
{
    if tags.len() == 0 {
        assert(old(s)@ + effects_text(tags@) =~= old(s)@);
    } else {
        let texts = tag_strings(tags);
        append_str(s, "<");
        append_join(s, &texts, "><");
        append_str(s, ">");
        assert(s@ =~= old(s)@ + effects_text(tags@));
    }
}

/// The part of the hover text that depends on the kind of symbol.
pub open spec fn detail_markdown(name: Seq<char>, d: DetailV) -> Seq<char> {
    match d {
        DetailV::Method { params, effects, return_type, .. } => "```verse\n"@ + name + "("@
            + join(param_labels(params), ", "@) + ")"@ + effects_text(effects) + ":"@
            + return_type + "\n```\n"@,
        DetailV::Field { type_expr, .. } => "**Type:** `"@ + type_expr + "`\n"@,
        DetailV::Class { parents, specifiers, .. } => "**Kind:** Class\n"@ + (if specifiers.len()
            > 0 {
            "**Specifiers:** <"@ + join(specifiers, "><"@) + ">\n"@
        } else {
            Seq::empty()
        }) + (if parents.len() > 0 {
            "**Extends:** "@ + join(parents, ", "@) + "\n"@
        } else {
            Seq::empty()
        }),
        DetailV::Module { path, usings } => "**Path:** `"@ + path + "`\n"@ + (if usings.len() > 0 {
            "**Uses:** "@ + join(usings, ", "@) + "\n"@
        } else {
            Seq::empty()
        }),
        DetailV::Enum { variants } => if variants.len() > 0 {
            "**Variants:** "@ + join(variants, ", "@) + "\n"@
        } else {
            Seq::empty()
        },
        DetailV::Interface { methods } => "**Kind:** Interface\n"@ + (if methods.len() > 0 {
            "**Methods:** "@ + decimal(methods.len()) + " methods\n"@
        } else {
            Seq::empty()
        }),
    }
}

/// Markdown shown when hovering over a symbol.
pub open spec fn hover_markdown(s: SymbolV) -> Seq<char> {
    "## `"@ + s.name + "`\n\n"@ + (match s.doc {
        Some(d) => d + "\n\n"@,
        None => Seq::empty(),
    }) + detail_markdown(s.name, s.detail) + (if s.tags.len() > 0 {
        "\n**Tags:** <"@ + join(tag_texts(s.tags), "><"@) + ">\n"@
    } else {
        Seq::empty()
    })
}

/// The hover text of a method shows its signature as written:
/// `name(params)`, then its effects `<e1>...<en>`, then `:` and the return
/// type.
pub proof fn method_hover_shows_signature(s: SymbolV)
    ensures
        s.detail matches DetailV::Method { params, effects, return_type, .. } ==> contains(
            hover_markdown(s),
            s.name + "("@ + join(param_labels(params), ", "@) + ")"@ + effects_text(effects) + ":"@
                + return_type,
        ),
{
    match s.detail {
        DetailV::Method { params, effects, return_type, .. } => {
            let sig = s.name + "("@ + join(param_labels(params), ", "@) + ")"@ + effects_text(
                effects,
            ) + ":"@ + return_type;
            let head = "## `"@ + s.name + "`\n\n"@ + (match s.doc {
                Some(d) => d + "\n\n"@,
                None => Seq::empty(),
            }) + "```verse\n"@;
            let tail = "\n```\n"@ + (if s.tags.len() > 0 {
                "\n**Tags:** <"@ + join(tag_texts(s.tags), "><"@) + ">\n"@
            } else {
                Seq::empty()
            });
            assert(hover_markdown(s) =~= head + sig + tail);
            assert((head + sig + tail).subrange(head.len() as int, (head.len() + sig.len()) as int) =~= sig);
            assert(occurs_at(hover_markdown(s), head.len() as int, sig));
        },
        _ => {},
    }
}

fn append_detail_markdown(md: &mut String, name: &String, d: &SymbolDetail)
    ensures
        final(md)@ == old(md)@ + detail_markdown(name@, d@),
{
    match d {
        SymbolDetail::Method { params, effects, return_type, .. } => {
            append_str(md, "```verse\n");
            append_str(md, name.as_str());
            append_str(md, "(");
            let labels = labels_of(params);
            append_join(md, &labels, ", ");
            append_str(md, ")");
            append_effects(md, effects);
            append_str(md, ":");
            append_str(md, return_type.as_str());
            append_str(md, "\n```\n");
        },
        SymbolDetail::Field { type_expr, .. } => {
            append_str(md, "**Type:** `");
            append_str(md, type_expr.as_str());
            append_str(md, "`\n");
        },
        SymbolDetail::Class { parents, specifiers, .. } => {
            append_str(md, "**Kind:** Class\n");
            let ghost after_kind = md@;
            if specifiers.len() > 0 {
                append_str(md, "**Specifiers:** <");
                append_join(md, specifiers, "><");
                append_str(md, ">\n");
            }
            let ghost after_spec = md@;
            if parents.len() > 0 {
                append_str(md, "**Extends:** ");
                append_join(md, parents, ", ");
                append_str(md, "\n");
            }
            proof {
                assert(after_spec =~= after_kind + (if specifiers@.len() > 0 {
                    "**Specifiers:** <"@ + join(views(specifiers@), "><"@) + ">\n"@
                } else {
                    Seq::empty()
                }));
            }
        },
        SymbolDetail::Module { path, usings } => {
            append_str(md, "**Path:** `");
            append_str(md, path.as_str());
            append_str(md, "`\n");
            if usings.len() > 0 {
                append_str(md, "**Uses:** ");
                append_join(md, usings, ", ");
                append_str(md, "\n");
            }
        },
        SymbolDetail::Enum { variants } => {
            if variants.len() > 0 {
                append_str(md, "**Variants:** ");
                append_join(md, variants, ", ");
                append_str(md, "\n");
            }
        },
        SymbolDetail::Interface { methods } => {
            append_str(md, "**Kind:** Interface\n");
            if methods.len() > 0 {
                append_str(md, "**Methods:** ");
                push_decimal(md, methods.len() as u64);
                append_str(md, " methods\n");
            }
            proof {
                crate::symbol::lemma_symbols_view_len(methods@);
            }
        },
    }
    assert(md@ =~= old(md)@ + detail_markdown(name@, d@));
}

pub fn format_hover_markdown(symbol: &Symbol) -> (r: String)
    ensures
        r@ == hover_markdown(symbol@),
{
    let mut md = String::new();
    append_str(&mut md, "## `");
    append_str(&mut md, symbol.name.as_str());
    append_str(&mut md, "`\n\n");
    let ghost head = md@;
    match &symbol.doc {
        Some(doc) => {
            append_str(&mut md, doc.as_str());
            append_str(&mut md, "\n\n");
        },
        None => {},
    }
    let ghost with_doc = md@;
    append_detail_markdown(&mut md, &symbol.name, &symbol.detail);
    let ghost with_detail = md@;
    if symbol.tags.len() > 0 {
        let texts = tag_strings(&symbol.tags);
        append_str(&mut md, "\n**Tags:** <");
        append_join(&mut md, &texts, "><");
        append_str(&mut md, ">\n");
    }
    proof {
        assert(with_doc =~= head + (match symbol@.doc {
            Some(d) => d + "\n\n"@,
            None => Seq::empty(),
        }));
    }
    assert(md@ =~= hover_markdown(symbol@));
    md
}

/// `name(p1:t1, p2:t2) : return` for a method, the name otherwise.
pub open spec fn signature_text(s: SymbolV) -> Seq<char> {
    match s.detail {
        DetailV::Method { params, return_type, .. } => s.name + "("@ + join(
            param_labels(params),
            ", "@,
        ) + ") : "@ + return_type,
        _ => s.name,
    }
}

pub fn format_signature(symbol: &Symbol) -> (r: String)
    ensures
        r@ == signature_text(symbol@),
{
    match &symbol.detail {
        SymbolDetail::Method { params, return_type, .. } => {
            let mut r = symbol.name.clone();
            append_str(&mut r, "(");
            let labels = labels_of(params);
            append_join(&mut r, &labels, ", ");
            append_str(&mut r, ") : ");
            append_str(&mut r, return_type.as_str());
            assert(r@ =~= signature_text(symbol@));
            r
        },
        _ => symbol.name.clone(),
    }
}

/// The symbol named by the identifier touching byte column `column` of
/// line `line` of `content`: the first of `symbols` with that name.
pub fn find_symbol_at_cursor<'a>(
    content: &str,
    line: u32,
    column: u32,
    symbols: &[&'a Symbol],
) -> (r: Option<&'a Symbol>)
    ensures
        match r {
            Some(s) => {
                let i = target_index(content@, line as int, column as int, sym_refs(symbols@));
                0 <= i < symbols@.len() && s@ == symbols@[i]@
            },
            None => target_index(content@, line as int, column as int, sym_refs(symbols@)) == -1,
        },
{
    match target_symbol(content, line, column, symbols) {
        Some(i) => Some(symbols[i]),
        None => None,
    }
}

} // verus!
