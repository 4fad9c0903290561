//! Rendering of the structured grammar into the combinator-expression text:
//! one entry per production, `seq(...)` for multi-element alternatives,
//! `choice(...)` for productions with several non-empty alternatives, and
//! `optional(...)` around rewritten references.

use vstd::prelude::*;
use crate::model::Element;
use crate::model::GElement;
use crate::model::Production;
use crate::model::GProduction;
use crate::model::parse_token_spec;
use crate::model::copy_chars;
use crate::text::append_chars;
use crate::text::append_str;
use crate::text::vec_of_str;

verus! {

broadcast use crate::text::lemma_chars_deep_view;

/// The rendered text of one element: a literal verbatim, a reference as a
/// member-style access, an optional reference inside `optional(...)`.
pub open spec fn element_text(e: GElement) -> Seq<char> {
    match e {
        GElement::Literal(t) => t,
        GElement::SymbolRef(n) => "$."@ + n,
        GElement::OptionalRef(n) => "optional($."@ + n + ")"@,
    }
}

/// `parts` joined with `sep` between consecutive parts.
pub open spec fn join_spec(parts: Seq<Seq<char>>, sep: Seq<char>) -> Seq<char>
    decreases parts.len(),
{
    if parts.len() == 0 {
        Seq::empty()
    } else if parts.len() == 1 {
        parts[0]
    } else {
        parts[0] + sep + join_spec(parts.skip(1), sep)
    }
}

proof fn lemma_join_push(parts: Seq<Seq<char>>, x: Seq<char>, sep: Seq<char>)
    ensures
        join_spec(parts.push(x), sep) == if parts.len() == 0 {
            x
        } else {
            join_spec(parts, sep) + sep + x
        },
    decreases parts.len(),
{
    reveal_with_fuel(join_spec, 3);
    if parts.len() == 0 {
        assert(parts.push(x)[0] == x);
    } else if parts.len() == 1 {
        assert(parts.push(x)[0] == parts[0]);
        assert(parts.push(x).skip(1) =~= seq![x]);
        assert(join_spec(seq![x], sep) == x);
    } else {
        assert(parts.push(x)[0] == parts[0]);
        assert(parts.push(x).skip(1) =~= parts.skip(1).push(x));
        lemma_join_push(parts.skip(1), x, sep);
        assert(parts[0] + sep + (join_spec(parts.skip(1), sep) + sep + x) =~= (parts[0] + sep
            + join_spec(parts.skip(1), sep)) + sep + x);
    }
}

/// The rendered texts of the elements of one alternative, in order.
pub open spec fn element_texts(alt: Seq<GElement>) -> Seq<Seq<char>> {
    Seq::new(alt.len(), |i: int| element_text(alt[i]))
}

/// The rendered text of one alternative: a single element stands alone, any
/// other number of elements is wrapped in a sequence combinator.  An empty
/// alternative renders as the empty sequence `seq()`, the epsilon rule.
pub open spec fn branch_text(alt: Seq<GElement>) -> Seq<char> {
    if alt.len() == 1 {
        element_text(alt[0])
    } else {
        "seq("@ + join_spec(element_texts(alt), ", "@) + ")"@
    }
}

/// The rendered texts of a production's alternatives, in order.
pub open spec fn branch_texts(alts: Seq<Seq<GElement>>) -> Seq<Seq<char>> {
    Seq::new(alts.len(), |i: int| branch_text(alts[i]))
}

/// The start of one rule entry: the rule name and the arrow.
pub open spec fn header_text(name: Seq<char>) -> Seq<char> {
    name + ": $ => "@
}

/// The rendered body of a production: its single alternative directly, or a
/// choice combinator over several; a production whose only alternative was
/// empty renders as the explicit epsilon rule `seq()`.
pub open spec fn body_text(alts: Seq<Seq<GElement>>) -> Seq<char> {
    if alts.len() == 0 {
        "seq()"@
    } else if alts.len() == 1 {
        branch_text(alts[0])
    } else {
        "choice("@ + join_spec(branch_texts(alts), ", "@) + ")"@
    }
}

/// The full rendered entry of one production.
pub open spec fn production_text(p: GProduction) -> Seq<char> {
    header_text(p.name) + body_text(p.alternatives) + ",\n"@
}

/// The concatenated entries of all productions, in discovery order.
pub open spec fn entries_text(ps: Seq<GProduction>) -> Seq<char>
    decreases ps.len(),
{
    if ps.len() == 0 {
        Seq::empty()
    } else {
        production_text(ps[0]) + entries_text(ps.skip(1))
    }
}

proof fn lemma_entries_push(ps: Seq<GProduction>, p: GProduction)
    ensures
        entries_text(ps.push(p)) == entries_text(ps) + production_text(p),
    decreases ps.len(),
{
    reveal_with_fuel(entries_text, 3);
    if ps.len() == 0 {
        assert(ps.push(p)[0] == p);
        assert(ps.push(p).skip(1) =~= Seq::<GProduction>::empty());
        assert(production_text(p) + entries_text(ps.push(p).skip(1)) =~= entries_text(ps)
            + production_text(p));
    } else {
        assert(ps.push(p)[0] == ps[0]);
        assert(ps.push(p).skip(1) =~= ps.skip(1).push(p));
        lemma_entries_push(ps.skip(1), p);
        assert(production_text(ps[0]) + (entries_text(ps.skip(1)) + production_text(p)) =~= (
        production_text(ps[0]) + entries_text(ps.skip(1))) + production_text(p));
    }
}

/// The opening of the rendered grammar object.
pub open spec fn grammar_prefix() -> Seq<char> {
    "module.exports = grammar({\nname: 'ALANG',\nrules: {\n"@
}

/// The closing of the rendered grammar object.
pub open spec fn grammar_suffix() -> Seq<char> {
    "}\n});"@
}

/// The whole rendered grammar text.
pub open spec fn grammar_text(ps: Seq<GProduction>) -> Seq<char> {
    grammar_prefix() + entries_text(ps) + grammar_suffix()
}

/// Render one raw token: a quoted literal is kept verbatim, quotes included;
/// anything else is a symbol reference, rendered as a member-style access.
pub fn get_token(data: &Vec<char>) -> (r: Vec<char>)
    ensures
        r@ == element_text(parse_token_spec(data@)),
{
    if data.len() >= 1 && data[0] == '\'' && data[data.len() - 1] == '\'' {
        copy_chars(data)
    } else {
        let mut r = vec_of_str("$.");
        append_chars(&mut r, data);
        r
    }
}

/// Render one already-classified element.
pub fn render_element(e: &Element) -> (r: Vec<char>)
    ensures
        r@ == element_text(e@),
{
    match e {
        Element::Literal(t) => copy_chars(t),
        Element::SymbolRef(n) => {
            let mut r = vec_of_str("$.");
            append_chars(&mut r, n);
            r
        },
        Element::OptionalRef(n) => {
            let mut r = vec_of_str("optional($.");
            append_chars(&mut r, n);
            append_str(&mut r, ")");
            r
        },
    }
}

/// The start of one rule entry: `name: $ => `.
pub fn make_header(name: &Vec<char>) -> (r: Vec<char>)
    ensures
        r@ == header_text(name@),
{
    let mut r = copy_chars(name);
    append_str(&mut r, ": $ => ");
    r
}

/// Render one alternative: its single element directly, or all its elements
/// in order inside a sequence combinator.
pub fn process_branch(branch: &Vec<Element>) -> (r: Vec<char>)
    ensures
        r@ == branch_text(branch.deep_view()),
{
    let ghost alt = branch.deep_view();
    if branch.len() == 1 {
        let r = render_element(&branch[0]);
        proof {
            assert(alt[0] == branch@[0]@);
        }
        return r;
    }
    let ghost texts = element_texts(alt);
    let mut r = vec_of_str("seq(");
    let mut k: usize = 0;
    proof {
        assert(texts.take(0) =~= Seq::<Seq<char>>::empty());
        assert("seq("@ + Seq::<char>::empty() =~= "seq("@);
    }
    while k < branch.len()
        invariant
            k <= branch.len(),
            alt == branch.deep_view(),
            texts == element_texts(alt),
            branch.len() != 1,
            r@ == "seq("@ + join_spec(texts.take(k as int), ", "@),
        decreases branch.len() - k,
    {
        proof {
            assert(texts.take(k as int + 1) =~= texts.take(k as int).push(texts[k as int]));
            lemma_join_push(texts.take(k as int), texts[k as int], ", "@);
            assert(alt[k as int] == branch@[k as int]@);
        }
        if k > 0 {
            append_str(&mut r, ", ");
        }
        let e = render_element(&branch[k]);
        append_chars(&mut r, &e);
        proof {
            let tk = texts[k as int];
            if k == 0 {
                assert("seq("@ + Seq::<char>::empty() + tk =~= "seq("@ + tk);
            } else {
                assert("seq("@ + join_spec(texts.take(k as int), ", "@) + ", "@ + tk =~= "seq("@
                    + (join_spec(texts.take(k as int), ", "@) + ", "@ + tk));
            }
        }
        k = k + 1;
    }
    proof {
        assert(texts.take(texts.len() as int) =~= texts);
    }
    append_str(&mut r, ")");
    proof {
        assert("seq("@ + join_spec(texts, ", "@) + ")"@ =~= ("seq("@ + join_spec(texts, ", "@))
            + ")"@);
    }
    r
}

/// Render the entry of a production with a single (non-empty) alternative:
/// no choice wrapper around the body.
pub fn from_one_branch_rule(rule_name: &Vec<char>, branch: &Vec<Element>) -> (r: Vec<char>)
    ensures
        r@ == header_text(rule_name@) + branch_text(branch.deep_view()) + ",\n"@,
{
    let mut r = make_header(rule_name);
    let b = process_branch(branch);
    append_chars(&mut r, &b);
    append_str(&mut r, ",\n");
    proof {
        assert(header_text(rule_name@) + branch_text(branch.deep_view()) + ",\n"@ =~= (
        header_text(rule_name@) + branch_text(branch.deep_view())) + ",\n"@);
    }
    r
}

/// Render the entry of a production with at least two non-empty
/// alternatives: the body is a choice combinator over the alternatives in
/// order.  An empty alternative contributes no branch here: it was recorded
/// in the optional set instead, and optionality is applied globally at every
/// use site.
pub fn from_many_branches_rule(rule_name: &Vec<char>, alternatives: &Vec<Vec<Element>>) -> (r:
    Vec<char>)
    requires
        alternatives.len() >= 2,
    ensures
        r@ == header_text(rule_name@) + body_text(alternatives.deep_view()) + ",\n"@,
{
    let ghost alts = alternatives.deep_view();
    let ghost texts = branch_texts(alts);
    let mut r = make_header(rule_name);
    append_str(&mut r, "choice(");
    proof {
        assert(texts.take(0) =~= Seq::<Seq<char>>::empty());
        assert(header_text(rule_name@) + "choice("@ + Seq::<char>::empty() =~= header_text(
            rule_name@,
        ) + "choice("@);
    }
    let mut k: usize = 0;
    while k < alternatives.len()
        invariant
            k <= alternatives.len(),
            alts == alternatives.deep_view(),
            texts == branch_texts(alts),
            r@ == header_text(rule_name@) + "choice("@ + join_spec(texts.take(k as int), ", "@),
        decreases alternatives.len() - k,
    {
        proof {
            assert(texts.take(k as int + 1) =~= texts.take(k as int).push(texts[k as int]));
            lemma_join_push(texts.take(k as int), texts[k as int], ", "@);
            assert(alts[k as int] == alternatives@[k as int].deep_view());
        }
        if k > 0 {
            append_str(&mut r, ", ");
        }
        let b = process_branch(&alternatives[k]);
        append_chars(&mut r, &b);
        proof {
            let head = header_text(rule_name@) + "choice("@;
            let tk = texts[k as int];
            if k == 0 {
                assert(head + Seq::<char>::empty() + tk =~= head + tk);
            } else {
                assert(head + join_spec(texts.take(k as int), ", "@) + ", "@ + tk =~= head + (
                join_spec(texts.take(k as int), ", "@) + ", "@ + tk));
            }
        }
        k = k + 1;
    }
    proof {
        assert(texts.take(texts.len() as int) =~= texts);
    }
    append_str(&mut r, ")");
    append_str(&mut r, ",\n");
    proof {
        let head = header_text(rule_name@);
        assert(head + ("choice("@ + join_spec(texts, ", "@) + ")"@) + ",\n"@ =~= head
            + "choice("@ + join_spec(texts, ", "@) + ")"@ + ",\n"@);
    }
    r
}

/// Render the full entry of one production.
pub fn render_production(p: &Production) -> (r: Vec<char>)
    ensures
        r@ == production_text(p@),
{
    if p.alternatives.len() == 0 {
        let mut r = make_header(&p.name);
        append_str(&mut r, "seq()");
        append_str(&mut r, ",\n");
        proof {
            assert(header_text(p.name@) + "seq()"@ + ",\n"@ =~= (header_text(p.name@)
                + "seq()"@) + ",\n"@);
        }
        r
    } else if p.alternatives.len() == 1 {
        let r = from_one_branch_rule(&p.name, &p.alternatives[0]);
        proof {
            assert(p@.alternatives[0] == p.alternatives@[0].deep_view());
        }
        r
    } else {
        from_many_branches_rule(&p.name, &p.alternatives)
    }
}

/// Render the whole grammar object around the entries of all productions.
pub fn render_grammar(ps: &Vec<Production>) -> (r: Vec<char>)
    ensures
        r@ == grammar_text(ps.deep_view()),
{
    let ghost dv = ps.deep_view();
    let mut r = vec_of_str("module.exports = grammar({\nname: 'ALANG',\nrules: {\n");
    proof {
        assert(dv.take(0) =~= Seq::<GProduction>::empty());
        assert(grammar_prefix() + Seq::<char>::empty() =~= grammar_prefix());
    }
    let mut k: usize = 0;
    while k < ps.len()
        invariant
            k <= ps.len(),
            dv == ps.deep_view(),
            r@ == grammar_prefix() + entries_text(dv.take(k as int)),
        decreases ps.len() - k,
    {
        proof {
            assert(dv.take(k as int + 1) =~= dv.take(k as int).push(dv[k as int]));
            lemma_entries_push(dv.take(k as int), dv[k as int]);
            assert(dv[k as int] == ps@[k as int]@);
        }
        let entry = render_production(&ps[k]);
        append_chars(&mut r, &entry);
        proof {
            assert(grammar_prefix() + entries_text(dv.take(k as int)) + production_text(
                dv[k as int],
            ) =~= grammar_prefix() + (entries_text(dv.take(k as int)) + production_text(
                dv[k as int],
            )));
        }
        k = k + 1;
    }
    proof {
        assert(dv.take(dv.len() as int) =~= dv);
    }
    append_str(&mut r, "}\n});");
    proof {
        assert(grammar_prefix() + entries_text(dv) + grammar_suffix() =~= (grammar_prefix()
            + entries_text(dv)) + grammar_suffix());
    }
    r
}

/// A production with exactly one alternative holding a single literal token
/// renders as `name: $ => <literal>,` followed by a line break: the literal
/// stands verbatim, with no sequence and no choice wrapper around it.
pub proof fn lemma_single_literal_entry(p: GProduction, t: Seq<char>)
    requires
        p.alternatives.len() == 1,
        p.alternatives[0] == seq![GElement::Literal(t)],
    ensures
        production_text(p) == p.name + ": $ => "@ + t + ",\n"@,
{
    assert(p.alternatives[0][0] == GElement::Literal(t));
    assert(production_text(p) =~= p.name + ": $ => "@ + t + ",\n"@);
}

} // verus!
