//! The structured grammar model: elements, productions, parsing of the
//! cleaned rules text, the optional set, and the optionality post-processor.

use vstd::prelude::*;
use crate::errors::GrammarError;
use crate::text::trim_spec;
use crate::text::trim_chars;
use crate::text::append_chars;
use crate::split::split_outside_quotes;
use crate::split::split_outside_quotes_spec;
use crate::split::split_once_outside_quotes;
use crate::split::split_once_outside_quotes_spec;
use crate::split::tokenize;
use crate::split::tokens_spec;

verus! {

broadcast use crate::text::lemma_chars_deep_view;

/// The mathematical model of one element of an alternative.
#[verifier::ext_equal]
pub enum GElement {
    /// A quoted terminal, kept verbatim (quotes included).
    Literal(Seq<char>),
    /// A bare identifier naming another production or a terminal token.
    SymbolRef(Seq<char>),
    /// A reference rewritten by the optionality post-processor.
    OptionalRef(Seq<char>),
}

/// The mathematical model of one named production.
#[verifier::ext_equal]
pub struct GProduction {
    /// The rule's identifier.
    pub name: Seq<char>,
    /// The non-empty alternatives, in textual order, each a sequence of
    /// elements.
    pub alternatives: Seq<Seq<GElement>>,
    /// Whether some alternative of the rule was empty, which makes the rule
    /// optional wherever it is referenced.
    pub has_empty: bool,
}

/// One element of an alternative: a quoted literal, a symbol reference, or a
/// symbol reference wrapped as optional.
pub enum Element {
    /// A quoted terminal, kept verbatim (quotes included).
    Literal(Vec<char>),
    /// A bare identifier naming another production or a terminal token.
    SymbolRef(Vec<char>),
    /// A reference rewritten by the optionality post-processor.
    OptionalRef(Vec<char>),
}

impl View for Element {
    type V = GElement;

    open spec fn view(&self) -> GElement {
        match self {
            Element::Literal(t) => GElement::Literal(t@),
            Element::SymbolRef(n) => GElement::SymbolRef(n@),
            Element::OptionalRef(n) => GElement::OptionalRef(n@),
        }
    }
}

impl DeepView for Element {
    type V = GElement;

    open spec fn deep_view(&self) -> GElement {
        self.view()
    }
}

/// One named production, with its non-empty alternatives and the record of
/// whether an empty alternative was seen.
pub struct Production {
    /// The rule's identifier.
    pub name: Vec<char>,
    /// The non-empty alternatives, in textual order.
    pub alternatives: Vec<Vec<Element>>,
    /// Whether some alternative of the rule was empty.
    pub has_empty: bool,
}

impl View for Production {
    type V = GProduction;

    open spec fn view(&self) -> GProduction {
        GProduction {
            name: self.name@,
            alternatives: self.alternatives.deep_view(),
            has_empty: self.has_empty,
        }
    }
}

impl DeepView for Production {
    type V = GProduction;

    open spec fn deep_view(&self) -> GProduction {
        self.view()
    }
}

/// A copy of a character buffer.
pub fn copy_chars(src: &Vec<char>) -> (r: Vec<char>)
    ensures
        r@ == src@,
{
    let mut r: Vec<char> = Vec::new();
    append_chars(&mut r, src);
    proof {
        assert(Seq::<char>::empty() + src@ =~= src@);
    }
    r
}

/// Whether two character buffers hold the same text.
pub fn chars_eq(a: &Vec<char>, b: &Vec<char>) -> (r: bool)
    ensures
        r == (a@ == b@),
{
    if a.len() != b.len() {
        return false;
    }
    let mut k: usize = 0;
    while k < a.len()
        invariant
            k <= a.len(),
            a.len() == b.len(),
            forall|m: int| 0 <= m < k ==> a@[m] == b@[m],
        decreases a.len() - k,
    {
        if a[k] != b[k] {
            return false;
        }
        k = k + 1;
    }
    proof {
        assert(a@ =~= b@);
    }
    true
}

/// Whether a token is a quoted literal: it begins and ends with a single
/// quote.
pub open spec fn is_literal_token(t: Seq<char>) -> bool {
    t.len() >= 1 && t[0] == '\'' && t[t.len() - 1] == '\''
}

/// The element a raw token stands for: a literal when quoted, a symbol
/// reference otherwise.
pub open spec fn parse_token_spec(t: Seq<char>) -> GElement {
    if is_literal_token(t) {
        GElement::Literal(t)
    } else {
        GElement::SymbolRef(t)
    }
}

/// Classify one raw token.
pub fn parse_token(t: Vec<char>) -> (r: Element)
    ensures
        r@ == parse_token_spec(t@),
{
    if t.len() >= 1 && t[0] == '\'' && t[t.len() - 1] == '\'' {
        Element::Literal(t)
    } else {
        Element::SymbolRef(t)
    }
}

/// The elements of one token list, in order.
pub open spec fn parse_tokens_spec(ts: Seq<Seq<char>>) -> Seq<GElement> {
    Seq::new(ts.len(), |i: int| parse_token_spec(ts[i]))
}

/// The token lists of the alternatives of a rule body, split on `|`.
pub open spec fn alt_token_lists(body: Seq<char>) -> Seq<Seq<Seq<char>>> {
    let parts = split_outside_quotes_spec(body, '|');
    Seq::new(parts.len(), |i: int| tokens_spec(parts[i]))
}

/// The element lists of the non-empty token lists, in order; empty token
/// lists (empty alternatives) are dropped here and carry only optionality.
pub open spec fn parse_elem_lists_spec(toks: Seq<Seq<Seq<char>>>) -> Seq<Seq<GElement>>
    decreases toks.len(),
{
    if toks.len() == 0 {
        Seq::empty()
    } else {
        let rest = parse_elem_lists_spec(toks.skip(1));
        if toks[0].len() > 0 {
            seq![parse_tokens_spec(toks[0])] + rest
        } else {
            rest
        }
    }
}

proof fn lemma_parse_elem_lists_push(toks: Seq<Seq<Seq<char>>>, x: Seq<Seq<char>>)
    ensures
        parse_elem_lists_spec(toks.push(x)) == parse_elem_lists_spec(toks) + (if x.len() > 0 {
            seq![parse_tokens_spec(x)]
        } else {
            Seq::<Seq<GElement>>::empty()
        }),
    decreases toks.len(),
{
    reveal_with_fuel(parse_elem_lists_spec, 3);
    let tail: Seq<Seq<GElement>> = if x.len() > 0 {
        seq![parse_tokens_spec(x)]
    } else {
        Seq::empty()
    };
    if toks.len() == 0 {
        assert(toks.push(x).skip(1) =~= toks);
        assert(toks.push(x)[0] == x);
        assert(toks.push(x).skip(1) =~= Seq::<Seq<Seq<char>>>::empty());
        assert(parse_elem_lists_spec(toks) + tail =~= tail);
        if x.len() > 0 {
            assert(seq![parse_tokens_spec(x)] + parse_elem_lists_spec(
                toks.push(x).skip(1),
            ) =~= tail);
        }
    } else {
        assert(toks.push(x)[0] == toks[0]);
        assert(toks.push(x).skip(1) =~= toks.skip(1).push(x));
        lemma_parse_elem_lists_push(toks.skip(1), x);
        if toks[0].len() > 0 {
            assert(seq![parse_tokens_spec(toks[0])] + (parse_elem_lists_spec(toks.skip(1))
                + tail) =~= (seq![parse_tokens_spec(toks[0])] + parse_elem_lists_spec(
                toks.skip(1),
            )) + tail);
        }
    }
}

/// The production a raw (trimmed, non-empty) rule string stands for, or
/// `None` when the rule has no name/body separator.
pub open spec fn parse_production_spec(raw: Seq<char>) -> Option<GProduction> {
    match split_once_outside_quotes_spec(raw, ':') {
        None => None,
        Some(parts) => {
            let toks = alt_token_lists(parts.1);
            Some(
                GProduction {
                    name: trim_spec(parts.0),
                    alternatives: parse_elem_lists_spec(toks),
                    has_empty: exists|k: int| 0 <= k < toks.len() && toks[k].len() == 0,
                },
            )
        },
    }
}

/// Parse one raw rule string (already trimmed and non-empty) into a
/// production; `None` when the rule has no `:`.
pub fn parse_production(raw: &Vec<char>) -> (r: Option<Production>)
    ensures
        match r {
            Some(p) => parse_production_spec(raw@) == Some(p@),
            None => parse_production_spec(raw@) == None::<GProduction>,
        },
{
    let parts = match split_once_outside_quotes(raw, ':') {
        Some(parts) => parts,
        None => {
            return None;
        },
    };
    let name = trim_chars(&parts.0);
    let alts_raw = split_outside_quotes(&parts.1, '|');
    let ghost toks = alt_token_lists(parts.1@);
    proof {
        assert(toks.len() == alts_raw.deep_view().len());
    }
    let mut alternatives: Vec<Vec<Element>> = Vec::new();
    let mut has_empty = false;
    let mut k: usize = 0;
    proof {
        assert(toks.take(0) =~= Seq::<Seq<Seq<char>>>::empty());
    }
    while k < alts_raw.len()
        invariant
            k <= alts_raw.len(),
            toks == alt_token_lists(parts.1@),
            alts_raw.deep_view() == split_outside_quotes_spec(parts.1@, '|'),
            toks.len() == alts_raw@.len(),
            alternatives.deep_view() == parse_elem_lists_spec(toks.take(k as int)),
            has_empty == exists|m: int| 0 <= m < k && toks[m].len() == 0,
        decreases alts_raw.len() - k,
    {
        let ts = tokenize(&alts_raw[k]);
        proof {
            assert(alts_raw.deep_view()[k as int] == alts_raw@[k as int].deep_view());
            assert(toks[k as int] == ts.deep_view());
            assert(toks.take(k as int + 1) =~= toks.take(k as int).push(toks[k as int]));
            lemma_parse_elem_lists_push(toks.take(k as int), toks[k as int]);
        }
        if ts.len() == 0 {
            has_empty = true;
            proof {
                assert(parse_elem_lists_spec(toks.take(k as int)) + Seq::<
                    Seq<GElement>,
                >::empty() =~= parse_elem_lists_spec(toks.take(k as int)));
            }
        } else {
            let mut elems: Vec<Element> = Vec::new();
            let mut m: usize = 0;
            while m < ts.len()
                invariant
                    m <= ts.len(),
                    elems.len() == m,
                    forall|q: int| 0 <= q < m ==> elems.deep_view()[q] == parse_token_spec(
                        ts.deep_view()[q],
                    ),
                decreases ts.len() - m,
            {
                let tok = copy_chars(&ts[m]);
                proof {
                    assert(ts.deep_view()[m as int] == ts@[m as int]@);
                }
                let ghost old_elems = elems.deep_view();
                let e = parse_token(tok);
                let ghost ev = e@;
                elems.push(e);
                proof {
                    assert(elems.deep_view() =~~= old_elems.push(ev));
                    assert forall|q: int| 0 <= q < m + 1 implies elems.deep_view()[q]
                        == parse_token_spec(ts.deep_view()[q]) by {
                        if q < m {
                            assert(elems.deep_view()[q] == old_elems[q]);
                        }
                    }
                }
                m = m + 1;
            }
            proof {
                assert(elems.deep_view() =~~= parse_tokens_spec(toks[k as int]));
            }
            let ghost old_alts = alternatives.deep_view();
            alternatives.push(elems);
            proof {
                assert(alternatives.deep_view() =~~= old_alts.push(elems.deep_view()));
                assert(old_alts.push(elems.deep_view()) =~~= old_alts + seq![
                    parse_tokens_spec(toks[k as int]),
                ]);
            }
        }
        k = k + 1;
    }
    proof {
        assert(toks.take(toks.len() as int) =~= toks);
    }
    let p = Production { name, alternatives, has_empty };
    proof {
        assert(p@ =~~= parse_production_spec(raw@)->Some_0);
    }
    Some(p)
}

/// Parse a sequence of raw rule strings: whitespace-only strings are
/// skipped, and a rule with no `:` is a fatal condition.
pub open spec fn parse_rule_list_spec(rules: Seq<Seq<char>>) -> Result<
    Seq<GProduction>,
    GrammarError,
>
    decreases rules.len(),
{
    if rules.len() == 0 {
        Ok(Seq::empty())
    } else {
        let raw = trim_spec(rules[0]);
        if raw.len() == 0 {
            parse_rule_list_spec(rules.skip(1))
        } else {
            match parse_production_spec(raw) {
                None => Err(GrammarError::MissingRuleSeparator),
                Some(p) => match parse_rule_list_spec(rules.skip(1)) {
                    Err(e) => Err(e),
                    Ok(ps) => Ok(seq![p] + ps),
                },
            }
        }
    }
}

/// The productions of the cleaned rules text: the text is split into rule
/// strings on `;` (outside quoted literals), and each non-blank rule string
/// is parsed as `name : alternatives`.
pub open spec fn parse_rules_spec(cleaned: Seq<char>) -> Result<Seq<GProduction>, GrammarError> {
    parse_rule_list_spec(split_outside_quotes_spec(cleaned, ';'))
}

/// Split the cleaned rules text into productions.
pub fn parse_rules(cleaned: &Vec<char>) -> (r: Result<Vec<Production>, GrammarError>)
    ensures
        match r {
            Ok(ps) => parse_rules_spec(cleaned@) == Ok::<_, GrammarError>(ps.deep_view()),
            Err(e) => parse_rules_spec(cleaned@) == Err::<Seq<GProduction>, _>(e),
        },
{
    let rules = split_outside_quotes(cleaned, ';');
    let ghost rules_dv = rules.deep_view();
    let mut out: Vec<Production> = Vec::new();
    let mut k: usize = 0;
    proof {
        assert(rules_dv.skip(0) =~= rules_dv);
    }
    while k < rules.len()
        invariant
            k <= rules.len(),
            rules_dv == rules.deep_view(),
            rules_dv == split_outside_quotes_spec(cleaned@, ';'),
            match parse_rule_list_spec(rules_dv.skip(k as int)) {
                Ok(ps) => parse_rules_spec(cleaned@) == Ok::<_, GrammarError>(
                    out.deep_view() + ps,
                ),
                Err(e) => parse_rules_spec(cleaned@) == Err::<Seq<GProduction>, _>(e),
            },
        decreases rules.len() - k,
    {
        proof {
            assert(rules_dv.skip(k as int)[0] == rules_dv[k as int]);
            assert(rules_dv.skip(k as int).skip(1) =~= rules_dv.skip(k as int + 1));
            assert(rules_dv[k as int] == rules@[k as int]@);
        }
        let raw = trim_chars(&rules[k]);
        if raw.len() > 0 {
            match parse_production(&raw) {
                None => {
                    return Err(GrammarError::MissingRuleSeparator);
                },
                Some(p) => {
                    let ghost old_out = out.deep_view();
                    let ghost pv = p@;
                    out.push(p);
                    proof {
                        assert(out.deep_view() =~~= old_out.push(pv));
                        if parse_rule_list_spec(rules_dv.skip(k as int + 1)) is Ok {
                            let ps = parse_rule_list_spec(rules_dv.skip(k as int + 1))->Ok_0;
                            assert(old_out + (seq![pv] + ps) =~~= out.deep_view() + ps);
                        }
                    }
                },
            }
        }
        k = k + 1;
    }
    proof {
        assert(rules_dv.skip(rules_dv.len() as int) =~= Seq::<Seq<char>>::empty());
        assert(out.deep_view() + Seq::<GProduction>::empty() =~~= out.deep_view());
    }
    Ok(out)
}

/// The names of the productions that had an empty alternative, in discovery
/// order.
pub open spec fn optional_names_spec(ps: Seq<GProduction>) -> Seq<Seq<char>>
    decreases ps.len(),
{
    if ps.len() == 0 {
        Seq::empty()
    } else {
        let rest = optional_names_spec(ps.skip(1));
        if ps[0].has_empty {
            seq![ps[0].name] + rest
        } else {
            rest
        }
    }
}

proof fn lemma_optional_names_push(ps: Seq<GProduction>, p: GProduction)
    ensures
        optional_names_spec(ps.push(p)) == optional_names_spec(ps) + (if p.has_empty {
            seq![p.name]
        } else {
            Seq::<Seq<char>>::empty()
        }),
    decreases ps.len(),
{
    reveal_with_fuel(optional_names_spec, 3);
    let tail: Seq<Seq<char>> = if p.has_empty {
        seq![p.name]
    } else {
        Seq::empty()
    };
    if ps.len() == 0 {
        assert(ps.push(p).skip(1) =~= ps);
        assert(ps.push(p)[0] == p);
        assert(ps.push(p).skip(1) =~= Seq::<GProduction>::empty());
        assert(optional_names_spec(ps) + tail =~= tail);
        if p.has_empty {
            assert(seq![p.name] + optional_names_spec(ps.push(p).skip(1)) =~= tail);
        }
    } else {
        assert(ps.push(p)[0] == ps[0]);
        assert(ps.push(p).skip(1) =~= ps.skip(1).push(p));
        lemma_optional_names_push(ps.skip(1), p);
        if ps[0].has_empty {
            assert(seq![ps[0].name] + (optional_names_spec(ps.skip(1)) + tail) =~= (seq![
                ps[0].name,
            ] + optional_names_spec(ps.skip(1))) + tail);
        }
    }
}

/// Collect the names of the productions that had an empty alternative.
pub fn optional_names(ps: &Vec<Production>) -> (r: Vec<Vec<char>>)
    ensures
        r.deep_view() == optional_names_spec(ps.deep_view()),
{
    let mut out: Vec<Vec<char>> = Vec::new();
    let mut k: usize = 0;
    proof {
        assert(ps.deep_view().take(0) =~= Seq::<GProduction>::empty());
    }
    while k < ps.len()
        invariant
            k <= ps.len(),
            out.deep_view() == optional_names_spec(ps.deep_view().take(k as int)),
        decreases ps.len() - k,
    {
        proof {
            assert(ps.deep_view().take(k as int + 1) =~= ps.deep_view().take(k as int).push(
                ps.deep_view()[k as int],
            ));
            lemma_optional_names_push(ps.deep_view().take(k as int), ps.deep_view()[k as int]);
        }
        if ps[k].has_empty {
            let ghost old_out = out.deep_view();
            let name = copy_chars(&ps[k].name);
            out.push(name);
            proof {
                assert(out.deep_view() =~~= old_out.push(ps.deep_view()[k as int].name));
                assert(old_out.push(ps.deep_view()[k as int].name) =~~= old_out + seq![
                    ps.deep_view()[k as int].name,
                ]);
            }
        } else {
            proof {
                assert(out.deep_view() + Seq::<Seq<char>>::empty() =~~= out.deep_view());
            }
        }
        k = k + 1;
    }
    proof {
        assert(ps.deep_view().take(ps.deep_view().len() as int) =~= ps.deep_view());
    }
    out
}

/// Whether `n` is one of the recorded optional-rule names.
pub open spec fn contains_name(opts: Seq<Seq<char>>, n: Seq<char>) -> bool {
    exists|i: int| 0 <= i < opts.len() && opts[i] == n
}

/// Executable membership test for [`contains_name`].
pub fn name_in(opts: &Vec<Vec<char>>, n: &Vec<char>) -> (r: bool)
    ensures
        r == contains_name(opts.deep_view(), n@),
{
    let mut k: usize = 0;
    while k < opts.len()
        invariant
            k <= opts.len(),
            forall|m: int| 0 <= m < k ==> opts.deep_view()[m] != n@,
        decreases opts.len() - k,
    {
        if chars_eq(&opts[k], n) {
            proof {
                assert(opts.deep_view()[k as int] == n@);
            }
            return true;
        }
        k = k + 1;
    }
    false
}

/// One element after the optionality rewrite: a reference to an optional
/// rule is wrapped, everything else is untouched.  A reference already
/// wrapped stays as it is, which makes the rewrite idempotent.
pub open spec fn wrap_element_spec(e: GElement, opts: Seq<Seq<char>>) -> GElement {
    match e {
        GElement::SymbolRef(n) => if contains_name(opts, n) {
            GElement::OptionalRef(n)
        } else {
            GElement::SymbolRef(n)
        },
        _ => e,
    }
}

/// One alternative after the optionality rewrite.
pub open spec fn wrap_alternative_spec(alt: Seq<GElement>, opts: Seq<Seq<char>>) -> Seq<GElement> {
    Seq::new(alt.len(), |i: int| wrap_element_spec(alt[i], opts))
}

/// One production after the optionality rewrite: only the uses of optional
/// names change; the name, the shape and the order of the alternatives stay.
pub open spec fn wrap_production_spec(p: GProduction, opts: Seq<Seq<char>>) -> GProduction {
    GProduction {
        name: p.name,
        alternatives: Seq::new(
            p.alternatives.len(),
            |i: int| wrap_alternative_spec(p.alternatives[i], opts),
        ),
        has_empty: p.has_empty,
    }
}

/// The whole grammar after the optionality rewrite.
pub open spec fn wrap_grammar_spec(ps: Seq<GProduction>, opts: Seq<Seq<char>>) -> Seq<
    GProduction,
> {
    Seq::new(ps.len(), |i: int| wrap_production_spec(ps[i], opts))
}

/// The optionality rewrite leaves no bare reference to an optional name:
/// whatever comes out as a plain symbol reference is not in the optional
/// set.
pub proof fn lemma_wrap_element_no_bare_ref(e: GElement, opts: Seq<Seq<char>>)
    ensures
        wrap_element_spec(e, opts) matches GElement::SymbolRef(n) ==> !contains_name(opts, n),
{
}

/// The optionality rewrite is idempotent on one element.
pub proof fn lemma_wrap_element_idempotent(e: GElement, opts: Seq<Seq<char>>)
    ensures
        wrap_element_spec(wrap_element_spec(e, opts), opts) == wrap_element_spec(e, opts),
{
}

/// The optionality rewrite is idempotent on the whole grammar: applying it a
/// second time with the same optional set changes nothing.
pub proof fn lemma_wrap_grammar_idempotent(ps: Seq<GProduction>, opts: Seq<Seq<char>>)
    ensures
        wrap_grammar_spec(wrap_grammar_spec(ps, opts), opts) == wrap_grammar_spec(ps, opts),
{
    let once = wrap_grammar_spec(ps, opts);
    let twice = wrap_grammar_spec(once, opts);
    assert forall|i: int| 0 <= i < ps.len() implies twice[i] == once[i] by {
        let p = ps[i];
        let q = wrap_production_spec(p, opts);
        assert forall|j: int| 0 <= j < p.alternatives.len() implies wrap_alternative_spec(
            q.alternatives[j],
            opts,
        ) == q.alternatives[j] by {
            let alt = p.alternatives[j];
            assert forall|l: int| 0 <= l < alt.len() implies wrap_element_spec(
                wrap_element_spec(alt[l], opts),
                opts,
            ) == wrap_element_spec(alt[l], opts) by {
                lemma_wrap_element_idempotent(alt[l], opts);
            }
            assert(wrap_alternative_spec(q.alternatives[j], opts) =~= q.alternatives[j]);
        }
        assert(wrap_production_spec(q, opts) =~~= q);
    }
    assert(twice =~~= once);
}

/// After the optionality rewrite, no alternative of any production holds a
/// bare reference to a name of the optional set: every use of an optional
/// rule is wrapped.
pub proof fn lemma_wrap_grammar_no_bare_ref(
    ps: Seq<GProduction>,
    opts: Seq<Seq<char>>,
    i: int,
    j: int,
    l: int,
    n: Seq<char>,
)
    requires
        0 <= i < ps.len(),
        0 <= j < ps[i].alternatives.len(),
        0 <= l < ps[i].alternatives[j].len(),
        wrap_grammar_spec(ps, opts)[i].alternatives[j][l] == GElement::SymbolRef(n),
    ensures
        !contains_name(opts, n),
{
    assert(wrap_grammar_spec(ps, opts)[i].alternatives[j][l] == wrap_element_spec(
        ps[i].alternatives[j][l],
        opts,
    ));
}

/// Copy one element, wrapping it when it is a bare reference to an optional
/// name.
fn wrap_element(e: &Element, optionals: &Vec<Vec<char>>) -> (r: Element)
    ensures
        r@ == wrap_element_spec(e@, optionals.deep_view()),
{
    match e {
        Element::Literal(t) => Element::Literal(copy_chars(t)),
        Element::SymbolRef(n) => {
            if name_in(optionals, n) {
                Element::OptionalRef(copy_chars(n))
            } else {
                Element::SymbolRef(copy_chars(n))
            }
        },
        Element::OptionalRef(n) => Element::OptionalRef(copy_chars(n)),
    }
}

/// Rewrite every reference to an optional rule, wherever it is used inside
/// any production's alternatives, into an optional-wrapped reference.
/// Optionality is a property of how a rule is used, so it is applied at
/// every use site, not at the definition site.
pub fn post_process(productions: &Vec<Production>, optionals: &Vec<Vec<char>>) -> (r: Vec<
    Production,
>)
    ensures
        r.deep_view() == wrap_grammar_spec(productions.deep_view(), optionals.deep_view()),
{
    let ghost opts = optionals.deep_view();
    let mut out: Vec<Production> = Vec::new();
    let mut k: usize = 0;
    while k < productions.len()
        invariant
            k <= productions.len(),
            opts == optionals.deep_view(),
            out.len() == k,
            forall|m: int| 0 <= m < k ==> out.deep_view()[m] == wrap_production_spec(
                productions.deep_view()[m],
                opts,
            ),
        decreases productions.len() - k,
    {
        let p = &productions[k];
        let name = copy_chars(&p.name);
        let mut alternatives: Vec<Vec<Element>> = Vec::new();
        let mut j: usize = 0;
        while j < p.alternatives.len()
            invariant
                j <= p.alternatives.len(),
                opts == optionals.deep_view(),
                alternatives.len() == j,
                forall|m: int| 0 <= m < j ==> alternatives.deep_view()[m]
                    == wrap_alternative_spec(p.alternatives.deep_view()[m], opts),
            decreases p.alternatives.len() - j,
        {
            let alt = &p.alternatives[j];
            let mut elems: Vec<Element> = Vec::new();
            let mut l: usize = 0;
            while l < alt.len()
                invariant
                    l <= alt.len(),
                    opts == optionals.deep_view(),
                    elems.len() == l,
                    forall|m: int| 0 <= m < l ==> elems.deep_view()[m] == wrap_element_spec(
                        alt.deep_view()[m],
                        opts,
                    ),
                decreases alt.len() - l,
            {
                let ghost old_elems = elems.deep_view();
                let e = wrap_element(&alt[l], optionals);
                let ghost ev = e@;
                elems.push(e);
                proof {
                    assert(elems.deep_view() =~~= old_elems.push(ev));
                    assert forall|m: int| 0 <= m < l + 1 implies elems.deep_view()[m]
                        == wrap_element_spec(alt.deep_view()[m], opts) by {
                        if m < l {
                            assert(elems.deep_view()[m] == old_elems[m]);
                        }
                    }
                }
                l = l + 1;
            }
            proof {
                assert(elems.deep_view() =~~= wrap_alternative_spec(alt.deep_view(), opts));
            }
            let ghost old_alts = alternatives.deep_view();
            let ghost elv = elems.deep_view();
            alternatives.push(elems);
            proof {
                assert(alternatives.deep_view() =~~= old_alts.push(elv));
                assert forall|m: int| 0 <= m < j + 1 implies alternatives.deep_view()[m]
                    == wrap_alternative_spec(p.alternatives.deep_view()[m], opts) by {
                    if m < j {
                        assert(alternatives.deep_view()[m] == old_alts[m]);
                    }
                }
            }
            j = j + 1;
        }
        let wrapped = Production { name, alternatives, has_empty: p.has_empty };
        proof {
            assert(wrapped@ =~~= wrap_production_spec(productions.deep_view()[k as int], opts));
        }
        let ghost old_out = out.deep_view();
        let ghost wv = wrapped@;
        out.push(wrapped);
        proof {
            assert(out.deep_view() =~~= old_out.push(wv));
            assert forall|m: int| 0 <= m < k + 1 implies out.deep_view()[m]
                == wrap_production_spec(productions.deep_view()[m], opts) by {
                if m < k {
                    assert(out.deep_view()[m] == old_out[m]);
                }
            }
        }
        k = k + 1;
    }
    proof {
        assert(out.deep_view() =~~= wrap_grammar_spec(productions.deep_view(), opts));
    }
    out
}

} // verus!
