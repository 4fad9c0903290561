//! The transpiler driver: the full conversion from raw grammar source to the
//! rendered combinator-expression text, and the laws of the sectioning pass.

use vstd::prelude::*;
use crate::errors::GrammarError;
use crate::text::is_space_char;
use crate::text::trim_front_spec;
use crate::text::trim_back_spec;
use crate::text::trim_spec;
use crate::text::marker_at;
use crate::text::find_marker_spec;
use crate::text::lemma_find_marker_first;
use crate::text::section_spec;
use crate::text::section_rules;
use crate::strip::strip_actions_spec;
use crate::strip::remove_semantic_actions;
use crate::strip::strip_comments;
use crate::strip::strip_comments_spec;
use crate::strip::strip_directives;
use crate::strip::strip_directives_spec;
use crate::model::parse_rules;
use crate::model::parse_rules_spec;
use crate::model::optional_names;
use crate::model::optional_names_spec;
use crate::model::post_process;
use crate::model::wrap_grammar_spec;
use crate::render::render_grammar;
use crate::render::grammar_text;

verus! {

/// The cleaned rules section: the text with every semantic action, comment
/// and declaration directive removed, or the fatal condition of the brace
/// pass.
pub open spec fn cleanup_grammar_spec(content: Seq<char>) -> Result<Seq<char>, GrammarError> {
    match strip_actions_spec(content) {
        None => Err(GrammarError::UnbalancedBraces),
        Some(no_actions) => Ok(strip_directives_spec(strip_comments_spec(no_actions))),
    }
}

/// Clean the rules section: strip semantic actions first (so that comment
/// markers inside actions never interfere), then comments, then declaration
/// directives.
pub fn cleanup_grammar(content: &Vec<char>) -> (r: Result<Vec<char>, GrammarError>)
    ensures
        match r {
            Ok(v) => cleanup_grammar_spec(content@) == Ok::<Seq<char>, GrammarError>(v@),
            Err(e) => cleanup_grammar_spec(content@) == Err::<Seq<char>, GrammarError>(e),
        },
{
    let no_actions = match remove_semantic_actions(content) {
        Ok(s) => s,
        Err(e) => {
            return Err(e);
        },
    };
    let no_comments = strip_comments(&no_actions);
    Ok(strip_directives(&no_comments))
}

/// The whole conversion, as one function of the source text: isolate the
/// rules section, strip semantic actions, comments and directives, parse the
/// productions, rewrite references to optional rules, and render the
/// combinator grammar.  Every fatal condition of the pipeline surfaces here.
pub open spec fn transpile_spec(source: Seq<char>) -> Result<Seq<char>, GrammarError> {
    match section_spec(source) {
        Err(e) => Err(e),
        Ok(sec) => match cleanup_grammar_spec(sec) {
            Err(e) => Err(e),
            Ok(cleaned) => match parse_rules_spec(cleaned) {
                Err(e) => Err(e),
                Ok(ps) => Ok(grammar_text(wrap_grammar_spec(ps, optional_names_spec(ps)))),
            },
        },
    }
}

/// Run the full conversion on one grammar source.  No partial output: the
/// first fatal condition is returned instead of any text.
pub fn transpile(source: &Vec<char>) -> (r: Result<Vec<char>, GrammarError>)
    ensures
        match r {
            Ok(v) => transpile_spec(source@) == Ok::<Seq<char>, GrammarError>(v@),
            Err(e) => transpile_spec(source@) == Err::<Seq<char>, GrammarError>(e),
        },
{
    let sec = match section_rules(source) {
        Ok(s) => s,
        Err(e) => {
            return Err(e);
        },
    };
    let cleaned = match cleanup_grammar(&sec) {
        Ok(s) => s,
        Err(e) => {
            return Err(e);
        },
    };
    let prods = match parse_rules(&cleaned) {
        Ok(p) => p,
        Err(e) => {
            return Err(e);
        },
    };
    let optionals = optional_names(&prods);
    let wrapped = post_process(&prods, &optionals);
    Ok(render_grammar(&wrapped))
}

/// Whether a section marker occurs anywhere in `s`.
pub open spec fn has_marker(s: Seq<char>) -> bool {
    exists|i: int| marker_at(s, i)
}

proof fn lemma_trim_front_no_marker(s: Seq<char>)
    requires
        !has_marker(s),
    ensures
        !has_marker(trim_front_spec(s)),
    decreases s.len(),
{
    if s.len() > 0 && is_space_char(s[0]) {
        assert forall|i: int| !marker_at(s.skip(1), i) by {
            if marker_at(s.skip(1), i) {
                assert(s.skip(1)[i] == s[i + 1]);
                assert(s.skip(1)[i + 1] == s[i + 2]);
                assert(marker_at(s, i + 1));
            }
        }
        lemma_trim_front_no_marker(s.skip(1));
    }
}

proof fn lemma_trim_back_no_marker(s: Seq<char>)
    requires
        !has_marker(s),
    ensures
        !has_marker(trim_back_spec(s)),
    decreases s.len(),
{
    if s.len() > 0 && is_space_char(s[s.len() - 1]) {
        assert forall|i: int| !marker_at(s.drop_last(), i) by {
            if marker_at(s.drop_last(), i) {
                assert(s.drop_last()[i] == s[i]);
                assert(s.drop_last()[i + 1] == s[i + 1]);
                assert(marker_at(s, i));
            }
        }
        lemma_trim_back_no_marker(s.drop_last());
    }
}

/// The extracted rules section holds no section marker of its own: the text
/// between the first two markers stops before the second one.
pub proof fn lemma_section_no_marker(s: Seq<char>)
    requires
        section_spec(s) is Ok,
    ensures
        !has_marker(section_spec(s)->Ok_0),
{
    let i = find_marker_spec(s, 0)->Some_0;
    lemma_find_marker_first(s, 0);
    let j = find_marker_spec(s, i + 2)->Some_0;
    lemma_find_marker_first(s, i + 2);
    let mid = s.subrange(i + 2, j);
    assert forall|m: int| !marker_at(mid, m) by {
        if marker_at(mid, m) {
            assert(mid[m] == s[i + 2 + m]);
            assert(mid[m + 1] == s[i + 2 + m + 1]);
            assert(marker_at(s, i + 2 + m));
        }
    }
    lemma_trim_front_no_marker(mid);
    lemma_trim_back_no_marker(trim_front_spec(mid));
}

/// Sectioning is not idempotent on its own output: the markers are consumed,
/// so sectioning the extracted text again fails unless markers are
/// re-supplied.
pub proof fn lemma_section_reapply_fails(s: Seq<char>)
    requires
        section_spec(s) is Ok,
    ensures
        section_spec(section_spec(s)->Ok_0) == Err::<Seq<char>, GrammarError>(
            GrammarError::MissingStartMarker,
        ),
{
    lemma_section_no_marker(s);
    let t = section_spec(s)->Ok_0;
    match find_marker_spec(t, 0) {
        Some(i) => {
            lemma_find_marker_first(t, 0);
            assert(marker_at(t, i));
            assert(false);
        },
        None => {},
    }
}

proof fn lemma_find_marker_at(s: Seq<char>, from: int, target: int)
    requires
        0 <= from <= target,
        marker_at(s, target),
        forall|k: int| from <= k < target ==> !marker_at(s, k),
    ensures
        find_marker_spec(s, from) == Some(target),
    decreases target - from,
{
    if from == target {
    } else {
        assert(!marker_at(s, from));
        lemma_find_marker_at(s, from + 1, target);
    }
}

/// Re-supplying the two markers around marker-free text makes sectioning
/// succeed again, yielding the trimmed text back: sectioning is idempotent
/// exactly when the markers are re-supplied.  (The text may not end with a
/// stray `%`, which would fuse with the re-supplied closing marker.)
pub proof fn lemma_section_with_markers(t: Seq<char>)
    requires
        !has_marker(t),
        t.len() == 0 || t[t.len() - 1] != '%',
    ensures
        section_spec(seq!['%', '%'] + t + seq!['%', '%']) == Ok::<Seq<char>, GrammarError>(
            trim_spec(t),
        ),
{
    let s2 = seq!['%', '%'] + t + seq!['%', '%'];
    assert(s2.len() == t.len() + 4);
    assert(s2[0] == '%');
    assert(s2[1] == '%');
    assert(marker_at(s2, 0));
    lemma_find_marker_at(s2, 0, 0);
    let second = 2 + t.len() as int;
    assert(s2[second] == '%');
    assert(s2[second + 1] == '%');
    assert(marker_at(s2, second));
    assert forall|k: int| 2 <= k < second implies !marker_at(s2, k) by {
        if marker_at(s2, k) {
            if k + 1 < second {
                assert(s2[k] == t[k - 2]);
                assert(s2[k + 1] == t[k - 1]);
                assert(marker_at(t, k - 2));
                assert(false);
            } else {
                assert(s2[k] == t[t.len() - 1]);
                assert(false);
            }
        }
    }
    lemma_find_marker_at(s2, 2, second);
    assert(s2.subrange(2, second) =~= t);
}

} // verus!
