//! The three cleaning passes over the rules section: semantic-action (brace)
//! stripping with full nesting support, comment stripping, and declaration
//! directive stripping.

use vstd::prelude::*;
use crate::errors::GrammarError;

verus! {

/// One depth-tracked scan over `s`: characters at nesting depth zero are
/// kept, `{` opens a level, `}` closes one, and everything inside a brace
/// block (the braces themselves included) is dropped.  A `}` with no open
/// block is ordinary text.  `None` means some `{` is never closed.
pub open spec fn strip_actions_from(s: Seq<char>, depth: nat, acc: Seq<char>) -> Option<Seq<char>>
    decreases s.len(),
{
    if s.len() == 0 {
        if depth == 0 {
            Some(acc)
        } else {
            None
        }
    } else if s[0] == '{' {
        strip_actions_from(s.skip(1), depth + 1, acc)
    } else if s[0] == '}' && depth > 0 {
        strip_actions_from(s.skip(1), (depth - 1) as nat, acc)
    } else if depth == 0 {
        strip_actions_from(s.skip(1), 0, acc.push(s[0]))
    } else {
        strip_actions_from(s.skip(1), depth, acc)
    }
}

/// `s` with every balanced brace block removed, or `None` when a block is
/// left open (more `{` than `}`).
pub open spec fn strip_actions_spec(s: Seq<char>) -> Option<Seq<char>> {
    strip_actions_from(s, 0, Seq::empty())
}

/// Remove every brace-delimited semantic action from `content`, however
/// deeply the braces nest.  A `{` that is never closed is a fatal condition.
pub fn remove_semantic_actions(content: &Vec<char>) -> (r: Result<Vec<char>, GrammarError>)
    ensures
        match r {
            Ok(v) => strip_actions_spec(content@) == Some(v@),
            Err(e) => strip_actions_spec(content@) == None::<Seq<char>> && e
                == GrammarError::UnbalancedBraces,
        },
{
    let mut out: Vec<char> = Vec::new();
    let mut depth: usize = 0;
    let mut i: usize = 0;
    proof {
        assert(content@.skip(0) =~= content@);
    }
    while i < content.len()
        invariant
            i <= content.len(),
            depth <= i,
            strip_actions_spec(content@) == strip_actions_from(
                content@.skip(i as int),
                depth as nat,
                out@,
            ),
        decreases content.len() - i,
    {
        proof {
            assert(content@.skip(i as int)[0] == content@[i as int]);
            assert(content@.skip(i as int).skip(1) =~= content@.skip(i as int + 1));
        }
        let c = content[i];
        if c == '{' {
            depth = depth + 1;
        } else if c == '}' && depth > 0 {
            depth = depth - 1;
        } else if depth == 0 {
            out.push(c);
        }
        i = i + 1;
    }
    proof {
        assert(content@.skip(content@.len() as int) =~= Seq::<char>::empty());
    }
    if depth == 0 {
        Ok(out)
    } else {
        Err(GrammarError::UnbalancedBraces)
    }
}

/// The remainder of `s` after the close of a brace block already entered
/// `depth` levels deep, or `None` when the block never closes.
pub open spec fn skip_action_spec(s: Seq<char>, depth: nat) -> Option<Seq<char>>
    decreases s.len(),
{
    if s.len() == 0 {
        None
    } else if s[0] == '{' {
        skip_action_spec(s.skip(1), depth + 1)
    } else if s[0] == '}' {
        if depth == 1 {
            Some(s.skip(1))
        } else {
            skip_action_spec(s.skip(1), (depth - 1) as nat)
        }
    } else {
        skip_action_spec(s.skip(1), depth)
    }
}

/// `acc` is the text already scanned (it holds no `{`).  The result removes
/// the first balanced brace block of `s`: `Ok(None)` when `s` has no `{`,
/// `Ok(Some(t))` when the block was removed leaving `t`, and an error when
/// the first `{` is never closed.
pub open spec fn remove_first_action_from(s: Seq<char>, acc: Seq<char>) -> Result<
    Option<Seq<char>>,
    GrammarError,
>
    decreases s.len(),
{
    if s.len() == 0 {
        Ok(None)
    } else if s[0] == '{' {
        match skip_action_spec(s.skip(1), 1) {
            None => Err(GrammarError::UnbalancedBraces),
            Some(rest) => Ok(Some(acc + rest)),
        }
    } else {
        remove_first_action_from(s.skip(1), acc.push(s[0]))
    }
}

/// Remove the first brace block of `s`, keeping the text before and after it.
pub open spec fn remove_first_action_spec(s: Seq<char>) -> Result<
    Option<Seq<char>>,
    GrammarError,
> {
    remove_first_action_from(s, Seq::empty())
}

/// Remove the first brace-delimited semantic action from `content`: the span
/// from the first `{` through its matching `}`, tracking nesting.  Returns
/// `Ok(None)` when no `{` remains, and fails when the block never closes.
pub fn remove_first_semantic_action(content: &Vec<char>) -> (r: Result<
    Option<Vec<char>>,
    GrammarError,
>)
    ensures
        match r {
            Ok(None) => remove_first_action_spec(content@) == Ok::<_, GrammarError>(
                None::<Seq<char>>,
            ),
            Ok(Some(v)) => remove_first_action_spec(content@) == Ok::<_, GrammarError>(
                Some(v@),
            ),
            Err(e) => remove_first_action_spec(content@) == Err::<Option<Seq<char>>, _>(e),
        },
{
    let ghost whole: Seq<char> = content@;
    proof {
        assert(whole.skip(0) =~= whole);
        assert(whole.subrange(0, 0) =~= Seq::<char>::empty());
    }
    let mut i: usize = 0;
    while i < content.len() && content[i] != '{'
        invariant
            i <= content.len(),
            whole == content@,
            remove_first_action_spec(whole) == remove_first_action_from(
                whole.skip(i as int),
                whole.subrange(0, i as int),
            ),
        decreases content.len() - i,
    {
        proof {
            assert(whole.skip(i as int)[0] == whole[i as int]);
            assert(whole.skip(i as int).skip(1) =~= whole.skip(i as int + 1));
            assert(whole.subrange(0, i as int).push(whole[i as int]) =~= whole.subrange(
                0,
                i as int + 1,
            ));
        }
        i = i + 1;
    }
    if i == content.len() {
        proof {
            assert(whole.skip(i as int) =~= Seq::<char>::empty());
        }
        return Ok(None);
    }
    // content[i] is the first '{'; scan for its matching close.
    proof {
        assert(whole.skip(i as int)[0] == whole[i as int]);
        assert(whole.skip(i as int).skip(1) =~= whole.skip(i as int + 1));
    }
    let mut depth: usize = 1;
    let mut j: usize = i + 1;
    while j < content.len() && !(depth == 1 && content[j] == '}')
        invariant
            i + 1 <= j <= content.len(),
            whole == content@,
            1 <= depth <= j,
            skip_action_spec(whole.skip(i as int + 1), 1) == skip_action_spec(
                whole.skip(j as int),
                depth as nat,
            ),
            remove_first_action_spec(whole) == match skip_action_spec(
                whole.skip(i as int + 1),
                1,
            ) {
                None => Err::<Option<Seq<char>>, _>(GrammarError::UnbalancedBraces),
                Some(rest) => Ok::<_, GrammarError>(Some(whole.subrange(0, i as int) + rest)),
            },
        decreases content.len() - j,
    {
        proof {
            assert(whole.skip(j as int)[0] == whole[j as int]);
            assert(whole.skip(j as int).skip(1) =~= whole.skip(j as int + 1));
        }
        let c = content[j];
        if c == '{' {
            depth = depth + 1;
        } else if c == '}' {
            depth = depth - 1;
        }
        j = j + 1;
    }
    if j == content.len() {
        proof {
            assert(whole.skip(j as int) =~= Seq::<char>::empty());
        }
        return Err(GrammarError::UnbalancedBraces);
    }
    proof {
        assert(whole.skip(j as int)[0] == whole[j as int]);
        assert(whole.skip(j as int).skip(1) =~= whole.skip(j as int + 1));
    }
    let mut out: Vec<char> = Vec::new();
    let mut k: usize = 0;
    while k < i
        invariant
            k <= i <= content.len(),
            whole == content@,
            out@ =~= whole.subrange(0, k as int),
        decreases i - k,
    {
        out.push(content[k]);
        k = k + 1;
    }
    let mut k2: usize = j + 1;
    while k2 < content.len()
        invariant
            j + 1 <= k2 <= content.len(),
            whole == content@,
            out@ =~= whole.subrange(0, i as int) + whole.subrange(j as int + 1, k2 as int),
        decreases content.len() - k2,
    {
        proof {
            assert((whole.subrange(0, i as int) + whole.subrange(j as int + 1, k2 as int)).push(
                whole[k2 as int],
            ) =~= whole.subrange(0, i as int) + whole.subrange(j as int + 1, k2 as int + 1));
        }
        out.push(content[k2]);
        k2 = k2 + 1;
    }
    proof {
        assert(whole.skip(j as int + 1) =~= whole.subrange(j as int + 1, whole.len() as int));
    }
    Ok(Some(out))
}

proof fn lemma_skip_strip_some(u: Seq<char>, d: nat, acc: Seq<char>)
    requires
        1 <= d,
        skip_action_spec(u, d) is Some,
    ensures
        strip_actions_from(u, d, acc) == strip_actions_from(
            skip_action_spec(u, d)->Some_0,
            0,
            acc,
        ),
    decreases u.len(),
{
    if u.len() == 0 {
    } else if u[0] == '{' {
        lemma_skip_strip_some(u.skip(1), d + 1, acc);
    } else if u[0] == '}' {
        if d == 1 {
        } else {
            lemma_skip_strip_some(u.skip(1), (d - 1) as nat, acc);
        }
    } else {
        lemma_skip_strip_some(u.skip(1), d, acc);
    }
}

proof fn lemma_skip_strip_none(u: Seq<char>, d: nat, acc: Seq<char>)
    requires
        1 <= d,
        skip_action_spec(u, d) is None,
    ensures
        strip_actions_from(u, d, acc) == None::<Seq<char>>,
    decreases u.len(),
{
    if u.len() == 0 {
    } else if u[0] == '{' {
        lemma_skip_strip_none(u.skip(1), d + 1, acc);
    } else if u[0] == '}' {
        lemma_skip_strip_none(u.skip(1), (d - 1) as nat, acc);
    } else {
        lemma_skip_strip_none(u.skip(1), d, acc);
    }
}

proof fn lemma_strip_prefix(a: Seq<char>, u: Seq<char>, acc: Seq<char>)
    requires
        forall|k: int| 0 <= k < a.len() ==> a[k] != '{',
    ensures
        strip_actions_from(a + u, 0, acc) == strip_actions_from(u, 0, acc + a),
    decreases a.len(),
{
    if a.len() == 0 {
        assert(a + u =~= u);
        assert(acc + a =~= acc);
    } else {
        let c = a[0];
        assert((a + u)[0] == c);
        assert((a + u).skip(1) =~= a.skip(1) + u);
        lemma_strip_prefix(a.skip(1), u, acc.push(c));
        assert(acc.push(c) + a.skip(1) =~= acc + a);
    }
}

proof fn lemma_remove_first_strip_from(s: Seq<char>, acc: Seq<char>)
    requires
        forall|k: int| 0 <= k < acc.len() ==> acc[k] != '{',
    ensures
        match remove_first_action_from(s, acc) {
            Ok(None) => strip_actions_from(s, 0, acc) == Some(acc + s),
            Ok(Some(t)) => strip_actions_from(s, 0, acc) == strip_actions_spec(t),
            Err(_) => strip_actions_from(s, 0, acc) == None::<Seq<char>>,
        },
    decreases s.len(),
{
    if s.len() == 0 {
        assert(acc + s =~= acc);
    } else if s[0] == '{' {
        match skip_action_spec(s.skip(1), 1) {
            None => {
                lemma_skip_strip_none(s.skip(1), 1, acc);
            },
            Some(rest) => {
                lemma_skip_strip_some(s.skip(1), 1, acc);
                lemma_strip_prefix(acc, rest, Seq::empty());
                assert(Seq::<char>::empty() + acc =~= acc);
            },
        }
    } else {
        lemma_remove_first_strip_from(s.skip(1), acc.push(s[0]));
        assert(acc.push(s[0]) + s.skip(1) =~= acc + s);
    }
}

/// The full stripping pass is the fixpoint of one-action removal: where no
/// action remains the pass returns the text unchanged, removing the first
/// action does not change the final result, and an unclosed action fails
/// the pass.
pub proof fn lemma_strip_is_iterated_removal(s: Seq<char>)
    ensures
        match remove_first_action_spec(s) {
            Ok(None) => strip_actions_spec(s) == Some(s),
            Ok(Some(t)) => strip_actions_spec(s) == strip_actions_spec(t),
            Err(_) => strip_actions_spec(s) == None::<Seq<char>>,
        },
{
    lemma_remove_first_strip_from(s, Seq::empty());
    assert(Seq::<char>::empty() + s =~= s);
}

/// Whether every `{` of `s`, scanned from nesting depth `depth`, is matched
/// by a later `}`, and every `}` closes some open `{`.
pub open spec fn balanced_from(s: Seq<char>, depth: nat) -> bool
    decreases s.len(),
{
    if s.len() == 0 {
        depth == 0
    } else if s[0] == '{' {
        balanced_from(s.skip(1), depth + 1)
    } else if s[0] == '}' {
        depth > 0 && balanced_from(s.skip(1), (depth - 1) as nat)
    } else {
        balanced_from(s.skip(1), depth)
    }
}

/// Whether the braces of `s` are fully balanced.
pub open spec fn braces_balanced(s: Seq<char>) -> bool {
    balanced_from(s, 0)
}

/// The nesting depth left open at the end of `s`, starting from `depth`;
/// a `}` with nothing open is ordinary text and changes nothing.
pub open spec fn open_depth_from(s: Seq<char>, depth: nat) -> nat
    decreases s.len(),
{
    if s.len() == 0 {
        depth
    } else if s[0] == '{' {
        open_depth_from(s.skip(1), depth + 1)
    } else if s[0] == '}' && depth > 0 {
        open_depth_from(s.skip(1), (depth - 1) as nat)
    } else {
        open_depth_from(s.skip(1), depth)
    }
}

proof fn lemma_strip_balanced_from(s: Seq<char>, depth: nat, acc: Seq<char>)
    requires
        balanced_from(s, depth),
        forall|k: int| 0 <= k < acc.len() ==> acc[k] != '{' && acc[k] != '}',
    ensures
        strip_actions_from(s, depth, acc) matches Some(t) && forall|k: int|
            0 <= k < t.len() ==> t[k] != '{' && t[k] != '}',
    decreases s.len(),
{
    if s.len() == 0 {
    } else if s[0] == '{' {
        lemma_strip_balanced_from(s.skip(1), depth + 1, acc);
    } else if s[0] == '}' {
        lemma_strip_balanced_from(s.skip(1), (depth - 1) as nat, acc);
    } else if depth == 0 {
        lemma_strip_balanced_from(s.skip(1), 0, acc.push(s[0]));
    } else {
        lemma_strip_balanced_from(s.skip(1), depth, acc);
    }
}

/// On an input whose braces are balanced, action stripping succeeds and its
/// result holds no brace character at all; the characters outside the removed
/// blocks are kept in their original order (that order is the definition of
/// [`strip_actions_spec`] itself).
pub proof fn lemma_strip_actions_balanced(s: Seq<char>)
    requires
        braces_balanced(s),
    ensures
        strip_actions_spec(s) matches Some(t) && forall|k: int|
            0 <= k < t.len() ==> t[k] != '{' && t[k] != '}',
{
    lemma_strip_balanced_from(s, 0, Seq::empty());
}

proof fn lemma_strip_open_from(s: Seq<char>, depth: nat, acc: Seq<char>)
    requires
        open_depth_from(s, depth) > 0,
    ensures
        strip_actions_from(s, depth, acc) == None::<Seq<char>>,
    decreases s.len(),
{
    if s.len() == 0 {
    } else if s[0] == '{' {
        lemma_strip_open_from(s.skip(1), depth + 1, acc);
    } else if s[0] == '}' && depth > 0 {
        lemma_strip_open_from(s.skip(1), (depth - 1) as nat, acc);
    } else if depth == 0 {
        lemma_strip_open_from(s.skip(1), 0, acc.push(s[0]));
    } else {
        lemma_strip_open_from(s.skip(1), depth, acc);
    }
}

/// On an input with more opening than closing braces (some block is left
/// open), action stripping fails rather than returning a truncated result.
pub proof fn lemma_strip_actions_unbalanced(s: Seq<char>)
    requires
        open_depth_from(s, 0) > 0,
    ensures
        strip_actions_spec(s) == None::<Seq<char>>,
{
    lemma_strip_open_from(s, 0, Seq::empty());
}

/// The scanning state of the comment stripper.
#[derive(Clone, Copy, PartialEq, Eq, Structural, Debug)]
pub enum CommentMode {
    /// Ordinary grammar text.
    Code,
    /// Inside a line comment, up to the next newline.
    Line,
    /// Inside a block comment, up to the nearest close marker.
    Block,
}

/// One scan over `s` that drops line comments (`//` through the newline that
/// ends them, the newline included) and block comments (`/*` through the
/// nearest `*/`, not nested).  A comment left open at the end of the text
/// runs to the end of the text.
pub open spec fn strip_comments_from(s: Seq<char>, mode: CommentMode, acc: Seq<char>) -> Seq<char>
    decreases s.len(),
{
    if s.len() == 0 {
        acc
    } else {
        match mode {
            CommentMode::Code => {
                if s.len() >= 2 && s[0] == '/' && s[1] == '/' {
                    strip_comments_from(s.skip(2), CommentMode::Line, acc)
                } else if s.len() >= 2 && s[0] == '/' && s[1] == '*' {
                    strip_comments_from(s.skip(2), CommentMode::Block, acc)
                } else {
                    strip_comments_from(s.skip(1), CommentMode::Code, acc.push(s[0]))
                }
            },
            CommentMode::Line => {
                if s[0] == '\n' {
                    strip_comments_from(s.skip(1), CommentMode::Code, acc)
                } else {
                    strip_comments_from(s.skip(1), CommentMode::Line, acc)
                }
            },
            CommentMode::Block => {
                if s.len() >= 2 && s[0] == '*' && s[1] == '/' {
                    strip_comments_from(s.skip(2), CommentMode::Code, acc)
                } else {
                    strip_comments_from(s.skip(1), CommentMode::Block, acc)
                }
            },
        }
    }
}

/// `s` with every line and block comment removed.
pub open spec fn strip_comments_spec(s: Seq<char>) -> Seq<char> {
    strip_comments_from(s, CommentMode::Code, Seq::empty())
}

/// Remove every line comment (`//` to end of line) and block comment
/// (`/*` to the nearest `*/`) from `content`.
pub fn strip_comments(content: &Vec<char>) -> (r: Vec<char>)
    ensures
        r@ == strip_comments_spec(content@),
{
    let ghost whole: Seq<char> = content@;
    proof {
        assert(whole.skip(0) =~= whole);
    }
    let mut out: Vec<char> = Vec::new();
    let mut mode = CommentMode::Code;
    let mut i: usize = 0;
    while i < content.len()
        invariant
            i <= content.len(),
            whole == content@,
            strip_comments_spec(whole) == strip_comments_from(
                whole.skip(i as int),
                mode,
                out@,
            ),
        decreases content.len() - i,
    {
        proof {
            assert(whole.skip(i as int)[0] == whole[i as int]);
            assert(whole.skip(i as int).skip(1) =~= whole.skip(i as int + 1));
            if i + 1 < whole.len() {
                assert(whole.skip(i as int)[1] == whole[i as int + 1]);
                assert(whole.skip(i as int).skip(2) =~= whole.skip(i as int + 2));
            }
        }
        let c = content[i];
        match mode {
            CommentMode::Code => {
                if i + 1 < content.len() && c == '/' && content[i + 1] == '/' {
                    mode = CommentMode::Line;
                    i = i + 2;
                } else if i + 1 < content.len() && c == '/' && content[i + 1] == '*' {
                    mode = CommentMode::Block;
                    i = i + 2;
                } else {
                    out.push(c);
                    i = i + 1;
                }
            },
            CommentMode::Line => {
                if c == '\n' {
                    mode = CommentMode::Code;
                }
                i = i + 1;
            },
            CommentMode::Block => {
                if i + 1 < content.len() && c == '*' && content[i + 1] == '/' {
                    mode = CommentMode::Code;
                    i = i + 2;
                } else {
                    i = i + 1;
                }
            },
        }
    }
    proof {
        assert(whole.skip(whole.len() as int) =~= Seq::<char>::empty());
    }
    out
}

/// Whether `s` begins with a declaration keyword (`%token` or `%nterm`).
pub open spec fn directive_starts(s: Seq<char>) -> bool {
    s.len() >= 6 && s[0] == '%' && ((s[1] == 't' && s[2] == 'o' && s[3] == 'k' && s[4] == 'e'
        && s[5] == 'n') || (s[1] == 'n' && s[2] == 't' && s[3] == 'e' && s[4] == 'r' && s[5]
        == 'm'))
}

/// One scan over `s` that drops every declaration directive: a line break
/// followed by a declaration keyword, through the `;` that ends the
/// declaration (the line break and the `;` are dropped with it).
pub open spec fn strip_directives_from(s: Seq<char>, in_directive: bool, acc: Seq<char>) -> Seq<
    char,
>
    decreases s.len(),
{
    if s.len() == 0 {
        acc
    } else if in_directive {
        if s[0] == ';' {
            strip_directives_from(s.skip(1), false, acc)
        } else {
            strip_directives_from(s.skip(1), true, acc)
        }
    } else if s[0] == '\n' && directive_starts(s.skip(1)) {
        strip_directives_from(s.skip(1), true, acc)
    } else {
        strip_directives_from(s.skip(1), false, acc.push(s[0]))
    }
}

/// `s` with every terminal/non-terminal declaration removed.
pub open spec fn strip_directives_spec(s: Seq<char>) -> Seq<char> {
    strip_directives_from(s, false, Seq::empty())
}

/// Executable test for [`directive_starts`] at offset `from` of `s`.
fn is_directive_at(s: &Vec<char>, from: usize) -> (r: bool)
    requires
        from <= s.len(),
    ensures
        r == directive_starts(s@.skip(from as int)),
{
    if s.len() - from < 6 {
        return false;
    }
    let kw_token = s[from] == '%' && s[from + 1] == 't' && s[from + 2] == 'o' && s[from + 3]
        == 'k' && s[from + 4] == 'e' && s[from + 5] == 'n';
    let kw_nterm = s[from] == '%' && s[from + 1] == 'n' && s[from + 2] == 't' && s[from + 3]
        == 'e' && s[from + 4] == 'r' && s[from + 5] == 'm';
    proof {
        assert(forall|k: int| 0 <= k < 6 ==> s@.skip(from as int)[k] == s@[from as int + k]);
    }
    kw_token || kw_nterm
}

/// Remove every whole declaration of terminals or non-terminals (`%token`,
/// `%nterm`) from `content`; each runs from its introducing line break to
/// the next `;`.
pub fn strip_directives(content: &Vec<char>) -> (r: Vec<char>)
    ensures
        r@ == strip_directives_spec(content@),
{
    let ghost whole: Seq<char> = content@;
    proof {
        assert(whole.skip(0) =~= whole);
    }
    let mut out: Vec<char> = Vec::new();
    let mut in_directive = false;
    let mut i: usize = 0;
    while i < content.len()
        invariant
            i <= content.len(),
            whole == content@,
            strip_directives_spec(whole) == strip_directives_from(
                whole.skip(i as int),
                in_directive,
                out@,
            ),
        decreases content.len() - i,
    {
        proof {
            assert(whole.skip(i as int)[0] == whole[i as int]);
            assert(whole.skip(i as int).skip(1) =~= whole.skip(i as int + 1));
        }
        let c = content[i];
        if in_directive {
            if c == ';' {
                in_directive = false;
            }
        } else if c == '\n' && is_directive_at(content, i + 1) {
            in_directive = true;
        } else {
            out.push(c);
        }
        i = i + 1;
    }
    proof {
        assert(whole.skip(whole.len() as int) =~= Seq::<char>::empty());
    }
    out
}

} // verus!
