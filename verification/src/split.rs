//! Quote-aware splitting of the cleaned rules text, and whitespace
//! tokenization of one alternative.
//!
//! A separator inside a single-quoted literal is part of the literal, never a
//! split point, so quoted terminals such as `';'` or `'|'` survive splitting
//! intact.

use vstd::prelude::*;
use crate::text::is_space_char;
use crate::text::is_space;

verus! {

/// Split the remainder `s` on `sep`, with `cur` the piece built so far and
/// `in_quote` whether the scan stands inside a single-quoted literal.
pub open spec fn split_from(s: Seq<char>, sep: char, in_quote: bool, cur: Seq<char>) -> Seq<
    Seq<char>,
>
    decreases s.len(),
{
    if s.len() == 0 {
        seq![cur]
    } else if s[0] == sep && !in_quote {
        seq![cur] + split_from(s.skip(1), sep, false, Seq::empty())
    } else {
        let q = if s[0] == '\'' {
            !in_quote
        } else {
            in_quote
        };
        split_from(s.skip(1), sep, q, cur.push(s[0]))
    }
}

/// The pieces of `s` between occurrences of `sep` that stand outside
/// single-quoted literals.  Always at least one piece.
pub open spec fn split_outside_quotes_spec(s: Seq<char>, sep: char) -> Seq<Seq<char>> {
    split_from(s, sep, false, Seq::empty())
}

/// Split `s` on every `sep` that stands outside single-quoted literals.
pub fn split_outside_quotes(s: &Vec<char>, sep: char) -> (r: Vec<Vec<char>>)
    ensures
        r.deep_view() == split_outside_quotes_spec(s@, sep),
        r.len() >= 1,
{
    let ghost whole: Seq<char> = s@;
    proof {
        assert(whole.skip(0) =~= whole);
    }
    let mut done: Vec<Vec<char>> = Vec::new();
    let mut cur: Vec<char> = Vec::new();
    let mut in_quote = false;
    let mut i: usize = 0;
    while i < s.len()
        invariant
            i <= s.len(),
            whole == s@,
            split_outside_quotes_spec(whole, sep) == done.deep_view() + split_from(
                whole.skip(i as int),
                sep,
                in_quote,
                cur@,
            ),
        decreases s.len() - i,
    {
        proof {
            assert(whole.skip(i as int)[0] == whole[i as int]);
            assert(whole.skip(i as int).skip(1) =~= whole.skip(i as int + 1));
        }
        let c = s[i];
        if c == sep && !in_quote {
            let ghost old_done = done.deep_view();
            let finished = cur;
            cur = Vec::new();
            done.push(finished);
            proof {
                assert(done.deep_view() =~~= old_done.push(finished@));
                assert(old_done + (seq![finished@] + split_from(
                    whole.skip(i as int + 1),
                    sep,
                    false,
                    Seq::empty(),
                )) =~~= done.deep_view() + split_from(
                    whole.skip(i as int + 1),
                    sep,
                    false,
                    Seq::empty(),
                ));
            }
        } else {
            if c == '\'' {
                in_quote = !in_quote;
            }
            cur.push(c);
        }
        i = i + 1;
    }
    proof {
        assert(whole.skip(whole.len() as int) =~= Seq::<char>::empty());
    }
    let ghost old_done = done.deep_view();
    done.push(cur);
    proof {
        assert(done.deep_view() =~~= old_done.push(cur@));
        assert(old_done + seq![cur@] =~~= done.deep_view());
    }
    done
}

/// Scan the remainder `s` for the first `sep` outside single-quoted
/// literals; `pre` is the text already passed over.  `None` when `s` holds
/// no such separator.
pub open spec fn split_once_from(s: Seq<char>, sep: char, in_quote: bool, pre: Seq<char>) -> Option<
    (Seq<char>, Seq<char>),
>
    decreases s.len(),
{
    if s.len() == 0 {
        None
    } else if s[0] == sep && !in_quote {
        Some((pre, s.skip(1)))
    } else {
        let q = if s[0] == '\'' {
            !in_quote
        } else {
            in_quote
        };
        split_once_from(s.skip(1), sep, q, pre.push(s[0]))
    }
}

/// The text before and after the first `sep` of `s` that stands outside
/// single-quoted literals, if there is one.
pub open spec fn split_once_outside_quotes_spec(s: Seq<char>, sep: char) -> Option<
    (Seq<char>, Seq<char>),
> {
    split_once_from(s, sep, false, Seq::empty())
}

/// Split `s` once, on the first `sep` outside single-quoted literals.
pub fn split_once_outside_quotes(s: &Vec<char>, sep: char) -> (r: Option<(Vec<char>, Vec<char>)>)
    ensures
        match r {
            Some(parts) => split_once_outside_quotes_spec(s@, sep) == Some(
                (parts.0@, parts.1@),
            ),
            None => split_once_outside_quotes_spec(s@, sep) == None::<(Seq<char>, Seq<char>)>,
        },
{
    let ghost whole: Seq<char> = s@;
    proof {
        assert(whole.skip(0) =~= whole);
        assert(whole.subrange(0, 0) =~= Seq::<char>::empty());
    }
    let mut in_quote = false;
    let mut i: usize = 0;
    while i < s.len() && !(s[i] == sep && !in_quote)
        invariant
            i <= s.len(),
            whole == s@,
            split_once_outside_quotes_spec(whole, sep) == split_once_from(
                whole.skip(i as int),
                sep,
                in_quote,
                whole.subrange(0, i as int),
            ),
        decreases s.len() - i,
    {
        proof {
            assert(whole.skip(i as int)[0] == whole[i as int]);
            assert(whole.skip(i as int).skip(1) =~= whole.skip(i as int + 1));
            assert(whole.subrange(0, i as int).push(whole[i as int]) =~= whole.subrange(
                0,
                i as int + 1,
            ));
        }
        if s[i] == '\'' {
            in_quote = !in_quote;
        }
        i = i + 1;
    }
    if i == s.len() {
        proof {
            assert(whole.skip(i as int) =~= Seq::<char>::empty());
        }
        return None;
    }
    proof {
        assert(whole.skip(i as int)[0] == whole[i as int]);
    }
    let mut before: Vec<char> = Vec::new();
    let mut k: usize = 0;
    while k < i
        invariant
            k <= i <= s.len(),
            whole == s@,
            before@ =~= whole.subrange(0, k as int),
        decreases i - k,
    {
        before.push(s[k]);
        k = k + 1;
    }
    let mut after: Vec<char> = Vec::new();
    let mut k2: usize = i + 1;
    while k2 < s.len()
        invariant
            i + 1 <= k2 <= s.len(),
            whole == s@,
            after@ =~= whole.subrange(i as int + 1, k2 as int),
        decreases s.len() - k2,
    {
        after.push(s[k2]);
        k2 = k2 + 1;
    }
    proof {
        assert(after@ =~= whole.skip(i as int + 1));
    }
    Some((before, after))
}

/// Gather the remainder `s` into whitespace-separated tokens, with `cur` the
/// token being built.
pub open spec fn tokens_from(s: Seq<char>, cur: Seq<char>) -> Seq<Seq<char>>
    decreases s.len(),
{
    if s.len() == 0 {
        if cur.len() > 0 {
            seq![cur]
        } else {
            Seq::empty()
        }
    } else if is_space_char(s[0]) {
        if cur.len() > 0 {
            seq![cur] + tokens_from(s.skip(1), Seq::empty())
        } else {
            tokens_from(s.skip(1), Seq::empty())
        }
    } else {
        tokens_from(s.skip(1), cur.push(s[0]))
    }
}

/// The whitespace-separated tokens of `s`, each non-empty, in order.
pub open spec fn tokens_spec(s: Seq<char>) -> Seq<Seq<char>> {
    tokens_from(s, Seq::empty())
}

/// Split `s` into whitespace-separated tokens, discarding the whitespace.
pub fn tokenize(s: &Vec<char>) -> (r: Vec<Vec<char>>)
    ensures
        r.deep_view() == tokens_spec(s@),
{
    let ghost whole: Seq<char> = s@;
    proof {
        assert(whole.skip(0) =~= whole);
    }
    let mut done: Vec<Vec<char>> = Vec::new();
    let mut cur: Vec<char> = Vec::new();
    let mut i: usize = 0;
    while i < s.len()
        invariant
            i <= s.len(),
            whole == s@,
            tokens_spec(whole) == done.deep_view() + tokens_from(whole.skip(i as int), cur@),
        decreases s.len() - i,
    {
        proof {
            assert(whole.skip(i as int)[0] == whole[i as int]);
            assert(whole.skip(i as int).skip(1) =~= whole.skip(i as int + 1));
        }
        let c = s[i];
        if is_space(c) {
            proof {
                if cur@.len() == 0 {
                    assert(cur@ =~= Seq::<char>::empty());
                }
            }
            if cur.len() > 0 {
                let ghost old_done = done.deep_view();
                let finished = cur;
                cur = Vec::new();
                done.push(finished);
                proof {
                    assert(done.deep_view() =~~= old_done.push(finished@));
                    assert(old_done + (seq![finished@] + tokens_from(
                        whole.skip(i as int + 1),
                        Seq::empty(),
                    )) =~~= done.deep_view() + tokens_from(
                        whole.skip(i as int + 1),
                        Seq::empty(),
                    ));
                }
            }
        } else {
            cur.push(c);
        }
        i = i + 1;
    }
    proof {
        assert(whole.skip(whole.len() as int) =~= Seq::<char>::empty());
    }
    if cur.len() > 0 {
        let ghost old_done = done.deep_view();
        done.push(cur);
        proof {
            assert(done.deep_view() =~~= old_done.push(cur@));
            assert(old_done + seq![cur@] =~~= done.deep_view());
        }
    } else {
        proof {
            assert(done.deep_view() + Seq::<Seq<char>>::empty() =~~= done.deep_view());
        }
    }
    done
}

} // verus!
