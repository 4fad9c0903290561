//! Character-buffer utilities: whitespace trimming, section-marker search,
//! extraction of the rules section, and building of character buffers.

use vstd::prelude::*;
use vstd::std_specs::iter::IteratorSpec;
use crate::errors::GrammarError;

verus! {

broadcast use vstd::string::axiom_spec_iter, vstd::string::next_postcondition;

/// A vector of characters views deeply as the same sequence it views
/// shallowly.
pub broadcast proof fn lemma_chars_deep_view(v: Vec<char>)
    ensures
        #[trigger] v.deep_view() == v@,
{
    assert(v.deep_view() =~= v@);
}

/// The whitespace characters recognized by trimming and tokenization.
pub open spec fn is_space_char(c: char) -> bool {
    c == ' ' || c == '\t' || c == '\n' || c == '\r'
}

/// Executable test for [`is_space_char`].
pub fn is_space(c: char) -> (r: bool)
    ensures
        r == is_space_char(c),
{
    c == ' ' || c == '\t' || c == '\n' || c == '\r'
}

/// `s` with its leading whitespace removed.
pub open spec fn trim_front_spec(s: Seq<char>) -> Seq<char>
    decreases s.len(),
{
    if s.len() > 0 && is_space_char(s[0]) {
        trim_front_spec(s.skip(1))
    } else {
        s
    }
}

/// `s` with its trailing whitespace removed.
pub open spec fn trim_back_spec(s: Seq<char>) -> Seq<char>
    decreases s.len(),
{
    if s.len() > 0 && is_space_char(s[s.len() - 1]) {
        trim_back_spec(s.drop_last())
    } else {
        s
    }
}

/// `s` with leading and trailing whitespace removed.
pub open spec fn trim_spec(s: Seq<char>) -> Seq<char> {
    trim_back_spec(trim_front_spec(s))
}

/// Remove leading and trailing whitespace from a character buffer.
pub fn trim_chars(s: &Vec<char>) -> (r: Vec<char>)
    ensures
        r@ == trim_spec(s@),
{
    let ghost whole: Seq<char> = s@;
    proof {
        assert(whole.skip(0) =~= whole);
    }
    let mut lo: usize = 0;
    while lo < s.len() && is_space(s[lo])
        invariant
            lo <= s.len(),
            whole == s@,
            trim_front_spec(whole) == trim_front_spec(whole.skip(lo as int)),
        decreases s.len() - lo,
    {
        proof {
            assert(whole.skip(lo as int)[0] == whole[lo as int]);
            assert(whole.skip(lo as int).skip(1) =~= whole.skip(lo as int + 1));
        }
        lo = lo + 1;
    }
    proof {
        assert(trim_front_spec(whole.skip(lo as int)) == whole.skip(lo as int));
    }
    let mut hi: usize = s.len();
    while hi > lo && is_space(s[hi - 1])
        invariant
            lo <= hi <= s.len(),
            whole == s@,
            trim_front_spec(whole) == whole.skip(lo as int),
            trim_back_spec(whole.skip(lo as int)) == trim_back_spec(
                whole.subrange(lo as int, hi as int),
            ),
        decreases hi,
    {
        proof {
            let part = whole.subrange(lo as int, hi as int);
            assert(part[part.len() - 1] == whole[hi - 1]);
            assert(part.drop_last() =~= whole.subrange(lo as int, hi as int - 1));
        }
        hi = hi - 1;
    }
    proof {
        let part = whole.subrange(lo as int, hi as int);
        if hi > lo {
            assert(part[part.len() - 1] == whole[hi - 1]);
        }
        assert(trim_back_spec(part) == part);
        if hi == lo {
            assert(whole.skip(lo as int).len() == whole.len() - lo);
        }
    }
    let mut r: Vec<char> = Vec::new();
    let mut k = lo;
    while k < hi
        invariant
            lo <= k <= hi <= s.len(),
            whole == s@,
            r@ =~= whole.subrange(lo as int, k as int),
        decreases hi - k,
    {
        r.push(s[k]);
        k = k + 1;
    }
    proof {
        assert(r@ =~= whole.subrange(lo as int, hi as int));
    }
    r
}

/// Whether a two-character section marker (`%%`) begins at position `i` of `s`.
pub open spec fn marker_at(s: Seq<char>, i: int) -> bool {
    0 <= i && i + 1 < s.len() && s[i] == '%' && s[i + 1] == '%'
}

/// The position of the first section marker at or after `from`, if any.
pub open spec fn find_marker_spec(s: Seq<char>, from: int) -> Option<int>
    decreases s.len() - from,
{
    if 0 <= from && from + 1 < s.len() {
        if s[from] == '%' && s[from + 1] == '%' {
            Some(from)
        } else {
            find_marker_spec(s, from + 1)
        }
    } else {
        None
    }
}

/// The result of [`find_marker_spec`] is the least marker position at or
/// after `from`.
pub proof fn lemma_find_marker_first(s: Seq<char>, from: int)
    requires
        0 <= from,
    ensures
        match find_marker_spec(s, from) {
            Some(i) => from <= i && marker_at(s, i) && forall|k: int|
                from <= k < i ==> !marker_at(s, k),
            None => forall|k: int| from <= k ==> !marker_at(s, k),
        },
    decreases s.len() - from,
{
    if 0 <= from && from + 1 < s.len() {
        if s[from] == '%' && s[from + 1] == '%' {
        } else {
            lemma_find_marker_first(s, from + 1);
        }
    }
}

/// Find the first section marker (`%%`) at or after index `from`.
pub fn find_marker(s: &Vec<char>, from: usize) -> (r: Option<usize>)
    ensures
        match r {
            Some(i) => find_marker_spec(s@, from as int) == Some(i as int) && from <= i && i + 1
                < s.len(),
            None => find_marker_spec(s@, from as int) == None::<int>,
        },
{
    let mut i = from;
    loop
        invariant
            from <= i,
            find_marker_spec(s@, from as int) == find_marker_spec(s@, i as int),
        decreases s@.len() - i,
    {
        if i >= s.len() || i + 1 >= s.len() {
            return None;
        }
        if s[i] == '%' && s[i + 1] == '%' {
            return Some(i);
        }
        i = i + 1;
    }
}

/// The rules section of a grammar source: the text strictly between the first
/// and second occurrence of the section marker, trimmed of surrounding
/// whitespace.  Missing either marker is a fatal condition.
pub open spec fn section_spec(s: Seq<char>) -> Result<Seq<char>, GrammarError> {
    match find_marker_spec(s, 0) {
        None => Err(GrammarError::MissingStartMarker),
        Some(i) => match find_marker_spec(s, i + 2) {
            None => Err(GrammarError::MissingEndMarker),
            Some(j) => Ok(trim_spec(s.subrange(i + 2, j))),
        },
    }
}

/// Extract the rules section delimited by the two section markers.
pub fn section_rules(source: &Vec<char>) -> (r: Result<Vec<char>, GrammarError>)
    ensures
        match r {
            Ok(v) => section_spec(source@) == Ok::<Seq<char>, GrammarError>(v@),
            Err(e) => section_spec(source@) == Err::<Seq<char>, GrammarError>(e),
        },
{
    let i = match find_marker(source, 0) {
        Some(i) => i,
        None => {
            return Err(GrammarError::MissingStartMarker);
        },
    };
    let j = match find_marker(source, i + 2) {
        Some(j) => j,
        None => {
            return Err(GrammarError::MissingEndMarker);
        },
    };
    let mut mid: Vec<char> = Vec::new();
    let mut k = i + 2;
    while k < j
        invariant
            i + 2 <= k <= j,
            j < source.len(),
            mid@ =~= source@.subrange(i as int + 2, k as int),
        decreases j - k,
    {
        mid.push(source[k]);
        k = k + 1;
    }
    proof {
        assert(mid@ =~= source@.subrange(i as int + 2, j as int));
    }
    Ok(trim_chars(&mid))
}

/// Append the characters of `src` to `dst`.
pub fn append_chars(dst: &mut Vec<char>, src: &Vec<char>)
    ensures
        final(dst)@ == old(dst)@ + src@,
{
    let mut k: usize = 0;
    while k < src.len()
        invariant
            k <= src.len(),
            dst@ =~= old(dst)@ + src@.take(k as int),
        decreases src.len() - k,
    {
        dst.push(src[k]);
        k = k + 1;
    }
    proof {
        assert(old(dst)@ + src@.take(src@.len() as int) =~= old(dst)@ + src@);
    }
}

/// Append the characters of a string slice to `dst`.
pub fn append_str(dst: &mut Vec<char>, s: &str)
    ensures
        final(dst)@ == old(dst)@ + s@,
{
    let mut it = s.chars();
    loop
        invariant
            dst@ + it.remaining() == old(dst)@ + s@,
            it.decrease() is Some,
        decreases it.decrease()->0,
    {
        let ghost before = it.remaining();
        match it.next() {
            Some(c) => {
                proof {
                    assert(dst@.push(c) + before.drop_first() =~= dst@ + before);
                }
                dst.push(c);
            },
            None => {
                proof {
                    assert(dst@ =~= dst@ + it.remaining());
                }
                return ;
            },
        }
    }
}

/// The characters of a string slice, as a vector.
pub fn vec_of_str(s: &str) -> (r: Vec<char>)
    ensures
        r@ == s@,
{
    let mut r: Vec<char> = Vec::new();
    append_str(&mut r, s);
    proof {
        assert(Seq::<char>::empty() + s@ =~= s@);
    }
    r
}

} // verus!
