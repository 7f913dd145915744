//! The matching semantics, over a token suffix and a text suffix.
//!
//! Both executable matchers are proved equal to [`spec_is_match`], so the
//! one definition below is the whole meaning of the library.

use vstd::prelude::*;

use crate::parse::Single;
use crate::parse::Token;

verus! {

/// Whether an atom of the given kind matches one character.
pub open spec fn kind_matches(k: Single, c: char) -> bool {
    match k {
        Single::Any => true,
        Single::Literal(l) => l == c,
    }
}

/// Whether the remaining tokens match a prefix of the remaining text,
/// starting exactly here.
///
/// An exhausted token sequence matches anything; `End` matches exactly the
/// end of the text (by the structural contract it is the last token, so no
/// continuation is considered); a misplaced `Start` matches nothing.
pub open spec fn spec_match_here(ts: Seq<Token>, t: Seq<char>) -> bool
    decreases ts.len(), t.len(), 0int,
{
    if ts.len() == 0 {
        true
    } else {
        match ts[0] {
            Token::ZeroOrMore(k) => spec_match_star(k, ts.skip(1), t),
            Token::End => t.len() == 0,
            Token::Single(k) => t.len() > 0 && kind_matches(k, t[0]) && spec_match_here(
                ts.skip(1),
                t.skip(1),
            ),
            Token::Start => false,
        }
    }
}

/// Zero or more characters of kind `k`, then the continuation `ts`.
///
/// The zero-repetition case is tried first; only if it fails, and only if
/// the next character matches `k`, is one character consumed and the whole
/// decision retried.
pub open spec fn spec_match_star(k: Single, ts: Seq<Token>, t: Seq<char>) -> bool
    decreases ts.len(), t.len(), 1int,
{
    if spec_match_here(ts, t) {
        true
    } else if t.len() > 0 && kind_matches(k, t[0]) {
        spec_match_star(k, ts, t.skip(1))
    } else {
        false
    }
}

/// The unanchored search: the tokens match at some suffix of the text,
/// tried left to right, the empty suffix included.
pub open spec fn spec_match_rest(ts: Seq<Token>, t: Seq<char>) -> bool
    decreases t.len(),
{
    if spec_match_here(ts, t) {
        true
    } else if t.len() == 0 {
        false
    } else {
        spec_match_rest(ts, t.skip(1))
    }
}

/// The top-level dispatch: a leading `Start` anchors the rest of the
/// pattern to the beginning of the text; otherwise every offset is tried.
pub open spec fn spec_is_match(ts: Seq<Token>, t: Seq<char>) -> bool {
    if ts.len() > 0 && ts[0] is Start {
        spec_match_here(ts.skip(1), t)
    } else {
        spec_match_rest(ts, t)
    }
}

/// The empty pattern matches every text, including the empty text.
pub proof fn lemma_empty_pattern_matches(p: Seq<char>, t: Seq<char>)
    requires
        p.len() == 0,
    ensures
        spec_is_match(crate::parse::spec_tokenize(p), t),
{
    assert(crate::parse::spec_tokenize(p).len() == 0);
}

/// Repetition includes the zero case: where the continuation already
/// matches, a starred atom of any kind consumes nothing and matches too.
pub proof fn lemma_star_zero(k: Single, ts: Seq<Token>, t: Seq<char>)
    requires
        spec_match_here(ts, t),
    ensures
        spec_match_star(k, ts, t),
{
}

/// The same, one level up: prefixing a matching token sequence with a
/// starred atom of any kind leaves it matching.
pub proof fn lemma_star_zero_here(k: Single, ts: Seq<Token>, t: Seq<char>)
    requires
        spec_match_here(ts, t),
    ensures
        spec_match_here(seq![Token::ZeroOrMore(k)] + ts, t),
{
    let full = seq![Token::ZeroOrMore(k)] + ts;
    assert(full[0] == Token::ZeroOrMore(k));
    assert(full.skip(1) =~= ts);
    lemma_star_zero(k, ts, t);
}

/// The unanchored search scans all offsets: it succeeds exactly when some
/// suffix of the text, the empty one included, matches starting there.
pub proof fn lemma_match_rest_iff_offset(ts: Seq<Token>, t: Seq<char>)
    ensures
        spec_match_rest(ts, t) <==> (exists|j: int|
            0 <= j <= t.len() && spec_match_here(ts, #[trigger] t.skip(j))),
    decreases t.len(),
{
    assert(t.skip(0) =~= t);
    if spec_match_here(ts, t) {
        assert(spec_match_here(ts, t.skip(0)));
    } else if t.len() == 0 {
        assert forall|j: int| 0 <= j <= t.len() implies !spec_match_here(ts, #[trigger] t.skip(j)) by {
            assert(t.skip(j) =~= t);
        }
    } else {
        lemma_match_rest_iff_offset(ts, t.skip(1));
        if spec_match_rest(ts, t.skip(1)) {
            let j0 = choose|j: int|
                0 <= j <= t.skip(1).len() && spec_match_here(ts, #[trigger] t.skip(1).skip(j));
            lemma_skip_skip(t, 1, j0);
            assert(spec_match_here(ts, t.skip(1 + j0)));
        } else {
            assert forall|j: int| 0 <= j <= t.len() implies !spec_match_here(
                ts,
                #[trigger] t.skip(j),
            ) by {
                if j == 0 {
                    assert(t.skip(j) =~= t);
                } else {
                    lemma_skip_skip(t, 1, j - 1);
                    assert(t.skip(j) == t.skip(1).skip(j - 1));
                }
            }
        }
    }
}

/// Skipping in two steps is skipping once.
pub proof fn lemma_skip_skip<A>(s: Seq<A>, i: int, k: int)
    requires
        0 <= i,
        0 <= k,
        i + k <= s.len(),
    ensures
        s.skip(i).skip(k) == s.skip(i + k),
{
    assert(s.skip(i).skip(k) =~= s.skip(i + k));
}

} // verus!
