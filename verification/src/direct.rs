//! The direct matcher: the same recursive backtracking decision procedure,
//! reading the pattern string itself with one character of lookahead
//! instead of a materialized token sequence.
//!
//! Every function here is proved equal to the token semantics of
//! [`crate::semantics`], applied to the tokens the pattern denotes; the
//! matcher of [`crate::matcher`] carries the same contract, so the two
//! agree on every pattern and text.

use vstd::prelude::*;

use crate::parse::chars_of;
use crate::parse::kind_of;
use crate::parse::lemma_tokenize_at;
use crate::parse::spec_tokenize;
use crate::parse::token_at;
use crate::parse::token_wf;
use crate::parse::token_width;
use crate::semantics::lemma_skip_skip;
use crate::semantics::spec_is_match;
use crate::semantics::spec_match_rest;
use crate::semantics::spec_match_star;

verus! {

/// Whether `regexp` matches `text`: anchored to the start of the text when
/// the pattern begins with `^`, else somewhere in the text.
///
/// A pattern that places an anchor illegally (`^` not first or `$` not
/// last) violates the structural contract and is excluded by the
/// precondition; [`crate::parse::pattern_ok`] tests it.
#[verifier::loop_isolation(false)]
pub fn match_regexp(regexp: &str, text: &str) -> (b: bool)
    requires
        token_wf(spec_tokenize(regexp@)),
    ensures
        b == spec_is_match(spec_tokenize(regexp@), text@),
{
    let pat = chars_of(regexp);
    let txt = chars_of(text);
    let ghost ts = spec_tokenize(pat@);
    proof {
        assert(pat@.skip(0) =~= pat@);
        assert(txt@.skip(0) =~= txt@);
        if pat@.len() > 0 {
            lemma_tokenize_at(pat@, 0);
            assert(ts[0] == token_at(pat@, 0));
        }
    }
    if pat.len() > 0 && pat[0] == '^' {
        proof {
            assert(ts.skip(1) =~= spec_tokenize(pat@.skip(token_width(pat@, 0))));
        }
        match_here(&pat, 1, &txt, 0)
    } else {
        let mut j: usize = 0;
        loop
            invariant
                j <= txt@.len(),
                spec_match_rest(ts, txt@.skip(j as int)) == spec_match_rest(ts, txt@),
            decreases txt@.len() - j,
        {
            if match_here(&pat, 0, &txt, j) {
                return true;
            }
            if j == txt.len() {
                proof {
                    assert(txt@.skip(j as int).len() == 0);
                }
                return false;
            }
            proof {
                lemma_skip_skip(txt@, j as int, 1);
            }
            j = j + 1;
        }
    }
}

/// The pattern from `i` matches a prefix of the text from `j`, starting
/// exactly there.
fn match_here(pat: &Vec<char>, i: usize, text: &Vec<char>, j: usize) -> (b: bool)
    requires
        i <= pat@.len(),
        j <= text@.len(),
    ensures
        b == crate::semantics::spec_match_here(
            spec_tokenize(pat@.skip(i as int)),
            text@.skip(j as int),
        ),
    decreases pat@.len() - i, text@.len() - j, 0int,
{
    proof {
        lemma_tokenize_at(pat@, i as int);
    }
    if i == pat.len() {
        true
    } else {
        let ghost ts = spec_tokenize(pat@.skip(i as int));
        let ghost rest = spec_tokenize(pat@.skip(i + token_width(pat@, i as int)));
        proof {
            assert(ts[0] == token_at(pat@, i as int));
            assert(ts.skip(1) =~= rest);
        }
        let c = pat[i];
        if c == '^' {
            false
        } else if c == '$' {
            j == text.len()
        } else if i + 1 < pat.len() && pat[i + 1] == '*' {
            match_star(c, pat, i + 2, text, j)
        } else if j < text.len() && (c == '.' || text[j] == c) {
            proof {
                assert(text@.skip(j as int)[0] == text@[j as int]);
                lemma_skip_skip(text@, j as int, 1);
            }
            match_here(pat, i + 1, text, j + 1)
        } else {
            proof {
                if j < text@.len() {
                    assert(text@.skip(j as int)[0] == text@[j as int]);
                }
            }
            false
        }
    }
}

/// Zero or more characters matching `starred` from `j`, then the pattern
/// from `i`. The zero-repetition continuation is tried before a character
/// is consumed.
fn match_star(starred: char, pat: &Vec<char>, i: usize, text: &Vec<char>, j: usize) -> (b: bool)
    requires
        i <= pat@.len(),
        j <= text@.len(),
    ensures
        b == spec_match_star(
            kind_of(starred),
            spec_tokenize(pat@.skip(i as int)),
            text@.skip(j as int),
        ),
    decreases pat@.len() - i, text@.len() - j, 1int,
{
    if match_here(pat, i, text, j) {
        true
    } else if j < text.len() && (starred == '.' || text[j] == starred) {
        proof {
            assert(text@.skip(j as int)[0] == text@[j as int]);
            lemma_skip_skip(text@, j as int, 1);
        }
        match_star(starred, pat, i, text, j + 1)
    } else {
        proof {
            if j < text@.len() {
                assert(text@.skip(j as int)[0] == text@[j as int]);
            }
        }
        false
    }
}

} // verus!
