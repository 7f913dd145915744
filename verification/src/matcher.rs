//! The token-driven matcher: a recursive backtracking walk over a
//! materialized token sequence and a text.

use vstd::prelude::*;

use crate::parse::Single;
use crate::parse::Token;
use crate::parse::Tokenize;
use crate::parse::Tokens;
use crate::parse::chars_of;
use crate::parse::spec_tokenize;
use crate::parse::token_wf;
use crate::semantics::kind_matches;
use crate::semantics::lemma_skip_skip;
use crate::semantics::spec_is_match;
use crate::semantics::spec_match_here;
use crate::semantics::spec_match_rest;
use crate::semantics::spec_match_star;

verus! {

/// A matcher for one token sequence, reusable over any number of texts.
#[derive(Clone, Debug)]
pub struct Matcher {
    toks: Vec<Token>,
}

impl View for Matcher {
    type V = Seq<Token>;

    closed spec fn view(&self) -> Seq<Token> {
        self.toks@
    }
}

impl Matcher {
    /// A matcher that decides the given token sequence.
    pub fn new(tokens: Tokens) -> (m: Matcher)
        ensures
            m@ == tokens@,
    {
        Matcher { toks: tokens.into_vec() }
    }

    /// Whether the token sequence matches the text: anchored to the start
    /// of the text when the first token is `Start`, else at any offset.
    pub fn is_match(&self, text: &str) -> (b: bool)
        requires
            token_wf(self@),
        ensures
            b == spec_is_match(self@, text@),
    {
        let t = chars_of(text);
        proof {
            assert(self@.skip(0) =~= self@);
            assert(t@.skip(0) =~= t@);
        }
        let anchored = self.toks.len() > 0 && match self.toks[0] {
            Token::Start => true,
            _ => false,
        };
        if anchored {
            self.match_here(1, &t, 0)
        } else {
            self.match_rest(0, &t, 0)
        }
    }

    /// The unanchored scan: the tokens from `i` match at some offset of the
    /// text at or after `j`, the empty suffix included.
    fn match_rest(&self, i: usize, text: &Vec<char>, j: usize) -> (b: bool)
        requires
            i <= self@.len(),
            j <= text@.len(),
        ensures
            b == spec_match_rest(self@.skip(i as int), text@.skip(j as int)),
        decreases text@.len() - j,
    {
        if self.match_here(i, text, j) {
            true
        } else if j == text.len() {
            false
        } else {
            proof {
                lemma_skip_skip(text@, j as int, 1);
            }
            self.match_rest(i, text, j + 1)
        }
    }

    /// The tokens from `i` match a prefix of the text from `j`, starting
    /// exactly there.
    fn match_here(&self, i: usize, text: &Vec<char>, j: usize) -> (b: bool)
        requires
            i <= self@.len(),
            j <= text@.len(),
        ensures
            b == spec_match_here(self@.skip(i as int), text@.skip(j as int)),
        decreases self@.len() - i, text@.len() - j, 0int,
    {
        if i == self.toks.len() {
            proof {
                assert(self@.skip(i as int) =~= Seq::<Token>::empty());
            }
            true
        } else {
            proof {
                assert(self@.skip(i as int)[0] == self@[i as int]);
                lemma_skip_skip(self@, i as int, 1);
            }
            match self.toks[i] {
                Token::ZeroOrMore(k) => self.match_star(k, i + 1, text, j),
                Token::End => j == text.len(),
                Token::Single(k) => {
                    if j < text.len() && kind_allows(k, text[j]) {
                        proof {
                            lemma_skip_skip(text@, j as int, 1);
                        }
                        self.match_here(i + 1, text, j + 1)
                    } else {
                        false
                    }
                },
                Token::Start => false,
            }
        }
    }

    /// Zero or more characters of kind `k` from `j`, then the tokens from
    /// `i`. The zero-repetition continuation is tried before a character is
    /// consumed.
    fn match_star(&self, k: Single, i: usize, text: &Vec<char>, j: usize) -> (b: bool)
        requires
            i <= self@.len(),
            j <= text@.len(),
        ensures
            b == spec_match_star(k, self@.skip(i as int), text@.skip(j as int)),
        decreases self@.len() - i, text@.len() - j, 1int,
    {
        if self.match_here(i, text, j) {
            true
        } else if j < text.len() && kind_allows(k, text[j]) {
            proof {
                lemma_skip_skip(text@, j as int, 1);
            }
            self.match_star(k, i, text, j + 1)
        } else {
            false
        }
    }
}

/// Whether an atom of kind `k` accepts the character `c`.
fn kind_allows(k: Single, c: char) -> (b: bool)
    ensures
        b == kind_matches(k, c),
{
    match k {
        Single::Any => true,
        Single::Literal(l) => l == c,
    }
}

/// Whether `regexp` matches `text`: anchored to the start of the text when
/// the pattern begins with `^`, else somewhere in the text.
///
/// A pattern that places an anchor illegally (`^` not first or `$` not
/// last) violates the structural contract and is excluded by the
/// precondition; [`crate::parse::pattern_ok`] tests it.
pub fn match_regexp(regexp: &str, text: &str) -> (b: bool)
    requires
        token_wf(spec_tokenize(regexp@)),
    ensures
        b == spec_is_match(spec_tokenize(regexp@), text@),
{
    Matcher::new(regexp.tokenize()).is_match(text)
}

} // verus!
