//! Pattern symbols and the tokenizer.
//!
//! A pattern string is turned into a sequence of [`Token`]s, one forward
//! pass with one character of lookahead:
//!
//! - `^` becomes [`Token::Start`], `$` becomes [`Token::End`];
//! - a character `c` immediately followed by `*` becomes
//!   [`Token::ZeroOrMore`] of the kind of `c`, consuming both characters;
//! - any other character `c` becomes [`Token::Single`] of the kind of `c`;
//! - the kind of `.` is [`Single::Any`], of every other character
//!   [`Single::Literal`] of that character.
//!
//! The tokenizer performs no validation of anchor placement; that a `^`
//! stands only first and a `$` only last is [`token_wf`], which the matchers
//! require.

use vstd::prelude::*;

verus! {

/// What a single-character atom matches: any character, or one literal.
#[derive(Clone, Copy, Debug, PartialEq, Eq)]
pub enum Single {
    Any,
    Literal(char),
}

/// One pattern symbol.
#[derive(Clone, Copy, Debug, PartialEq, Eq)]
pub enum Token {
    /// Matches exactly one character of the given kind.
    Single(Single),
    /// Matches only at the start of the text; legal only as the first symbol.
    Start,
    /// Matches only at the end of the text; legal only as the last symbol.
    End,
    /// Matches zero or more consecutive characters of the given kind.
    ZeroOrMore(Single),
}

/// The kind of atom a pattern character stands for.
pub open spec fn kind_of(c: char) -> Single {
    if c == '.' {
        Single::Any
    } else {
        Single::Literal(c)
    }
}

impl From<char> for Single {
    fn from(c: char) -> (r: Single) {
        if c == '.' {
            Single::Any
        } else {
            Single::Literal(c)
        }
    }
}

impl vstd::std_specs::convert::FromSpecImpl<char> for Single {
    open spec fn obeys_from_spec() -> bool {
        true
    }

    open spec fn from_spec(c: char) -> Single {
        kind_of(c)
    }
}

/// The token sequence a pattern string denotes.
pub open spec fn spec_tokenize(p: Seq<char>) -> Seq<Token>
    decreases p.len(),
{
    if p.len() == 0 {
        Seq::empty()
    } else if p[0] == '^' {
        seq![Token::Start] + spec_tokenize(p.skip(1))
    } else if p[0] == '$' {
        seq![Token::End] + spec_tokenize(p.skip(1))
    } else if p.len() >= 2 && p[1] == '*' {
        seq![Token::ZeroOrMore(kind_of(p[0]))] + spec_tokenize(p.skip(2))
    } else {
        seq![Token::Single(kind_of(p[0]))] + spec_tokenize(p.skip(1))
    }
}

/// Anchor placement is structural: `Start` may stand only first,
/// `End` only last.
pub open spec fn token_wf(ts: Seq<Token>) -> bool {
    forall|i: int|
        0 <= i < ts.len() ==> ((ts[i] is Start ==> i == 0) && (ts[i] is End ==> i == ts.len() - 1))
}

/// The token that begins at position `i` of the pattern.
pub open spec fn token_at(p: Seq<char>, i: int) -> Token
    recommends
        0 <= i < p.len(),
{
    if p[i] == '^' {
        Token::Start
    } else if p[i] == '$' {
        Token::End
    } else if i + 1 < p.len() && p[i + 1] == '*' {
        Token::ZeroOrMore(kind_of(p[i]))
    } else {
        Token::Single(kind_of(p[i]))
    }
}

/// How many pattern characters that token consumes.
pub open spec fn token_width(p: Seq<char>, i: int) -> int
    recommends
        0 <= i < p.len(),
{
    if p[i] == '^' || p[i] == '$' {
        1
    } else if i + 1 < p.len() && p[i + 1] == '*' {
        2
    } else {
        1
    }
}

/// Tokenizing a suffix of the pattern peels off exactly the token that
/// begins there.
pub proof fn lemma_tokenize_at(p: Seq<char>, i: int)
    requires
        0 <= i <= p.len(),
    ensures
        i == p.len() ==> spec_tokenize(p.skip(i)) == Seq::<Token>::empty(),
        i < p.len() ==> 1 <= token_width(p, i) && i + token_width(p, i) <= p.len(),
        i < p.len() ==> spec_tokenize(p.skip(i)) == seq![token_at(p, i)] + spec_tokenize(
            p.skip(i + token_width(p, i)),
        ),
{
    let s = p.skip(i);
    if i == p.len() {
        assert(s =~= Seq::<char>::empty());
    } else {
        assert(s[0] == p[i]);
        if s.len() >= 2 {
            assert(s[1] == p[i + 1]);
        }
        crate::semantics::lemma_skip_skip(p, i, 1);
        if i + 2 <= p.len() {
            crate::semantics::lemma_skip_skip(p, i, 2);
        }
    }
}

/// The characters of a string, in order.
pub fn chars_of(s: &str) -> (v: Vec<char>)
    ensures
        v@ == s@,
{
    let n = s.unicode_len();
    let mut v: Vec<char> = Vec::new();
    let mut i: usize = 0;
    while i < n
        invariant
            n == s@.len(),
            i <= n,
            v@ == s@.subrange(0, i as int),
        decreases n - i,
    {
        let c = s.get_char(i);
        v.push(c);
        i = i + 1;
        proof {
            assert(v@ =~= s@.subrange(0, i as int));
        }
    }
    proof {
        assert(s@.subrange(0, s@.len() as int) =~= s@);
    }
    v
}

/// The tokenizer: one forward pass with one character of lookahead.
pub fn tokens_of(p: &Vec<char>) -> (ts: Vec<Token>)
    ensures
        ts@ == spec_tokenize(p@),
{
    let mut ts: Vec<Token> = Vec::new();
    let mut i: usize = 0;
    proof {
        assert(p@.skip(0) =~= p@);
        assert(ts@ + spec_tokenize(p@) =~= spec_tokenize(p@));
    }
    while i < p.len()
        invariant
            i <= p@.len(),
            ts@ + spec_tokenize(p@.skip(i as int)) == spec_tokenize(p@),
        decreases p@.len() - i,
    {
        let c = p[i];
        let tok: Token;
        let w: usize;
        if c == '^' {
            tok = Token::Start;
            w = 1;
        } else if c == '$' {
            tok = Token::End;
            w = 1;
        } else if i + 1 < p.len() && p[i + 1] == '*' {
            tok = Token::ZeroOrMore(Single::from(c));
            w = 2;
        } else {
            tok = Token::Single(Single::from(c));
            w = 1;
        }
        proof {
            lemma_tokenize_at(p@, i as int);
            assert(tok == token_at(p@, i as int));
            assert(w == token_width(p@, i as int));
        }
        let ghost ts_old = ts@;
        ts.push(tok);
        proof {
            assert(ts@ + spec_tokenize(p@.skip(i + w)) =~= ts_old + (seq![tok] + spec_tokenize(
                p@.skip(i + w),
            )));
        }
        i = i + w;
    }
    proof {
        assert(p@.skip(p@.len() as int) =~= Seq::<char>::empty());
        assert(ts@ + Seq::<Token>::empty() =~= ts@);
    }
    ts
}

/// A materialized token sequence, as the tokenizer emits it.
#[derive(Clone, Debug, PartialEq, Eq)]
pub struct Tokens {
    pub(crate) toks: Vec<Token>,
}

impl View for Tokens {
    type V = Seq<Token>;

    closed spec fn view(&self) -> Seq<Token> {
        self.toks@
    }
}

impl Tokens {
    /// The number of tokens.
    pub fn len(&self) -> (n: usize)
        ensures
            n == self@.len(),
    {
        self.toks.len()
    }

    /// The tokens, surrendered as a plain vector.
    pub fn into_vec(self) -> (v: Vec<Token>)
        ensures
            v@ == self@,
    {
        self.toks
    }

    /// The token at position `i`.
    pub fn get(&self, i: usize) -> (t: Token)
        requires
            i < self@.len(),
        ensures
            t == self@[i as int],
    {
        self.toks[i]
    }

    /// Whether anchors stand only where the structural contract allows.
    pub fn well_formed(&self) -> (b: bool)
        ensures
            b == token_wf(self@),
    {
        let n = self.toks.len();
        let mut i: usize = 0;
        while i < n
            invariant
                n == self@.len(),
                i <= n,
                forall|k: int|
                    0 <= k < i ==> ((self@[k] is Start ==> k == 0) && (self@[k] is End ==> k == n
                        - 1)),
            decreases n - i,
        {
            let misplaced = match self.toks[i] {
                Token::Start => i != 0,
                Token::End => i != n - 1,
                _ => false,
            };
            if misplaced {
                return false;
            }
            i = i + 1;
        }
        true
    }
}

/// Produces the token sequence of a pattern string.
pub trait Tokenize: View<V = Seq<char>> {
    fn tokenize(&self) -> (r: Tokens)
        ensures
            r@ == spec_tokenize(self@),
    ;
}

impl Tokenize for str {
    fn tokenize(&self) -> (r: Tokens) {
        let p = chars_of(self);
        Tokens { toks: tokens_of(&p) }
    }
}

/// Whether a pattern string places its anchors legally: `^` only as the
/// first symbol, `$` only as the last. The matchers require this of their
/// patterns.
pub fn pattern_ok(pattern: &str) -> (b: bool)
    ensures
        b == token_wf(spec_tokenize(pattern@)),
{
    pattern.tokenize().well_formed()
}

} // verus!
