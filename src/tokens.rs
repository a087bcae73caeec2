//! Tokens of a source file and the choice of the token under a cursor.
use vstd::prelude::*;

verus! {

/// What the token's immediate syntactic parent makes of it, with the symbol (an index
/// into the package's symbol table) that the semantic model resolves it to, if any.
#[derive(Clone, Copy, Debug, PartialEq, Eq, Structural)]
pub enum Site {
    /// The name being declared at a binding site.
    Binding(Option<usize>),
    /// A use of an existing name.
    Reference(Option<usize>),
    /// Punctuation, a keyword, a literal, or any other token.
    Other,
}

/// One token: its byte range `[start, end)`, whether it is an identifier, and its site.
#[derive(Clone, Copy, Debug, PartialEq, Eq, Structural)]
pub struct Token {
    pub start: usize,
    pub end: usize,
    pub ident: bool,
    pub site: Site,
}

/// The tokens found at an offset: none, one, or the two that meet there.
#[derive(Clone, Copy, Debug, PartialEq, Eq, Structural)]
pub enum TokenAt {
    Nothing,
    Single(usize),
    Between(usize, usize),
}

/// Tokens are non-empty and tile the text from offset 0 without gaps.
pub open spec fn tokens_wf(tokens: Seq<Token>) -> bool {
    &&& forall|i: int| 0 <= i < tokens.len() ==> #[trigger] tokens[i].start < tokens[i].end
    &&& forall|i: int|
        0 <= i < tokens.len() - 1 ==> #[trigger] tokens[i].end == tokens[i + 1].start
    &&& tokens.len() > 0 ==> tokens[0].start == 0
}

/// Offset just past the last token.
pub open spec fn tokens_end(tokens: Seq<Token>) -> nat {
    if tokens.len() == 0 {
        0
    } else {
        tokens.last().end as nat
    }
}

/// Index of the first token, from `k` on, that ends after `off` (`tokens.len()` if none).
pub open spec fn first_ending_after(tokens: Seq<Token>, off: nat, k: nat) -> nat
    decreases tokens.len() - k,
{
    if k >= tokens.len() {
        tokens.len()
    } else if off < tokens[k as int].end {
        k
    } else {
        first_ending_after(tokens, off, k + 1)
    }
}

/// The tokens at `off`: the token that holds it strictly inside, the first or last token
/// at either end of the text, or else the two tokens that meet exactly at `off`.
pub open spec fn token_at_spec(tokens: Seq<Token>, off: nat) -> TokenAt {
    if tokens.len() == 0 {
        TokenAt::Nothing
    } else if off >= tokens.last().end {
        TokenAt::Single((tokens.len() - 1) as usize)
    } else {
        let i = first_ending_after(tokens, off, 0);
        if i > 0 && off == tokens[i as int].start {
            TokenAt::Between((i - 1) as usize, i as usize)
        } else {
            TokenAt::Single(i as usize)
        }
    }
}

/// The token a cursor at `off` refers to: at a boundary, the right token when it is an
/// identifier, else the left one.
pub open spec fn picked(tokens: Seq<Token>, at: TokenAt) -> Option<nat> {
    match at {
        TokenAt::Nothing => None,
        TokenAt::Single(i) => Some(i as nat),
        TokenAt::Between(l, r) => if tokens[r as int].ident {
            Some(r as nat)
        } else {
            Some(l as nat)
        },
    }
}

proof fn lemma_first_ending_after_in_range(tokens: Seq<Token>, off: nat, k: nat)
    requires
        k < tokens.len(),
        off < tokens.last().end,
    ensures
        k <= first_ending_after(tokens, off, k) < tokens.len(),
    decreases tokens.len() - k,
{
    if off >= tokens[k as int].end {
        lemma_first_ending_after_in_range(tokens, off, k + 1);
    }
}

/// The token that the boundary rule picks is one of the tokens.
pub proof fn lemma_picked_in_range(tokens: Seq<Token>, off: nat)
    requires
        tokens_wf(tokens),
    ensures
        picked(tokens, token_at_spec(tokens, off)) matches Some(k) ==> k < tokens.len(),
{
    if tokens.len() > 0 && off < tokens.last().end {
        lemma_first_ending_after_in_range(tokens, off, 0);
    }
}

/// The tokens of `tokens` at byte offset `off`.
pub fn token_at(tokens: &Vec<Token>, off: usize) -> (r: TokenAt)
    requires
        tokens_wf(tokens@),
        off <= tokens_end(tokens@),
    ensures
        r == token_at_spec(tokens@, off as nat),
        r is Nothing <==> tokens@.len() == 0,
        r matches TokenAt::Single(i) ==> i < tokens@.len() && (tokens@[i as int].start < off
            < tokens@[i as int].end || (off == 0 && i == 0) || (off == tokens@[i as int].end
            && i == tokens@.len() - 1)),
        r matches TokenAt::Between(l, rt) ==> rt == l + 1 && rt < tokens@.len()
            && tokens@[l as int].end == off && tokens@[rt as int].start == off,
{
    let n = tokens.len();
    if n == 0 {
        return TokenAt::Nothing;
    }
    if off >= tokens[n - 1].end {
        return TokenAt::Single(n - 1);
    }
    let mut i: usize = 0;
    while i < n && tokens[i].end <= off
        invariant
            n == tokens@.len() > 0,
            off < tokens@[n - 1].end,
            i <= n,
            first_ending_after(tokens@, off as nat, 0) == first_ending_after(tokens@, off as nat, i as nat),
            forall|j: int| 0 <= j < i ==> #[trigger] tokens@[j].end <= off,
        decreases n - i,
    {
        i = i + 1;
    }
    if i >= n {
        assert(tokens@[n - 1].end <= off);
    }
    if i > 0 && off == tokens[i].start {
        TokenAt::Between(i - 1, i)
    } else {
        if i > 0 {
            assert(tokens@[i - 1].end <= off);
            assert(tokens@[i - 1].end == tokens@[i as int].start);
        }
        TokenAt::Single(i)
    }
}

/// Applies the boundary rule to the tokens at an offset.
pub fn pick_token(tokens: &Vec<Token>, at: TokenAt) -> (r: Option<usize>)
    requires
        at matches TokenAt::Single(i) ==> i < tokens@.len(),
        at matches TokenAt::Between(l, rt) ==> l < tokens@.len() && rt < tokens@.len(),
    ensures
        r matches Some(k) ==> picked(tokens@, at) == Some(k as nat),
        r is None ==> picked(tokens@, at) is None,
{
    match at {
        TokenAt::Nothing => None,
        TokenAt::Single(i) => Some(i),
        TokenAt::Between(l, rt) => if tokens[rt].ident {
            Some(rt)
        } else {
            Some(l)
        },
    }
}

/// Where a cursor sits between an identifier and a token that is not one, the
/// identifier is chosen, whichever side of the boundary it is on.
pub proof fn lemma_boundary_prefers_identifier(tokens: Seq<Token>, off: nat)
    requires
        tokens_wf(tokens),
        off <= tokens_end(tokens),
        token_at_spec(tokens, off) matches TokenAt::Between(l, r) && l < tokens.len() && r
            < tokens.len() && tokens[l as int].ident != tokens[r as int].ident,
    ensures
        picked(tokens, token_at_spec(tokens, off)) matches Some(k) && tokens[k as int].ident,
{
}

} // verus!
