use vstd::prelude::*;

use vstd::std_specs::iter::IteratorSpec;

use crate::codec::{decode_ids, encode_text, encoded};
use crate::error::InferError;

verus! {

/// The sum of a sequence of token ids.
pub open spec fn token_sum(s: Seq<u32>) -> int
    decreases s.len(),
{
    if s.len() == 0 {
        0
    } else {
        token_sum(s.drop_last()) + s.last()
    }
}

/// The last `n` entries of `s`, or all of them where it has fewer.
pub open spec fn last_n(s: Seq<u32>, n: nat) -> Seq<u32> {
    if s.len() <= n {
        s
    } else {
        s.skip(s.len() - n)
    }
}

/// The first `n` entries of `s`, or all of them where it has fewer.
pub open spec fn first_n(s: Seq<u32>, n: nat) -> Seq<u32> {
    if s.len() <= n {
        s
    } else {
        s.take(n as int)
    }
}

/// The sum of at most four token ids fits in a seed.
pub proof fn lemma_sum_bound(s: Seq<u32>)
    ensures
        0 <= token_sum(s) <= s.len() * 0xffff_ffff,
    decreases s.len(),
{
    if s.len() > 0 {
        lemma_sum_bound(s.drop_last());
    }
}

/// The sum of `s` over the positions `lo .. hi`, computed as a seed.
fn sum_range(s: &Vec<u32>, lo: usize, hi: usize) -> (r: u64)
    requires
        lo <= hi <= s.len(),
        hi - lo <= 4,
    ensures
        r == token_sum(s@.subrange(lo as int, hi as int)),
{
    let mut r: u64 = 0;
    let mut i: usize = lo;
    while i < hi
        invariant
            lo <= i <= hi <= s.len(),
            hi - lo <= 4,
            r == token_sum(s@.subrange(lo as int, i as int)),
        decreases hi - i,
    {
        proof {
            assert(s@.subrange(lo as int, i + 1).drop_last() =~= s@.subrange(lo as int, i as int));
            lemma_sum_bound(s@.subrange(lo as int, i as int));
        }
        r = r + s[i] as u64;
        i = i + 1;
    }
    r
}

/// An ordered sequence of token ids.
#[derive(Clone, Debug)]
pub struct TokenString {
    pub tokens: Vec<u32>,
}

impl View for TokenString {
    type V = Seq<u32>;

    open spec fn view(&self) -> Seq<u32> {
        self.tokens@
    }
}

impl TokenString {
    /// A token string holding `tokens`.
    pub fn new(tokens: Vec<u32>) -> (r: TokenString)
        ensures
            r@ == tokens@,
    {
        TokenString { tokens }
    }

    /// A token string without tokens.
    pub fn empty() -> (r: TokenString)
        ensures
            r@ == Seq::<u32>::empty(),
    {
        TokenString { tokens: Vec::new() }
    }

    /// A token string with the same tokens.
    pub fn copy(&self) -> (r: TokenString)
        ensures
            r@ == self@,
    {
        TokenString { tokens: self.tokens.clone() }
    }

    /// The encoding of `text`.
    pub fn encode(codec: &tokenizers::Tokenizer, text: &str) -> (r: Result<TokenString, InferError>)
        ensures
            r matches Ok(t) ==> encoded(text@, t@),
            r matches Err(e) ==> e == InferError::Codec,
    {
        match encode_text(codec, text) {
            Some(ids) => Ok(TokenString { tokens: ids }),
            None => Err(InferError::Codec),
        }
    }

    /// Push a token.
    pub fn push(&mut self, token: u32)
        ensures
            final(self)@ == old(self)@.push(token),
    {
        self.tokens.push(token);
    }

    /// Push many tokens.
    pub fn push_many(&mut self, tokens: &[u32])
        ensures
            final(self)@ == old(self)@ + tokens@,
    {
        let ghost start = self@;
        let mut i: usize = 0;
        while i < tokens.len()
            invariant
                i <= tokens@.len(),
                self@ == start + tokens@.take(i as int),
            decreases tokens.len() - i,
        {
            self.tokens.push(tokens[i]);
            assert(tokens@.take(i + 1) =~= tokens@.take(i as int).push(tokens@[i as int]));
            i = i + 1;
        }
        assert(tokens@.take(i as int) =~= tokens@);
    }

    /// Push the tokens of another token string.
    pub fn extend(&mut self, other: &TokenString)
        ensures
            final(self)@ == old(self)@ + other@,
    {
        self.push_many(other.tokens.as_slice());
    }

    /// Encode a text and push its tokens. On an error of the tokenizer nothing
    /// is pushed.
    pub fn push_str(&mut self, codec: &tokenizers::Tokenizer, text: &str) -> (r: Result<(), InferError>)
        ensures
            r is Ok ==> exists|e: Seq<u32>| #[trigger] encoded(text@, e) && final(self)@ == old(self)@ + e,
            r matches Err(e) ==> e == InferError::Codec && final(self)@ == old(self)@,
    {
        match encode_text(codec, text) {
            Some(ids) => {
                self.push_many(ids.as_slice());
                assert(encoded(text@, ids@));
                Ok(())
            },
            None => Err(InferError::Codec),
        }
    }

    /// Keep at most the first `len` tokens.
    pub fn truncate(&mut self, len: usize)
        ensures
            final(self)@ == first_n(old(self)@, len as nat),
    {
        self.tokens.truncate(len);
    }

    /// The number of tokens.
    pub fn len(&self) -> (r: usize)
        ensures
            r == self@.len(),
    {
        self.tokens.len()
    }

    /// Whether there are no tokens.
    pub fn is_empty(&self) -> (r: bool)
        ensures
            r == (self@.len() == 0),
    {
        self.tokens.len() == 0
    }

    /// The tokens at positions `start .. end`, or `None` where the range does
    /// not lie within the token string.
    pub fn get(&self, start: usize, end: usize) -> (r: Option<Vec<u32>>)
        ensures
            r is Some <==> start <= end <= self@.len(),
            r matches Some(v) ==> v@ == self@.subrange(start as int, end as int),
    {
        if start > end || end > self.tokens.len() {
            return None;
        }
        let mut v: Vec<u32> = Vec::new();
        let mut i: usize = start;
        while i < end
            invariant
                start <= i <= end <= self@.len(),
                v@ == self@.subrange(start as int, i as int),
            decreases end - i,
        {
            v.push(self.tokens[i]);
            assert(self@.subrange(start as int, i + 1) =~= self@.subrange(start as int, i as int).push(self@[i as int]));
            i = i + 1;
        }
        Some(v)
    }

    /// The tokens as a slice.
    pub fn as_slice(&self) -> (r: &[u32])
        ensures
            r@ == self@,
    {
        self.tokens.as_slice()
    }

    /// The tokens as a mutable slice.
    pub fn as_mut_slice(&mut self) -> (r: &mut [u32])
        ensures
            r@ == old(self)@,
            final(self)@ == final(r)@,
    {
        self.tokens.as_mut_slice()
    }

    /// An iterator over the tokens.
    pub fn iter(&self) -> (r: std::slice::Iter<'_, u32>)
        ensures
            IteratorSpec::remaining(&r) == self@.as_ref(),
    {
        let r = self.tokens.as_slice().iter();
        proof {
            broadcast use vstd::std_specs::slice::axiom_spec_slice_iter;
        }
        r
    }

    /// The tokens as a vector.
    pub fn into_vec(self) -> (r: Vec<u32>)
        ensures
            r@ == self@,
    {
        self.tokens
    }

    /// The decoded text of the tokens.
    pub fn to_string(&self, codec: &tokenizers::Tokenizer) -> (r: Result<String, InferError>)
        ensures
            r matches Err(e) ==> e == InferError::Codec,
    {
        match decode_ids(codec, self.tokens.as_slice()) {
            Some(text) => Ok(text),
            None => Err(InferError::Codec),
        }
    }

    /// A seed derived from the content: the sum of the last four tokens (of
    /// all of them where there are fewer).
    pub fn trailing_seed(&self) -> (r: u64)
        ensures
            r == token_sum(last_n(self@, 4)),
    {
        let n = self.tokens.len();
        let lo: usize = if n <= 4 { 0 } else { n - 4 };
        let r = sum_range(&self.tokens, lo, n);
        assert(self@.subrange(lo as int, n as int) =~= last_n(self@, 4));
        r
    }

    /// The seed of an instruction given without one: the sum of its last
    /// four tokens, or 0 where it has fewer than four.
    pub fn instruct_seed(&self) -> (r: u64)
        ensures
            r == (if self@.len() < 4 { 0 } else { token_sum(last_n(self@, 4)) }),
    {
        if self.tokens.len() < 4 {
            0
        } else {
            self.trailing_seed()
        }
    }

    /// A seed derived from the content: the sum of the first four tokens (of
    /// all of them where there are fewer).
    pub fn leading_seed(&self) -> (r: u64)
        ensures
            r == token_sum(first_n(self@, 4)),
    {
        let n = self.tokens.len();
        let hi: usize = if n <= 4 { n } else { 4 };
        let r = sum_range(&self.tokens, 0, hi);
        assert(self@.subrange(0, hi as int) =~= first_n(self@, 4));
        r
    }
}

/// The attempts at a summary of a token string that fits a budget. Attempt
/// `i` uses the sum of the first four tokens of the text plus `i` as its
/// seed, wrapping around; the first summary within the budget is taken.
pub struct Shortening {
    base: u64,
    max_tokens: usize,
    max_attempts: usize,
    attempt: usize,
}

impl Shortening {
    /// The seed of the first attempt.
    pub closed spec fn base_seed(&self) -> u64 {
        self.base
    }

    /// The most tokens a summary may have.
    pub closed spec fn budget(&self) -> nat {
        self.max_tokens as nat
    }

    /// The number of attempts allowed.
    pub closed spec fn attempts_allowed(&self) -> nat {
        self.max_attempts as nat
    }

    /// The number of attempts made.
    pub closed spec fn attempts_made(&self) -> nat {
        self.attempt as nat
    }

    /// No attempt made yet at summarizing `text`.
    pub fn new(text: &TokenString, max_tokens: usize, max_attempts: usize) -> (r: Shortening)
        ensures
            r.base_seed() == token_sum(first_n(text@, 4)),
            r.budget() == max_tokens,
            r.attempts_allowed() == max_attempts,
            r.attempts_made() == 0,
    {
        Shortening { base: text.leading_seed(), max_tokens, max_attempts, attempt: 0 }
    }

    /// The seed of the next attempt, or `None` once all were made.
    pub fn next_seed(&mut self) -> (r: Option<u64>)
        ensures
            final(self).base_seed() == old(self).base_seed(),
            final(self).budget() == old(self).budget(),
            final(self).attempts_allowed() == old(self).attempts_allowed(),
            old(self).attempts_made() < old(self).attempts_allowed() ==> {
                &&& r == Some(old(self).base_seed().wrapping_add(old(self).attempts_made() as u64))
                &&& final(self).attempts_made() == old(self).attempts_made() + 1
            },
            old(self).attempts_made() >= old(self).attempts_allowed() ==> {
                &&& r is None
                &&& final(self).attempts_made() == old(self).attempts_made()
            },
    {
        if self.attempt >= self.max_attempts {
            return None;
        }
        let seed = self.base.wrapping_add(self.attempt as u64);
        self.attempt = self.attempt + 1;
        Some(seed)
    }

    /// Whether `summary` is within the budget.
    pub fn fits(&self, summary: &TokenString) -> (r: bool)
        ensures
            r == (summary@.len() <= self.budget()),
    {
        summary.len() <= self.max_tokens
    }
}

} // verus!
