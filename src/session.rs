use vstd::prelude::*;

use crate::codec::{token_id, vocabulary_id};
use crate::error::InferError;
use crate::text::{ends_with_any, ends_with_any_of, first_marker, first_marker_spec};
use crate::token_string::{last_n, TokenString};

verus! {

/// The tokens of `samples` before the first end-of-sequence token.
pub open spec fn before_eos(samples: Seq<u32>, eos: u32) -> Seq<u32>
    decreases samples.len(),
{
    if samples.len() == 0 || samples[0] == eos {
        Seq::empty()
    } else {
        seq![samples[0]] + before_eos(samples.drop_first(), eos)
    }
}

/// The bit pattern of the `f32` 1.0: a repetition penalty that changes nothing.
pub const NO_PENALTY: u32 = 0x3f80_0000;

/// The token that ends a generation.
pub open spec fn end_of_text() -> Seq<char> {
    "<|endoftext|>"@
}

/// The seed of a generation: the seed asked for, plus the model's own seed,
/// wrapping around.
pub fn session_seed(seed: u64, model_seed: u64) -> (r: u64)
    ensures
        r == seed.wrapping_add(model_seed),
{
    seed.wrapping_add(model_seed)
}

/// `after` is `before` once the engine sampled `t`, and `r` is what the step
/// yields.
pub open spec fn stepped(before: InferIter, after: InferIter, t: u32, r: Option<u32>) -> bool {
    &&& after.wf()
    &&& after.prompt_length() == before.prompt_length()
    &&& after.eos() == before.eos()
    &&& after.penalty() == before.penalty()
    &&& after.window() == before.window()
    &&& before.finished() ==> {
        &&& r is None
        &&& after.finished()
        &&& after.buffer() == before.buffer()
        &&& after.steps() == before.steps()
    }
    &&& !before.finished() ==> after.steps() == before.steps() + 1
    &&& !before.finished() && t == before.eos() ==> {
        &&& r is None
        &&& after.finished()
        &&& after.buffer() == before.buffer()
    }
    &&& !before.finished() && t != before.eos() ==> {
        &&& r == Some(t)
        &&& !after.finished()
        &&& after.buffer() == before.buffer().push(t)
    }
}

/// `states` is a run of a generation that was handed `samples` in turn and
/// yielded `outs`.
pub open spec fn is_run(states: Seq<InferIter>, samples: Seq<u32>, outs: Seq<Option<u32>>) -> bool {
    &&& states.len() == samples.len() + 1
    &&& outs.len() == samples.len()
    &&& states[0].wf()
    &&& forall|i: int| 0 <= i < samples.len() ==> stepped(states[i], states[i + 1], samples[i], #[trigger] outs[i])
}

/// Once a generation has ended, a run from it keeps its buffer.
pub proof fn lemma_finished_run_keeps_buffer(states: Seq<InferIter>, samples: Seq<u32>, outs: Seq<Option<u32>>)
    requires
        is_run(states, samples, outs),
        states[0].finished(),
    ensures
        states.last().buffer() == states[0].buffer(),
        states.last().finished(),
    decreases samples.len(),
{
    if samples.len() > 0 {
        assert(stepped(states[0], states[1], samples[0], outs[0]));
        let rest = states.drop_first();
        assert(is_run(rest, samples.drop_first(), outs.drop_first())) by {
            assert forall|i: int| 0 <= i < samples.drop_first().len() implies stepped(rest[i], rest[i + 1], samples.drop_first()[i], #[trigger] outs.drop_first()[i]) by {
                assert(stepped(states[i + 1], states[i + 2], samples[i + 1], outs[i + 1]));
            }
        }
        lemma_finished_run_keeps_buffer(rest, samples.drop_first(), outs.drop_first());
    }
}

/// A run from a generation under way appends exactly the sampled tokens
/// before the first end-of-sequence token: what is produced is a function
/// of the prompt and the samples alone.
pub proof fn lemma_run_appends_samples_before_eos(states: Seq<InferIter>, samples: Seq<u32>, outs: Seq<Option<u32>>)
    requires
        is_run(states, samples, outs),
        !states[0].finished(),
    ensures
        states.last().buffer() == states[0].buffer() + before_eos(samples, states[0].eos()),
    decreases samples.len(),
{
    if samples.len() == 0 {
        assert(states[0].buffer() + Seq::<u32>::empty() =~= states[0].buffer());
    } else {
        assert(stepped(states[0], states[1], samples[0], outs[0]));
        let rest = states.drop_first();
        assert(is_run(rest, samples.drop_first(), outs.drop_first())) by {
            assert forall|i: int| 0 <= i < samples.drop_first().len() implies stepped(rest[i], rest[i + 1], samples.drop_first()[i], #[trigger] outs.drop_first()[i]) by {
                assert(stepped(states[i + 1], states[i + 2], samples[i + 1], outs[i + 1]));
            }
        }
        if samples[0] == states[0].eos() {
            lemma_finished_run_keeps_buffer(rest, samples.drop_first(), outs.drop_first());
            assert(states[0].buffer() + Seq::<u32>::empty() =~= states[0].buffer());
        } else {
            lemma_run_appends_samples_before_eos(rest, samples.drop_first(), outs.drop_first());
            assert(states[0].buffer() + before_eos(samples, states[0].eos())
                =~= states[0].buffer().push(samples[0]) + before_eos(samples.drop_first(), states[0].eos()));
        }
    }
}

/// Two generations from the same prompt and end-of-sequence token that are
/// handed the same samples produce the same tokens.
pub proof fn lemma_same_samples_same_tokens(
    s1: Seq<InferIter>,
    s2: Seq<InferIter>,
    samples: Seq<u32>,
    o1: Seq<Option<u32>>,
    o2: Seq<Option<u32>>,
)
    requires
        is_run(s1, samples, o1),
        is_run(s2, samples, o2),
        !s1[0].finished(),
        !s2[0].finished(),
        s1[0].buffer() == s2[0].buffer(),
        s1[0].eos() == s2[0].eos(),
    ensures
        s1.last().buffer() == s2.last().buffer(),
{
    lemma_run_appends_samples_before_eos(s1, samples, o1);
    lemma_run_appends_samples_before_eos(s2, samples, o2);
}

/// The decoding state of one generation. Each step the engine runs its
/// forward pass over `context`, down-weights the tokens of `penalty_context`
/// where there is one, samples a token, and hands it to `accept`. The
/// end-of-sequence token ends the generation and is not kept.
pub struct InferIter {
    tokens: TokenString,
    prompt_len: usize,
    step: usize,
    repeat_penalty: u32,
    repeat_last_n: usize,
    eos_token: u32,
    reached_eos: bool,
}

impl InferIter {
    /// The prompt followed by the tokens produced so far.
    pub closed spec fn buffer(&self) -> Seq<u32> {
        self.tokens@
    }

    /// The number of prompt tokens at the start of the buffer.
    pub closed spec fn prompt_length(&self) -> nat {
        self.prompt_len as nat
    }

    /// The number of tokens sampled so far.
    pub closed spec fn steps(&self) -> nat {
        self.step as nat
    }

    /// The end-of-sequence token.
    pub closed spec fn eos(&self) -> u32 {
        self.eos_token
    }

    /// The repetition penalty, as the bit pattern of an `f32`; the pattern of
    /// 1.0 (`NO_PENALTY`) leaves the logits as they are.
    pub closed spec fn penalty(&self) -> u32 {
        self.repeat_penalty
    }

    /// How many of the last tokens the repetition penalty looks at.
    pub closed spec fn window(&self) -> nat {
        self.repeat_last_n as nat
    }

    /// The end-of-sequence token was sampled.
    pub closed spec fn finished(&self) -> bool {
        self.reached_eos
    }

    /// The state is consistent.
    pub closed spec fn wf(&self) -> bool {
        &&& 1 <= self.prompt_len <= self.tokens@.len()
        &&& self.step == self.tokens@.len() - self.prompt_len + (if self.reached_eos { 1int } else { 0int })
    }

    /// A generation from `prompt`, which fails on an empty prompt and then
    /// where there is no end-of-sequence token.
    pub fn start(prompt: TokenString, repeat_penalty: u32, repeat_last_n: usize, eos_token: Option<u32>) -> (r: Result<InferIter, InferError>)
        ensures
            prompt@.len() == 0 <==> r == Err::<InferIter, InferError>(InferError::EmptyPrompt),
            (prompt@.len() > 0 && eos_token is None) <==> r == Err::<InferIter, InferError>(InferError::TokenNotFound),
            (prompt@.len() > 0 && eos_token is Some) <==> r is Ok,
            r matches Ok(s) ==> {
                &&& s.wf()
                &&& s.buffer() == prompt@
                &&& s.prompt_length() == prompt@.len()
                &&& s.steps() == 0
                &&& !s.finished()
                &&& eos_token == Some(s.eos())
                &&& s.penalty() == repeat_penalty
                &&& s.window() == repeat_last_n
            },
    {
        if prompt.is_empty() {
            return Err(InferError::EmptyPrompt);
        }
        match eos_token {
            None => Err(InferError::TokenNotFound),
            Some(eos) => {
                let prompt_len = prompt.len();
                Ok(InferIter {
                    tokens: prompt,
                    prompt_len,
                    step: 0,
                    repeat_penalty,
                    repeat_last_n,
                    eos_token: eos,
                    reached_eos: false,
                })
            },
        }
    }

    /// A generation from `prompt`, ended by the vocabulary's `<|endoftext|>` token.
    pub fn begin(codec: &tokenizers::Tokenizer, prompt: TokenString, repeat_penalty: u32, repeat_last_n: usize) -> (r: Result<InferIter, InferError>)
        ensures
            prompt@.len() == 0 <==> r == Err::<InferIter, InferError>(InferError::EmptyPrompt),
            r matches Ok(s) ==> {
                &&& s.wf()
                &&& s.buffer() == prompt@
                &&& s.prompt_length() == prompt@.len()
                &&& s.steps() == 0
                &&& !s.finished()
                &&& vocabulary_id(end_of_text(), s.eos())
                &&& s.penalty() == repeat_penalty
                &&& s.window() == repeat_last_n
            },
            r matches Err(e) ==> e == InferError::EmptyPrompt || e == InferError::TokenNotFound,
    {
        if prompt.is_empty() {
            return Err(InferError::EmptyPrompt);
        }
        let eos = token_id(codec, "<|endoftext|>");
        InferIter::start(prompt, repeat_penalty, repeat_last_n, eos)
    }

    /// The tokens of the next forward pass: the whole buffer on the first
    /// step, the last token after it (the engine keeps the earlier ones), and
    /// nothing once the generation has ended.
    pub fn context(&self) -> (r: Option<Vec<u32>>)
        requires
            self.wf(),
        ensures
            self.finished() <==> r is None,
            r matches Some(c) ==> {
                if self.steps() == 0 {
                    c@ == self.buffer()
                } else {
                    c@ == seq![self.buffer().last()]
                }
            },
    {
        if self.reached_eos {
            return None;
        }
        if self.step == 0 {
            Some(self.tokens.tokens.clone())
        } else {
            let n = self.tokens.len();
            let mut c: Vec<u32> = Vec::new();
            c.push(self.tokens.tokens[n - 1]);
            Some(c)
        }
    }

    /// The tokens whose logits the repetition penalty lowers: the last
    /// `window` tokens of the buffer, or none where the penalty is off (a
    /// penalty of exactly 1.0 or an empty window).
    pub fn penalty_context(&self) -> (r: Option<Vec<u32>>)
        ensures
            (self.penalty() == NO_PENALTY || self.window() == 0) <==> r is None,
            r matches Some(c) ==> c@ == last_n(self.buffer(), self.window()),
    {
        if self.repeat_penalty == NO_PENALTY || self.repeat_last_n == 0 {
            return None;
        }
        let n = self.tokens.len();
        let lo: usize = if n <= self.repeat_last_n { 0 } else { n - self.repeat_last_n };
        let c = self.tokens.get(lo, n);
        assert(c matches Some(v) ==> v@ =~= last_n(self.buffer(), self.window()));
        c
    }

    /// The engine sampled `sampled`. The end-of-sequence token ends the
    /// generation and yields nothing; any other token is appended and
    /// yielded. After the end nothing changes and nothing is yielded.
    pub fn accept(&mut self, sampled: u32) -> (r: Option<u32>)
        requires
            old(self).wf(),
        ensures
            stepped(*old(self), *final(self), sampled, r),
    {
        if self.reached_eos {
            return None;
        }
        let n = self.tokens.len();
        assert(self.step < n);
        self.step = self.step + 1;
        if sampled == self.eos_token {
            self.reached_eos = true;
            None
        } else {
            self.tokens.push(sampled);
            Some(sampled)
        }
    }

    /// Whether the end-of-sequence token was sampled.
    pub fn is_done(&self) -> (r: bool)
        ensures
            r == self.finished(),
    {
        self.reached_eos
    }

    /// The prompt followed by the tokens produced so far.
    pub fn tokens(&self) -> (r: &TokenString)
        ensures
            r@ == self.buffer(),
    {
        &self.tokens
    }

    /// The tokens produced so far, without the prompt.
    pub fn generated(&self) -> (r: TokenString)
        requires
            self.wf(),
        ensures
            r@ == self.buffer().skip(self.prompt_length() as int),
    {
        let n = self.tokens.len();
        match self.tokens.get(self.prompt_len, n) {
            Some(v) => TokenString::new(v),
            None => TokenString::empty(),
        }
    }
}

/// The stop rule of a bounded completion: after each produced token, stop
/// where its text ends with a stop text or the budget of tokens is used up.
pub struct Completion {
    tokens: TokenString,
    max_tokens: usize,
    stop_at: Vec<String>,
}

impl Completion {
    /// The tokens produced so far.
    pub closed spec fn produced(&self) -> Seq<u32> {
        self.tokens@
    }

    /// The budget of tokens.
    pub closed spec fn budget(&self) -> nat {
        self.max_tokens as nat
    }

    /// The stop texts.
    pub closed spec fn stops(&self) -> Seq<Seq<char>> {
        self.stop_at.deep_view()
    }

    /// A completion that has produced nothing yet.
    pub fn new(max_tokens: usize, stop_at: Vec<String>) -> (r: Completion)
        ensures
            r.produced() == Seq::<u32>::empty(),
            r.budget() == max_tokens,
            r.stops() == stop_at.deep_view(),
    {
        Completion { tokens: TokenString::empty(), max_tokens, stop_at }
    }

    /// Keep `token`, whose text is `token_text`; whether another token is wanted.
    pub fn accept(&mut self, token: u32, token_text: &str) -> (r: bool)
        ensures
            final(self).produced() == old(self).produced().push(token),
            final(self).budget() == old(self).budget(),
            final(self).stops() == old(self).stops(),
            r == !(ends_with_any(token_text@, old(self).stops()) || old(self).produced().len() + 1 >= old(self).budget()),
    {
        self.tokens.push(token);
        if ends_with_any_of(token_text, &self.stop_at) {
            return false;
        }
        self.tokens.len() < self.max_tokens
    }

    /// The tokens produced.
    pub fn into_tokens(self) -> (r: TokenString)
        ensures
            r@ == self.produced(),
    {
        self.tokens
    }
}

/// A token's text `text`, whose first marker begins at `p`, turns the kept
/// text `before` into `after`; `more` tells whether another token is wanted.
pub open spec fn marker_step(text: Seq<char>, markers: Seq<Seq<char>>, p: Option<usize>, before: Seq<char>, after: Seq<char>, more: bool) -> bool {
    &&& first_marker_spec(text, markers, p)
    &&& match p {
        Some(i) => !more && i <= text.len() && after == before + text.take(i as int),
        None => more && after == before + text,
    }
}

/// `after` is `before` once handed the text `text`, answering `more`.
pub open spec fn marker_stepped(before: UntilMarker, after: UntilMarker, text: Seq<char>, more: bool) -> bool {
    &&& after.stops() == before.stops()
    &&& exists|p: Option<usize>| #[trigger] marker_step(text, before.stops(), p, before.kept(), after.kept(), more)
}

/// `states` is a run of an `UntilMarker` that was handed the texts `pieces`
/// in turn and answered `outs`.
pub open spec fn is_marker_run(states: Seq<UntilMarker>, pieces: Seq<Seq<char>>, outs: Seq<bool>) -> bool {
    &&& states.len() == pieces.len() + 1
    &&& outs.len() == pieces.len()
    &&& forall|i: int| 0 <= i < pieces.len() ==> marker_stepped(states[i], states[i + 1], pieces[i], #[trigger] outs[i])
}

/// A run handed texts for as long as it asks for more keeps the texts up to
/// the first stop marker and nothing after it: every text but the last holds
/// no marker and is kept whole; the last is kept whole where it holds no
/// marker, and otherwise only up to where its first marker begins, and then
/// no more text is asked for.
pub proof fn lemma_marker_run_keeps_text_before_marker(states: Seq<UntilMarker>, pieces: Seq<Seq<char>>, outs: Seq<bool>)
    requires
        is_marker_run(states, pieces, outs),
        pieces.len() > 0,
        forall|j: int| 0 <= j < pieces.len() - 1 ==> #[trigger] outs[j],
    ensures
        states.last().stops() == states[0].stops(),
        forall|j: int| 0 <= j < pieces.len() - 1 ==> first_marker_spec(#[trigger] pieces[j], states[0].stops(), None),
        outs.last() ==> {
            &&& first_marker_spec(pieces.last(), states[0].stops(), None)
            &&& states.last().kept() == states[0].kept() + pieces.flatten()
        },
        !outs.last() ==> exists|i: usize| {
            &&& #[trigger] first_marker_spec(pieces.last(), states[0].stops(), Some(i))
            &&& i <= pieces.last().len()
            &&& states.last().kept() == states[0].kept() + pieces.drop_last().flatten() + pieces.last().take(i as int)
        },
    decreases pieces.len(),
{
    assert(marker_stepped(states[0], states[1], pieces[0], outs[0]));
    let p0 = choose|p: Option<usize>| #[trigger] marker_step(pieces[0], states[0].stops(), p, states[0].kept(), states[1].kept(), outs[0]);
    if pieces.len() == 1 {
        assert(pieces.drop_first() =~= Seq::<Seq<char>>::empty());
        assert(pieces.drop_first().flatten() =~= Seq::<char>::empty());
        assert(pieces.flatten() =~= pieces[0]);
        assert(pieces.drop_last() =~= Seq::<Seq<char>>::empty());
        assert(pieces.drop_last().flatten() =~= Seq::<char>::empty());
        if !outs[0] {
            let i = p0->0;
            assert(states[0].kept() + pieces.drop_last().flatten() + pieces.last().take(i as int) =~= states[1].kept());
            assert(first_marker_spec(pieces.last(), states[0].stops(), Some(i)));
        }
    } else {
        assert(outs[0]);
        let rs = states.drop_first();
        let rp = pieces.drop_first();
        let ro = outs.drop_first();
        assert(is_marker_run(rs, rp, ro)) by {
            assert forall|i: int| 0 <= i < rp.len() implies marker_stepped(rs[i], rs[i + 1], rp[i], #[trigger] ro[i]) by {
                assert(marker_stepped(states[i + 1], states[i + 2], pieces[i + 1], outs[i + 1]));
            }
        }
        assert forall|j: int| 0 <= j < rp.len() - 1 implies #[trigger] ro[j] by {
            assert(outs[j + 1]);
        }
        lemma_marker_run_keeps_text_before_marker(rs, rp, ro);
        assert(states[1].kept() == states[0].kept() + pieces[0]);
        assert forall|j: int| 0 <= j < pieces.len() - 1 implies first_marker_spec(#[trigger] pieces[j], states[0].stops(), None) by {
            if j > 0 {
                assert(rp[j - 1] == pieces[j]);
            }
        }
        assert(pieces.drop_last().drop_first() =~= rp.drop_last());
        assert(pieces.drop_last().flatten() == pieces[0] + rp.drop_last().flatten());
        assert(pieces.flatten() == pieces[0] + rp.flatten());
        if outs.last() {
            assert(states.last().kept() =~= states[0].kept() + pieces.flatten());
        } else {
            let i = choose|i: usize| {
                &&& #[trigger] first_marker_spec(rp.last(), rs[0].stops(), Some(i))
                &&& i <= rp.last().len()
                &&& rs.last().kept() == rs[0].kept() + rp.drop_last().flatten() + rp.last().take(i as int)
            };
            assert(states.last().kept() =~= states[0].kept() + pieces.drop_last().flatten() + pieces.last().take(i as int));
            assert(first_marker_spec(pieces.last(), states[0].stops(), Some(i)));
        }
    }
}

/// The text of a generation up to the first stop marker: the text of each
/// token is added until one holds a marker, of which only the part before
/// the marker is kept.
pub struct UntilMarker {
    response: String,
    markers: Vec<String>,
}

impl UntilMarker {
    /// The text kept so far.
    pub closed spec fn kept(&self) -> Seq<char> {
        self.response@
    }

    /// The stop markers.
    pub closed spec fn stops(&self) -> Seq<Seq<char>> {
        self.markers.deep_view()
    }

    /// Nothing kept yet.
    pub fn new(markers: Vec<String>) -> (r: UntilMarker)
        ensures
            r.kept() == Seq::<char>::empty(),
            r.stops() == markers.deep_view(),
    {
        UntilMarker { response: String::new(), markers }
    }

    /// Add the text of the next token; whether another token is wanted.
    pub fn accept(&mut self, token_text: &str) -> (r: bool)
        ensures
            marker_stepped(*old(self), *final(self), token_text@, r),
    {
        let ghost before = self.response@;
        let p = first_marker(token_text, &self.markers);
        let more = match p {
            Some(i) => {
                let head = token_text.substring_char(0, i);
                self.response.append(head);
                assert(token_text@.subrange(0, i as int) =~= token_text@.take(i as int));
                false
            },
            None => {
                self.response.append(token_text);
                true
            },
        };
        assert(marker_step(token_text@, old(self).stops(), p, old(self).kept(), self.kept(), more));
        assert(marker_stepped(*old(self), *self, token_text@, more));
        more
    }

    /// The text kept.
    pub fn into_text(self) -> (r: String)
        ensures
            r@ == self.kept(),
    {
        self.response
    }
}

} // verus!
