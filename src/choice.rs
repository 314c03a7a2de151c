use vstd::prelude::*;

use crate::instruct::{instruct_prompt, instruct_text};
use crate::text::{is_prefix, join, joined, lowercase, normalized, starts_with, trim};

verus! {

/// The candidates of `items` of which `p` is a prefix, in order.
pub open spec fn keep_prefixed(items: Seq<Seq<char>>, p: Seq<char>) -> Seq<Seq<char>>
    decreases items.len(),
{
    if items.len() == 0 {
        Seq::empty()
    } else if is_prefix(p, items.last()) {
        keep_prefixed(items.drop_last(), p).push(items.last())
    } else {
        keep_prefixed(items.drop_last(), p)
    }
}

/// The candidates listed as `[a][b][c]`.
pub open spec fn bracketed(items: Seq<Seq<char>>) -> Seq<char> {
    "["@ + joined(items, "]["@) + "]"@
}

/// The seed of the first attempt: `seed`, or, where `seed + attempts` would
/// not fit, `seed` moved down by half the range, or further, to
/// `u64::MAX - attempts`, where that is still not enough.
pub open spec fn base_seed(seed: u64, attempts: usize) -> u64 {
    if seed <= u64::MAX - attempts {
        seed
    } else if seed >= u64::MAX / 2 && seed - u64::MAX / 2 <= u64::MAX - attempts {
        (seed - u64::MAX / 2) as u64
    } else {
        (u64::MAX - attempts) as u64
    }
}

/// The seed of attempt `a`.
pub open spec fn attempt_seed(base: u64, a: nat) -> u64 {
    base.wrapping_add(a as u64)
}

/// The temperature of attempt `a`, in thousandths: 0.2 on the first attempt,
/// 0.2 more on each one after it.
pub open spec fn attempt_temperature(a: nat) -> u64 {
    if 200 * (a + 1) > u64::MAX {
        u64::MAX
    } else {
        (200 * (a + 1)) as u64
    }
}

/// The instruction of a choice prompt.
pub open spec fn choice_instruction() -> Seq<char> {
    "Choose the most appropriate item for the context and desired traits."@
}

/// The labelled entries of a choice prompt.
pub open spec fn choice_entries(context: Seq<char>, items: Seq<Seq<char>>, traits: Seq<char>) -> Seq<(Seq<char>, Seq<char>)> {
    seq![
        ("Context"@, context),
        ("Items"@, bracketed(items)),
        ("Desired Traits"@, traits),
        ("Response"@, "["@),
    ]
}

/// The text of a choice prompt.
pub open spec fn choice_prompt_text(context: Seq<char>, items: Seq<Seq<char>>, traits: Seq<char>) -> Seq<char> {
    instruct_text(choice_instruction(), choice_entries(context, items, traits))
}

/// A candidate in the form in which it is compared: trimmed and lower-cased.
pub fn normalize(item: &str) -> (r: String)
    ensures
        r@ == normalized(item@),
{
    lowercase(trim(item))
}

/// Each candidate normalized.
pub fn normalize_all(items: &Vec<String>) -> (r: Vec<String>)
    ensures
        r.deep_view() =~= Seq::new(items.len() as nat, |i: int| normalized(items[i]@)),
{
    let mut r: Vec<String> = Vec::new();
    let mut i: usize = 0;
    while i < items.len()
        invariant
            i <= items.len(),
            r.len() == i,
            forall|j: int| 0 <= j < i ==> (#[trigger] r[j])@ == normalized(items[j]@),
        decreases items.len() - i,
    {
        r.push(normalize(items[i].as_str()));
        i = i + 1;
    }
    r
}

/// A copy of each text.
fn copy_all(items: &Vec<String>) -> (r: Vec<String>)
    ensures
        r.deep_view() =~= items.deep_view(),
{
    let mut r: Vec<String> = Vec::new();
    let mut i: usize = 0;
    while i < items.len()
        invariant
            i <= items.len(),
            r.len() == i,
            forall|j: int| 0 <= j < i ==> (#[trigger] r[j])@ == items[j]@,
        decreases items.len() - i,
    {
        r.push(items[i].clone());
        i = i + 1;
    }
    r
}

/// The candidates of which `p` is a prefix, in order.
pub fn retain_prefixed(items: &Vec<String>, p: &str) -> (r: Vec<String>)
    ensures
        r.deep_view() == keep_prefixed(items.deep_view(), p@),
{
    let ghost dv = items.deep_view();
    let mut r: Vec<String> = Vec::new();
    let mut i: usize = 0;
    while i < items.len()
        invariant
            i <= items.len(),
            dv == items.deep_view(),
            r.deep_view() == keep_prefixed(dv.take(i as int), p@),
        decreases items.len() - i,
    {
        assert(dv.take(i + 1).drop_last() =~= dv.take(i as int));
        assert(dv.take(i + 1).last() == items[i as int]@);
        if starts_with(items[i].as_str(), p) {
            let ghost before = r.deep_view();
            r.push(items[i].clone());
            assert(r.deep_view() =~= before.push(items[i as int]@));
        }
        i = i + 1;
    }
    assert(dv.take(i as int) =~= dv);
    r
}

/// The candidates listed as `[a][b][c]`.
pub fn bracketed_list(items: &Vec<String>) -> (r: String)
    ensures
        r@ == bracketed(items.deep_view()),
{
    let mut r = String::from_str("[");
    let inner = join(items, "][");
    r.append(inner.as_str());
    r.append("]");
    r
}

/// The seed of the first attempt: `seed`, or, where `seed + attempts` would
/// not fit, `seed` moved down by half the range, or to `u64::MAX - attempts`
/// where that is not enough, so that the seeds of all attempts stay in range.
pub fn choice_base_seed(seed: u64, attempts: usize) -> (r: u64)
    ensures
        r == base_seed(seed, attempts),
        r + attempts <= u64::MAX,
{
    let n = attempts as u64;
    if seed <= u64::MAX - n {
        seed
    } else if seed >= u64::MAX / 2 && seed - u64::MAX / 2 <= u64::MAX - n {
        seed - u64::MAX / 2
    } else {
        u64::MAX - n
    }
}

/// Every attempt's seed is the base seed plus the attempt's index, without
/// wrapping around.
pub proof fn lemma_attempt_seeds_in_range(seed: u64, attempts: usize, a: nat)
    requires
        a < attempts,
    ensures
        attempt_seed(base_seed(seed, attempts), a) == base_seed(seed, attempts) + a,
{
}

/// The text of the prompt that asks for one of `items` (normalized).
pub fn choice_prompt(context: &str, items: &Vec<String>, desired_traits: &str) -> (r: String)
    ensures
        r@ == choice_prompt_text(context@, items.deep_view(), desired_traits@),
{
    let mut extra: Vec<(String, String)> = Vec::new();
    extra.push((String::from_str("Context"), String::from_str(context)));
    extra.push((String::from_str("Items"), bracketed_list(items)));
    extra.push((String::from_str("Desired Traits"), String::from_str(desired_traits)));
    extra.push((String::from_str("Response"), String::from_str("[")));
    assert(extra.deep_view() =~= choice_entries(context@, items.deep_view(), desired_traits@));
    instruct_prompt("Choose the most appropriate item for the context and desired traits.", &extra)
}

/// What a choice asks of the model next, or how it ended.
#[derive(Debug, Clone, PartialEq, Eq)]
pub enum ChoiceStep {
    /// Start a generation on the prompt with this seed and temperature (in
    /// thousandths), and report its tokens.
    Generate { seed: u64, temperature: u64 },
    /// Report the next token of the current generation.
    NextToken,
    /// The one candidate that the generated text leads to.
    Chosen(String),
    /// No attempt led to exactly one candidate.
    NoAnswer,
}

/// A choice among candidates: generations from a prompt, each pruning the
/// candidates to those that start with the generated text, until one is
/// left, over a bounded number of attempts with rising temperature.
pub struct ChoiceRun {
    prompt: String,
    items: Vec<String>,
    base: u64,
    attempts: usize,
    attempt: usize,
    possible: Vec<String>,
    inferred: String,
    done: bool,
}

/// How attempt `a` opens, for the given candidates.
pub open spec fn opening(r: ChoiceStep, cands: Seq<Seq<char>>, base: u64, attempts: nat, a: nat) -> bool {
    if a >= attempts || cands.len() == 0 {
        r is NoAnswer
    } else if cands.len() == 1 {
        r matches ChoiceStep::Chosen(s) && s@ == cands[0]
    } else {
        r == ChoiceStep::Generate { seed: attempt_seed(base, a), temperature: attempt_temperature(a) }
    }
}

impl ChoiceRun {
    /// The normalized candidates.
    pub closed spec fn candidates(&self) -> Seq<Seq<char>> {
        self.items.deep_view()
    }

    /// The text of the prompt.
    pub closed spec fn prompt_text(&self) -> Seq<char> {
        self.prompt@
    }

    /// The seed of the first attempt.
    pub closed spec fn base_seed(&self) -> u64 {
        self.base
    }

    /// The number of attempts allowed.
    pub closed spec fn attempts_allowed(&self) -> nat {
        self.attempts as nat
    }

    /// The index of the current attempt.
    pub closed spec fn attempt_index(&self) -> nat {
        self.attempt as nat
    }

    /// The candidates still in play in the current attempt.
    pub closed spec fn working_set(&self) -> Seq<Seq<char>> {
        self.possible.deep_view()
    }

    /// The text generated so far in the current attempt.
    pub closed spec fn produced(&self) -> Seq<char> {
        self.inferred@
    }

    /// The choice has ended.
    pub closed spec fn finished(&self) -> bool {
        self.done
    }

    /// A generation is under way and waits for its next token.
    pub closed spec fn generating(&self) -> bool {
        &&& !self.done
        &&& self.attempt < self.attempts
        &&& self.possible.len() > 1
    }

    /// The state in which attempt `a` has just opened.
    pub open spec fn opened_at(&self, a: nat) -> bool {
        &&& self.attempt_index() == a
        &&& self.generating() <==> (a < self.attempts_allowed() && self.candidates().len() > 1)
        &&& self.finished() <==> !self.generating()
        &&& self.generating() ==> self.working_set() == self.candidates() && self.produced() == Seq::<char>::empty()
    }

    /// The same choice, at another point of its run.
    pub open spec fn same_choice(&self, other: &ChoiceRun) -> bool {
        &&& self.candidates() == other.candidates()
        &&& self.prompt_text() == other.prompt_text()
        &&& self.base_seed() == other.base_seed()
        &&& self.attempts_allowed() == other.attempts_allowed()
    }

    /// A choice among `items` (trimmed and lower-cased), with at most
    /// `attempts` attempts, the first of which uses the seed `seed` (see
    /// `choice_base_seed`).
    pub fn new(context: &str, desired_traits: &str, items: &Vec<String>, seed: u64, attempts: usize) -> (r: ChoiceRun)
        ensures
            r.candidates() =~= Seq::new(items.len() as nat, |i: int| normalized(items[i]@)),
            r.prompt_text() == choice_prompt_text(context@, r.candidates(), desired_traits@),
            r.base_seed() == base_seed(seed, attempts),
            r.attempts_allowed() == attempts,
            r.attempt_index() == 0,
            !r.generating(),
            !r.finished(),
    {
        let items = normalize_all(items);
        let prompt = choice_prompt(context, &items, desired_traits);
        ChoiceRun {
            prompt,
            items,
            base: choice_base_seed(seed, attempts),
            attempts,
            attempt: 0,
            possible: Vec::new(),
            inferred: String::new(),
            done: false,
        }
    }

    /// The text of the prompt that each attempt generates from.
    pub fn prompt(&self) -> (r: &str)
        ensures
            r@ == self.prompt_text(),
    {
        self.prompt.as_str()
    }

    /// Whether a generation is under way.
    pub fn is_generating(&self) -> (r: bool)
        ensures
            r == self.generating(),
    {
        !self.done && self.attempt < self.attempts && self.possible.len() > 1
    }

    /// Open the current attempt.
    fn open(&mut self) -> (r: ChoiceStep)
        requires
            !old(self).finished(),
        ensures
            final(self).same_choice(old(self)),
            final(self).opened_at(old(self).attempt_index()),
            opening(r, old(self).candidates(), old(self).base_seed(), old(self).attempts_allowed(), old(self).attempt_index()),
    {
        if self.attempt >= self.attempts || self.items.len() == 0 {
            self.done = true;
            ChoiceStep::NoAnswer
        } else if self.items.len() == 1 {
            self.done = true;
            ChoiceStep::Chosen(self.items[0].clone())
        } else {
            self.possible = copy_all(&self.items);
            self.inferred = String::new();
            let a = self.attempt as u64;
            let temperature = match 200u64.checked_mul(a + 1) {
                Some(t) => t,
                None => u64::MAX,
            };
            ChoiceStep::Generate { seed: self.base.wrapping_add(a), temperature }
        }
    }

    /// Begin the choice with its first attempt.
    pub fn start(&mut self) -> (r: ChoiceStep)
        requires
            !old(self).finished(),
            old(self).attempt_index() == 0,
        ensures
            final(self).same_choice(old(self)),
            final(self).opened_at(0),
            opening(r, old(self).candidates(), old(self).base_seed(), old(self).attempts_allowed(), 0),
    {
        self.open()
    }

    /// The current generation produced a token that decodes to `text`: the
    /// candidates that do not start with the normalized text of the attempt
    /// leave. One left is the answer; none left fails the attempt and opens
    /// the next one.
    pub fn on_token(&mut self, text: &str) -> (r: ChoiceStep)
        requires
            old(self).generating(),
        ensures
            final(self).same_choice(old(self)),
            ({
                let w = keep_prefixed(old(self).working_set(), normalized(old(self).produced() + text@));
                if w.len() > 1 {
                    &&& r is NextToken
                    &&& final(self).generating()
                    &&& final(self).attempt_index() == old(self).attempt_index()
                    &&& final(self).working_set() == w
                    &&& final(self).produced() == old(self).produced() + text@
                } else if w.len() == 1 {
                    &&& r matches ChoiceStep::Chosen(s) && s@ == w[0]
                    &&& final(self).finished()
                } else {
                    &&& final(self).opened_at(old(self).attempt_index() + 1)
                    &&& opening(r, old(self).candidates(), old(self).base_seed(), old(self).attempts_allowed(), old(self).attempt_index() + 1)
                }
            }),
    {
        self.inferred.append(text);
        let formatted = normalize(self.inferred.as_str());
        self.possible = retain_prefixed(&self.possible, formatted.as_str());
        if self.possible.len() > 1 {
            ChoiceStep::NextToken
        } else if self.possible.len() == 1 {
            self.done = true;
            ChoiceStep::Chosen(self.possible[0].clone())
        } else {
            self.attempt = self.attempt + 1;
            self.open()
        }
    }

    /// The current generation ended before one candidate was left: the
    /// attempt fails and the next one opens.
    pub fn on_exhausted(&mut self) -> (r: ChoiceStep)
        requires
            old(self).generating(),
        ensures
            final(self).same_choice(old(self)),
            final(self).opened_at(old(self).attempt_index() + 1),
            opening(r, old(self).candidates(), old(self).base_seed(), old(self).attempts_allowed(), old(self).attempt_index() + 1),
    {
        self.attempt = self.attempt + 1;
        self.open()
    }
}

} // verus!
