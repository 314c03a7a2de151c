use vstd::prelude::*;

use crate::error::InferError;
use crate::codec::encoded;
use crate::instruct::{instruct_buffer, paraphrase_instruction, requests_paraphrase, wraps_instruction};
use crate::text::{decimal, decimal_text, remove_char, trim, trimmed, without};
use crate::token_string::{first_n, last_n, token_sum, TokenString};
use crate::turn::{is_dialogue, is_story, SceneTurn};

verus! {

/// The token budget of the model's context.
pub const MAX_TOKENS: usize = 2048;

/// The memory length at which the scene compresses its memory before a turn.
pub const COMPRESSION_THRESHOLD: usize = MAX_TOKENS / 2;

/// The temperature of story and dialogue lines and of summaries, in thousandths.
pub const LINE_TEMPERATURE: u64 = 500;

/// The first `k` names of `cast`, as `A, B and C`.
pub open spec fn cast_prefix(cast: Seq<Seq<char>>, k: nat) -> Seq<char>
    decreases k,
{
    if k == 0 {
        Seq::empty()
    } else if k == 1 {
        cast[0]
    } else if k == cast.len() {
        cast_prefix(cast, (k - 1) as nat) + " and "@ + cast[k - 1]
    } else {
        cast_prefix(cast, (k - 1) as nat) + ", "@ + cast[k - 1]
    }
}

/// The names of `cast`, as `A, B and C`.
pub open spec fn cast_list(cast: Seq<Seq<char>>) -> Seq<char> {
    cast_prefix(cast, cast.len())
}

/// The opening text of a scene.
pub open spec fn intro_text(setting: Seq<char>, cast: Seq<Seq<char>>) -> Seq<char> {
    "["@ + setting + "]\n"@ + "[There are "@ + decimal(cast.len()) + " characters: "@ + cast_list(cast) + "]\n"@
}

/// The seed that picks the kind of the next turn: the sum of the last four
/// short-term tokens plus the scene's seed, wrapping around.
pub open spec fn turn_seed(short: Seq<u32>, base: u64) -> u64 {
    (token_sum(last_n(short, 4)) as u64).wrapping_add(base)
}

/// The index of the character looked at on attempt `a` among `n`.
pub open spec fn speaker_index(seed: u64, a: nat, n: nat) -> int {
    ((!seed).wrapping_add(a as u64) % (n as u64)) as int
}

/// The character at `i` may speak after `last`.
pub open spec fn eligible(cast: Seq<Seq<char>>, last: Option<Seq<char>>, i: int) -> bool {
    match last {
        Some(l) => l != cast[i],
        None => true,
    }
}

/// Attempt `a` is the first whose character may speak after `last`, and
/// that character is `c`.
pub open spec fn first_eligible(cast: Seq<Seq<char>>, last: Option<Seq<char>>, v: u64, a: nat, c: Seq<char>) -> bool {
    let n = cast.len();
    &&& a < n
    &&& c == cast[speaker_index(v, a, n)]
    &&& eligible(cast, last, speaker_index(v, a, n))
    &&& forall|b: nat| b < a ==> !eligible(cast, last, #[trigger] speaker_index(v, b, n))
}

/// The kind of turn that comes next.
#[derive(Clone, Debug, PartialEq, Eq)]
pub enum TurnChoice {
    /// A story line.
    Story,
    /// A dialogue line of this character.
    Dialogue(String),
}

/// `r` is the choice of turn for the given short-term memory, seed, cast
/// and last speaker: dialogue where the seed modulo 5 is below 3, spoken by
/// the first character in the order of attempts who is not the last speaker.
pub open spec fn turn_choice(short: Seq<u32>, base: u64, cast: Seq<Seq<char>>, last: Option<Seq<char>>, r: Result<TurnChoice, InferError>) -> bool {
    let v = turn_seed(short, base);
    let n = cast.len();
    if v % 5 >= 3 {
        r == Ok::<TurnChoice, InferError>(TurnChoice::Story)
    } else {
        match r {
            Ok(TurnChoice::Dialogue(c)) => exists|a: nat| #[trigger] first_eligible(cast, last, v, a, c@),
            Ok(TurnChoice::Story) => false,
            Err(e) => {
                &&& e == InferError::InvalidSceneConfiguration
                &&& forall|b: nat| b < n ==> !eligible(cast, last, #[trigger] speaker_index(v, b, n))
            },
        }
    }
}

/// The two choices of turn agree.
pub open spec fn same_turn(r1: Result<TurnChoice, InferError>, r2: Result<TurnChoice, InferError>) -> bool {
    match (r1, r2) {
        (Ok(TurnChoice::Story), Ok(TurnChoice::Story)) => true,
        (Ok(TurnChoice::Dialogue(c1)), Ok(TurnChoice::Dialogue(c2))) => c1@ == c2@,
        (Err(e1), Err(e2)) => e1 == e2,
        _ => false,
    }
}

/// The stop texts of a story line.
pub open spec fn story_stops() -> Seq<Seq<char>> {
    seq![
        "]"@, ".]"@, "?]"@, "']"@, ":]"@, "!]"@, "\"]"@, "]\""@, "]]"@, "]["@, ".\""@, "?\""@,
        "!\""@, "."@, "?"@, "!"@,
    ]
}

/// The stop texts of a dialogue line.
pub open spec fn dialogue_stops() -> Seq<Seq<char>> {
    seq!["\""@, ".\""@, "?\""@, "!\""@]
}

/// The line that records a story turn.
pub open spec fn story_line_text(story: Seq<char>) -> Seq<char> {
    story + "\n"@
}

/// The line that records a dialogue turn.
pub open spec fn dialogue_line_text(character: Seq<char>, dialogue: Seq<char>) -> Seq<char> {
    character + ": \""@ + dialogue + "\"\n"@
}

/// The text that opens a story line in a prompt.
pub open spec fn story_opening() -> Seq<char> {
    "["@
}

/// The text that opens a dialogue line of `character` in a prompt.
pub open spec fn dialogue_opening_text(character: Seq<char>) -> Seq<char> {
    character + ": \""@
}

/// The text encoded after tokens pushed into a scene.
pub open spec fn line_break() -> Seq<char> {
    "\n"@
}

/// The most tokens a summary may have when the memory is compressed at
/// `threshold` tokens: one fewer than the threshold, so that compression
/// always shrinks the memory.
pub open spec fn summary_budget(threshold: nat) -> nat {
    if threshold == 0 { 0 } else { (threshold - 1) as nat }
}

/// `p` is `memory` followed by the encoding of `opening`.
pub open spec fn opens_line(p: Seq<u32>, memory: Seq<u32>, opening: Seq<char>) -> bool {
    exists|e: Seq<u32>| #[trigger] encoded(opening, e) && p == memory + e
}

/// The line that records a story turn.
pub fn story_line(story: &str) -> (r: String)
    ensures
        r@ == story_line_text(story@),
{
    let mut line = String::from_str(story);
    line.append("\n");
    line
}

/// The line that records a dialogue turn: `character: "dialogue"` and a
/// line break.
pub fn dialogue_line(character: &str, dialogue: &str) -> (r: String)
    ensures
        r@ == dialogue_line_text(character@, dialogue@),
{
    let mut line = String::from_str(character);
    line.append(": \"");
    line.append(dialogue);
    line.append("\"\n");
    line
}

/// The text that opens a dialogue line of `character`: `character: "`.
pub fn dialogue_opening(character: &str) -> (r: String)
    ensures
        r@ == dialogue_opening_text(character@),
{
    let mut opening = String::from_str(character);
    opening.append(": \"");
    opening
}

/// The most tokens a summary may have when the memory is compressed at
/// `threshold` tokens.
pub fn compression_budget(threshold: usize) -> (r: usize)
    ensures
        r == summary_budget(threshold as nat),
{
    if threshold == 0 { 0 } else { threshold - 1 }
}

/// A narrative scene: a long-term memory, a short-term memory of the turns
/// since the last compression, the characters, and the last speaker.
pub struct Scene {
    long_term_memory: TokenString,
    short_term_memory: TokenString,
    characters: Vec<String>,
    last_speaker: Option<String>,
    seed: u64,
}

impl Scene {
    /// The long-term memory.
    pub closed spec fn long(&self) -> Seq<u32> {
        self.long_term_memory@
    }

    /// The short-term memory.
    pub closed spec fn short(&self) -> Seq<u32> {
        self.short_term_memory@
    }

    /// The names of the characters.
    pub closed spec fn cast(&self) -> Seq<Seq<char>> {
        self.characters.deep_view()
    }

    /// The name of the last speaker, if any.
    pub closed spec fn speaker(&self) -> Option<Seq<char>> {
        match self.last_speaker {
            Some(s) => Some(s@),
            None => None,
        }
    }

    /// The seed of the scene.
    pub closed spec fn base_seed(&self) -> u64 {
        self.seed
    }

    /// The number of tokens in memory.
    pub open spec fn memory_len(&self) -> nat {
        self.long().len() + self.short().len()
    }

    /// `self` is `before` with its memory replaced by `summary`.
    pub open spec fn compressed_from(&self, before: &Scene, summary: Seq<u32>) -> bool {
        &&& self.long() == summary
        &&& self.short() == Seq::<u32>::empty()
        &&& self.cast() == before.cast()
        &&& self.speaker() == before.speaker()
        &&& self.base_seed() == before.base_seed()
    }

    /// `self` is `before` with the encoding of `line` appended to its
    /// short-term memory, the last speaker being `speaker`.
    pub open spec fn appended_to(&self, before: &Scene, line: Seq<char>, speaker: Option<Seq<char>>) -> bool {
        &&& self.long() == before.long()
        &&& exists|e: Seq<u32>| #[trigger] encoded(line, e) && self.short() == before.short() + e
        &&& self.cast() == before.cast()
        &&& self.speaker() == speaker
        &&& self.base_seed() == before.base_seed()
    }

    /// A scene in `setting` with `starting_characters`, whose long-term memory
    /// opens with the encoded setting and cast.
    pub fn new(codec: &tokenizers::Tokenizer, seed: u64, setting: &str, starting_characters: &Vec<String>) -> (r: Result<Scene, InferError>)
        ensures
            r matches Ok(s) ==> {
                &&& encoded(intro_text(setting@, starting_characters.deep_view()), s.long())
                &&& s.short() == Seq::<u32>::empty()
                &&& s.cast() == starting_characters.deep_view()
                &&& s.speaker() is None
                &&& s.base_seed() == seed
            },
            r matches Err(e) ==> e == InferError::Codec,
    {
        let intro = Scene::intro(setting, starting_characters);
        let long_term_memory = match TokenString::encode(codec, intro.as_str()) {
            Ok(t) => t,
            Err(e) => return Err(e),
        };
        let mut characters: Vec<String> = Vec::new();
        let mut i: usize = 0;
        while i < starting_characters.len()
            invariant
                i <= starting_characters.len(),
                characters.len() == i,
                forall|j: int| 0 <= j < i ==> (#[trigger] characters[j])@ == starting_characters[j]@,
            decreases starting_characters.len() - i,
        {
            characters.push(starting_characters[i].clone());
            i = i + 1;
        }
        assert(characters.deep_view() =~= starting_characters.deep_view());
        Ok(Scene {
            long_term_memory,
            short_term_memory: TokenString::empty(),
            characters,
            last_speaker: None,
            seed,
        })
    }

    /// The opening text of a scene: the setting and the cast.
    pub fn intro(setting: &str, starting_characters: &Vec<String>) -> (r: String)
        ensures
            r@ == intro_text(setting@, starting_characters.deep_view()),
    {
        let ghost cast = starting_characters.deep_view();
        let n = starting_characters.len();
        let mut names = String::new();
        let mut i: usize = 0;
        while i < n
            invariant
                i <= n == starting_characters.len(),
                cast == starting_characters.deep_view(),
                names@ == cast_prefix(cast, i as nat),
            decreases n - i,
        {
            if i == 0 {
                names = starting_characters[i].clone();
            } else if i == n - 1 {
                names.append(" and ");
                names.append(starting_characters[i].as_str());
            } else {
                names.append(", ");
                names.append(starting_characters[i].as_str());
            }
            i = i + 1;
        }
        let mut r = String::from_str("[");
        r.append(setting);
        r.append("]\n");
        r.append("[There are ");
        let count = decimal_text(n);
        r.append(count.as_str());
        r.append(" characters: ");
        r.append(names.as_str());
        r.append("]\n");
        r
    }

    /// The long-term memory.
    pub fn long_term_memory(&self) -> (r: &TokenString)
        ensures
            r@ == self.long(),
    {
        &self.long_term_memory
    }

    /// The short-term memory.
    pub fn short_term_memory(&self) -> (r: &TokenString)
        ensures
            r@ == self.short(),
    {
        &self.short_term_memory
    }

    /// The number of tokens in memory (the largest `usize` where it would not fit).
    pub fn memory_length(&self) -> (r: usize)
        ensures
            r == (if self.memory_len() > usize::MAX { usize::MAX as nat } else { self.memory_len() }),
    {
        self.long_term_memory.len().saturating_add(self.short_term_memory.len())
    }

    /// The long-term memory followed by the short-term memory.
    pub fn get_full_memory(&self) -> (r: TokenString)
        ensures
            r@ == self.long() + self.short(),
    {
        let mut full = self.long_term_memory.copy();
        full.extend(&self.short_term_memory);
        full
    }

    /// The encoding of `text`.
    pub fn tokenize(&self, codec: &tokenizers::Tokenizer, text: &str) -> (r: Result<TokenString, InferError>)
        ensures
            r matches Ok(t) ==> encoded(text@, t@),
            r matches Err(e) ==> e == InferError::Codec,
    {
        TokenString::encode(codec, text)
    }

    /// Whether the memory is due for compression: it holds at least
    /// `if_longer_than` tokens.
    pub fn needs_compression(&self, if_longer_than: usize) -> (r: bool)
        ensures
            r == (self.memory_len() >= if_longer_than),
    {
        let n = self.memory_length();
        n >= if_longer_than
    }

    /// The prompt and seed of the summary that compression asks for: the
    /// request to paraphrase the whole memory as an instruct prompt, and the
    /// sum of the first four tokens of the memory.
    pub fn compression_request(&self, codec: &tokenizers::Tokenizer) -> (r: Result<(TokenString, u64), InferError>)
        ensures
            r matches Ok((prompt, seed)) ==> {
                &&& seed == token_sum(first_n(self.long() + self.short(), 4))
                &&& exists|instruction: Seq<u32>| #[trigger] requests_paraphrase(instruction, self.long() + self.short())
                    && wraps_instruction(prompt@, instruction)
            },
            r matches Err(e) ==> e == InferError::Codec,
    {
        let full = self.get_full_memory();
        let seed = full.leading_seed();
        let instruction = match paraphrase_instruction(codec, &full) {
            Ok(t) => t,
            Err(e) => return Err(e),
        };
        let prompt = match instruct_buffer(codec, &instruction) {
            Ok(p) => p,
            Err(e) => return Err(e),
        };
        assert(requests_paraphrase(instruction@, full@) && wraps_instruction(prompt@, instruction@));
        Ok((prompt, seed))
    }

    /// Replace the memory by a summary: the summary becomes the long-term
    /// memory and the short-term memory is emptied.
    fn replace_memory(&mut self, summary: TokenString)
        ensures
            final(self).compressed_from(old(self), summary@),
    {
        self.long_term_memory = summary;
        self.short_term_memory = TokenString::empty();
    }

    /// Compress the memory with `summary` where it holds at least
    /// `if_longer_than` tokens: the summary, cut to the budget of that
    /// threshold, becomes the long-term memory and the short-term memory is
    /// emptied. Otherwise nothing changes.
    pub fn compress_with(&mut self, summary: TokenString, if_longer_than: usize)
        ensures
            old(self).memory_len() < if_longer_than ==> *final(self) == *old(self),
            old(self).memory_len() >= if_longer_than ==> {
                &&& final(self).compressed_from(old(self), first_n(summary@, summary_budget(if_longer_than as nat)))
                &&& final(self).short().len() == 0
                &&& if_longer_than > 0 ==> final(self).memory_len() < old(self).memory_len()
            },
    {
        if !self.needs_compression(if_longer_than) {
            return;
        }
        let mut summary = summary;
        summary.truncate(compression_budget(if_longer_than));
        self.replace_memory(summary);
    }

    /// Append tokens and an encoded line break to the short-term memory.
    pub fn push(&mut self, codec: &tokenizers::Tokenizer, tokens: &TokenString) -> (r: Result<(), InferError>)
        ensures
            r is Ok ==> {
                &&& final(self).long() == old(self).long()
                &&& exists|e: Seq<u32>| #[trigger] encoded(line_break(), e)
                    && final(self).short() == old(self).short() + tokens@ + e
                &&& final(self).cast() == old(self).cast()
                &&& final(self).speaker() == old(self).speaker()
                &&& final(self).base_seed() == old(self).base_seed()
            },
            r matches Err(e) ==> e == InferError::Codec && *final(self) == *old(self),
    {
        let mut line = tokens.copy();
        match line.push_str(codec, "\n") {
            Ok(()) => {},
            Err(e) => return Err(e),
        }
        let ghost before = self.short_term_memory@;
        self.short_term_memory.extend(&line);
        proof {
            let e = choose|e: Seq<u32>| #[trigger] encoded(line_break(), e) && line@ == tokens@ + e;
            assert(self.short_term_memory@ =~= before + tokens@ + e);
        }
        Ok(())
    }

    /// Encode a line and append it to the short-term memory.
    fn push_line(&mut self, codec: &tokenizers::Tokenizer, line: &str) -> (r: Result<(), InferError>)
        ensures
            r is Ok ==> final(self).appended_to(old(self), line@, old(self).speaker()),
            r matches Err(e) ==> e == InferError::Codec && *final(self) == *old(self),
    {
        let ids = match TokenString::encode(codec, line) {
            Ok(t) => t,
            Err(e) => return Err(e),
        };
        self.short_term_memory.extend(&ids);
        assert(encoded(line@, ids@));
        Ok(())
    }

    /// Append the story line `story` to the short-term memory; the turn.
    pub fn push_story(&mut self, codec: &tokenizers::Tokenizer, story: &str) -> (r: Result<SceneTurn, InferError>)
        ensures
            r matches Ok(t) ==> is_story(t.kind(), story@)
                && final(self).appended_to(old(self), story_line_text(story@), old(self).speaker()),
            r matches Err(e) ==> e == InferError::Codec && *final(self) == *old(self),
    {
        let line = story_line(story);
        match self.push_line(codec, line.as_str()) {
            Ok(()) => Ok(SceneTurn::story(story)),
            Err(e) => Err(e),
        }
    }

    /// Append the line `dialogue` of `character` to the short-term memory,
    /// who becomes the last speaker; the turn.
    pub fn push_dialogue(&mut self, codec: &tokenizers::Tokenizer, character: &str, dialogue: &str) -> (r: Result<SceneTurn, InferError>)
        ensures
            r matches Ok(t) ==> is_dialogue(t.kind(), character@, dialogue@)
                && final(self).appended_to(old(self), dialogue_line_text(character@, dialogue@), Some(character@)),
            r matches Err(e) ==> e == InferError::Codec && *final(self) == *old(self),
    {
        let line = dialogue_line(character, dialogue);
        match self.push_line(codec, line.as_str()) {
            Ok(()) => {
                self.last_speaker = Some(String::from_str(character));
                Ok(SceneTurn::dialogue(character, dialogue))
            },
            Err(e) => Err(e),
        }
    }

    /// Record a generated story line: its raw text without `]`, trimmed, is
    /// pushed as a story turn.
    pub fn finish_story(&mut self, codec: &tokenizers::Tokenizer, raw: &str) -> (r: Result<SceneTurn, InferError>)
        ensures
            r matches Ok(t) ==> is_story(t.kind(), cleaned(raw@, ']'))
                && final(self).appended_to(old(self), story_line_text(cleaned(raw@, ']')), old(self).speaker()),
            r matches Err(e) ==> e == InferError::Codec && *final(self) == *old(self),
    {
        let story = story_text(raw);
        self.push_story(codec, story.as_str())
    }

    /// Record a generated dialogue line of `character`: its raw text without
    /// `"`, trimmed, is pushed as a dialogue turn.
    pub fn finish_dialogue(&mut self, codec: &tokenizers::Tokenizer, character: &str, raw: &str) -> (r: Result<SceneTurn, InferError>)
        ensures
            r matches Ok(t) ==> is_dialogue(t.kind(), character@, cleaned(raw@, '"'))
                && final(self).appended_to(old(self), dialogue_line_text(character@, cleaned(raw@, '"')), Some(character@)),
            r matches Err(e) ==> e == InferError::Codec && *final(self) == *old(self),
    {
        let dialogue = dialogue_text(raw);
        self.push_dialogue(codec, character, dialogue.as_str())
    }

    /// The prompt of a story line: the whole memory and an encoded `[`.
    pub fn story_prompt(&self, codec: &tokenizers::Tokenizer) -> (r: Result<TokenString, InferError>)
        ensures
            r matches Ok(p) ==> opens_line(p@, self.long() + self.short(), story_opening()),
            r matches Err(e) ==> e == InferError::Codec,
    {
        let mut line = self.get_full_memory();
        match line.push_str(codec, "[") {
            Ok(()) => Ok(line),
            Err(e) => Err(e),
        }
    }

    /// The prompt of a dialogue line of `character`: the whole memory and
    /// the encoded opening `character: "`.
    pub fn dialogue_prompt(&self, codec: &tokenizers::Tokenizer, character: &str) -> (r: Result<TokenString, InferError>)
        ensures
            r matches Ok(p) ==> opens_line(p@, self.long() + self.short(), dialogue_opening_text(character@)),
            r matches Err(e) ==> e == InferError::Codec,
    {
        let mut line = self.get_full_memory();
        let opening = dialogue_opening(character);
        match line.push_str(codec, opening.as_str()) {
            Ok(()) => Ok(line),
            Err(e) => Err(e),
        }
    }

    /// Pick the kind of the next turn from the short-term memory and the
    /// seed: a dialogue line where the turn seed modulo 5 is below 3, else a
    /// story line. The speaker is looked for at the indices
    /// `((!seed) + attempt) % characters`, attempt by attempt, and is the first
    /// who is not the last speaker; where there is none the scene is
    /// misconfigured.
    pub fn choose_turn(&self) -> (r: Result<TurnChoice, InferError>)
        ensures
            turn_choice(self.short(), self.base_seed(), self.cast(), self.speaker(), r),
    {
        let ghost cast = self.cast();
        let ghost last = self.speaker();
        let seed = self.short_term_memory.trailing_seed().wrapping_add(self.seed);
        if seed % 5 < 3 {
            let n = self.characters.len();
            let mut attempt: usize = 0;
            while attempt < n
                invariant
                    n == self.characters.len(),
                    cast == self.cast(),
                    last == self.speaker(),
                    seed == turn_seed(self.short(), self.base_seed()),
                    seed % 5 < 3,
                    attempt <= n,
                    forall|b: nat| b < attempt ==> !eligible(cast, last, #[trigger] speaker_index(seed, b, n as nat)),
                decreases n - attempt,
            {
                let idx = ((!seed).wrapping_add(attempt as u64) % (n as u64)) as usize;
                assert(idx == speaker_index(seed, attempt as nat, n as nat));
                let character = &self.characters[idx];
                assert(cast[idx as int] == character@);
                let ok = match &self.last_speaker {
                    Some(l) => !(*l == *character),
                    None => true,
                };
                if ok {
                    let chosen = character.clone();
                    let ghost a = attempt as nat;
                    assert(cast.len() == n);
                    assert(first_eligible(cast, last, seed, a, chosen@));
                    let r: Result<TurnChoice, InferError> = Ok(TurnChoice::Dialogue(chosen));
                    assert(r matches Ok(TurnChoice::Dialogue(c)) && c@ == chosen@);
                    assert(turn_choice(self.short(), self.base_seed(), self.cast(), self.speaker(), r));
                    return r;
                }
                attempt = attempt + 1;
            }
            Err(InferError::InvalidSceneConfiguration)
        } else {
            Ok(TurnChoice::Story)
        }
    }
}

/// The choice of turn is a function of the short-term memory, the seed, the
/// cast and the last speaker: the same values give the same kind of turn
/// and, for dialogue, the same speaker.
pub proof fn lemma_turn_choice_deterministic(
    short: Seq<u32>,
    base: u64,
    cast: Seq<Seq<char>>,
    last: Option<Seq<char>>,
    r1: Result<TurnChoice, InferError>,
    r2: Result<TurnChoice, InferError>,
)
    requires
        turn_choice(short, base, cast, last, r1),
        turn_choice(short, base, cast, last, r2),
    ensures
        same_turn(r1, r2),
{
    let v = turn_seed(short, base);
    let n = cast.len();
    if v % 5 < 3 {
        match (r1, r2) {
            (Ok(TurnChoice::Dialogue(c1)), Ok(TurnChoice::Dialogue(c2))) => {
                let a1 = choose|a: nat| #[trigger] first_eligible(cast, last, v, a, c1@);
                let a2 = choose|a: nat| #[trigger] first_eligible(cast, last, v, a, c2@);
                if a1 < a2 {
                    assert(!eligible(cast, last, speaker_index(v, a1, n)));
                } else if a2 < a1 {
                    assert(!eligible(cast, last, speaker_index(v, a2, n)));
                }
            },
            (Ok(TurnChoice::Dialogue(c1)), Err(_)) => {
                let a1 = choose|a: nat| #[trigger] first_eligible(cast, last, v, a, c1@);
                assert(!eligible(cast, last, speaker_index(v, a1, n)));
            },
            (Err(_), Ok(TurnChoice::Dialogue(c2))) => {
                let a2 = choose|a: nat| #[trigger] first_eligible(cast, last, v, a, c2@);
                assert(!eligible(cast, last, speaker_index(v, a2, n)));
            },
            _ => {},
        }
    }
}

/// With three characters and no last speaker, the turn is a dialogue line
/// exactly where the turn seed `v` modulo 5 is below 3, spoken by the
/// character at index `(!v) % 3`; otherwise it is a story line.
pub proof fn lemma_three_characters_without_speaker(
    short: Seq<u32>,
    base: u64,
    cast: Seq<Seq<char>>,
    r: Result<TurnChoice, InferError>,
)
    requires
        cast.len() == 3,
        turn_choice(short, base, cast, None, r),
    ensures
        ({
            let v = turn_seed(short, base);
            &&& v % 5 < 3 ==> (r matches Ok(TurnChoice::Dialogue(c)) && c@ == cast[((!v) % 3) as int])
            &&& v % 5 >= 3 ==> r == Ok::<TurnChoice, InferError>(TurnChoice::Story)
        }),
{
    let v = turn_seed(short, base);
    if v % 5 < 3 {
        assert(eligible(cast, None, speaker_index(v, 0, 3)));
        assert((!v).wrapping_add(0u64) == !v);
        match r {
            Ok(TurnChoice::Dialogue(c)) => {
                let a = choose|a: nat| #[trigger] first_eligible(cast, None, v, a, c@);
                if a > 0 {
                    assert(!eligible(cast, None, speaker_index(v, 0, 3)));
                }
            },
            _ => {},
        }
    }
}

/// The stop texts of a story line.
pub fn story_stop_texts() -> (r: Vec<String>)
    ensures
        r.deep_view() == story_stops(),
{
    let mut r: Vec<String> = Vec::new();
    r.push(String::from_str("]"));
    r.push(String::from_str(".]"));
    r.push(String::from_str("?]"));
    r.push(String::from_str("']"));
    r.push(String::from_str(":]"));
    r.push(String::from_str("!]"));
    r.push(String::from_str("\"]"));
    r.push(String::from_str("]\""));
    r.push(String::from_str("]]"));
    r.push(String::from_str("]["));
    r.push(String::from_str(".\""));
    r.push(String::from_str("?\""));
    r.push(String::from_str("!\""));
    r.push(String::from_str("."));
    r.push(String::from_str("?"));
    r.push(String::from_str("!"));
    assert(r.deep_view() =~= story_stops());
    r
}

/// The stop texts of a dialogue line.
pub fn dialogue_stop_texts() -> (r: Vec<String>)
    ensures
        r.deep_view() == dialogue_stops(),
{
    let mut r: Vec<String> = Vec::new();
    r.push(String::from_str("\""));
    r.push(String::from_str(".\""));
    r.push(String::from_str("?\""));
    r.push(String::from_str("!\""));
    assert(r.deep_view() =~= dialogue_stops());
    r
}

/// A generated line as it is kept: without the character `c`, trimmed.
pub open spec fn cleaned(raw: Seq<char>, c: char) -> Seq<char> {
    trimmed(without(raw, c))
}

/// A generated story line as it is kept: without `]`, trimmed.
pub fn story_text(raw: &str) -> (r: String)
    ensures
        r@ == cleaned(raw@, ']'),
{
    let stripped = remove_char(raw, ']');
    String::from_str(trim(stripped.as_str()))
}

/// A generated dialogue line as it is kept: without `"`, trimmed.
pub fn dialogue_text(raw: &str) -> (r: String)
    ensures
        r@ == cleaned(raw@, '"'),
{
    let stripped = remove_char(raw, '"');
    String::from_str(trim(stripped.as_str()))
}

} // verus!
