use vstd::prelude::*;

verus! {

/// What a turn of a scene holds.
#[derive(Clone, Debug, PartialEq, Eq)]
pub enum SceneTurnType {
    /// A line of narration.
    Story(String),
    /// A line spoken by a character: the character, then the words.
    Dialogue(String, String),
}

/// The record of one completed turn of a scene.
#[derive(Clone, Debug, PartialEq, Eq)]
pub struct SceneTurn {
    turn_type: SceneTurnType,
}

/// The turn is the story line `story`.
pub open spec fn is_story(t: SceneTurnType, story: Seq<char>) -> bool {
    t matches SceneTurnType::Story(s) && s@ == story
}

/// The turn is the line `dialogue` spoken by `character`.
pub open spec fn is_dialogue(t: SceneTurnType, character: Seq<char>, dialogue: Seq<char>) -> bool {
    t matches SceneTurnType::Dialogue(c, d) && c@ == character && d@ == dialogue
}

/// How a turn reads: a story line as it is, a dialogue line as
/// `character: "words"`.
pub open spec fn turn_text(t: SceneTurnType) -> Seq<char> {
    match t {
        SceneTurnType::Story(s) => s@,
        SceneTurnType::Dialogue(c, d) => c@ + ": \""@ + d@ + "\""@,
    }
}

impl SceneTurn {
    /// What the turn holds.
    pub closed spec fn kind(&self) -> SceneTurnType {
        self.turn_type
    }

    /// A turn holding `turn_type`.
    pub fn new(turn_type: SceneTurnType) -> (r: SceneTurn)
        ensures
            r.kind() == turn_type,
    {
        SceneTurn { turn_type }
    }

    /// A story turn.
    pub fn story(story: &str) -> (r: SceneTurn)
        ensures
            is_story(r.kind(), story@),
    {
        SceneTurn::new(SceneTurnType::Story(String::from_str(story)))
    }

    /// A dialogue turn.
    pub fn dialogue(character: &str, dialogue: &str) -> (r: SceneTurn)
        ensures
            is_dialogue(r.kind(), character@, dialogue@),
    {
        SceneTurn::new(SceneTurnType::Dialogue(String::from_str(character), String::from_str(dialogue)))
    }

    /// What the turn holds.
    pub fn turn_type(&self) -> (r: &SceneTurnType)
        ensures
            *r == self.kind(),
    {
        &self.turn_type
    }

    /// How the turn reads.
    pub fn to_string(&self) -> (r: String)
        ensures
            r@ == turn_text(self.kind()),
    {
        match &self.turn_type {
            SceneTurnType::Story(story) => story.clone(),
            SceneTurnType::Dialogue(character, dialogue) => {
                let mut r = character.clone();
                r.append(": \"");
                r.append(dialogue.as_str());
                r.append("\"");
                r
            },
        }
    }
}

} // verus!
