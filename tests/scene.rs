use std::collections::HashMap;

use storyteller::error::InferError;
use storyteller::scene::{
    compression_budget, dialogue_line, dialogue_opening, dialogue_stop_texts, story_line, story_stop_texts, Scene,
    TurnChoice, COMPRESSION_THRESHOLD,
};
use storyteller::token_string::TokenString;
use storyteller::turn::SceneTurnType;
use tokenizers::models::wordlevel::WordLevel;
use tokenizers::pre_tokenizers::whitespace::WhitespaceSplit;
use tokenizers::Tokenizer;

fn word_codec() -> Tokenizer {
    let mut vocab = HashMap::new();
    vocab.insert("[UNK]".to_string(), 0);
    vocab.insert("<|endoftext|>".to_string(), 1);
    let model = WordLevel::builder().vocab(vocab).unk_token("[UNK]".to_string()).build().unwrap();
    let mut codec = Tokenizer::new(model);
    codec.with_pre_tokenizer(WhitespaceSplit);
    codec
}

fn cast() -> Vec<String> {
    vec!["James".to_string(), "Raven".to_string(), "Morgan".to_string()]
}

fn scene_with_history(seed: u64, history: Vec<u32>) -> Scene {
    let codec = word_codec();
    let mut scene = Scene::new(&codec, seed, "A dark castle", &cast()).unwrap();
    scene.push(&codec, &TokenString::new(history)).unwrap();
    scene
}

#[test]
fn intro_names_setting_and_cast() {
    assert_eq!(
        Scene::intro("A dark castle", &cast()),
        "[A dark castle]\n[There are 3 characters: James, Raven and Morgan]\n"
    );
    assert_eq!(Scene::intro("Sea", &vec!["Ann".to_string()]), "[Sea]\n[There are 1 characters: Ann]\n");
    assert_eq!(
        Scene::intro("Sea", &vec!["Ann".to_string(), "Bo".to_string()]),
        "[Sea]\n[There are 2 characters: Ann and Bo]\n"
    );
}

#[test]
fn new_scene_has_empty_short_term_memory() {
    let codec = word_codec();
    let scene = Scene::new(&codec, 0, "A dark castle", &cast()).unwrap();
    assert_eq!(scene.short_term_memory().len(), 0);
    assert_eq!(scene.long_term_memory().len(), 11);
    assert_eq!(scene.memory_length(), 11);
}

#[test]
fn push_appends_to_short_term_memory() {
    let scene = scene_with_history(0, vec![10, 20, 30]);
    assert_eq!(scene.short_term_memory().as_slice(), &[10, 20, 30]);
    let full = scene.get_full_memory();
    assert_eq!(full.len(), scene.memory_length());
    assert_eq!(&full.as_slice()[full.len() - 3..], &[10, 20, 30]);
}

#[test]
fn push_story_and_dialogue_return_turns() {
    let codec = word_codec();
    let mut scene = Scene::new(&codec, 0, "Sea", &cast()).unwrap();
    let turn = scene.push_story(&codec, "The waves rise").unwrap();
    assert_eq!(turn.turn_type(), &SceneTurnType::Story("The waves rise".to_string()));
    assert_eq!(scene.short_term_memory().len(), 3);
    let turn = scene.push_dialogue(&codec, "Raven", "Look out").unwrap();
    assert_eq!(turn.turn_type(), &SceneTurnType::Dialogue("Raven".to_string(), "Look out".to_string()));
    assert_eq!(turn.to_string(), "Raven: \"Look out\"");
    assert_eq!(scene.short_term_memory().len(), 6);
}

#[test]
fn end_to_end_turn_selection_for_three_characters() {
    let scene = scene_with_history(0, vec![10, 20, 30, 40, 50]);
    assert_eq!(scene.choose_turn(), Ok(TurnChoice::Dialogue("Raven".to_string())));
    let story = scene_with_history(3, vec![10, 20, 30, 40, 50]);
    assert_eq!(story.choose_turn(), Ok(TurnChoice::Story));
    let wrapped = scene_with_history(u64::MAX - 139, vec![10, 20, 30, 40, 50]);
    assert_eq!(wrapped.choose_turn(), Ok(TurnChoice::Dialogue("James".to_string())));
}

#[test]
fn turn_selection_is_repeatable() {
    for seed in 0..20u64 {
        let a = scene_with_history(seed, vec![7, 8, 9]);
        let b = scene_with_history(seed, vec![7, 8, 9]);
        assert_eq!(a.choose_turn(), b.choose_turn());
        assert_eq!(a.choose_turn(), a.choose_turn());
    }
}

#[test]
fn last_speaker_is_skipped() {
    let codec = word_codec();
    let mut scene = Scene::new(&codec, 0, "Sea", &cast()).unwrap();
    scene.push_dialogue(&codec, "James", "hi").unwrap();
    assert_eq!(scene.short_term_memory().as_slice(), &[0, 0]);
    assert_eq!(scene.choose_turn(), Ok(TurnChoice::Dialogue("Raven".to_string())));
}

#[test]
fn single_character_who_spoke_last_is_misconfigured() {
    let codec = word_codec();
    let mut scene = Scene::new(&codec, 0, "Sea", &vec!["James".to_string()]).unwrap();
    scene.push_dialogue(&codec, "James", "hi").unwrap();
    assert_eq!(scene.choose_turn(), Err(InferError::InvalidSceneConfiguration));
    let empty = Scene::new(&codec, 0, "Sea", &Vec::new()).unwrap();
    assert_eq!(empty.choose_turn(), Err(InferError::InvalidSceneConfiguration));
}

#[test]
fn compression_replaces_memory_and_empties_short_term() {
    let mut scene = scene_with_history(0, vec![1, 2, 3, 4, 5, 6]);
    let before = scene.memory_length();
    assert_eq!(before, 17);
    assert!(scene.needs_compression(17));
    assert!(!scene.needs_compression(18));
    let codec = word_codec();
    let (prompt, seed) = scene.compression_request(&codec).unwrap();
    assert!(prompt.len() > before);
    assert_eq!(seed, 0);
    scene.compress_with(TokenString::new(vec![42, 43]), 17);
    assert_eq!(scene.memory_length(), 2);
    assert!(scene.memory_length() < before);
    assert_eq!(scene.short_term_memory().len(), 0);
    assert_eq!(scene.long_term_memory().as_slice(), &[42, 43]);
}

#[test]
fn compression_cuts_summary_to_budget_and_skips_when_not_due() {
    let mut scene = scene_with_history(0, vec![1, 2, 3]);
    assert_eq!(scene.memory_length(), 14);
    scene.compress_with(TokenString::new(vec![9; 20]), 15);
    assert_eq!(scene.memory_length(), 14);
    assert_eq!(scene.short_term_memory().as_slice(), &[1, 2, 3]);
    scene.compress_with(TokenString::new(vec![9; 20]), 10);
    assert_eq!(scene.long_term_memory().as_slice(), &[9; 9]);
    assert_eq!(scene.short_term_memory().len(), 0);
    assert!(scene.memory_length() < 14);
    assert_eq!(compression_budget(COMPRESSION_THRESHOLD), 1023);
}

#[test]
fn lines_and_openings_have_their_format() {
    assert_eq!(story_line("It rains."), "It rains.\n");
    assert_eq!(dialogue_line("Raven", "Look out"), "Raven: \"Look out\"\n");
    assert_eq!(dialogue_opening("Raven"), "Raven: \"");
}

#[test]
fn prompts_extend_the_full_memory() {
    let codec = word_codec();
    let scene = scene_with_history(0, vec![5, 6]);
    let story = scene.story_prompt(&codec).unwrap();
    assert_eq!(story.len(), scene.memory_length() + 1);
    let dialogue = scene.dialogue_prompt(&codec, "Raven").unwrap();
    assert_eq!(dialogue.len(), scene.memory_length() + 2);
    assert_eq!(&dialogue.as_slice()[..scene.memory_length()], scene.get_full_memory().as_slice());
}

#[test]
fn stop_texts_of_lines() {
    assert_eq!(story_stop_texts().len(), 16);
    assert_eq!(story_stop_texts()[0], "]");
    assert_eq!(dialogue_stop_texts(), vec!["\"", ".\"", "?\"", "!\""]);
}

#[test]
fn finishing_a_line_cleans_and_records_it() {
    let codec = word_codec();
    let mut scene = Scene::new(&codec, 0, "Sea", &cast()).unwrap();
    let turn = scene.finish_story(&codec, " The tide turns.] ").unwrap();
    assert_eq!(turn.turn_type(), &SceneTurnType::Story("The tide turns.".to_string()));
    assert_eq!(scene.short_term_memory().len(), 3);
    let turn = scene.finish_dialogue(&codec, "Morgan", " Run!\"").unwrap();
    assert_eq!(turn.to_string(), "Morgan: \"Run!\"");
    assert_eq!(scene.short_term_memory().len(), 5);
    assert_eq!(scene.choose_turn().is_ok(), true);
}
