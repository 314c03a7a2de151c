use std::collections::HashMap;

use storyteller::error::InferError;
use storyteller::session::{session_seed, Completion, InferIter, UntilMarker, NO_PENALTY};
use storyteller::token_string::TokenString;
use tokenizers::models::wordlevel::WordLevel;
use tokenizers::Tokenizer;

fn eos_codec() -> Tokenizer {
    let mut vocab = HashMap::new();
    vocab.insert("[UNK]".to_string(), 0);
    vocab.insert("<|endoftext|>".to_string(), 9);
    let model = WordLevel::builder().vocab(vocab).unk_token("[UNK]".to_string()).build().unwrap();
    Tokenizer::new(model)
}

fn run(prompt: Vec<u32>, samples: &[u32]) -> Vec<u32> {
    let mut s = InferIter::start(TokenString::new(prompt), NO_PENALTY, 0, Some(1)).unwrap();
    for &t in samples {
        s.accept(t);
    }
    s.generated().into_vec()
}

#[test]
fn start_rejects_empty_prompt_then_missing_eos() {
    assert_eq!(InferIter::start(TokenString::empty(), NO_PENALTY, 0, Some(1)).err(), Some(InferError::EmptyPrompt));
    assert_eq!(InferIter::start(TokenString::empty(), NO_PENALTY, 0, None).err(), Some(InferError::EmptyPrompt));
    assert_eq!(InferIter::start(TokenString::new(vec![3]), NO_PENALTY, 0, None).err(), Some(InferError::TokenNotFound));
    assert!(InferIter::start(TokenString::new(vec![3]), NO_PENALTY, 0, Some(1)).is_ok());
}

#[test]
fn begin_finds_end_of_text_token() {
    let codec = eos_codec();
    let mut s = InferIter::begin(&codec, TokenString::new(vec![4]), NO_PENALTY, 0).unwrap();
    assert_eq!(s.accept(9), None);
    assert!(s.is_done());
    assert_eq!(InferIter::begin(&codec, TokenString::empty(), NO_PENALTY, 0).err(), Some(InferError::EmptyPrompt));
}

#[test]
fn context_is_whole_buffer_first_then_last_token() {
    let mut s = InferIter::start(TokenString::new(vec![3, 4]), NO_PENALTY, 0, Some(1)).unwrap();
    assert_eq!(s.context(), Some(vec![3, 4]));
    assert_eq!(s.accept(7), Some(7));
    assert_eq!(s.context(), Some(vec![7]));
    assert_eq!(s.accept(8), Some(8));
    assert_eq!(s.context(), Some(vec![8]));
    assert_eq!(s.tokens().as_slice(), &[3, 4, 7, 8]);
}

#[test]
fn end_of_sequence_ends_and_is_not_kept() {
    let mut s = InferIter::start(TokenString::new(vec![3]), NO_PENALTY, 0, Some(1)).unwrap();
    assert_eq!(s.accept(5), Some(5));
    assert_eq!(s.accept(1), None);
    assert!(s.is_done());
    assert_eq!(s.context(), None);
    assert_eq!(s.accept(6), None);
    assert_eq!(s.generated().into_vec(), vec![5]);
    assert_eq!(s.tokens().as_slice(), &[3, 5]);
}

#[test]
fn penalty_context_is_last_window_or_off() {
    let s = InferIter::start(TokenString::new(vec![1, 2, 3]), 1.1f32.to_bits(), 2, Some(0)).unwrap();
    assert_eq!(s.penalty_context(), Some(vec![2, 3]));
    let wide = InferIter::start(TokenString::new(vec![1, 2, 3]), 1.1f32.to_bits(), 10, Some(0)).unwrap();
    assert_eq!(wide.penalty_context(), Some(vec![1, 2, 3]));
    let off = InferIter::start(TokenString::new(vec![1, 2, 3]), NO_PENALTY, 2, Some(0)).unwrap();
    assert_eq!(off.penalty_context(), None);
    let no_window = InferIter::start(TokenString::new(vec![1, 2, 3]), 1.3f32.to_bits(), 0, Some(0)).unwrap();
    assert_eq!(no_window.penalty_context(), None);
}

#[test]
fn same_prompt_and_samples_give_same_tokens() {
    let a = run(vec![2, 3], &[4, 5, 1, 6]);
    let b = run(vec![2, 3], &[4, 5, 1, 6]);
    assert_eq!(a, vec![4, 5]);
    assert_eq!(a, b);
}

#[test]
fn session_seed_wraps() {
    assert_eq!(session_seed(5, 7), 12);
    assert_eq!(session_seed(u64::MAX, 2), 1);
}

#[test]
fn completion_stops_on_stop_text() {
    let mut c = Completion::new(10, vec![".".to_string(), "!\"".to_string()]);
    assert!(c.accept(1, "Hi"));
    assert!(!c.accept(2, " there."));
    assert_eq!(c.into_tokens().into_vec(), vec![1, 2]);
    let mut d = Completion::new(10, vec!["!\"".to_string()]);
    assert!(d.accept(1, "!"));
    assert!(!d.accept(2, "no!\""));
}

#[test]
fn completion_stops_at_budget() {
    let mut c = Completion::new(2, Vec::new());
    assert!(c.accept(1, "a"));
    assert!(!c.accept(2, "b"));
    let mut z = Completion::new(0, Vec::new());
    assert!(!z.accept(1, "a"));
    assert_eq!(z.into_tokens().into_vec(), vec![1]);
}

#[test]
fn until_marker_keeps_text_before_marker() {
    let mut u = UntilMarker::new(vec!["]".to_string()]);
    assert!(u.accept("ab"));
    assert!(!u.accept("]"));
    assert_eq!(u.into_text(), "ab");
    let mut one = UntilMarker::new(vec!["]".to_string()]);
    assert!(!one.accept("ab]cd"));
    assert_eq!(one.into_text(), "ab");
    let mut tokens = UntilMarker::new(vec!["]".to_string()]);
    let mut consumed = Vec::new();
    for piece in ["a", "b]c", "d"] {
        consumed.push(piece);
        if !tokens.accept(piece) {
            break;
        }
    }
    assert_eq!(consumed, vec!["a", "b]c"]);
    assert_eq!(tokens.into_text(), "ab");
}
