use std::collections::HashMap;

use storyteller::token_string::{Shortening, TokenString};
use tokenizers::models::wordlevel::WordLevel;
use tokenizers::pre_tokenizers::whitespace::WhitespaceSplit;
use tokenizers::Tokenizer;

fn word_codec() -> Tokenizer {
    let mut vocab = HashMap::new();
    for (i, w) in ["[UNK]", "<|endoftext|>", "hello", "world", "the", "end"].iter().enumerate() {
        vocab.insert(w.to_string(), i as u32);
    }
    let model = WordLevel::builder().vocab(vocab).unk_token("[UNK]".to_string()).build().unwrap();
    let mut codec = Tokenizer::new(model);
    codec.with_pre_tokenizer(WhitespaceSplit);
    codec
}

#[test]
fn push_and_push_many_append_in_order() {
    let mut t = TokenString::empty();
    assert!(t.is_empty());
    t.push(5);
    t.push_many(&[6, 7]);
    t.extend(&TokenString::new(vec![8]));
    assert_eq!(t.as_slice(), &[5, 6, 7, 8]);
    assert_eq!(t.len(), 4);
    t.truncate(2);
    assert_eq!(t.into_vec(), vec![5, 6]);
}

#[test]
fn get_range_fails_outside_the_buffer() {
    let t = TokenString::new(vec![1, 2, 3, 4]);
    assert_eq!(t.get(1, 3), Some(vec![2, 3]));
    assert_eq!(t.get(4, 4), Some(vec![]));
    assert_eq!(t.get(3, 2), None);
    assert_eq!(t.get(0, 5), None);
}

#[test]
fn seeds_sum_first_or_last_four_tokens() {
    let t = TokenString::new(vec![1, 2, 3, 4, 5]);
    assert_eq!(t.trailing_seed(), 14);
    assert_eq!(t.leading_seed(), 10);
    let short = TokenString::new(vec![1, 2]);
    assert_eq!(short.trailing_seed(), 3);
    assert_eq!(short.leading_seed(), 3);
    assert_eq!(TokenString::empty().trailing_seed(), 0);
    assert_eq!(t.instruct_seed(), 14);
    assert_eq!(short.instruct_seed(), 0);
    let big = TokenString::new(vec![u32::MAX, u32::MAX, u32::MAX, u32::MAX]);
    assert_eq!(big.trailing_seed(), 4 * (u32::MAX as u64));
}

#[test]
fn encode_and_decode_go_through_the_tokenizer() {
    let codec = word_codec();
    let t = TokenString::encode(&codec, "hello world unknown").unwrap();
    assert_eq!(t.as_slice(), &[2, 3, 0]);
    let mut u = TokenString::new(vec![4]);
    u.push_str(&codec, "end").unwrap();
    assert_eq!(u.as_slice(), &[4, 5]);
    assert_eq!(u.to_string(&codec).unwrap(), "the end");
}

#[test]
fn shortening_attempts_use_increasing_seeds_and_budget() {
    let text = TokenString::new(vec![1, 2, 3, 4, 5]);
    let mut attempts = Shortening::new(&text, 3, 2);
    assert_eq!(attempts.next_seed(), Some(10));
    assert_eq!(attempts.next_seed(), Some(11));
    assert_eq!(attempts.next_seed(), None);
    assert!(attempts.fits(&TokenString::new(vec![7, 8, 9])));
    assert!(!attempts.fits(&TokenString::new(vec![7, 8, 9, 10])));
    let mut wrap = Shortening::new(&TokenString::new(vec![u32::MAX; 4]), 3, 1);
    assert_eq!(wrap.next_seed(), Some(4 * (u32::MAX as u64)));
}

#[test]
fn slices_and_iteration_see_the_tokens() {
    let mut t = TokenString::new(vec![1, 2, 3]);
    t.as_mut_slice()[1] = 9;
    assert_eq!(t.as_slice(), &[1, 9, 3]);
    let collected: Vec<u32> = t.iter().copied().collect();
    assert_eq!(collected, vec![1, 9, 3]);
}
