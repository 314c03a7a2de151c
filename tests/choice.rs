use storyteller::choice::{choice_base_seed, ChoiceRun, ChoiceStep};

fn items(names: &[&str]) -> Vec<String> {
    names.iter().map(|s| s.to_string()).collect()
}

#[test]
fn sw_converges_on_sword_in_first_attempt() {
    let mut run = ChoiceRun::new("ctx", "traits", &items(&["sword", "shield"]), 7, 5);
    assert_eq!(run.start(), ChoiceStep::Generate { seed: 7, temperature: 200 });
    assert_eq!(run.on_token("sw"), ChoiceStep::Chosen("sword".to_string()));
    assert!(!run.is_generating());
}

#[test]
fn text_prefix_of_neither_fails_attempt() {
    let mut run = ChoiceRun::new("ctx", "traits", &items(&["sword", "shield"]), 7, 5);
    assert_eq!(run.start(), ChoiceStep::Generate { seed: 7, temperature: 200 });
    assert_eq!(run.on_token("x"), ChoiceStep::Generate { seed: 8, temperature: 400 });
    assert!(run.is_generating());
    assert_eq!(run.on_token(" S"), ChoiceStep::NextToken);
    assert_eq!(run.on_token("hi"), ChoiceStep::Chosen("shield".to_string()));
}

#[test]
fn exhausted_generation_opens_next_attempt_until_bound() {
    let mut run = ChoiceRun::new("ctx", "traits", &items(&["Sword ", " shield"]), 3, 2);
    assert_eq!(run.start(), ChoiceStep::Generate { seed: 3, temperature: 200 });
    assert_eq!(run.on_exhausted(), ChoiceStep::Generate { seed: 4, temperature: 400 });
    assert_eq!(run.on_token("s"), ChoiceStep::NextToken);
    assert_eq!(run.on_exhausted(), ChoiceStep::NoAnswer);
}

#[test]
fn one_candidate_is_chosen_without_generation() {
    let mut run = ChoiceRun::new("ctx", "traits", &items(&["  Lantern "]), 1, 3);
    assert_eq!(run.start(), ChoiceStep::Chosen("lantern".to_string()));
}

#[test]
fn no_candidates_or_no_attempts_give_no_answer() {
    let mut none = ChoiceRun::new("ctx", "traits", &Vec::new(), 1, 3);
    assert_eq!(none.start(), ChoiceStep::NoAnswer);
    let mut zero = ChoiceRun::new("ctx", "traits", &items(&["a", "b"]), 1, 0);
    assert_eq!(zero.start(), ChoiceStep::NoAnswer);
}

#[test]
fn base_seed_moves_down_when_attempts_would_overflow() {
    assert_eq!(choice_base_seed(10, 5), 10);
    assert_eq!(choice_base_seed(u64::MAX - 5, 5), u64::MAX - 5);
    assert_eq!(choice_base_seed(u64::MAX, 5), 9223372036854775808);
    assert_eq!(choice_base_seed(3, usize::MAX), 0);
    let many = (usize::MAX / 2) + 10;
    assert_eq!(choice_base_seed(u64::MAX, many), u64::MAX - many as u64);
    let mut run = ChoiceRun::new("ctx", "traits", &items(&["a", "b"]), u64::MAX, 5);
    assert_eq!(run.start(), ChoiceStep::Generate { seed: 9223372036854775808, temperature: 200 });
}

#[test]
fn choose_items() {
    const SEED: u64 = 545856;
    const ATTEMPTS: usize = 5;
    let mut run = ChoiceRun::new(
        "You are a knight in a fantasy world.",
        "The item should be a weapon capable of defeating a dragon.",
        &items(&["horse", "sword", "potion", "compass"]),
        SEED,
        ATTEMPTS,
    );
    assert_eq!(
        run.prompt(),
        "### Context:\nYou are a knight in a fantasy world.\n### Items:\n[horse][sword][potion][compass]\n\
         ### Desired Traits:\nThe item should be a weapon capable of defeating a dragon.\n\
         ### Instruction:\nChoose the most appropriate item for the context and desired traits.\n### Response:\n["
    );
    assert_eq!(run.start(), ChoiceStep::Generate { seed: SEED, temperature: 200 });
    assert_eq!(run.on_token("s"), ChoiceStep::Chosen("sword".to_string()));

    let mut run = ChoiceRun::new(
        "You are a grade school teacher. There is a new student in your class. You want to make them feel welcome.",
        "Something tasty",
        &items(&["snacks", "ball", "coloring book", "stuffed animal", "book"]),
        SEED,
        ATTEMPTS,
    );
    assert!(run.prompt().contains("### Items:\n[snacks][ball][coloring book][stuffed animal][book]\n"));
    assert_eq!(run.start(), ChoiceStep::Generate { seed: SEED, temperature: 200 });
    assert_eq!(run.on_token("sn"), ChoiceStep::Chosen("snacks".to_string()));
}
