use storyteller::crafter::{craft_instruction, craft_prompt, examples_text, CrafterExample};
use storyteller::turn::{SceneTurn, SceneTurnType};

#[test]
fn example_formats_items_and_result() {
    let ex = CrafterExample::new(&["water", "fire"], "steam");
    assert_eq!(ex.items, "[water] + [fire]");
    assert_eq!(ex.result, "[steam]");
    let one = CrafterExample::new(&["hope"], "life");
    assert_eq!(one.items, "[hope]");
}

#[test]
fn examples_text_has_one_line_each() {
    let exs = [
        CrafterExample::new(&["water", "fire"], "steam"),
        CrafterExample::new(&["sugar", "water", "bee"], "honey"),
    ];
    assert_eq!(
        examples_text(&exs),
        "When you combine [water] + [fire] you get [steam].\nWhen you combine [sugar] + [water] + [bee] you get [honey]."
    );
}

#[test]
fn craft_prompt_asks_for_combination() {
    assert_eq!(
        craft_instruction(&["water", "cloud"]),
        "Given the examples, what might you get by combining [water] + [cloud]?"
    );
    assert_eq!(
        craft_prompt("EX", &["a"]),
        "### Examples:\nEX\n### Instruction:\nGiven the examples, what might you get by combining [a]?\n### Response:\n["
    );
}

#[test]
fn crafting() {
    let examples = [
        CrafterExample::new(&["water", "fire"], "steam"),
        CrafterExample::new(&["sugar", "water", "bee"], "honey"),
        CrafterExample::new(&["human", "hammer"], "construction worker"),
        CrafterExample::new(&["earth", "water"], "mud"),
        CrafterExample::new(&["clown", "tent"], "circus"),
        CrafterExample::new(&["hope", "despair"], "life"),
    ];
    let text = examples_text(&examples);
    assert_eq!(text.lines().count(), 6);
    for (items, instruction) in [
        (vec!["water", "cloud"], "[water] + [cloud]"),
        (vec!["politics", "sword", "bomb"], "[politics] + [sword] + [bomb]"),
        (vec!["fire", "water"], "[fire] + [water]"),
        (vec!["fire", "water", "earth"], "[fire] + [water] + [earth]"),
    ] {
        let prompt = craft_prompt(&text, &items);
        assert_eq!(
            prompt,
            format!(
                "### Examples:\n{}\n### Instruction:\nGiven the examples, what might you get by combining {}?\n### Response:\n[",
                text, instruction
            )
        );
    }
    assert!(text.ends_with("When you combine [hope] + [despair] you get [life]."));
}

#[test]
fn scene_turn_constructors() {
    let s = SceneTurn::story("It rains.");
    assert_eq!(s, SceneTurn::new(SceneTurnType::Story("It rains.".to_string())));
    assert_eq!(s.to_string(), "It rains.");
    let d = SceneTurn::dialogue("Morgan", "Hello");
    assert_eq!(d.turn_type(), &SceneTurnType::Dialogue("Morgan".to_string(), "Hello".to_string()));
    assert_eq!(d.to_string(), "Morgan: \"Hello\"");
}
