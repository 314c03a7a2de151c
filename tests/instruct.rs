use storyteller::instruct::instruct_prompt;

#[test]
fn instruct_prompt_lists_sections_then_instruction_then_response() {
    let extra = vec![
        ("A".to_string(), "1".to_string()),
        ("Response".to_string(), "go".to_string()),
        ("B".to_string(), "2".to_string()),
        ("Response".to_string(), "x".to_string()),
    ];
    assert_eq!(
        instruct_prompt("Do it", &extra),
        "### A:\n1\n### B:\n2\n### Instruction:\nDo it\n### Response:\ngo"
    );
}

#[test]
fn instruct_prompt_without_entries() {
    assert_eq!(instruct_prompt("Say hi", &Vec::new()), "### Instruction:\nSay hi\n### Response:\n");
}
