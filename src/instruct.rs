use vstd::prelude::*;

use crate::codec::{encode_text, encoded};
use crate::error::InferError;
use crate::token_string::TokenString;

verus! {

/// The label whose value is not a section but the start of the response.
pub open spec fn response_label() -> Seq<char> {
    "Response"@
}

/// One labelled section of an instruct prompt.
pub open spec fn section(label: Seq<char>, value: Seq<char>) -> Seq<char> {
    "### "@ + label + ":\n"@ + value + "\n"@
}

/// The sections for the entries of `extra` in order, the response entries left out.
pub open spec fn sections(extra: Seq<(Seq<char>, Seq<char>)>) -> Seq<char>
    decreases extra.len(),
{
    if extra.len() == 0 {
        Seq::empty()
    } else if extra.last().0 == response_label() {
        sections(extra.drop_last())
    } else {
        sections(extra.drop_last()) + section(extra.last().0, extra.last().1)
    }
}

/// The value of the first response entry of `extra`, or nothing.
pub open spec fn response_value(extra: Seq<(Seq<char>, Seq<char>)>) -> Seq<char>
    decreases extra.len(),
{
    if extra.len() == 0 {
        Seq::empty()
    } else if extra[0].0 == response_label() {
        extra[0].1
    } else {
        response_value(extra.drop_first())
    }
}

/// The text of an instruct prompt: the sections, the instruction, the
/// response header, and the forced start of the response.
pub open spec fn instruct_text(instruction: Seq<char>, extra: Seq<(Seq<char>, Seq<char>)>) -> Seq<char> {
    sections(extra) + "### Instruction:\n"@ + instruction + "\n"@ + "### Response:\n"@
        + response_value(extra)
}

/// Assemble the text of an instruct prompt from labelled entries, in order,
/// and an instruction. An entry labelled `Response` is no section: the value
/// of the first one starts the response.
pub fn instruct_prompt(instruction: &str, extra: &Vec<(String, String)>) -> (r: String)
    ensures
        r@ == instruct_text(instruction@, extra.deep_view()),
{
    let ghost ex = extra.deep_view();
    let response = String::from_str("Response");
    let mut prompt = String::new();
    let mut i: usize = 0;
    while i < extra.len()
        invariant
            i <= extra.len(),
            ex == extra.deep_view(),
            response@ == response_label(),
            prompt@ == sections(ex.take(i as int)),
        decreases extra.len() - i,
    {
        let label = &extra[i].0;
        let value = &extra[i].1;
        assert(ex.take(i + 1).drop_last() =~= ex.take(i as int));
        if !(*label == response) {
            prompt.append("### ");
            prompt.append(label.as_str());
            prompt.append(":\n");
            prompt.append(value.as_str());
            prompt.append("\n");
        }
        i = i + 1;
    }
    assert(ex.take(i as int) =~= ex);
    prompt.append("### Instruction:\n");
    prompt.append(instruction);
    prompt.append("\n");
    prompt.append("### Response:\n");
    let ghost base = prompt@;
    assert(base == sections(ex) + "### Instruction:\n"@ + instruction@ + "\n"@ + "### Response:\n"@);
    let mut j: usize = 0;
    while j < extra.len()
        invariant
            prompt@ == base,
            base == sections(ex) + "### Instruction:\n"@ + instruction@ + "\n"@ + "### Response:\n"@,
            j <= extra.len(),
            ex == extra.deep_view(),
            response@ == response_label(),
            response_value(ex) == response_value(ex.skip(j as int)),
        decreases extra.len() - j,
    {
        assert(ex.skip(j as int).drop_first() =~= ex.skip(j + 1));
        assert(ex[j as int] == extra[j as int].deep_view());
        if extra[j].0 == response {
            prompt.append(extra[j].1.as_str());
            return prompt;
        }
        j = j + 1;
    }
    assert(ex.skip(j as int).len() == 0);
    prompt
}

/// The header encoded before an encoded instruction.
pub open spec fn instruction_header() -> Seq<char> {
    "### Instruction:\n"@
}

/// The header encoded after an encoded instruction.
pub open spec fn response_header() -> Seq<char> {
    "\n### Response:\n"@
}

/// The request encoded before the text to paraphrase.
pub open spec fn paraphrase_request() -> Seq<char> {
    "Paraphrase the following text:\n"@
}

/// `p` is the encoded instruction header, the tokens of `instruction`, and
/// the encoded response header.
pub open spec fn wraps_instruction(p: Seq<u32>, instruction: Seq<u32>) -> bool {
    exists|head: Seq<u32>, tail: Seq<u32>|
        #![trigger encoded(instruction_header(), head), encoded(response_header(), tail)]
        encoded(instruction_header(), head) && encoded(response_header(), tail) && p == head + instruction + tail
}

/// `p` is the encoded paraphrase request followed by the tokens of `text`.
pub open spec fn requests_paraphrase(p: Seq<u32>, text: Seq<u32>) -> bool {
    exists|head: Seq<u32>| #[trigger] encoded(paraphrase_request(), head) && p == head + text
}

/// The encoded instruct prompt.
pub fn instruct_tokens(
    codec: &tokenizers::Tokenizer,
    instruction: &str,
    extra: &Vec<(String, String)>,
) -> (r: Result<TokenString, InferError>)
    ensures
        r matches Ok(p) ==> encoded(instruct_text(instruction@, extra.deep_view()), p@),
        r matches Err(e) ==> e == InferError::Codec,
{
    let prompt = instruct_prompt(instruction, extra);
    TokenString::encode(codec, prompt.as_str())
}

/// An instruct prompt around an already encoded instruction: the encoded
/// instruction header, the instruction's tokens, and the encoded response
/// header.
pub fn instruct_buffer(codec: &tokenizers::Tokenizer, instruction: &TokenString) -> (r: Result<TokenString, InferError>)
    ensures
        r matches Ok(p) ==> wraps_instruction(p@, instruction@),
        r matches Err(e) ==> e == InferError::Codec,
{
    let head = match encode_text(codec, "### Instruction:\n") {
        Some(ids) => ids,
        None => return Err(InferError::Codec),
    };
    let tail = match encode_text(codec, "\n### Response:\n") {
        Some(ids) => ids,
        None => return Err(InferError::Codec),
    };
    let mut prompt = TokenString::new(head);
    prompt.extend(instruction);
    prompt.push_many(tail.as_slice());
    assert(encoded(instruction_header(), head@) && encoded(response_header(), tail@)
        && prompt@ == head@ + instruction@ + tail@);
    Ok(prompt)
}

/// The instruction to paraphrase `memory`: the encoded paraphrase request
/// followed by the tokens of `memory`.
pub fn paraphrase_instruction(codec: &tokenizers::Tokenizer, memory: &TokenString) -> (r: Result<TokenString, InferError>)
    ensures
        r matches Ok(p) ==> requests_paraphrase(p@, memory@),
        r matches Err(e) ==> e == InferError::Codec,
{
    match encode_text(codec, "Paraphrase the following text:\n") {
        Some(ids) => {
            let mut instruction = TokenString::new(ids);
            instruction.extend(memory);
            assert(encoded(paraphrase_request(), ids@) && instruction@ == ids@ + memory@);
            Ok(instruction)
        },
        None => Err(InferError::Codec),
    }
}

} // verus!
