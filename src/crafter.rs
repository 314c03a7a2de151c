use vstd::prelude::*;

use crate::instruct::{instruct_prompt, instruct_text};
use crate::text::{join, joined};

verus! {

/// The views of the texts of a slice.
pub open spec fn texts(items: Seq<&str>) -> Seq<Seq<char>> {
    Seq::new(items.len(), |i: int| items[i]@)
}

/// Items listed as `[a] + [b] + [c]`.
pub open spec fn combination(items: Seq<Seq<char>>) -> Seq<char> {
    "["@ + joined(items, "] + ["@) + "]"@
}

/// The line that states one example.
pub open spec fn example_line(ex: (Seq<char>, Seq<char>)) -> Seq<char> {
    "When you combine "@ + ex.0 + " you get "@ + ex.1 + "."@
}

/// The examples, one line each.
pub open spec fn example_lines(exs: Seq<(Seq<char>, Seq<char>)>) -> Seq<char> {
    joined(Seq::new(exs.len(), |i: int| example_line(exs[i])), "\n"@)
}

/// The instruction that asks for the result of combining items.
pub open spec fn craft_instruction_text(items: Seq<Seq<char>>) -> Seq<char> {
    "Given the examples, what might you get by combining ["@ + joined(items, "] + ["@) + "]?"@
}

/// The text of a crafting prompt: the examples as a section, the
/// instruction, and a response that starts with `[`.
pub open spec fn craft_prompt_text(examples: Seq<char>, items: Seq<Seq<char>>) -> Seq<char> {
    instruct_text(craft_instruction_text(items), seq![("Examples"@, examples), ("Response"@, "["@)])
}

/// One example of crafting: the items combined and what they give.
pub struct CrafterExample {
    pub items: String,
    pub result: String,
}

impl View for CrafterExample {
    type V = (Seq<char>, Seq<char>);

    open spec fn view(&self) -> (Seq<char>, Seq<char>) {
        (self.items@, self.result@)
    }
}

/// Owned copies of the texts of a slice.
fn owned_texts(items: &[&str]) -> (r: Vec<String>)
    ensures
        r.deep_view() =~= texts(items@),
{
    let mut r: Vec<String> = Vec::new();
    let mut i: usize = 0;
    while i < items.len()
        invariant
            i <= items@.len(),
            r.len() == i,
            forall|j: int| 0 <= j < i ==> (#[trigger] r[j])@ == items@[j]@,
        decreases items.len() - i,
    {
        r.push(String::from_str(items[i]));
        i = i + 1;
    }
    r
}

impl CrafterExample {
    /// An example: `items` give `result`, written `[a] + [b]` and `[result]`.
    pub fn new(items: &[&str], result: &str) -> (r: CrafterExample)
        ensures
            r@.0 == combination(texts(items@)),
            r@.1 == "["@ + result@ + "]"@,
    {
        let owned = owned_texts(items);
        let mut listed = String::from_str("[");
        let inner = join(&owned, "] + [");
        listed.append(inner.as_str());
        listed.append("]");
        let mut res = String::from_str("[");
        res.append(result);
        res.append("]");
        CrafterExample { items: listed, result: res }
    }
}

/// The examples, one line each: `When you combine [a] + [b] you get [c].`
pub fn examples_text(examples: &[CrafterExample]) -> (r: String)
    ensures
        r@ == example_lines(Seq::new(examples@.len(), |i: int| examples@[i]@)),
{
    let ghost exs = Seq::new(examples@.len(), |i: int| examples@[i]@);
    let mut lines: Vec<String> = Vec::new();
    let mut i: usize = 0;
    while i < examples.len()
        invariant
            i <= examples@.len(),
            exs == Seq::new(examples@.len(), |i: int| examples@[i]@),
            lines.len() == i,
            forall|j: int| 0 <= j < i ==> (#[trigger] lines[j])@ == example_line(exs[j]),
        decreases examples.len() - i,
    {
        let mut line = String::from_str("When you combine ");
        line.append(examples[i].items.as_str());
        line.append(" you get ");
        line.append(examples[i].result.as_str());
        line.append(".");
        lines.push(line);
        i = i + 1;
    }
    let r = join(&lines, "\n");
    assert(lines.deep_view() =~= Seq::new(exs.len(), |i: int| example_line(exs[i])));
    r
}

/// The instruction that asks for the result of combining `items`.
pub fn craft_instruction(items: &[&str]) -> (r: String)
    ensures
        r@ == craft_instruction_text(texts(items@)),
{
    let owned = owned_texts(items);
    let mut r = String::from_str("Given the examples, what might you get by combining [");
    let inner = join(&owned, "] + [");
    r.append(inner.as_str());
    r.append("]?");
    r
}

/// The text of the prompt that asks for the result of combining `items`,
/// given the example lines `examples`.
pub fn craft_prompt(examples: &str, items: &[&str]) -> (r: String)
    ensures
        r@ == craft_prompt_text(examples@, texts(items@)),
{
    let instruction = craft_instruction(items);
    let mut extra: Vec<(String, String)> = Vec::new();
    extra.push((String::from_str("Examples"), String::from_str(examples)));
    extra.push((String::from_str("Response"), String::from_str("[")));
    assert(extra.deep_view() =~= seq![("Examples"@, examples@), ("Response"@, "["@)]);
    instruct_prompt(instruction.as_str(), &extra)
}

} // verus!
