use vstd::prelude::*;

verus! {

#[verifier::external_type_specification]
#[verifier::external_body]
pub struct ExTokenizer(tokenizers::Tokenizer);

/// `ids` came out of a tokenizer that was handed `text` to encode. This
/// records which text was encoded and nothing more: it is a relation, which
/// another vocabulary may satisfy with other ids for the same text, so
/// nothing follows from it about which ids those are.
pub uninterp spec fn encoded(text: Seq<char>, ids: Seq<u32>) -> bool;

/// `id` came out of a tokenizer that was asked for the id of `token`. As
/// with `encoded`, this records the question, not the answer.
pub uninterp spec fn vocabulary_id(token: Seq<char>, id: u32) -> bool;

/// Relies on `tokenizers::Tokenizer::encode` (special tokens added): the ids
/// of the encoding of `text`, or `None` where the tokenizer reports an error.
/// What the ids are depends on the vocabulary that was loaded.
#[verifier::external_body]
pub(crate) fn encode_text(codec: &tokenizers::Tokenizer, text: &str) -> (r: Option<Vec<u32>>)
    ensures
        r matches Some(ids) ==> encoded(text@, ids@),
{
    match codec.encode(text, true) {
        Ok(encoding) => Some(encoding.get_ids().to_vec()),
        Err(_) => None,
    }
}

/// Relies on `tokenizers::Tokenizer::decode` (special tokens skipped): the
/// text of the ids, or `None` where the tokenizer reports an error.
#[verifier::external_body]
pub(crate) fn decode_ids(codec: &tokenizers::Tokenizer, ids: &[u32]) -> (r: Option<String>) {
    match codec.decode(ids, true) {
        Ok(text) => Some(text),
        Err(_) => None,
    }
}

/// Relies on `tokenizers::Tokenizer::token_to_id`: the id of a token of the
/// vocabulary (added tokens included), or `None` where it has none.
#[verifier::external_body]
pub(crate) fn token_id(codec: &tokenizers::Tokenizer, token: &str) -> (r: Option<u32>)
    ensures
        r matches Some(id) ==> vocabulary_id(token@, id),
{
    codec.token_to_id(token)
}

} // verus!
