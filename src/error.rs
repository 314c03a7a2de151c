use vstd::prelude::*;

verus! {

/// Why a request to the model could not be served.
#[derive(Debug, Clone, Copy, PartialEq, Eq, Structural)]
pub enum InferError {
    /// Generation was asked for on a prompt without tokens.
    EmptyPrompt,
    /// A special token that generation needs is not in the vocabulary.
    TokenNotFound,
    /// The tokenizer could not encode or decode a text.
    Codec,
    /// No character of a scene may speak next.
    InvalidSceneConfiguration,
}

} // verus!
