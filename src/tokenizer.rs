use vstd::prelude::*;

verus! {

/// The token ids that the cl100k_base encoding gives a text, without
/// special tokens.
pub uninterp spec fn cl100k_tokens(text: Seq<char>) -> Seq<u32>;

/// The text that the cl100k_base encoding gives a token sequence, or `None`
/// where the bytes of those tokens are not valid UTF-8 or an id is unknown.
pub uninterp spec fn cl100k_text(tokens: Seq<u32>) -> Option<Seq<char>>;

/// Relies on tiktoken_rs::CoreBPE::encode_ordinary on the cl100k_base
/// encoding: the ids depend on the text alone.
#[verifier::external_body]
pub(crate) fn encode_text(text: &str) -> (r: Vec<u32>)
    ensures
        r@ == cl100k_tokens(text@),
{
    tiktoken_rs::cl100k_base_singleton().encode_ordinary(text)
}

/// Relies on tiktoken_rs::CoreBPE::decode on the cl100k_base encoding: the
/// bytes of the tokens read as UTF-8, or an error.
#[verifier::external_body]
pub(crate) fn decode_tokens(tokens: &[u32]) -> (r: Option<String>)
    ensures
        match r {
            Some(s) => cl100k_text(tokens@) == Some(s@),
            None => cl100k_text(tokens@) is None,
        },
{
    tiktoken_rs::cl100k_base_singleton().decode(tokens).ok()
}

} // verus!
