use vstd::prelude::*;
use crate::chunker::Chunk;
use crate::completion::CompletionError;
use crate::completion::CompletionResult;
use crate::prompt::is_two_part_prompt;
use crate::prompt::summary_prompt;
use crate::prompt::summary_request_text;
use crate::prompt::ChatMessage;

verus! {

/// One summary prompt per chunk, in chunk order.
pub fn summary_prompts(persona: &str, chunks: &Vec<Chunk>) -> (r: Vec<Vec<ChatMessage>>)
    ensures
        r@.len() == chunks@.len(),
        forall|k: int|
            0 <= k < r@.len() ==> is_two_part_prompt(
                #[trigger] r@[k]@,
                persona@,
                summary_request_text(chunks@[k].decoded_text@),
            ),
{
    let mut out: Vec<Vec<ChatMessage>> = Vec::new();
    let mut i: usize = 0;
    while i < chunks.len()
        invariant
            i <= chunks@.len(),
            out@.len() == i,
            forall|k: int|
                0 <= k < i ==> is_two_part_prompt(
                    #[trigger] out@[k]@,
                    persona@,
                    summary_request_text(chunks@[k].decoded_text@),
                ),
        decreases chunks.len() - i,
    {
        out.push(summary_prompt(persona, chunks[i].decoded_text.as_str()));
        i = i + 1;
    }
    out
}

/// The texts of the successful outcomes, in order; failures leave no trace.
pub open spec fn kept_texts(outcomes: Seq<Result<CompletionResult, CompletionError>>) -> Seq<Seq<char>>
    decreases outcomes.len(),
{
    if outcomes.len() == 0 {
        Seq::empty()
    } else {
        let rest = kept_texts(outcomes.drop_last());
        match outcomes.last() {
            Ok(c) => rest.push(c.text@),
            Err(_) => rest,
        }
    }
}

/// The summaries to post for the outcomes of the per-chunk completion
/// calls, in chunk order, leaving out the chunks whose call failed.
pub fn gather_summaries(outcomes: &Vec<Result<CompletionResult, CompletionError>>) -> (r: Vec<String>)
    ensures
        r@.len() == kept_texts(outcomes@).len(),
        forall|k: int| 0 <= k < r@.len() ==> #[trigger] r@[k]@ == kept_texts(outcomes@)[k],
{
    let mut out: Vec<String> = Vec::new();
    let mut i: usize = 0;
    while i < outcomes.len()
        invariant
            i <= outcomes@.len(),
            out@.len() == kept_texts(outcomes@.take(i as int)).len(),
            forall|k: int| 0 <= k < out@.len() ==> #[trigger] out@[k]@ == kept_texts(outcomes@.take(i as int))[k],
        decreases outcomes.len() - i,
    {
        assert(outcomes@.take(i + 1).drop_last() =~= outcomes@.take(i as int));
        match &outcomes[i] {
            Ok(c) => {
                out.push(c.text.clone());
            },
            Err(_) => {},
        }
        i = i + 1;
    }
    assert(outcomes@.take(outcomes@.len() as int) =~= outcomes@);
    out
}

} // verus!
