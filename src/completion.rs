use vstd::prelude::*;
use vstd::string::StrSliceExecFns;
use vstd::string::StringExecFns;

verus! {

/// One message of a chat-completion reply, as the service sends it.
pub struct Message {
    pub role: String,
    pub content: String,
}

/// One candidate reply of the service.
pub struct Choice {
    pub index: u32,
    pub message: Message,
    pub finish_reason: String,
}

/// Token accounting of one completion.
#[derive(PartialEq, Eq, Structural, Debug, Clone, Copy)]
pub struct Usage {
    pub prompt_tokens: u32,
    pub completion_tokens: u32,
    pub total_tokens: u32,
}

/// The body of a chat-completion reply.
pub struct ChatResponse {
    pub id: String,
    pub choices: Vec<Choice>,
    pub usage: Usage,
}

/// Why the model stopped producing text.
#[derive(PartialEq, Eq, Structural, Debug, Clone, Copy)]
pub enum FinishReason {
    Stop,
    Length,
    Other,
}

/// The total is the sum of the prompt and completion counts.
pub open spec fn usage_consistent(u: Usage) -> bool {
    u.total_tokens as int == u.prompt_tokens as int + u.completion_tokens as int
}

/// The reply of one completion call; its usage is consistent.
pub struct CompletionResult {
    pub text: String,
    pub finish_reason: FinishReason,
    pub usage: Usage,
}

/// The failures of a completion call.
#[derive(PartialEq, Eq, Structural, Debug, Clone, Copy)]
pub enum CompletionError {
    /// The network or transport failed; worth another attempt.
    Transport,
    /// The credential is missing or was rejected.
    Auth,
    /// The reply does not have the shape of a completion.
    MalformedResponse,
}

pub open spec fn finish_reason_spec(s: Seq<char>) -> FinishReason {
    if s == seq!['s', 't', 'o', 'p'] {
        FinishReason::Stop
    } else if s == seq!['l', 'e', 'n', 'g', 't', 'h'] {
        FinishReason::Length
    } else {
        FinishReason::Other
    }
}

/// Whether two texts hold the same characters.
pub fn same_text(a: &str, b: &str) -> (r: bool)
    ensures
        r == (a@ == b@),
{
    let n = a.unicode_len();
    if n != b.unicode_len() {
        return false;
    }
    let mut i: usize = 0;
    while i < n
        invariant
            i <= n == a@.len() == b@.len(),
            a@.subrange(0, i as int) == b@.subrange(0, i as int),
        decreases n - i,
    {
        if a.get_char(i) != b.get_char(i) {
            return false;
        }
        assert(a@.subrange(0, i + 1) =~= a@.subrange(0, i as int).push(a@[i as int]));
        assert(b@.subrange(0, i + 1) =~= b@.subrange(0, i as int).push(b@[i as int]));
        i = i + 1;
    }
    assert(a@ =~= a@.subrange(0, n as int));
    assert(b@ =~= b@.subrange(0, n as int));
    true
}

/// `c` holds the first candidate of `resp` and its token accounting.
pub open spec fn takes_first_choice(c: CompletionResult, resp: ChatResponse) -> bool {
    &&& resp.choices@.len() > 0
    &&& c.text@ == resp.choices@[0].message.content@
    &&& c.finish_reason == finish_reason_spec(resp.choices@[0].finish_reason@)
    &&& c.usage == resp.usage
}

/// Reads the finish reason that the service names.
pub fn finish_reason_of(s: &str) -> (r: FinishReason)
    ensures
        r == finish_reason_spec(s@),
{
    proof {
        reveal_strlit("stop");
        reveal_strlit("length");
    }
    if same_text(s, "stop") {
        assert("stop"@ =~= seq!['s', 't', 'o', 'p']);
        FinishReason::Stop
    } else if same_text(s, "length") {
        assert("length"@ =~= seq!['l', 'e', 'n', 'g', 't', 'h']);
        assert("stop"@ =~= seq!['s', 't', 'o', 'p']);
        FinishReason::Length
    } else {
        assert("stop"@ =~= seq!['s', 't', 'o', 'p']);
        assert("length"@ =~= seq!['l', 'e', 'n', 'g', 't', 'h']);
        FinishReason::Other
    }
}

/// `resp` has the shape of a completion: a candidate, and a consistent
/// token accounting.
pub open spec fn well_formed_reply(resp: ChatResponse) -> bool {
    resp.choices@.len() > 0 && usage_consistent(resp.usage)
}

/// Takes the first candidate of a reply as the completion; a reply without
/// candidates, or whose total token count is not the sum of the others, is
/// malformed.
pub fn result_from_response(resp: &ChatResponse) -> (r: Result<CompletionResult, CompletionError>)
    ensures
        !well_formed_reply(*resp) <==> r == Err::<CompletionResult, CompletionError>(
            CompletionError::MalformedResponse,
        ),
        well_formed_reply(*resp) ==> (r matches Ok(c) && takes_first_choice(c, *resp)),
{
    let u = resp.usage;
    if resp.choices.len() == 0 || u.total_tokens as u64 != u.prompt_tokens as u64
        + u.completion_tokens as u64 {
        return Err(CompletionError::MalformedResponse);
    }
    let first = &resp.choices[0];
    Ok(
        CompletionResult {
            text: first.message.content.clone(),
            finish_reason: finish_reason_of(first.finish_reason.as_str()),
            usage: resp.usage,
        },
    )
}

/// The outcome of one attempt, from the HTTP status and the reply body
/// where it could be read: 401 and 403 reject the credential, an unreadable
/// body is malformed.
pub fn attempt_outcome(status: u16, body: Option<ChatResponse>) -> (r: Result<
    CompletionResult,
    CompletionError,
>)
    ensures
        (status == 401 || status == 403) ==> r == Err::<CompletionResult, CompletionError>(
            CompletionError::Auth,
        ),
        status != 401 && status != 403 && body is None ==> r == Err::<
            CompletionResult,
            CompletionError,
        >(CompletionError::MalformedResponse),
        status != 401 && status != 403 && body is Some ==> ({
            let resp = body->0;
            &&& !well_formed_reply(resp) <==> r == Err::<CompletionResult, CompletionError>(
                CompletionError::MalformedResponse,
            )
            &&& well_formed_reply(resp) ==> (r matches Ok(c) && takes_first_choice(c, resp))
        }),
{
    if status == 401 || status == 403 {
        return Err(CompletionError::Auth);
    }
    match body {
        Some(resp) => result_from_response(&resp),
        None => Err(CompletionError::MalformedResponse),
    }
}

pub open spec fn bearer_spec(token: Seq<char>) -> Seq<char> {
    seq!['B', 'e', 'a', 'r', 'e', 'r', ' '] + token
}

/// The authorization header value for a credential; a missing credential
/// is an authentication failure.
pub fn authorization_header(credential: Option<&str>) -> (r: Result<String, CompletionError>)
    ensures
        credential is None <==> r == Err::<String, CompletionError>(CompletionError::Auth),
        credential is Some ==> (r matches Ok(h) && h@ == bearer_spec(credential->0@)),
{
    match credential {
        Some(token) => {
            let mut header = String::from_str("Bearer ");
            proof {
                reveal_strlit("Bearer ");
            }
            header.append(token);
            assert(header@ =~= bearer_spec(token@));
            Ok(header)
        },
        None => Err(CompletionError::Auth),
    }
}

/// What to do after an attempt.
pub enum RetryStep {
    /// Send the same request again.
    Retry,
    /// Stop, with this outcome for the caller.
    Finish(Result<CompletionResult, CompletionError>),
}

/// A bound on the attempts of one completion call; only transport failures
/// are retried. At least one attempt is always made.
#[derive(PartialEq, Eq, Structural, Debug, Clone, Copy)]
pub struct RetryPolicy {
    pub max_attempts: u32,
}

pub open spec fn retries(max_attempts: int, attempts_made: int, outcome: Result<
    CompletionResult,
    CompletionError,
>) -> bool {
    outcome == Err::<CompletionResult, CompletionError>(CompletionError::Transport)
        && attempts_made < max_attempts
}

/// The number of attempts that a call makes against a transport whose
/// successive outcomes are `outcomes`, counting from attempt `k`; where the
/// outcomes run out first, their number.
pub open spec fn attempts_taken(max_attempts: int, outcomes: Seq<
    Result<CompletionResult, CompletionError>,
>, k: int) -> int
    decreases outcomes.len() - k,
{
    if k < 0 || k >= outcomes.len() {
        k
    } else if retries(max_attempts, k + 1, outcomes[k]) {
        attempts_taken(max_attempts, outcomes, k + 1)
    } else {
        k + 1
    }
}

impl RetryPolicy {
    /// The policy with the usual bound of three attempts.
    pub fn standard() -> (r: RetryPolicy)
        ensures
            r.max_attempts == 3,
    {
        RetryPolicy { max_attempts: 3 }
    }

    /// Decides, after the attempt numbered `attempts_made` (from 1), whether
    /// to send the request again or to hand `outcome` to the caller.
    pub fn next_step(&self, attempts_made: u32, outcome: Result<CompletionResult, CompletionError>) -> (r: RetryStep)
        ensures
            retries(self.max_attempts as int, attempts_made as int, outcome) ==> r is Retry,
            !retries(self.max_attempts as int, attempts_made as int, outcome) ==> r == RetryStep::Finish(outcome),
    {
        match outcome {
            Err(CompletionError::Transport) => {
                if attempts_made < self.max_attempts {
                    RetryStep::Retry
                } else {
                    RetryStep::Finish(outcome)
                }
            },
            _ => RetryStep::Finish(outcome),
        }
    }

    /// Runs the policy against a transport whose successive outcomes are
    /// given, and returns the number of attempts made and whether the call
    /// settled (the last attempt's outcome is then the caller's).
    pub fn replay(&self, outcomes: &Vec<Result<CompletionResult, CompletionError>>) -> (r: (usize, bool))
        ensures
            r.0 == attempts_taken(self.max_attempts as int, outcomes@, 0),
            r.1 == (r.0 > 0 && !retries(self.max_attempts as int, r.0 as int, outcomes@[r.0 - 1])),
    {
        let mut k: usize = 0;
        while k < outcomes.len()
            invariant
                k <= outcomes@.len(),
                attempts_taken(self.max_attempts as int, outcomes@, k as int)
                    == attempts_taken(self.max_attempts as int, outcomes@, 0),
                k > 0 ==> retries(self.max_attempts as int, k as int, outcomes@[k - 1]),
            decreases outcomes.len() - k,
        {
            let settle = match &outcomes[k] {
                Err(CompletionError::Transport) => (k as u64) + 1 >= self.max_attempts as u64,
                _ => true,
            };
            if settle {
                return (k + 1, true);
            }
            k = k + 1;
        }
        (k, false)
    }
}

/// A call whose transport fails a number of times below the bound and then
/// succeeds returns that success, after one attempt more than the failures.
pub proof fn lemma_retry_until_success(
    max_attempts: int,
    outcomes: Seq<Result<CompletionResult, CompletionError>>,
    failures: int,
)
    requires
        0 <= failures < max_attempts,
        failures < outcomes.len(),
        forall|i: int| 0 <= i < failures ==> #[trigger] outcomes[i] == Err::<CompletionResult, CompletionError>(CompletionError::Transport),
        outcomes[failures] is Ok,
    ensures
        attempts_taken(max_attempts, outcomes, 0) == failures + 1,
        !retries(max_attempts, failures + 1, outcomes[failures]),
{
    lemma_taken_from(max_attempts, outcomes, failures, 0);
}

proof fn lemma_taken_from(
    max_attempts: int,
    outcomes: Seq<Result<CompletionResult, CompletionError>>,
    last: int,
    k: int,
)
    requires
        0 <= k <= last < outcomes.len(),
        last < max_attempts,
        forall|i: int| 0 <= i < last ==> #[trigger] outcomes[i] == Err::<CompletionResult, CompletionError>(CompletionError::Transport),
        !retries(max_attempts, last + 1, outcomes[last]),
    ensures
        attempts_taken(max_attempts, outcomes, k) == last + 1,
    decreases last - k,
{
    if k < last {
        lemma_taken_from(max_attempts, outcomes, last, k + 1);
    }
}

/// A call whose transport always fails stops after exactly the bound of
/// attempts, and hands the transport failure to the caller.
pub proof fn lemma_retry_exhausted(
    max_attempts: int,
    outcomes: Seq<Result<CompletionResult, CompletionError>>,
)
    requires
        1 <= max_attempts <= outcomes.len(),
        forall|i: int| 0 <= i < outcomes.len() ==> #[trigger] outcomes[i] == Err::<CompletionResult, CompletionError>(CompletionError::Transport),
    ensures
        attempts_taken(max_attempts, outcomes, 0) == max_attempts,
        !retries(max_attempts, max_attempts, outcomes[max_attempts - 1]),
        outcomes[max_attempts - 1] == Err::<CompletionResult, CompletionError>(CompletionError::Transport),
{
    assert(!retries(max_attempts, max_attempts, outcomes[max_attempts - 1]));
    lemma_taken_from(max_attempts, outcomes, max_attempts - 1, 0);
}

/// An authentication failure or a malformed reply on the first attempt ends
/// the call at once, after one attempt.
pub proof fn lemma_no_retry_on_fatal(
    max_attempts: int,
    outcomes: Seq<Result<CompletionResult, CompletionError>>,
)
    requires
        outcomes.len() >= 1,
        outcomes[0] == Err::<CompletionResult, CompletionError>(CompletionError::Auth)
            || outcomes[0] == Err::<CompletionResult, CompletionError>(CompletionError::MalformedResponse),
    ensures
        attempts_taken(max_attempts, outcomes, 0) == 1,
        !retries(max_attempts, 1, outcomes[0]),
{
}

} // verus!
