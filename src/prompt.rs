use vstd::prelude::*;
use vstd::string::StringExecFns;

verus! {

/// The speaker of a chat message.
#[derive(PartialEq, Eq, Structural, Debug, Clone, Copy)]
pub enum Role {
    System,
    User,
    Assistant,
}

/// One message of a prompt.
pub struct ChatMessage {
    pub role: Role,
    pub content: String,
}

pub open spec fn chat_request_text(content: Seq<char>) -> Seq<char> {
    "given user input: "@ + content + ", please respond in a funny way"@
}

pub open spec fn summary_request_text(chunk: Seq<char>) -> Seq<char> {
    "Given a chunk of a news body text: "@ + chunk + ", please give a segment summary."@
}

/// `p` is a system message holding `persona` followed by a user message
/// holding `request`.
pub open spec fn is_two_part_prompt(p: Seq<ChatMessage>, persona: Seq<char>, request: Seq<char>) -> bool {
    &&& p.len() == 2
    &&& p[0].role == Role::System
    &&& p[0].content@ == persona
    &&& p[1].role == Role::User
    &&& p[1].content@ == request
}

fn surround(head: &str, middle: &str, tail: &str) -> (r: String)
    ensures
        r@ == head@ + middle@ + tail@,
{
    let mut s = String::from_str(head);
    s.append(middle);
    s.append(tail);
    s
}

fn two_part_prompt(persona: &str, request: String) -> (r: Vec<ChatMessage>)
    ensures
        is_two_part_prompt(r@, persona@, request@),
{
    let mut p: Vec<ChatMessage> = Vec::new();
    p.push(ChatMessage { role: Role::System, content: String::from_str(persona) });
    p.push(ChatMessage { role: Role::User, content: request });
    p
}

/// The prompt that asks for a playful reply to `content`.
pub fn chat_prompt(persona: &str, content: &str) -> (r: Vec<ChatMessage>)
    ensures
        is_two_part_prompt(r@, persona@, chat_request_text(content@)),
{
    let request = surround("given user input: ", content, ", please respond in a funny way");
    two_part_prompt(persona, request)
}

/// The prompt that asks for a summary of one chunk of an article.
pub fn summary_prompt(persona: &str, chunk: &str) -> (r: Vec<ChatMessage>)
    ensures
        is_two_part_prompt(r@, persona@, summary_request_text(chunk@)),
{
    let request = surround(
        "Given a chunk of a news body text: ",
        chunk,
        ", please give a segment summary.",
    );
    two_part_prompt(persona, request)
}

} // verus!
