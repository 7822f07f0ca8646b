use vstd::prelude::*;
use vstd::string::StrSliceExecFns;
use vstd::string::StringExecFns;
use crate::completion::RetryPolicy;

verus! {

/// Whether a character is white space, as Unicode's White_Space property
/// says.
pub uninterp spec fn char_is_whitespace(c: char) -> bool;

/// Whether a text parses as an absolute URI.
pub uninterp spec fn uri_parses(s: Seq<char>) -> bool;

/// Relies on char::is_whitespace: Unicode's White_Space property of `c`.
#[verifier::external_body]
fn is_space(c: char) -> (r: bool)
    ensures
        r == char_is_whitespace(c),
{
    c.is_whitespace()
}

/// Relies on http_req's `Uri::try_from(&str)`: whether it accepts the text.
/// It slices the text at byte offsets next to the separators it finds,
/// which stay on character boundaries for ASCII text.
#[verifier::external_body]
fn parses_as_uri(s: &str) -> (r: bool)
    requires
        vstd::utf8::is_ascii_chars(s@),
    ensures
        r == uri_parses(s@),
{
    http_req::uri::Uri::try_from(s).is_ok()
}

/// The words read so far from `s`, and the word still open at its end.
pub open spec fn scan_words(s: Seq<char>) -> (Seq<Seq<char>>, Seq<char>)
    decreases s.len(),
{
    if s.len() == 0 {
        (Seq::empty(), Seq::empty())
    } else {
        let (done, open) = scan_words(s.drop_last());
        if char_is_whitespace(s.last()) {
            if open.len() > 0 {
                (done.push(open), Seq::empty())
            } else {
                (done, Seq::empty())
            }
        } else {
            (done, open.push(s.last()))
        }
    }
}

/// The maximal runs of non-white-space characters of `s`, in order.
pub open spec fn words(s: Seq<char>) -> Seq<Seq<char>> {
    let (done, open) = scan_words(s);
    if open.len() > 0 {
        done.push(open)
    } else {
        done
    }
}

/// The words joined by single spaces.
pub open spec fn join_words(ws: Seq<Seq<char>>) -> Seq<char>
    decreases ws.len(),
{
    if ws.len() == 0 {
        Seq::empty()
    } else if ws.len() == 1 {
        ws[0]
    } else {
        join_words(ws.drop_last()) + seq![' '] + ws.last()
    }
}

/// All words but the first, joined by single spaces.
pub open spec fn after_first_word(ws: Seq<Seq<char>>) -> Seq<char> {
    if ws.len() == 0 {
        Seq::empty()
    } else {
        join_words(ws.drop_first())
    }
}

/// The user content of a command message: the text without its first word,
/// with its words joined by single spaces.
pub open spec fn command_content(s: Seq<char>) -> Seq<char> {
    after_first_word(words(s))
}

proof fn lemma_after_first_push(done: Seq<Seq<char>>, w: Seq<char>)
    ensures
        after_first_word(done.push(w)) == if done.len() == 0 {
            Seq::empty()
        } else if done.len() == 1 {
            w
        } else {
            after_first_word(done) + seq![' '] + w
        },
{
    let ws = done.push(w);
    if done.len() == 1 {
        assert(ws.drop_first() =~= seq![w]);
    } else if done.len() >= 2 {
        assert(ws.drop_first().drop_last() =~= done.drop_first());
        assert(ws.drop_first().last() == w);
    } else {
        assert(ws.drop_first() =~= Seq::<Seq<char>>::empty());
    }
}

fn push_word(out: &mut String, count: usize, word: &str)
    ensures
        final(out)@ == if count == 0 {
            old(out)@
        } else if count == 1 {
            old(out)@ + word@
        } else {
            old(out)@ + seq![' '] + word@
        },
{
    if count >= 2 {
        out.append(" ");
        proof {
            reveal_strlit(" ");
        }
    }
    if count >= 1 {
        out.append(word);
    }
}

/// The user content of a command message: drops the first word of `text`
/// and joins the others with single spaces.
pub fn command_text(text: &str) -> (r: String)
    ensures
        r@ == command_content(text@),
{
    let n = text.unicode_len();
    let mut start: usize = 0;
    let mut count: usize = 0;
    let mut out = String::new();
    let ghost mut done: Seq<Seq<char>> = Seq::empty();
    let mut i: usize = 0;
    assert(text@.take(0) =~= Seq::<char>::empty());
    assert(text@.subrange(0, 0) =~= Seq::<char>::empty());
    while i < n
        invariant
            n == text@.len(),
            start <= i <= n,
            count == done.len() <= start,
            scan_words(text@.take(i as int)) == (done, text@.subrange(start as int, i as int)),
            out@ == after_first_word(done),
        decreases n - i,
    {
        let c = text.get_char(i);
        assert(text@.take(i + 1).drop_last() =~= text@.take(i as int));
        assert(text@.take(i + 1).last() == c);
        if is_space(c) {
            if start < i {
                let word = text.substring_char(start, i);
                proof {
                    lemma_after_first_push(done, word@);
                }
                push_word(&mut out, count, word);
                proof {
                    done = done.push(word@);
                }
                count = count + 1;
            }
            start = i + 1;
            assert(text@.subrange(start as int, i + 1) =~= Seq::<char>::empty());
        } else {
            assert(text@.subrange(start as int, i + 1) =~= text@.subrange(start as int, i as int).push(c));
        }
        i = i + 1;
    }
    assert(text@.take(n as int) =~= text@);
    if start < n {
        let word = text.substring_char(start, n);
        proof {
            lemma_after_first_push(done, word@);
        }
        push_word(&mut out, count, word);
    } else {
        assert(text@.subrange(start as int, n as int) =~= Seq::<char>::empty());
    }
    out
}

pub open spec fn is_ascii_letter(c: char) -> bool {
    ('a' <= c && c <= 'z') || ('A' <= c && c <= 'Z')
}

pub open spec fn is_scheme_char(c: char) -> bool {
    is_ascii_letter(c) || ('0' <= c && c <= '9') || c == '+' || c == '-' || c == '.'
}

/// `s` starts with a URI scheme and its colon: a letter, then letters,
/// digits, `+`, `-` or `.`, then `:`.
pub open spec fn has_scheme(s: Seq<char>) -> bool {
    exists|k: int|
        1 <= k < s.len() && #[trigger] s[k] == ':' && is_ascii_letter(s[0]) && forall|j: int|
            1 <= j < k ==> is_scheme_char(#[trigger] s[j])
}

/// The URI rule: `s` is an absolute URI, that is it has a scheme, it is
/// ASCII (other characters are percent-encoded in a URI), and it parses.
pub open spec fn is_absolute_uri(s: Seq<char>) -> bool {
    has_scheme(s) && vstd::utf8::is_ascii_chars(s) && uri_parses(s)
}

/// Whether `text` starts with a URI scheme and its colon.
pub fn starts_with_scheme(text: &str) -> (r: bool)
    ensures
        r == has_scheme(text@),
{
    let n = text.unicode_len();
    if n == 0 {
        return false;
    }
    let first = text.get_char(0);
    if !(('a' <= first && first <= 'z') || ('A' <= first && first <= 'Z')) {
        return false;
    }
    let mut i: usize = 1;
    while i < n
        invariant
            1 <= i <= n == text@.len(),
            is_ascii_letter(text@[0]),
            forall|j: int| 1 <= j < i ==> is_scheme_char(#[trigger] text@[j]),
        decreases n - i,
    {
        let c = text.get_char(i);
        if c == ':' {
            assert(text@[i as int] == ':');
            return true;
        }
        if !(('a' <= c && c <= 'z') || ('A' <= c && c <= 'Z') || ('0' <= c && c <= '9') || c == '+'
            || c == '-' || c == '.') {
            assert forall|k: int|
                1 <= k < text@.len() && #[trigger] text@[k] == ':' implies !(forall|j: int|
                1 <= j < k ==> is_scheme_char(#[trigger] text@[j])) by {
                if k > i {
                    assert(!is_scheme_char(text@[i as int]));
                }
            }
            return false;
        }
        i = i + 1;
    }
    false
}

/// Whether `text` begins with `prefix`.
pub fn has_prefix(text: &str, prefix: &str) -> (r: bool)
    ensures
        r == prefix@.is_prefix_of(text@),
{
    let n = prefix.unicode_len();
    if n > text.unicode_len() {
        return false;
    }
    let mut i: usize = 0;
    while i < n
        invariant
            i <= n == prefix@.len() <= text@.len(),
            prefix@.subrange(0, i as int) == text@.subrange(0, i as int),
        decreases n - i,
    {
        if prefix.get_char(i) != text.get_char(i) {
            assert(prefix@[i as int] != text@.subrange(0, n as int)[i as int]);
            return false;
        }
        assert(prefix@.subrange(0, i + 1) =~= prefix@.subrange(0, i as int).push(prefix@[i as int]));
        assert(text@.subrange(0, i + 1) =~= text@.subrange(0, i as int).push(text@[i as int]));
        i = i + 1;
    }
    assert(prefix@ =~= prefix@.subrange(0, n as int));
    true
}

/// The handling path of an inbound message.
pub enum Route {
    /// Fetch this page and summarize it.
    Summarize(String),
    /// Answer this user content with a chat completion.
    Chat(String),
    /// Do nothing.
    Ignore,
}

/// `r` is the route that the rules give `text`: a URI first, then a
/// message that starts with the command prefix, else nothing.
pub open spec fn routes_as(r: Route, text: Seq<char>, prefix: Seq<char>, is_uri: bool) -> bool {
    if is_uri {
        r matches Route::Summarize(u) && u@ == text
    } else if prefix.is_prefix_of(text) {
        r matches Route::Chat(c) && c@ == command_content(text)
    } else {
        r is Ignore
    }
}

/// Chooses the route of `text`, given whether the URI rule holds of it.
/// Where the page of a URI cannot be fetched, the message is routed again
/// with `is_uri` false, which falls through to the command rule.
pub fn route_with(text: &str, prefix: &str, is_uri: bool) -> (r: Route)
    ensures
        routes_as(r, text@, prefix@, is_uri),
{
    if is_uri {
        Route::Summarize(String::from_str(text))
    } else if has_prefix(text, prefix) {
        Route::Chat(command_text(text))
    } else {
        Route::Ignore
    }
}

/// Chooses the route of an inbound message.
pub fn route(text: &str, prefix: &str) -> (r: Route)
    ensures
        routes_as(r, text@, prefix@, is_absolute_uri(text@)),
{
    let is_uri = starts_with_scheme(text) && text.is_ascii() && parses_as_uri(text);
    route_with(text, prefix, is_uri)
}

/// A message that parses as a URI takes the summary path, whatever prefix
/// it starts with.
pub proof fn lemma_uri_rule_first(r: Route, text: Seq<char>, prefix: Seq<char>)
    requires
        routes_as(r, text, prefix, true),
        prefix.is_prefix_of(text),
    ensures
        r matches Route::Summarize(u) && u@ == text,
{
}

/// The settings of the relay.
pub struct RelayConfig {
    /// A message that starts with this text asks for a chat reply.
    pub trigger_prefix: String,
    /// The system message of chat replies.
    pub chat_persona: String,
    /// The output-token budget of one chat reply.
    pub reply_tokens: u16,
    /// The system message of chunk summaries.
    pub summary_persona: String,
    /// The size of one summary chunk, in tokens.
    pub chunk_tokens: usize,
    /// The retry bound of each completion call.
    pub retry: RetryPolicy,
}

impl RelayConfig {
    /// The usual settings: prefix "private", chunks of 2000 tokens, replies
    /// of at most 50 tokens, three attempts per call.
    pub fn standard() -> (r: RelayConfig)
        ensures
            r.trigger_prefix@ == "private"@,
            r.chat_persona@ == "You're a chatbot"@,
            r.reply_tokens == 50,
            r.summary_persona@ == "As a news reporter AI,"@,
            r.chunk_tokens == 2000,
            r.retry.max_attempts == 3,
    {
        RelayConfig {
            trigger_prefix: String::from_str("private"),
            chat_persona: String::from_str("You're a chatbot"),
            reply_tokens: 50,
            summary_persona: String::from_str("As a news reporter AI,"),
            chunk_tokens: 2000,
            retry: RetryPolicy::standard(),
        }
    }
}

} // verus!
