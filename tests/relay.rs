use slack_relay::chunker::chunk_text;
use slack_relay::chunker::split_tokens;
use slack_relay::completion::attempt_outcome;
use slack_relay::completion::authorization_header;
use slack_relay::completion::finish_reason_of;
use slack_relay::completion::result_from_response;
use slack_relay::completion::same_text;
use slack_relay::completion::ChatResponse;
use slack_relay::completion::Choice;
use slack_relay::completion::CompletionError;
use slack_relay::completion::CompletionResult;
use slack_relay::completion::FinishReason;
use slack_relay::completion::Message;
use slack_relay::completion::RetryPolicy;
use slack_relay::completion::RetryStep;
use slack_relay::completion::Usage;
use slack_relay::dispatch::command_text;
use slack_relay::dispatch::has_prefix;
use slack_relay::dispatch::route;
use slack_relay::dispatch::route_with;
use slack_relay::dispatch::starts_with_scheme;
use slack_relay::dispatch::RelayConfig;
use slack_relay::dispatch::Route;
use slack_relay::prompt::chat_prompt;
use slack_relay::prompt::summary_prompt;
use slack_relay::prompt::Role;
use slack_relay::summary::gather_summaries;
use slack_relay::summary::summary_prompts;

fn usage() -> Usage {
    Usage { prompt_tokens: 10, completion_tokens: 5, total_tokens: 15 }
}

fn done(text: &str) -> Result<CompletionResult, CompletionError> {
    Ok(CompletionResult { text: text.to_string(), finish_reason: FinishReason::Stop, usage: usage() })
}

fn response(choices: Vec<(&str, &str)>) -> ChatResponse {
    let mut list = Vec::new();
    for (i, (content, reason)) in choices.into_iter().enumerate() {
        list.push(Choice {
            index: i as u32,
            message: Message { role: "assistant".to_string(), content: content.to_string() },
            finish_reason: reason.to_string(),
        });
    }
    ChatResponse { id: "chatcmpl-1".to_string(), choices: list, usage: usage() }
}

#[test]
fn windows_of_five_thousand_tokens() {
    let tokens: Vec<u32> = (0..5000u32).collect();
    let pieces = split_tokens(&tokens, 2000);
    assert_eq!(pieces.len(), 3);
    assert_eq!(pieces[0].len(), 2000);
    assert_eq!(pieces[1].len(), 2000);
    assert_eq!(pieces[2].len(), 1000);
    let joined: Vec<u32> = pieces.concat();
    assert_eq!(joined, tokens);
}

#[test]
fn windows_of_exact_multiple() {
    let tokens: Vec<u32> = (0..4000u32).collect();
    let pieces = split_tokens(&tokens, 2000);
    assert_eq!(pieces.len(), 2);
    assert_eq!(pieces[1], (2000..4000u32).collect::<Vec<u32>>());
}

#[test]
fn windows_of_nothing() {
    let tokens: Vec<u32> = Vec::new();
    assert!(split_tokens(&tokens, 3).is_empty());
}

#[test]
fn windows_count_is_rounded_up() {
    let tokens: Vec<u32> = vec![7, 8, 9, 10, 11, 12, 13];
    let pieces = split_tokens(&tokens, 3);
    assert_eq!(pieces, vec![vec![7, 8, 9], vec![10, 11, 12], vec![13]]);
    let whole = split_tokens(&tokens, 100);
    assert_eq!(whole, vec![tokens.clone()]);
}

#[test]
fn chunking_empty_text_gives_no_chunk() {
    let chunks = chunk_text("", 2000).ok().unwrap();
    assert!(chunks.is_empty());
}

#[test]
fn chunking_short_text_gives_one_chunk() {
    let chunks = chunk_text("hello world", 2000).ok().unwrap();
    assert_eq!(chunks.len(), 1);
    assert_eq!(chunks[0].index, 0);
    assert_eq!(chunks[0].decoded_text, "hello world");
    assert!(!chunks[0].token_ids.is_empty());
}

#[test]
fn chunking_by_single_tokens_rebuilds_text() {
    let text = "The quick brown fox jumps over the lazy dog.";
    let chunks = chunk_text(text, 1).ok().unwrap();
    assert!(chunks.len() > 1);
    let mut rebuilt = String::new();
    for (i, c) in chunks.iter().enumerate() {
        assert_eq!(c.index, i);
        assert_eq!(c.token_ids.len(), 1);
        rebuilt.push_str(&c.decoded_text);
    }
    assert_eq!(rebuilt, text);
}

#[test]
fn chunking_counts_are_rounded_up() {
    let text = "one two three four five six seven eight nine ten";
    let single = chunk_text(text, 1).ok().unwrap();
    let n = single.len();
    let paired = chunk_text(text, 2).ok().unwrap();
    assert_eq!(paired.len(), (n + 1) / 2);
    let ids: Vec<u32> = paired.iter().flat_map(|c| c.token_ids.clone()).collect();
    let single_ids: Vec<u32> = single.iter().flat_map(|c| c.token_ids.clone()).collect();
    assert_eq!(ids, single_ids);
}

#[test]
fn retry_succeeds_after_two_transport_failures() {
    let policy = RetryPolicy::standard();
    let script = vec![Err(CompletionError::Transport), Err(CompletionError::Transport), done("hi")];
    assert_eq!(policy.replay(&script), (3, true));
    assert!(script[2].is_ok());
}

#[test]
fn retry_gives_up_after_three_attempts() {
    let policy = RetryPolicy::standard();
    let script: Vec<Result<CompletionResult, CompletionError>> =
        (0..6).map(|_| Err(CompletionError::Transport)).collect();
    assert_eq!(policy.replay(&script), (3, true));
}

#[test]
fn auth_failure_is_not_retried() {
    let policy = RetryPolicy::standard();
    let script = vec![Err(CompletionError::Auth), done("late")];
    assert_eq!(policy.replay(&script), (1, true));
}

#[test]
fn malformed_reply_is_not_retried() {
    let policy = RetryPolicy::standard();
    let script = vec![Err(CompletionError::MalformedResponse), done("late")];
    assert_eq!(policy.replay(&script), (1, true));
}

#[test]
fn replay_that_runs_out_is_unsettled() {
    let policy = RetryPolicy::standard();
    let script = vec![Err(CompletionError::Transport)];
    assert_eq!(policy.replay(&script), (1, false));
}

#[test]
fn next_step_decisions() {
    let policy = RetryPolicy::standard();
    assert!(matches!(policy.next_step(1, Err(CompletionError::Transport)), RetryStep::Retry));
    assert!(matches!(policy.next_step(2, Err(CompletionError::Transport)), RetryStep::Retry));
    assert!(matches!(
        policy.next_step(3, Err(CompletionError::Transport)),
        RetryStep::Finish(Err(CompletionError::Transport))
    ));
    assert!(matches!(policy.next_step(1, Err(CompletionError::Auth)), RetryStep::Finish(Err(CompletionError::Auth))));
    match policy.next_step(1, done("ok")) {
        RetryStep::Finish(Ok(c)) => assert_eq!(c.text, "ok"),
        _ => panic!("a success must finish the call"),
    }
}

#[test]
fn reply_without_choices_is_malformed() {
    let r = result_from_response(&response(vec![]));
    assert!(matches!(r, Err(CompletionError::MalformedResponse)));
}

#[test]
fn first_choice_is_the_reply() {
    let r = result_from_response(&response(vec![("first", "stop"), ("second", "length")])).ok().unwrap();
    assert_eq!(r.text, "first");
    assert_eq!(r.finish_reason, FinishReason::Stop);
    assert_eq!(r.usage, usage());
}

#[test]
fn finish_reasons() {
    assert_eq!(finish_reason_of("stop"), FinishReason::Stop);
    assert_eq!(finish_reason_of("length"), FinishReason::Length);
    assert_eq!(finish_reason_of("content_filter"), FinishReason::Other);
    assert_eq!(finish_reason_of("sto"), FinishReason::Other);
    assert!(same_text("abc", "abc"));
    assert!(!same_text("abc", "abd"));
}

#[test]
fn attempt_outcomes() {
    assert!(matches!(attempt_outcome(401, Some(response(vec![("x", "stop")]))), Err(CompletionError::Auth)));
    assert!(matches!(attempt_outcome(403, None), Err(CompletionError::Auth)));
    assert!(matches!(attempt_outcome(200, None), Err(CompletionError::MalformedResponse)));
    assert!(matches!(attempt_outcome(200, Some(response(vec![]))), Err(CompletionError::MalformedResponse)));
    let r = attempt_outcome(200, Some(response(vec![("fine", "length")]))).ok().unwrap();
    assert_eq!(r.text, "fine");
    assert_eq!(r.finish_reason, FinishReason::Length);
}

#[test]
fn authorization_headers() {
    assert!(matches!(authorization_header(None), Err(CompletionError::Auth)));
    assert_eq!(authorization_header(Some("SECRET-REDACTED")).ok().unwrap(), "Bearer SECRET-REDACTED");
}

#[test]
fn uri_rule_comes_before_prefix_rule() {
    match route("https://example.com/article", "https") {
        Route::Summarize(u) => assert_eq!(u, "https://example.com/article"),
        _ => panic!("a URI takes the summary path"),
    }
    assert!(matches!(route_with("ping x", "ping", true), Route::Summarize(_)));
}

#[test]
fn command_message_takes_chat_path() {
    match route("ping hello there", "ping") {
        Route::Chat(c) => assert_eq!(c, "hello there"),
        _ => panic!("a command takes the chat path"),
    }
    let p = chat_prompt("You're a chatbot", "hello there");
    assert_eq!(p.len(), 2);
    assert_eq!(p[0].role, Role::System);
    assert_eq!(p[0].content, "You're a chatbot");
    assert_eq!(p[1].role, Role::User);
    assert_eq!(p[1].content, "given user input: hello there, please respond in a funny way");
}

#[test]
fn other_messages_are_ignored() {
    assert!(matches!(route("hello there", "ping"), Route::Ignore));
    assert!(matches!(route_with("", "ping", false), Route::Ignore));
}

#[test]
fn command_words_are_rejoined() {
    assert_eq!(command_text("private  a\tb \n c  "), "a b c");
    assert_eq!(command_text("private"), "");
    assert_eq!(command_text("   "), "");
    assert_eq!(command_text("  one two"), "two");
    assert!(has_prefix("private talk", "private"));
    assert!(has_prefix("x", ""));
    assert!(!has_prefix("priv", "private"));
    assert!(!has_prefix("Private", "private"));
}

#[test]
fn summary_prompt_wraps_chunk() {
    let p = summary_prompt("As a news reporter AI,", "body");
    assert_eq!(p.len(), 2);
    assert_eq!(p[0].content, "As a news reporter AI,");
    assert_eq!(p[1].content, "Given a chunk of a news body text: body, please give a segment summary.");
}

#[test]
fn failed_chunk_is_left_out() {
    let outcomes = vec![done("first"), Err(CompletionError::Transport), done("third")];
    assert_eq!(gather_summaries(&outcomes), vec!["first".to_string(), "third".to_string()]);
    assert!(gather_summaries(&Vec::new()).is_empty());
}

#[test]
fn article_of_five_thousand_tokens_gives_three_summaries() {
    assert!(matches!(route("https://example.com/article", "private"), Route::Summarize(_)));
    let config = RelayConfig::standard();
    let tokens: Vec<u32> = (0..5000u32).collect();
    let pieces = split_tokens(&tokens, config.chunk_tokens);
    assert_eq!(pieces.len(), 3);
    let prompts: Vec<_> = pieces.iter().map(|p| summary_prompt(&config.summary_persona, &format!("{}", p.len()))).collect();
    assert_eq!(prompts.len(), 3);
    assert_eq!(prompts[2][1].content, "Given a chunk of a news body text: 1000, please give a segment summary.");
    let outcomes = vec![done("a"), done("b"), done("c")];
    assert_eq!(gather_summaries(&outcomes), vec!["a".to_string(), "b".to_string(), "c".to_string()]);
}

#[test]
fn standard_settings() {
    let c = RelayConfig::standard();
    assert_eq!(c.trigger_prefix, "private");
    assert_eq!(c.chat_persona, "You're a chatbot");
    assert_eq!(c.reply_tokens, 50);
    assert_eq!(c.summary_persona, "As a news reporter AI,");
    assert_eq!(c.chunk_tokens, 2000);
    assert_eq!(c.retry.max_attempts, 3);
}

#[test]
fn schemes_are_recognised() {
    assert!(starts_with_scheme("https://example.com"));
    assert!(starts_with_scheme("mailto:someone"));
    assert!(starts_with_scheme("svn+ssh://host/repo"));
    assert!(!starts_with_scheme("hello there"));
    assert!(!starts_with_scheme(":nothing"));
    assert!(!starts_with_scheme("1http://x"));
    assert!(!starts_with_scheme("ping a:b"));
    assert!(!starts_with_scheme(""));
}

#[test]
fn command_that_looks_like_text_with_colon() {
    match route("ping note: hi", "ping") {
        Route::Chat(c) => assert_eq!(c, "note: hi"),
        _ => panic!("a space before the colon means no scheme"),
    }
}

#[test]
fn non_ascii_text_is_no_uri() {
    assert!(matches!(route("a:\u{20ac}//x", "a"), Route::Chat(_)));
    assert!(matches!(route("https://ex\u{e4}mple.com", "private"), Route::Ignore));
}

#[test]
fn inconsistent_usage_is_malformed() {
    let mut resp = response(vec![("x", "stop")]);
    resp.usage.total_tokens = 16;
    assert!(matches!(result_from_response(&resp), Err(CompletionError::MalformedResponse)));
    assert!(matches!(attempt_outcome(200, Some(resp)), Err(CompletionError::MalformedResponse)));
}

#[test]
fn article_chunks_become_prompts_in_order() {
    let mut article = String::from("hello");
    for _ in 0..4999 {
        article.push_str(" hello");
    }
    let chunks = chunk_text(&article, 2000).ok().unwrap();
    assert_eq!(chunks.len(), 3);
    assert_eq!(chunks[0].token_ids.len(), 2000);
    assert_eq!(chunks[1].token_ids.len(), 2000);
    assert_eq!(chunks[2].token_ids.len(), 1000);
    let rebuilt: String = chunks.iter().map(|c| c.decoded_text.clone()).collect();
    assert_eq!(rebuilt, article);
    let prompts = summary_prompts("As a news reporter AI,", &chunks);
    assert_eq!(prompts.len(), 3);
    for (p, c) in prompts.iter().zip(chunks.iter()) {
        assert_eq!(p[1].content, format!("Given a chunk of a news body text: {}, please give a segment summary.", c.decoded_text));
    }
}
