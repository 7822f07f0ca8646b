//! A message relay: classifies channel messages, cuts long texts into
//! token-bounded chunks, and drives chat-completion calls with a bounded
//! retry policy.
pub mod chunker;
pub mod completion;
pub mod dispatch;
pub mod prompt;
pub mod summary;
pub mod tokenizer;
