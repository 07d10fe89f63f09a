use llmchat::api::{completions_url, models_url, sse_line, SseLine};

#[test]
fn appends_the_completions_path() {
    assert_eq!(completions_url("https://api.openai.com/v1"), "https://api.openai.com/v1/chat/completions");
    assert_eq!(completions_url(" https://x.io/v1// "), "https://x.io/v1/chat/completions");
    assert_eq!(
        completions_url("https://x.io/v1/chat/completions"),
        "https://x.io/v1/chat/completions"
    );
}

#[test]
fn builds_the_models_url() {
    assert_eq!(models_url("https://api.openai.com/v1/"), "https://api.openai.com/v1/models");
}

#[test]
fn reads_event_stream_lines() {
    assert_eq!(sse_line("data: {\"a\":1}\r"), SseLine::Data("{\"a\":1}".to_string()));
    assert_eq!(sse_line("data:[DONE]"), SseLine::Done);
    assert_eq!(sse_line(": keep-alive"), SseLine::Skip);
    assert_eq!(sse_line(""), SseLine::Skip);
    assert_eq!(sse_line("event: ping"), SseLine::Skip);
}
