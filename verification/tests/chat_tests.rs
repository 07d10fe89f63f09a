use llmchat::chat::{
    message_preview, model_family, relative_time_at, truncate, ChatSettings, ChatState, StreamEvent,
};
use llmchat::types::{Conversation, Message, Role};

fn settings(model: &str) -> ChatSettings {
    ChatSettings {
        base_url: "https://api.openai.com/v1".to_string(),
        api_key: String::new(),
        model: model.to_string(),
        system_prompt: String::new(),
        models: vec!["gpt-4o-mini".to_string()],
    }
}

fn conv(id: &str, updated: u64) -> Conversation {
    let mut c = Conversation::with_stamp(updated, 1);
    c.id = id.to_string();
    c
}

#[test]
fn groups_common_providers() {
    assert_eq!(model_family("~deepseek/deepseek-v4-flash-latest"), Some("DeepSeek"));
    assert_eq!(model_family("deepseek/deepseek-r1"), Some("DeepSeek"));
    assert_eq!(model_family("openai/gpt-5.6-pro"), Some("ChatGPT / OpenAI"));
    assert_eq!(model_family("openai/o3"), Some("ChatGPT / OpenAI"));
    assert_eq!(model_family("x-ai/grok-4.5"), Some("xAI Grok"));
    assert_eq!(model_family("google/gemini-3.5-flash"), Some("Google Gemini"));
    assert_eq!(model_family("qwen/qwen3.8-27b"), Some("Alibaba Qwen"));
    assert_eq!(model_family("moonshotai/kimi-k3"), Some("Moonshot Kimi"));
    assert_eq!(model_family("z-ai/glm-5.2"), Some("Zhipu GLM"));
}

#[test]
fn leaves_unknown_models_unclassified() {
    assert_eq!(model_family("some-custom/weird"), None);
    assert_eq!(model_family("private/forbidden-model"), None);
    assert_eq!(model_family(""), None);
}

#[test]
fn family_ignores_case_and_prefers_specific_fragments() {
    assert_eq!(model_family("OpenAI/GPT-OSS-120B"), Some("OpenAI GPT-oss"));
    assert_eq!(model_family("google/gemma-3"), Some("Google Gemma"));
    assert_eq!(model_family("mistralai/mixtral-8x7b"), Some("Mistral"));
}

#[test]
fn starts_with_a_fresh_conversation_when_none_is_saved() {
    let s = ChatState::new(settings("m"), Vec::new());
    assert_eq!(s.conversations.len(), 1);
    assert_eq!(s.conversations[0].title, "Nueva conversación");
    assert_eq!(s.current_id, Some(s.conversations[0].id.clone()));
    assert!(s.input_focus && !s.needs_save && !s.streaming);
}

#[test]
fn deleting_the_last_conversation_starts_a_new_one() {
    let mut s = ChatState::new(settings("m"), vec![conv("a", 1)]);
    s.delete_conversation("a");
    assert_eq!(s.conversations.len(), 1);
    assert_ne!(s.conversations[0].id, "a");
    assert_eq!(s.current_id, Some(s.conversations[0].id.clone()));
    assert!(s.needs_save);
}

#[test]
fn deleting_the_selection_selects_the_first_left() {
    let mut s = ChatState::new(settings("m"), vec![conv("a", 1), conv("b", 2), conv("c", 3)]);
    s.select_conversation("b".to_string());
    s.delete_conversation("b");
    let ids: Vec<&str> = s.conversations.iter().map(|c| c.id.as_str()).collect();
    assert_eq!(ids, vec!["a", "c"]);
    assert_eq!(s.current_id.as_deref(), Some("a"));
}

#[test]
fn renames_with_a_trimmed_title() {
    let mut s = ChatState::new(settings("m"), vec![conv("a", 1)]);
    s.start_rename("a".to_string());
    assert_eq!(s.renaming_id.as_deref(), Some("a"));
    s.commit_rename("a", "  Mi chat  ");
    assert_eq!(s.conversations[0].title, "Mi chat");
    assert!(s.renaming_id.is_none());
}

#[test]
fn sending_records_the_message_and_an_empty_answer() {
    let mut s = ChatState::new(settings("gpt-4o-mini"), vec![conv("a", 1)]);
    s.draft = "  Hola, ¿qué tal?  ".to_string();
    let payload = s.send().expect("debe enviarse");
    assert!(s.streaming);
    assert_eq!(s.stream_conv_id.as_deref(), Some("a"));
    assert!(s.draft.is_empty());
    let msgs = &s.conversations[0].messages;
    assert_eq!(msgs.len(), 2);
    assert_eq!(msgs[0].role, Role::User);
    assert_eq!(msgs[0].content, "Hola, ¿qué tal?");
    assert_eq!(msgs[1].role, Role::Assistant);
    assert!(msgs[1].content.is_empty());
    assert_eq!(s.conversations[0].title, "Hola, ¿qué tal?");
    assert_eq!(payload.len(), 1);
    assert_eq!(payload[0].content, "Hola, ¿qué tal?");

    // While streaming, nothing else is sent.
    s.draft = "otra".to_string();
    assert!(s.send().is_none());
}

#[test]
fn blank_drafts_are_not_sent() {
    let mut s = ChatState::new(settings("gpt-4o-mini"), vec![conv("a", 1)]);
    s.draft = "   \n".to_string();
    assert!(s.send().is_none());
    assert!(s.conversations[0].messages.is_empty());
}

#[test]
fn streamed_pieces_go_to_the_answer() {
    let mut s = ChatState::new(settings("gpt-4o-mini"), vec![conv("a", 1)]);
    s.draft = "hola".to_string();
    s.send().unwrap();
    s.apply_stream_event(StreamEvent::Reasoning("pienso".to_string()));
    s.apply_stream_event(StreamEvent::Chunk("Ho".to_string()));
    s.apply_stream_event(StreamEvent::Chunk("la".to_string()));
    let last = s.conversations[0].messages.last().unwrap();
    assert_eq!(last.reasoning, "pienso");
    assert_eq!(last.content, "Hola");
    s.apply_stream_event(StreamEvent::Error("fallo".to_string()));
    assert!(!s.streaming);
    assert_eq!(s.status.as_deref(), Some("fallo"));
}

#[test]
fn models_are_added_once() {
    let mut s = ChatState::new(settings("  nuevo  "), vec![conv("a", 1)]);
    s.add_model();
    assert_eq!(s.settings.models, vec!["gpt-4o-mini".to_string(), "nuevo".to_string()]);
    s.needs_save = false;
    s.add_model();
    assert_eq!(s.settings.models.len(), 2);
    assert!(!s.needs_save);
}

#[test]
fn saves_only_when_idle() {
    let mut s = ChatState::new(settings("m"), vec![conv("a", 1)]);
    s.needs_save = true;
    s.streaming = true;
    assert!(!s.take_save_request());
    s.streaming = false;
    assert!(s.take_save_request());
    assert!(!s.take_save_request());
}

#[test]
fn previews_messages_on_one_line() {
    let m = Message::user("hola\n\n  mundo".to_string());
    assert_eq!(message_preview(&m), "Tú: hola mundo");
    let mut a = Message::assistant(String::new());
    a.reasoning = "pensando".to_string();
    assert_eq!(message_preview(&a), "✦ razonando...");
    let long = Message::assistant("x".repeat(70));
    assert_eq!(message_preview(&long), format!("✦ {}…", "x".repeat(64)));
}

#[test]
fn tells_relative_times() {
    assert_eq!(relative_time_at(10_000, 5_000), "ahora");
    assert_eq!(relative_time_at(5 * 60_000, 0), "hace 5 min");
    assert_eq!(relative_time_at(2 * 3_600_000, 0), "hace 2 h");
    assert_eq!(relative_time_at(3 * 86_400_000, 0), "hace 3 d");
    assert_eq!(relative_time_at(14 * 86_400_000, 0), "hace 2 sem");
    assert_eq!(relative_time_at(0, 5_000), "ahora");
}

#[test]
fn truncates_labels() {
    assert_eq!(truncate("corto", 40), "corto");
    assert_eq!(truncate("abcdef", 3), "abc...");
}
