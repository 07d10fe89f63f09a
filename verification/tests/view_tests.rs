use llmchat::chat::{ChatSettings, ChatState};
use llmchat::types::{Attachment, AttachmentKind, Conversation, Message};
use llmchat::update::{ReleaseInfo, UpdateStatus};
use llmchat::view::{
    header_title, images_to_preload, model_menu, recency_order, shows_typing, sidebar_items,
    update_text, MenuLine,
};

fn conv(id: &str, updated: u64) -> Conversation {
    let mut c = Conversation::with_stamp(updated, 7);
    c.id = id.to_string();
    c
}

fn state(convs: Vec<Conversation>, models: Vec<&str>) -> ChatState {
    ChatState::new(
        ChatSettings {
            base_url: String::new(),
            api_key: String::new(),
            model: String::new(),
            system_prompt: String::new(),
            models: models.into_iter().map(|m| m.to_string()).collect(),
        },
        convs,
    )
}

#[test]
fn orders_conversations_from_the_most_recent() {
    let convs = vec![conv("a", 5), conv("b", 9), conv("c", 5), conv("d", 1)];
    assert_eq!(recency_order(&convs), vec![1, 0, 2, 3]);
}

#[test]
fn lists_the_sidebar() {
    let mut a = conv("a", 0);
    a.title = "x".repeat(45);
    a.messages.push(Message::user("hola".to_string()));
    a.messages.push(Message::assistant("   ".to_string()));
    let b = conv("b", 120_000);
    let s = state(vec![a, b], vec![]);
    let items = sidebar_items(&s, 180_000);
    assert_eq!(items.len(), 2);
    assert_eq!(items[0].id, "b");
    assert_eq!(items[0].preview, "Sin mensajes todavía");
    assert_eq!(items[0].when, "hace 1 min");
    assert!(!items[0].selected);
    assert_eq!(items[1].id, "a");
    assert_eq!(items[1].title, format!("{}...", "x".repeat(40)));
    assert_eq!(items[1].preview, "Tú: hola");
    assert_eq!(items[1].when, "hace 3 min");
    assert!(items[1].selected);
}

#[test]
fn builds_the_model_menu() {
    let s = state(
        vec![conv("a", 0)],
        vec!["local-model", "openai/gpt-4o", "openai/gpt-4o-mini", "x-ai/grok-3", "other"],
    );
    let menu = model_menu(&s.settings.models, "");
    let text: Vec<String> = menu
        .lines
        .iter()
        .map(|l| match l {
            MenuLine::Header(h) => format!("# {h}"),
            MenuLine::Model(m) => m.clone(),
        })
        .collect();
    assert_eq!(
        text,
        vec![
            "local-model",
            "# ChatGPT / OpenAI",
            "openai/gpt-4o",
            "openai/gpt-4o-mini",
            "# xAI Grok",
            "x-ai/grok-3",
            "# Otros",
            "other",
        ]
    );
    assert_eq!(menu.footer, "5/5 modelos");

    let menu = model_menu(&s.settings.models, "  GROK ");
    assert_eq!(menu.shown, 1);
    assert_eq!(menu.footer, "1/5 modelos");

    let menu = model_menu(&s.settings.models, "nada");
    assert_eq!(menu.shown, 0);
    assert!(menu.lines.is_empty());
    assert_eq!(menu.footer, "Sin coincidencias.");

    let menu = model_menu(&Vec::new(), "");
    assert_eq!(menu.footer, "Sin modelos. Pulsa Cargar modelos en Ajustes.");
}

#[test]
fn shows_the_header_and_the_typing_indicator() {
    let mut s = state(vec![conv("a", 0)], vec![]);
    assert_eq!(header_title(&s), "Nueva conversación");
    assert!(!shows_typing(&s));
    s.streaming = true;
    assert!(shows_typing(&s));
    let mut answer = Message::assistant(String::new());
    answer.reasoning = "pienso".to_string();
    s.conversations[0].messages.push(answer);
    assert!(!shows_typing(&s));
    s.conversations[0].messages[0].content = "ya".to_string();
    assert!(shows_typing(&s));
    s.current_id = Some("nada".to_string());
    assert_eq!(header_title(&s), "");
    assert!(!shows_typing(&s));
}

#[test]
fn preloads_the_images_of_the_conversation_shown() {
    let mut a = conv("a", 0);
    let img = |d: Option<&str>| Attachment {
        kind: AttachmentKind::Image,
        name: "i".to_string(),
        summary: "s".to_string(),
        image_file: None,
        image_data: d.map(|x| x.to_string()),
    };
    a.messages.push(Message::user_with_attachments("m".to_string(), vec![img(Some("u1")), img(None)]));
    a.messages.push(Message::user_with_attachments("n".to_string(), vec![img(Some("u2"))]));
    let s = state(vec![a], vec![]);
    assert_eq!(images_to_preload(&s), vec!["u1".to_string(), "u2".to_string()]);
}

#[test]
fn describes_the_update_state() {
    assert_eq!(update_text(&UpdateStatus::Idle), "Buscando actualizaciones...");
    assert_eq!(update_text(&UpdateStatus::UpToDate), "Estás al día (v0.1.0).");
    let info = ReleaseInfo {
        version: "v0.2.0".to_string(),
        asset_name: "a".to_string(),
        download_url: "u".to_string(),
    };
    assert_eq!(update_text(&UpdateStatus::Available(info)), "Actualización disponible: v0.2.0");
    assert_eq!(update_text(&UpdateStatus::Error("x".to_string())), "Error: x");
}
