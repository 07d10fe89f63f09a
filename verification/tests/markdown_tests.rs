use llmchat::markdown::{inline_plain, parse, Block, Inline};

#[test]
fn parses_paragraph_with_inline_styles() {
    let blocks = parse("Hola **mundo** con `código` y *énfasis*.");
    assert_eq!(blocks.len(), 1);
    match &blocks[0] {
        Block::Para(inlines) => {
            assert!(matches!(inlines[0], Inline::Text(_)));
            assert!(matches!(inlines[1], Inline::Strong(_)));
            assert!(matches!(inlines[2], Inline::Text(_)));
            assert!(matches!(inlines[3], Inline::Code(_)));
            assert!(matches!(inlines[4], Inline::Text(_)));
            assert!(matches!(inlines[5], Inline::Emphasis(_)));
        }
        other => panic!("esperaba párrafo, got {other:?}"),
    }
}

#[test]
fn parses_fenced_code_block() {
    let blocks = parse("```rust\nfn main() {}\n```");
    assert_eq!(blocks.len(), 1);
    match &blocks[0] {
        Block::Code { lang, text } => {
            assert_eq!(lang, "rust");
            assert_eq!(text, "fn main() {}");
        }
        other => panic!("esperaba bloque de código, got {other:?}"),
    }
}

#[test]
fn parses_heading_and_list() {
    let blocks = parse("# Título\n\n- uno\n- dos");
    assert_eq!(blocks.len(), 2);
    assert!(matches!(&blocks[0], Block::Heading(1, _)));
    match &blocks[1] {
        Block::List { ordered, items } => {
            assert!(!ordered);
            assert_eq!(items.len(), 2);
        }
        other => panic!("esperaba lista, got {other:?}"),
    }
}

#[test]
fn parses_table_with_headers_and_rows() {
    let blocks = parse("| Nombre | Edad |\n|---|---|\n| Ana | 30 |\n| Luis | 25 |");
    assert_eq!(blocks.len(), 1);
    match &blocks[0] {
        Block::Table { headers, rows } => {
            assert_eq!(headers.len(), 2);
            assert_eq!(inline_plain(&headers[0]), "Nombre");
            assert_eq!(inline_plain(&headers[1]), "Edad");
            assert_eq!(rows.len(), 2);
            assert_eq!(rows[0].len(), 2);
            assert_eq!(inline_plain(&rows[0][0]), "Ana");
            assert_eq!(inline_plain(&rows[0][1]), "30");
            assert_eq!(inline_plain(&rows[1][0]), "Luis");
            assert_eq!(inline_plain(&rows[1][1]), "25");
        }
        other => panic!("esperaba tabla, got {other:?}"),
    }
}

#[test]
fn parses_clickable_link() {
    let blocks = parse("Mira [este enlace](https://example.com) y sigue.");
    match &blocks[0] {
        Block::Para(inlines) => {
            assert!(matches!(&inlines[1], Inline::Link(url, _) if url == "https://example.com"));
        }
        other => panic!("esperaba párrafo, got {other:?}"),
    }
}
