use llmchat::files::{decode_entities, push_pdf_text, remove_region, strip_html, truncate, MAX_TEXT};

#[test]
fn strips_html_tags_and_entities() {
    assert_eq!(strip_html("<p>Hola <b>mundo</b> &amp; adiós</p>"), "Hola mundo & adiós");
    assert_eq!(strip_html("a &lt; b &gt; c"), "a < b > c");
    assert_eq!(strip_html("<script>evil();</script>ok<!--x-->"), "ok");
}

#[test]
fn extracts_text_operators_from_pdf_content() {
    let mut out = String::new();
    push_pdf_text(&mut out, "BT /F1 12 Tf (Hola ) Tj (mundo) Tj ET");
    assert_eq!(out, "Hola mundo");
}

#[test]
fn handles_escaped_parentheses_in_pdf() {
    let mut out = String::new();
    push_pdf_text(&mut out, r"(a\)b) Tj");
    assert_eq!(out, "a)b");
}

#[test]
fn truncates_long_text() {
    let s = "a".repeat(MAX_TEXT + 5000);
    let t = truncate(&s);
    assert!(t.starts_with(&"a".repeat(MAX_TEXT)));
    assert!(t.contains("truncado"));
}

#[test]
fn leaves_text_without_entities_alone() {
    assert_eq!(decode_entities("sin entidades <b> ñ"), "sin entidades <b> ñ");
    assert_eq!(decode_entities("&amp;&lt;&gt;&quot;&#39;&nbsp;&#160;&x"), "&<>\"'  &x");
}

#[test]
fn pdf_scan_appends_to_what_was_there() {
    let mut out = "Previo".to_string();
    push_pdf_text(&mut out, "(uno) Tj () Tj (  dos  ) Tj");
    assert_eq!(out, "Previo uno dos");
    let mut out = "línea\n".to_string();
    push_pdf_text(&mut out, "(tres) Tj");
    assert_eq!(out, "línea\ntres");
}

#[test]
fn keeps_short_text_whole() {
    assert_eq!(truncate("corto"), "corto");
    let exact = "x".repeat(MAX_TEXT);
    assert_eq!(truncate(&exact), exact);
}

#[test]
fn strips_styles_and_unclosed_regions() {
    assert_eq!(strip_html("<STYLE>p{}</STYLE><p>a</p><!-- sin cerrar"), "a");
}

#[test]
fn strips_comments_next_to_letters_that_lowercase_longer() {
    assert_eq!(strip_html("İ<!--x-->"), "İ");
    assert_eq!(strip_html("İ<b>x</b>"), "İx");
    assert_eq!(strip_html("<SCRIPT type=x>a()</Script>texto"), "texto");
}

#[test]
fn removes_regions_ignoring_ascii_case() {
    let start: Vec<char> = "<!--".chars().collect();
    let end: Vec<char> = "-->".chars().collect();
    let once = remove_region("a<!--x-->b<!--y", &start, &end);
    assert_eq!(once, "ab");
    assert_eq!(remove_region(&once, &start, &end), once);
    assert_eq!(remove_region("sin regiones", &start, &end), "sin regiones");
    let script: Vec<char> = "<script".chars().collect();
    let close: Vec<char> = "</script>".chars().collect();
    assert_eq!(remove_region("a<ScRiPt>x</SCRIPT>b", &script, &close), "ab");
}
