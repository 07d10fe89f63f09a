use llmchat::config::{config_path, conversations_path, data_dir};

#[test]
fn prefers_appdata_then_home() {
    let d = data_dir(Some("/data"), Some("/home/u"));
    assert_eq!(d, "/data/llmchat");
    let d = data_dir(None, Some("/home/u"));
    assert_eq!(d, "/home/u/.config/llmchat");
    assert_eq!(data_dir(None, None), ".");
}

#[test]
fn places_the_files_in_the_data_directory() {
    assert_eq!(config_path("/d"), "/d/config.json");
    assert_eq!(conversations_path("/d/"), "/d/conversations.json");
}
