//! Where the settings and the conversations are stored.

use vstd::prelude::*;

verus! {

/// A single relative path component: not empty, neither `.` nor `..`,
/// with no separator and no drive colon.
pub open spec fn is_plain_name(name: Seq<char>) -> bool {
    &&& name.len() > 0
    &&& name != seq!['.']
    &&& name != seq!['.', '.']
    &&& forall|i: int| 0 <= i < name.len() ==> {
        let c = #[trigger] name[i];
        c != '/' && c != '\\' && c != ':'
    }
}

/// A name longer than two characters is neither `.` nor `..`.
proof fn lemma_long_name_not_dots(name: Seq<char>)
    requires
        name.len() > 2,
    ensures
        name != seq!['.'],
        name != seq!['.', '.'],
{
    assert(seq!['.'].len() == 1);
    assert(seq!['.', '.'].len() == 2);
}

/// `r` is `name` after `base`, with one separator between them where the
/// platform needs one.
pub open spec fn joined_with(r: Seq<char>, base: Seq<char>, name: Seq<char>) -> bool {
    r == base + name || exists|sep: char| r == #[trigger] base.push(sep) + name
}

/// `Path::join` of a plain name: as its documentation says, the name is
/// pushed onto the path with a separator where one is needed (which one is
/// the platform's).
#[verifier::external_body]
fn path_join(base: &str, name: &str) -> (r: String)
    requires
        is_plain_name(name@),
    ensures
        joined_with(r@, base@, name@),
{
    std::path::Path::new(base).join(name).to_string_lossy().into_owned()
}

/// Name of the application's directory.
pub open spec fn app_dir_name() -> Seq<char> {
    "llmchat"@
}

/// The data directory, given the values of `APPDATA` and `HOME`: the
/// application's directory under `APPDATA` when set, else under
/// `HOME/.config`, else the current directory.
pub fn data_dir(appdata: Option<&str>, home: Option<&str>) -> (r: String)
    ensures
        appdata matches Some(a) ==> joined_with(r@, a@, app_dir_name()),
        appdata is None && home is Some ==> exists|config: Seq<char>|
            joined_with(config, home->0@, ".config"@) && #[trigger] joined_with(
                r@,
                config,
                app_dir_name(),
            ),
        appdata is None && home is None ==> r@ == "."@,
{
    proof {
        reveal_strlit("llmchat");
        reveal_strlit(".config");
        lemma_long_name_not_dots("llmchat"@);
        lemma_long_name_not_dots(".config"@);
    }
    match appdata {
        Some(a) => path_join(a, "llmchat"),
        None => match home {
            Some(h) => {
                let config = path_join(h, ".config");
                let r = path_join(config.as_str(), "llmchat");
                assert(joined_with(r@, config@, app_dir_name()));
                r
            },
            None => ".".to_owned(),
        },
    }
}

/// The settings file in the data directory `dir`.
pub fn config_path(dir: &str) -> (r: String)
    ensures
        joined_with(r@, dir@, "config.json"@),
{
    proof {
        reveal_strlit("config.json");
        lemma_long_name_not_dots("config.json"@);
    }
    path_join(dir, "config.json")
}

/// The conversations file in the data directory `dir`.
pub fn conversations_path(dir: &str) -> (r: String)
    ensures
        joined_with(r@, dir@, "conversations.json"@),
{
    proof {
        reveal_strlit("conversations.json");
        lemma_long_name_not_dots("conversations.json"@);
    }
    path_join(dir, "conversations.json")
}

} // verus!
