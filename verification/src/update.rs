//! Self-update decisions: version comparison, which binary belongs to which
//! platform, and whether a published release is an update.

use vstd::prelude::*;
use crate::text::{decimal, push_decimal, chars_of, push_char, string_from_range, trim, trim_bounds};

verus! {

/// A release that can be downloaded and installed.
#[derive(Debug, Clone)]
pub struct ReleaseInfo {
    /// Tag of the release, such as `v0.2.0`.
    pub version: String,
    /// Name of the binary for this platform.
    pub asset_name: String,
    /// Direct download URL of that binary.
    pub download_url: String,
}

/// One downloadable file of a published release.
#[derive(Debug, Clone)]
pub struct ReleaseAsset {
    pub name: String,
    pub browser_download_url: String,
}

/// The version this library was built as.
pub fn current_version() -> (v: &'static str)
    ensures
        v@ == "0.1.0"@,
{
    "0.1.0"
}

/// The update binary for an operating system and architecture, as named in
/// `std::env::consts::OS` and `std::env::consts::ARCH`.
pub open spec fn spec_asset_name(os: Seq<char>, arch: Seq<char>) -> Seq<char> {
    if os == "windows"@ && arch == "x86_64"@ {
        "llmchat-windows-x86_64.exe"@
    } else if os == "linux"@ && arch == "x86_64"@ {
        "llmchat-linux-x86_64-musl"@
    } else if os == "macos"@ && arch == "aarch64"@ {
        "llmchat-macos-aarch64"@
    } else if os == "macos"@ && arch == "x86_64"@ {
        "llmchat-macos-x86_64"@
    } else {
        "llmchat-unsupported-platform"@
    }
}

/// Name of the update binary published for a platform.
pub fn asset_name(os: &str, arch: &str) -> (r: &'static str)
    ensures
        r@ == spec_asset_name(os@, arch@),
{
    let os_s = os.to_owned();
    let arch_s = arch.to_owned();
    let windows = "windows".to_owned();
    let linux = "linux".to_owned();
    let macos = "macos".to_owned();
    let x86 = "x86_64".to_owned();
    let arm = "aarch64".to_owned();
    if os_s == windows && arch_s == x86 {
        "llmchat-windows-x86_64.exe"
    } else if os_s == linux && arch_s == x86 {
        "llmchat-linux-x86_64-musl"
    } else if os_s == macos && arch_s == arm {
        "llmchat-macos-aarch64"
    } else if os_s == macos && arch_s == x86 {
        "llmchat-macos-x86_64"
    } else {
        "llmchat-unsupported-platform"
    }
}

/// Index just past the leading `v` / `V` characters of `s` from `i` on.
pub open spec fn skip_v(s: Seq<char>, i: int) -> int
    decreases s.len() - i,
{
    if 0 <= i < s.len() && (s[i] == 'v' || s[i] == 'V') {
        skip_v(s, i + 1)
    } else {
        i
    }
}

/// What remains of a version tag once trimmed and stripped of its `v` prefix.
pub open spec fn version_body(s: Seq<char>) -> Seq<char> {
    let t = trim(s);
    t.subrange(skip_v(t, 0), t.len() as int)
}

/// End of the `.`-separated field that starts at `start`.
pub open spec fn field_end(s: Seq<char>, start: int) -> int
    decreases s.len() - start,
{
    if start < 0 || start >= s.len() || s[start] == '.' {
        start
    } else {
        field_end(s, start + 1)
    }
}

/// Start of the `i`-th field of `s.split('.')`, if there are that many.
pub open spec fn field_start(s: Seq<char>, i: nat) -> Option<int>
    decreases i,
{
    if i == 0 {
        Some(0)
    } else {
        match field_start(s, (i - 1) as nat) {
            Some(st) => {
                let e = field_end(s, st);
                if e < s.len() {
                    Some(e + 1)
                } else {
                    None
                }
            },
            None => None,
        }
    }
}

pub open spec fn is_ascii_digit(c: char) -> bool {
    '0' <= c <= '9'
}

/// End of the run of ASCII digits that starts at `i`.
pub open spec fn digits_end(s: Seq<char>, i: int) -> int
    decreases s.len() - i,
{
    if 0 <= i < s.len() && is_ascii_digit(s[i]) {
        digits_end(s, i + 1)
    } else {
        i
    }
}

/// The number that the digits `s[from..to]` write in base ten.
pub open spec fn digits_value(s: Seq<char>, from: int, to: int) -> nat
    decreases to - from,
{
    if to <= from {
        0
    } else {
        digits_value(s, from, to - 1) * 10 + ((s[to - 1] as u32) - ('0' as u32)) as nat
    }
}

/// The `i`-th number of a version: the leading digits of its `i`-th field,
/// or 0 when the field is missing, has no leading digit, or does not fit in
/// a `u32`.
pub open spec fn version_number(s: Seq<char>, i: nat) -> nat {
    let b = version_body(s);
    match field_start(b, i) {
        Some(st) => {
            let e = digits_end(b, st);
            let v = digits_value(b, st, e);
            if st < e && v <= u32::MAX {
                v
            } else {
                0
            }
        },
        None => 0,
    }
}

/// Lexicographic comparison of two triples, as -1, 0 or 1.
pub open spec fn compare_triples(a: (nat, nat, nat), b: (nat, nat, nat)) -> int {
    if a.0 < b.0 {
        -1
    } else if a.0 > b.0 {
        1
    } else if a.1 < b.1 {
        -1
    } else if a.1 > b.1 {
        1
    } else if a.2 < b.2 {
        -1
    } else if a.2 > b.2 {
        1
    } else {
        0
    }
}

/// The three numbers a version tag stands for.
pub open spec fn version_triple(s: Seq<char>) -> (nat, nat, nat) {
    (version_number(s, 0), version_number(s, 1), version_number(s, 2))
}

/// How `compare_versions` orders two tags.
pub open spec fn spec_compare_versions(a: Seq<char>, b: Seq<char>) -> int {
    compare_triples(version_triple(a), version_triple(b))
}

proof fn lemma_digits_value_monotone(s: Seq<char>, from: int, to: int)
    requires
        from < to,
        is_ascii_digit(s[to - 1]),
    ensures
        digits_value(s, from, to) >= digits_value(s, from, to - 1),
{
}

proof fn lemma_field_end_bounds(s: Seq<char>, start: int)
    requires
        0 <= start <= s.len(),
    ensures
        start <= field_end(s, start) <= s.len(),
    decreases s.len() - start,
{
    if start < s.len() && s[start] != '.' {
        lemma_field_end_bounds(s, start + 1);
    }
}

proof fn lemma_digits_end_bounds(s: Seq<char>, i: int)
    requires
        0 <= i <= s.len(),
    ensures
        i <= digits_end(s, i) <= s.len(),
    decreases s.len() - i,
{
    if i < s.len() && is_ascii_digit(s[i]) {
        lemma_digits_end_bounds(s, i + 1);
    }
}

/// The number in the leading digits of `b[start..]`, or 0 (`str::parse::<u32>`
/// of that digit run, with failures read as 0).
fn leading_number(b: &Vec<char>, start: usize) -> (r: u32)
    requires
        start <= b@.len(),
    ensures
        ({
            let e = digits_end(b@, start as int);
            let v = digits_value(b@, start as int, e);
            r == if start < e && v <= u32::MAX {
                v
            } else {
                0
            }
        }),
{
    let mut i = start;
    let mut acc: u64 = 0;
    let mut overflow = false;
    while i < b.len() && '0' <= b[i] && b[i] <= '9'
        invariant
            start <= i <= b@.len(),
            digits_end(b@, i as int) == digits_end(b@, start as int),
            !overflow ==> acc == digits_value(b@, start as int, i as int) && acc <= u32::MAX,
            overflow ==> digits_value(b@, start as int, i as int) > u32::MAX,
        decreases b@.len() - i,
    {
        let d = ((b[i] as u32) - ('0' as u32)) as u64;
        proof {
            lemma_digits_value_monotone(b@, start as int, i + 1);
        }
        if !overflow {
            let next = acc * 10 + d;
            if next > 0xFFFF_FFFFu64 {
                overflow = true;
            } else {
                acc = next;
            }
        }
        i += 1;
    }
    if i == start || overflow {
        0
    } else {
        acc as u32
    }
}

/// The three numbers of a version tag (`parse_version`).
pub fn parse_version(s: &str) -> (r: [u32; 3])
    ensures
        r[0] == version_number(s@, 0),
        r[1] == version_number(s@, 1),
        r[2] == version_number(s@, 2),
{
    let all = chars_of(s);
    let (a, z) = trim_bounds(&all);
    let t = string_from_range(&all, a, z);
    let tv = chars_of(t.as_str());
    let mut k: usize = 0;
    while k < tv.len() && (tv[k] == 'v' || tv[k] == 'V')
        invariant
            k <= tv@.len(),
            skip_v(tv@, k as int) == skip_v(tv@, 0),
        decreases tv@.len() - k,
    {
        k += 1;
    }
    let b = string_from_range(&tv, k, tv.len());
    let body = chars_of(b.as_str());
    assert(body@ == version_body(s@));
    let mut out: [u32; 3] = [0, 0, 0];
    let mut start: usize = 0;
    let mut present = true;
    let mut i: usize = 0;
    while i < 3
        invariant
            i <= 3,
            present ==> field_start(body@, i as nat) == Some(start as int) && start <= body@.len(),
            !present ==> field_start(body@, i as nat) is None,
            forall|j: int| 0 <= j < i ==> out[j] == version_number(s@, j as nat),
            forall|j: int| i <= j < 3 ==> out[j] == 0,
            body@ == version_body(s@),
        decreases 3 - i,
    {
        if present {
            out[i] = leading_number(&body, start);
            let mut e = start;
            while e < body.len() && body[e] != '.'
                invariant
                    start <= e <= body@.len(),
                    field_end(body@, e as int) == field_end(body@, start as int),
                decreases body@.len() - e,
            {
                e += 1;
            }
            if e < body.len() {
                start = e + 1;
            } else {
                present = false;
            }
            assert(field_start(body@, (i + 1) as nat) == if e < body@.len() {
                Some(e + 1)
            } else {
                None::<int>
            });
        } else {
            assert(field_start(body@, (i + 1) as nat) is None);
        }
        i += 1;
    }
    out
}

/// Compares two version tags `X.Y.Z` (optional `v` prefix, suffixes such as
/// `-beta` ignored, non-numeric tags read as 0). Returns -1, 0 or 1.
pub fn compare_versions(a: &str, b: &str) -> (r: i32)
    ensures
        r as int == spec_compare_versions(a@, b@),
{
    let pa = parse_version(a);
    let pb = parse_version(b);
    let mut i: usize = 0;
    while i < 3
        invariant
            i <= 3,
            forall|j: int| 0 <= j < i ==> pa[j] == pb[j],
            pa[0] == version_number(a@, 0),
            pa[1] == version_number(a@, 1),
            pa[2] == version_number(a@, 2),
            pb[0] == version_number(b@, 0),
            pb[1] == version_number(b@, 1),
            pb[2] == version_number(b@, 2),
        decreases 3 - i,
    {
        if pa[i] < pb[i] {
            return -1;
        } else if pa[i] > pb[i] {
            return 1;
        }
        i += 1;
    }
    0
}

/// Comparing a tag with itself gives 0.
pub proof fn law_compare_reflexive(a: Seq<char>)
    ensures
        spec_compare_versions(a, a) == 0,
{
}

/// Swapping the two tags negates the comparison.
pub proof fn law_compare_antisymmetric(a: Seq<char>, b: Seq<char>)
    ensures
        spec_compare_versions(a, b) == -spec_compare_versions(b, a),
{
}

/// The comparison is a total preorder: `a <= b` and `b <= c` give `a <= c`.
pub proof fn law_compare_transitive(a: Seq<char>, b: Seq<char>, c: Seq<char>)
    requires
        spec_compare_versions(a, b) <= 0,
        spec_compare_versions(b, c) <= 0,
    ensures
        spec_compare_versions(a, c) <= 0,
{
}

/// Two tags compare as equal exactly when they stand for the same three numbers.
pub proof fn law_compare_zero_iff_same_numbers(a: Seq<char>, b: Seq<char>)
    ensures
        (spec_compare_versions(a, b) == 0) <==> (version_triple(a) == version_triple(b)),
{
}

/// Index of the first asset named `name`, if any.
pub open spec fn first_asset_named(assets: Seq<ReleaseAsset>, name: Seq<char>, from: int) -> Option<int>
    decreases assets.len() - from,
{
    if from < 0 || from >= assets.len() {
        None
    } else if assets[from].name@ == name {
        Some(from)
    } else {
        first_asset_named(assets, name, from + 1)
    }
}

/// What `select_release` returns: the release as an update for this
/// platform, or `None` when it has no binary named `asset_name` or is not
/// newer than `current`.
pub open spec fn spec_select_release(
    tag_name: Seq<char>,
    assets: Seq<ReleaseAsset>,
    asset_name: Seq<char>,
    current: Seq<char>,
) -> Option<(Seq<char>, Seq<char>, Seq<char>)> {
    match first_asset_named(assets, asset_name, 0) {
        None => None,
        Some(i) => if spec_compare_versions(tag_name, current) <= 0 {
            None
        } else {
            Some((tag_name, assets[i].name@, assets[i].browser_download_url@))
        },
    }
}

/// Decides whether the latest published release is an update: it must hold
/// a binary named `asset_name` and be newer than `current`.
pub fn select_release(tag_name: String, assets: Vec<ReleaseAsset>, asset_name: &str, current: &str) -> (r: Option<ReleaseInfo>)
    ensures
        match spec_select_release(tag_name@, assets@, asset_name@, current@) {
            None => r is None,
            Some((v, n, u)) => r matches Some(info) && info.version@ == v && info.asset_name@ == n
                && info.download_url@ == u,
        },
{
    let wanted = asset_name.to_owned();
    let mut i: usize = 0;
    let mut found: Option<usize> = None;
    while i < assets.len()
        invariant
            i <= assets@.len(),
            wanted@ == asset_name@,
            found is None ==> first_asset_named(assets@, asset_name@, i as int) == first_asset_named(assets@, asset_name@, 0),
            found matches Some(k) ==> first_asset_named(assets@, asset_name@, 0) == Some(k as int) && k < assets@.len(),
        decreases assets@.len() - i,
    {
        if found.is_none() && assets[i].name == wanted {
            found = Some(i);
        }
        i += 1;
    }
    assert(found is None ==> first_asset_named(assets@, asset_name@, i as int) is None);
    match found {
        None => None,
        Some(k) => {
            if compare_versions(tag_name.as_str(), current) <= 0 {
                None
            } else {
                let name = assets[k].name.clone();
                let url = assets[k].browser_download_url.clone();
                Some(ReleaseInfo { version: tag_name, asset_name: name, download_url: url })
            }
        },
    }
}

/// An update is offered only for a release newer than the running version,
/// and only with the binary named for this platform.
pub proof fn law_only_newer_releases(
    tag_name: Seq<char>,
    assets: Seq<ReleaseAsset>,
    asset_name: Seq<char>,
    current: Seq<char>,
)
    ensures
        spec_select_release(tag_name, assets, asset_name, current) matches Some((v, n, u)) ==> {
            &&& spec_compare_versions(tag_name, current) > 0
            &&& v == tag_name
            &&& n == asset_name
        },
{
    lemma_first_asset_named(assets, asset_name, 0);
}

/// The asset that `first_asset_named` finds has the name looked for.
proof fn lemma_first_asset_named(assets: Seq<ReleaseAsset>, name: Seq<char>, from: int)
    ensures
        first_asset_named(assets, name, from) matches Some(i) ==> 0 <= i < assets.len()
            && assets[i].name@ == name,
    decreases assets.len() - from,
{
    if 0 <= from < assets.len() && assets[from].name@ != name {
        lemma_first_asset_named(assets, name, from + 1);
    }
}

/// `s` with every `'` doubled, as PowerShell reads it inside single quotes.
pub open spec fn spec_ps_escape(s: Seq<char>) -> Seq<char>
    decreases s.len(),
{
    if s.len() == 0 {
        seq![]
    } else {
        let rest = spec_ps_escape(s.drop_last());
        if s.last() == '\'' {
            rest + seq!['\'', '\'']
        } else {
            rest.push(s.last())
        }
    }
}

/// Escapes a path for a single-quoted PowerShell string (`s.replace('\'', "''")`).
pub fn ps_escape(s: &str) -> (r: String)
    ensures
        r@ == spec_ps_escape(s@),
{
    let v = chars_of(s);
    let mut out = String::new();
    let mut i: usize = 0;
    while i < v.len()
        invariant
            i <= v@.len(),
            out@ == spec_ps_escape(v@.subrange(0, i as int)),
        decreases v@.len() - i,
    {
        if v[i] == '\'' {
            push_char(&mut out, '\'');
            push_char(&mut out, '\'');
        } else {
            push_char(&mut out, v[i]);
        }
        assert(v@.subrange(0, i + 1).drop_last() =~= v@.subrange(0, i as int));
        i += 1;
        assert(out@ =~= spec_ps_escape(v@.subrange(0, i as int)));
    }
    assert(v@.subrange(0, v@.len() as int) =~= v@);
    out
}

/// The PowerShell script that, once the running application (process
/// `pid`) has exited, copies `new_bin` over `current`, removes `new_bin` and
/// starts `current` again.
pub open spec fn spec_install_script(current: Seq<char>, new_bin: Seq<char>, pid: nat) -> Seq<char> {
    "$ErrorActionPreference = \"Stop\"\n$target = '"@ + spec_ps_escape(current) + "'\n$new = '"@
        + spec_ps_escape(new_bin) + "'\n$oldPid = "@ + decimal(pid)
        + "\n# Espera a que la app salga y, después, sustituye y relanza.\nwhile ($null -ne (Get-Process -Id $oldPid -ErrorAction SilentlyContinue)) { Start-Sleep -Milliseconds 300 }\nStart-Sleep -Milliseconds 300\nCopy-Item -Force -Path $new -Destination $target\nRemove-Item -Force -Path $new -ErrorAction SilentlyContinue\nStart-Process -FilePath $target\n"@
}

/// The installer script for Windows (see `spec_install_script`).
pub fn install_script(current: &str, new_bin: &str, pid: u32) -> (r: String)
    ensures
        r@ == spec_install_script(current@, new_bin@, pid as nat),
{
    let mut r = "$ErrorActionPreference = \"Stop\"\n$target = '".to_owned();
    r.append(ps_escape(current).as_str());
    r.append("'\n$new = '");
    r.append(ps_escape(new_bin).as_str());
    r.append("'\n$oldPid = ");
    push_decimal(&mut r, pid as u64);
    r.append(
        "\n# Espera a que la app salga y, después, sustituye y relanza.\nwhile ($null -ne (Get-Process -Id $oldPid -ErrorAction SilentlyContinue)) { Start-Sleep -Milliseconds 300 }\nStart-Sleep -Milliseconds 300\nCopy-Item -Force -Path $new -Destination $target\nRemove-Item -Force -Path $new -ErrorAction SilentlyContinue\nStart-Process -FilePath $target\n",
    );
    r
}

/// Name of the temporary file a downloaded update binary is written to.
pub fn update_file_name(asset_name: &str) -> (r: String)
    ensures
        r@ == "llmchat-update-"@ + asset_name@,
{
    let mut r = "llmchat-update-".to_owned();
    r.append(asset_name);
    r
}

/// What an HTTP status of the latest-release query means.
#[derive(Debug, Clone, Copy, PartialEq, Eq, Structural)]
pub enum ReleaseResponse {
    /// 404: nothing has been released yet, so there is nothing to update.
    NoRelease,
    /// Any other status outside 200..=299: the query failed.
    Failed,
    /// A success: the body describes the latest release.
    Release,
}

/// Classifies the HTTP status of the latest-release query.
pub fn release_response(status: u16) -> (r: ReleaseResponse)
    ensures
        status == 404 ==> r == ReleaseResponse::NoRelease,
        status != 404 && !(200 <= status <= 299) ==> r == ReleaseResponse::Failed,
        200 <= status <= 299 ==> r == ReleaseResponse::Release,
{
    if status == 404 {
        ReleaseResponse::NoRelease
    } else if 200 <= status && status <= 299 {
        ReleaseResponse::Release
    } else {
        ReleaseResponse::Failed
    }
}

/// The state of the self-update, as the settings show it.
#[derive(Debug)]
pub enum UpdateStatus {
    /// Not checked yet.
    Idle,
    /// Checking in the background.
    Checking,
    /// No newer version.
    UpToDate,
    /// A newer version is ready to install.
    Available(ReleaseInfo),
    /// Downloading and installing the update.
    Downloading,
    /// Checking or installing failed.
    Error(String),
}

impl UpdateStatus {
    /// A check or an installation is under way.
    pub open spec fn spec_busy(&self) -> bool {
        self is Checking || self is Downloading
    }

    /// Whether a check or an installation is under way.
    pub fn is_busy(&self) -> (b: bool)
        ensures
            b == self.spec_busy(),
    {
        match self {
            UpdateStatus::Checking | UpdateStatus::Downloading => true,
            _ => false,
        }
    }

    /// Starts a check unless one, or an installation, is under way; `true`
    /// when the caller is to run it.
    pub fn begin_check(&mut self) -> (start: bool)
        ensures
            start == !old(self).spec_busy(),
            start ==> *final(self) is Checking,
            !start ==> *final(self) == *old(self),
    {
        if self.is_busy() {
            return false;
        }
        *self = UpdateStatus::Checking;
        true
    }

    /// Records the outcome of a check.
    pub fn check_finished(&mut self, result: Result<Option<ReleaseInfo>, String>)
        ensures
            match result {
                Ok(Some(info)) => *final(self) == UpdateStatus::Available(info),
                Ok(None) => *final(self) is UpToDate,
                Err(e) => *final(self) == UpdateStatus::Error(e),
            },
    {
        *self = match result {
            Ok(Some(info)) => UpdateStatus::Available(info),
            Ok(None) => UpdateStatus::UpToDate,
            Err(e) => UpdateStatus::Error(e),
        };
    }

    /// Starts installing the available update: the release to download,
    /// or `None` (and no change) when no update is available.
    pub fn begin_install(&mut self) -> (r: Option<ReleaseInfo>)
        ensures
            *old(self) is Available ==> r == Some((*old(self))->Available_0) && *final(self) is Downloading,
            !(*old(self) is Available) ==> r is None && *final(self) == *old(self),
    {
        let mut current = UpdateStatus::Downloading;
        std::mem::swap(&mut current, self);
        match current {
            UpdateStatus::Available(info) => Some(info),
            other => {
                *self = other;
                None
            },
        }
    }

    /// Records the outcome of an installation: `true` when it is launched
    /// and the application is to save its data and exit.
    pub fn install_finished(&mut self, result: Result<(), String>) -> (exit: bool)
        ensures
            exit == result is Ok,
            result is Ok ==> *final(self) == *old(self),
            result matches Err(e) ==> *final(self) == UpdateStatus::Error(e),
    {
        match result {
            Ok(()) => true,
            Err(e) => {
                *self = UpdateStatus::Error(e);
                false
            },
        }
    }
}

} // verus!
