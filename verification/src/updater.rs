//! Update checking: version comparison, choosing the package for this
//! platform, checking its SHA-256, and the state of checking, downloading and
//! installing as the background work reports back.
//!
//! The network, file and process work is the caller's; it reports each result
//! to `UpdateManager`, which decides what state follows.

use crate::text::{
    chars_of, find, lower, parse_u64, push_str, range_find, range_parse_u64, str_eq,
};
use crate::i18n::{fill_from, placeholder, replace_all, translate, I18nManager};
use vstd::prelude::*;

verus! {

broadcast use vstd::string::group_string_axioms;

/// The version of this program, compared with the remote one.
pub fn current_version() -> (r: &'static str)
    ensures
        r@ == "0.3.0"@,
{
    "0.3.0"
}

/// Bilingual release notes.
#[derive(Debug, Clone, PartialEq, Eq)]
pub struct Changelog {
    pub zh: Option<String>,
    pub en: Option<String>,
}

impl Default for Changelog {
    fn default() -> (r: Self)
        ensures
            r.zh is None && r.en is None,
    {
        Changelog { zh: None, en: None }
    }
}

/// The package of one platform.
#[derive(Debug, Clone, PartialEq, Eq)]
pub struct PlatformAsset {
    pub filename: String,
    pub url: String,
    pub sha256: String,
    pub size: u64,
}

/// Release metadata as published in `version.json`; `platforms` maps each
/// platform key to its package.
#[derive(Debug, Clone, PartialEq, Eq)]
pub struct VersionInfo {
    pub version: String,
    pub tag: String,
    pub release_date: Option<String>,
    pub changelog: Changelog,
    pub platforms: Vec<(String, PlatformAsset)>,
}

/// Which language of the release notes is shown.
#[derive(Debug, Clone, Copy, PartialEq, Eq, Structural)]
pub enum ChangelogTab {
    Chinese,
    English,
}

/// The release notes shown under `tab`, or a note that there are none in
/// that language.
pub open spec fn changelog_text_spec(c: Changelog, tab: ChangelogTab) -> Seq<char> {
    match tab {
        ChangelogTab::Chinese => match c.zh {
            Some(t) => t@,
            None => "暂无中文更新日志。"@,
        },
        ChangelogTab::English => match c.en {
            Some(t) => t@,
            None => "No English changelog available."@,
        },
    }
}

/// The release notes to show under `tab` (`changelog_text_spec`).
pub fn changelog_text(c: &Changelog, tab: ChangelogTab) -> (r: &str)
    ensures
        r@ == changelog_text_spec(*c, tab),
{
    match tab {
        ChangelogTab::Chinese => match &c.zh {
            Some(t) => t.as_str(),
            None => "暂无中文更新日志。",
        },
        ChangelogTab::English => match &c.en {
            Some(t) => t.as_str(),
            None => "No English changelog available.",
        },
    }
}

/// Whether a locale tag names Chinese: it starts with `zh` in any case.
pub open spec fn is_zh_locale(s: Seq<char>) -> bool {
    s.len() >= 2 && lower(s[0]) == 'z' && lower(s[1]) == 'h'
}

/// Tests `is_zh_locale`.
pub fn locale_is_zh(s: &str) -> (r: bool)
    ensures
        r == is_zh_locale(s@),
{
    let v = chars_of(s);
    v.len() >= 2 && crate::text::char_lower(v[0]) == 'z' && crate::text::char_lower(v[1]) == 'h'
}

/// The release-notes tab for a system locale: Chinese for `zh*`, else English.
pub fn tab_for_locale(locale: Option<&str>) -> (r: ChangelogTab)
    ensures
        r == (if locale matches Some(l) && is_zh_locale(l@) {
            ChangelogTab::Chinese
        } else {
            ChangelogTab::English
        }),
{
    match locale {
        Some(l) => if locale_is_zh(l) {
            ChangelogTab::Chinese
        } else {
            ChangelogTab::English
        },
        None => ChangelogTab::English,
    }
}

/// The release-notes tab for the running system's locale.
pub fn detect_default_tab() -> ChangelogTab {
    let loc = crate::i18n::system_locale_tag();
    match &loc {
        Some(s) => tab_for_locale(Some(s.as_str())),
        None => tab_for_locale(None),
    }
}

/// The package key of an operating system, as Rust names it (`std::env::consts::OS`).
pub open spec fn platform_key_of(os: Seq<char>) -> Seq<char> {
    if os == "windows"@ {
        "windows-x64"@
    } else if os == "linux"@ {
        "linux-x64"@
    } else {
        "unknown"@
    }
}

/// The package key of an operating system: `windows-x64`, `linux-x64` or `unknown`.
pub fn platform_key_for(os: &str) -> (r: &'static str)
    ensures
        r@ == platform_key_of(os@),
{
    if str_eq(os, "windows") {
        "windows-x64"
    } else if str_eq(os, "linux") {
        "linux-x64"
    } else {
        "unknown"
    }
}

// ---------------------------------------------------------------------------
// Version comparison
// ---------------------------------------------------------------------------

/// The separators of version fields.
pub open spec fn is_version_sep(c: char) -> bool {
    c == '.' || c == '-' || c == '+'
}

/// The index of the first character from `i` on that is not a `v`.
pub open spec fn after_leading_v(s: Seq<char>, i: int) -> int
    decreases s.len() - i,
{
    if 0 <= i < s.len() && s[i] == 'v' {
        after_leading_v(s, i + 1)
    } else {
        i
    }
}

/// The number a field gives, if it reads as a `u64`.
pub open spec fn field_number(f: Seq<char>) -> Seq<u64> {
    match parse_u64(f) {
        Some(v) => seq![v],
        None => seq![],
    }
}

/// The numbers of the fields of `s` from the field that starts at `start`,
/// scanning from `i`.
pub open spec fn version_fields(s: Seq<char>, start: int, i: int) -> Seq<u64>
    decreases s.len() - i,
{
    if i >= s.len() {
        field_number(s.subrange(start, s.len() as int))
    } else if is_version_sep(s[i]) {
        field_number(s.subrange(start, i)) + version_fields(s, i + 1, i + 1)
    } else {
        version_fields(s, start, i + 1)
    }
}

/// The numeric parts of a version string: leading `v`s dropped, split at `.`,
/// `-` and `+`, fields that are not numbers left out.
pub open spec fn version_parts(s: Seq<char>) -> Seq<u64> {
    let k = after_leading_v(s, 0);
    version_fields(s, k, k)
}

/// Part `i` of a version, 0 past its end.
pub open spec fn part_at(p: Seq<u64>, i: int) -> u64 {
    if 0 <= i < p.len() {
        p[i]
    } else {
        0
    }
}

/// Whether `r` is greater than `c` in the first part from `i` on where they differ.
pub open spec fn parts_newer(r: Seq<u64>, c: Seq<u64>, i: int) -> bool
    decreases r.len() + c.len() - i,
{
    if i >= r.len() && i >= c.len() {
        false
    } else if part_at(r, i) > part_at(c, i) {
        true
    } else if part_at(r, i) < part_at(c, i) {
        false
    } else {
        parts_newer(r, c, i + 1)
    }
}

/// Whether version `remote` is newer than version `current`.
pub open spec fn newer_version(remote: Seq<char>, current: Seq<char>) -> bool {
    parts_newer(version_parts(remote), version_parts(current), 0)
}

/// No version is newer than itself.
pub proof fn lemma_newer_irreflexive(v: Seq<char>)
    ensures
        !newer_version(v, v),
{
    lemma_parts_irreflexive(version_parts(v), 0);
}

proof fn lemma_parts_irreflexive(p: Seq<u64>, i: int)
    ensures
        !parts_newer(p, p, i),
    decreases p.len() + p.len() - i,
{
    if !(i >= p.len() && i >= p.len()) {
        lemma_parts_irreflexive(p, i + 1);
    }
}

/// Of two versions, at most one is newer than the other.
pub proof fn lemma_newer_asymmetric(a: Seq<char>, b: Seq<char>)
    ensures
        newer_version(a, b) ==> !newer_version(b, a),
{
    lemma_parts_asymmetric(version_parts(a), version_parts(b), 0);
}

proof fn lemma_parts_asymmetric(r: Seq<u64>, c: Seq<u64>, i: int)
    ensures
        parts_newer(r, c, i) ==> !parts_newer(c, r, i),
    decreases r.len() + c.len() - i,
{
    if !(i >= r.len() && i >= c.len()) && part_at(r, i) == part_at(c, i) {
        lemma_parts_asymmetric(r, c, i + 1);
    }
}

/// Newer than a version that is newer than a third is newer than the third.
pub proof fn lemma_newer_transitive(a: Seq<char>, b: Seq<char>, c: Seq<char>)
    requires
        newer_version(a, b),
        newer_version(b, c),
    ensures
        newer_version(a, c),
{
    lemma_parts_transitive(version_parts(a), version_parts(b), version_parts(c), 0);
}

proof fn lemma_parts_transitive(a: Seq<u64>, b: Seq<u64>, c: Seq<u64>, i: int)
    requires
        parts_newer(a, b, i),
        parts_newer(b, c, i),
    ensures
        parts_newer(a, c, i),
    decreases a.len() + b.len() + c.len() - i,
{
    if part_at(a, i) == part_at(b, i) && part_at(b, i) == part_at(c, i) {
        lemma_parts_transitive(a, b, c, i + 1);
    }
}

fn parse_version_parts(v: &str) -> (r: Vec<u64>)
    ensures
        r@ == version_parts(v@),
{
    let cs = chars_of(v);
    let n = cs.len();
    let mut k: usize = 0;
    while k < n && cs[k] == 'v'
        invariant
            cs@ == v@,
            n == cs@.len(),
            k <= n,
            after_leading_v(v@, 0) == after_leading_v(v@, k as int),
        decreases n - k,
    {
        k += 1;
    }
    let ghost k0 = k as int;
    let mut out: Vec<u64> = Vec::new();
    let mut start = k;
    let mut i = k;
    while i < n
        invariant
            cs@ == v@,
            n == cs@.len(),
            k0 <= start <= i <= n,
            k0 == after_leading_v(v@, 0),
            version_fields(v@, k0, k0) == out@ + version_fields(v@, start as int, i as int),
        decreases n - i,
    {
        let c = cs[i];
        if c == '.' || c == '-' || c == '+' {
            let ghost prev = out@;
            match range_parse_u64(&cs, start, i) {
                Some(x) => out.push(x),
                None => {},
            }
            assert(out@ == prev + field_number(v@.subrange(start as int, i as int)));
            assert(prev + (field_number(v@.subrange(start as int, i as int)) + version_fields(
                v@,
                i + 1,
                i + 1,
            )) =~= out@ + version_fields(v@, i + 1, i + 1));
            start = i + 1;
        }
        i += 1;
    }
    let ghost prev = out@;
    match range_parse_u64(&cs, start, n) {
        Some(x) => out.push(x),
        None => {},
    }
    assert(out@ =~= prev + field_number(v@.subrange(start as int, n as int)));
    out
}

/// Whether version `remote` is newer than version `current`: the numeric parts
/// are compared in order, a missing part counting as 0 (`v0.3.0` is newer than
/// `0.2.9`; `0.2.0` is not newer than `0.2`).
pub fn is_newer_version(remote: &str, current: &str) -> (r: bool)
    ensures
        r == newer_version(remote@, current@),
{
    let rp = parse_version_parts(remote);
    let cp = parse_version_parts(current);
    let m = if rp.len() > cp.len() {
        rp.len()
    } else {
        cp.len()
    };
    let mut i: usize = 0;
    while i < m
        invariant
            rp@ == version_parts(remote@),
            cp@ == version_parts(current@),
            m == (if rp@.len() > cp@.len() {
                rp@.len()
            } else {
                cp@.len()
            }),
            i <= m,
            newer_version(remote@, current@) == parts_newer(rp@, cp@, i as int),
        decreases m - i,
    {
        let rv = if i < rp.len() {
            rp[i]
        } else {
            0
        };
        let cv = if i < cp.len() {
            cp[i]
        } else {
            0
        };
        if rv > cv {
            return true;
        } else if rv < cv {
            return false;
        }
        i += 1;
    }
    false
}

// ---------------------------------------------------------------------------
// Package integrity
// ---------------------------------------------------------------------------

/// Names the lowercase hexadecimal SHA-256 digest of a byte sequence.
pub uninterp spec fn sha256_hex_digest(data: Seq<u8>) -> Seq<char>;

/// Whether every character is a lowercase hexadecimal digit.
pub open spec fn lower_hex(s: Seq<char>) -> bool {
    forall|i: int| 0 <= i < s.len() ==> ('0' <= #[trigger] s[i] <= '9' || 'a' <= s[i] <= 'f')
}

/// The SHA-256 digest of `data`, as 64 lowercase hexadecimal digits.
///
/// Calls `sha2::Sha256::digest` and formats the 32 bytes with `{:x}`; the
/// contract claims that the text is the named digest of `data`, 64 characters
/// long, each one of `0-9a-f`.
#[verifier::external_body]
fn sha256_hex(data: &[u8]) -> (r: String)
    ensures
        r@ == sha256_hex_digest(data@),
        r@.len() == 64,
        lower_hex(r@),
{
    format!("{:x}", <sha2::Sha256 as sha2::Digest>::digest(data))
}

/// `str::eq_ignore_ascii_case`.
pub open spec fn eq_ignore_ascii_case(a: Seq<char>, b: Seq<char>) -> bool {
    a.len() == b.len() && forall|i: int| 0 <= i < a.len() ==> lower(#[trigger] a[i]) == lower(b[i])
}

/// Tests `eq_ignore_ascii_case`.
pub fn str_eq_ignore_ascii_case(a: &str, b: &str) -> (r: bool)
    ensures
        r == eq_ignore_ascii_case(a@, b@),
{
    let va = chars_of(a);
    let vb = chars_of(b);
    if va.len() != vb.len() {
        return false;
    }
    let mut i: usize = 0;
    while i < va.len()
        invariant
            va@ == a@,
            vb@ == b@,
            va@.len() == vb@.len(),
            i <= va@.len(),
            forall|k: int| 0 <= k < i ==> lower(#[trigger] a@[k]) == lower(b@[k]),
        decreases va@.len() - i,
    {
        if crate::text::char_lower(va[i]) != crate::text::char_lower(vb[i]) {
            return false;
        }
        i += 1;
    }
    true
}

/// The message given when a package's digest differs from the published one.
pub open spec fn hash_mismatch_message(expected: Seq<char>, actual: Seq<char>) -> Seq<char> {
    "SHA-256 完整性校验失败！期望值: "@ + expected + ", 实际值: "@ + actual
}

/// Checks a downloaded package against its published SHA-256 (compared
/// without regard to case): the digest on success, the mismatch message else.
pub fn verify_download(data: &[u8], expected_sha256: &str) -> (r: Result<String, String>)
    ensures
        match r {
            Ok(d) => d@ == sha256_hex_digest(data@) && eq_ignore_ascii_case(
                sha256_hex_digest(data@),
                expected_sha256@,
            ),
            Err(e) => !eq_ignore_ascii_case(sha256_hex_digest(data@), expected_sha256@) && e@
                == hash_mismatch_message(expected_sha256@, sha256_hex_digest(data@)),
        },
{
    let computed = sha256_hex(data);
    if str_eq_ignore_ascii_case(computed.as_str(), expected_sha256) {
        Ok(computed)
    } else {
        let mut msg = String::new();
        push_str(&mut msg, "SHA-256 完整性校验失败！期望值: ");
        push_str(&mut msg, expected_sha256);
        push_str(&mut msg, ", 实际值: ");
        push_str(&mut msg, computed.as_str());
        Err(msg)
    }
}

// ---------------------------------------------------------------------------
// Update state
// ---------------------------------------------------------------------------

/// Where checking for an update stands.
#[derive(Debug, Clone)]
pub enum UpdateCheckStatus {
    /// Not checked yet.
    Idle,
    /// Asking the server.
    Checking,
    /// This is the latest version.
    UpToDate,
    /// A newer version is available.
    UpdateAvailable(VersionInfo),
    /// The check failed; the message says why.
    CheckFailed(String),
}

/// The line the about box shows for `status`, in the language of `i18n`: a
/// fixed text while idle, checking or up to date; the new version, or the
/// error, put in for `{0}` otherwise.
pub open spec fn about_status_spec(i18n: I18nManager, status: UpdateCheckStatus) -> Seq<char> {
    let tr = |k: Seq<char>| translate(i18n.locales(), i18n.active(), k);
    match status {
        UpdateCheckStatus::Idle => tr("about.status_label"@),
        UpdateCheckStatus::Checking => tr("about.checking"@),
        UpdateCheckStatus::UpToDate => tr("about.latest"@),
        UpdateCheckStatus::UpdateAvailable(info) => replace_all(tr("about.new_version"@), placeholder(0), info.version@),
        UpdateCheckStatus::CheckFailed(e) => replace_all(tr("about.update_failed"@), placeholder(0), e@),
    }
}

fn fmt_one(i18n: &I18nManager, key: &str, arg: &str) -> (r: String)
    ensures
        r@ == replace_all(translate(i18n.locales(), i18n.active(), key@), placeholder(0), arg@),
{
    let args: [&str; 1] = [arg];
    let r = i18n.t_fmt(key, &args);
    proof {
        let t = translate(i18n.locales(), i18n.active(), key@);
        assert(args@.len() == 1 && args@[0] == arg);
        assert(fill_from(replace_all(t, placeholder(0), arg@), args@, 1) == replace_all(t, placeholder(0), arg@));
    }
    r
}

/// The about box's update line (`about_status_spec`).
pub fn about_status_text(i18n: &I18nManager, status: &UpdateCheckStatus) -> (r: String)
    ensures
        r@ == about_status_spec(*i18n, *status),
{
    match status {
        UpdateCheckStatus::Idle => i18n.t("about.status_label").to_string(),
        UpdateCheckStatus::Checking => i18n.t("about.checking").to_string(),
        UpdateCheckStatus::UpToDate => i18n.t("about.latest").to_string(),
        UpdateCheckStatus::UpdateAvailable(info) => fmt_one(i18n, "about.new_version", info.version.as_str()),
        UpdateCheckStatus::CheckFailed(e) => fmt_one(i18n, "about.update_failed", e.as_str()),
    }
}

/// Where downloading and installing the update stands.
#[derive(Debug, Clone)]
pub enum DownloadState {
    NotStarted,
    Downloading { downloaded: u64, total: u64 },
    Downloaded { temp_file: String, sha256: String },
    Failed(String),
    Installing,
    InstallFailed(String),
}

/// What the download reports back.
#[derive(Debug, Clone)]
pub enum DownloadProgress {
    Progress { downloaded: u64, total: u64 },
    Done { temp_file: String, sha256: String },
    Failed(String),
    Cancelled,
}

/// The download state a report leads to.
pub open spec fn state_after_report(p: DownloadProgress) -> DownloadState {
    match p {
        DownloadProgress::Progress { downloaded, total } => DownloadState::Downloading {
            downloaded,
            total,
        },
        DownloadProgress::Done { temp_file, sha256 } => DownloadState::Downloaded {
            temp_file,
            sha256,
        },
        DownloadProgress::Failed(e) => DownloadState::Failed(e),
        DownloadProgress::Cancelled => DownloadState::NotStarted,
    }
}

/// The first platform whose key is `key`.
pub open spec fn key_index(ps: Seq<(String, PlatformAsset)>, key: Seq<char>, from: int) -> Option<
    int,
>
    decreases ps.len() - from,
{
    if from < 0 || from >= ps.len() {
        None
    } else if ps[from].0@ == key {
        Some(from)
    } else {
        key_index(ps, key, from + 1)
    }
}

/// The first platform whose package file name contains `key`.
pub open spec fn name_index(ps: Seq<(String, PlatformAsset)>, key: Seq<char>, from: int) -> Option<
    int,
>
    decreases ps.len() - from,
{
    if from < 0 || from >= ps.len() {
        None
    } else if find(ps[from].1.filename@, key) is Some {
        Some(from)
    } else {
        name_index(ps, key, from + 1)
    }
}

/// The package chosen for platform `key`: the one listed under `key`, else
/// the first whose file name contains `key`.
pub open spec fn asset_index(ps: Seq<(String, PlatformAsset)>, key: Seq<char>) -> Option<int> {
    match key_index(ps, key, 0) {
        Some(i) => Some(i),
        None => name_index(ps, key, 0),
    }
}

/// Whether two packages have the same fields.
pub open spec fn same_asset(a: PlatformAsset, b: PlatformAsset) -> bool {
    &&& a.filename@ == b.filename@
    &&& a.url@ == b.url@
    &&& a.sha256@ == b.sha256@
    &&& a.size == b.size
}

fn copy_string(s: &String) -> (r: String)
    ensures
        r@ == s@,
{
    let mut t = String::new();
    push_str(&mut t, s.as_str());
    t
}

fn copy_asset(a: &PlatformAsset) -> (r: PlatformAsset)
    ensures
        same_asset(r, *a),
{
    PlatformAsset {
        filename: copy_string(&a.filename),
        url: copy_string(&a.url),
        sha256: copy_string(&a.sha256),
        size: a.size,
    }
}

fn find_asset(ps: &Vec<(String, PlatformAsset)>, key: &str) -> (r: Option<usize>)
    ensures
        match r {
            Some(i) => asset_index(ps@, key@) == Some(i as int) && i < ps@.len(),
            None => asset_index(ps@, key@) is None,
        },
{
    let n = ps.len();
    let mut i: usize = 0;
    while i < n
        invariant
            n == ps@.len(),
            i <= n,
            key_index(ps@, key@, 0) == key_index(ps@, key@, i as int),
        decreases n - i,
    {
        if str_eq(ps[i].0.as_str(), key) {
            return Some(i);
        }
        i += 1;
    }
    let mut j: usize = 0;
    while j < n
        invariant
            n == ps@.len(),
            j <= n,
            key_index(ps@, key@, 0) is None,
            name_index(ps@, key@, 0) == name_index(ps@, key@, j as int),
        decreases n - j,
    {
        let name = chars_of(ps[j].1.filename.as_str());
        let m = name.len();
        assert(name@.subrange(0, m as int) =~= name@);
        if range_find(&name, 0, m, key).is_some() {
            return Some(j);
        }
        j += 1;
    }
    None
}

/// The state of checking for, downloading and installing an update.
pub struct UpdateManager {
    pub check_status: UpdateCheckStatus,
    pub download_state: DownloadState,
    pub active_tab: ChangelogTab,
    pub show_details_window: bool,
    /// Whether the automatic check of this session has been started.
    pub has_auto_checked: bool,
}

impl UpdateManager {
    /// A manager that has checked nothing; the release-notes tab follows the
    /// system locale.
    pub fn new() -> (r: Self)
        ensures
            r.check_status is Idle,
            r.download_state is NotStarted,
            !r.show_details_window,
            !r.has_auto_checked,
    {
        UpdateManager {
            check_status: UpdateCheckStatus::Idle,
            download_state: DownloadState::NotStarted,
            active_tab: detect_default_tab(),
            show_details_window: false,
            has_auto_checked: false,
        }
    }

    /// The About dialog was opened: the first time in a session this starts a
    /// check (returns `true`, status `Checking`); later it changes nothing.
    pub fn on_about_opened(&mut self) -> (r: bool)
        ensures
            r == !old(self).has_auto_checked,
            final(self).has_auto_checked,
            r ==> final(self).check_status is Checking,
            !r ==> final(self).check_status == old(self).check_status,
            final(self).download_state == old(self).download_state,
            final(self).active_tab == old(self).active_tab,
            final(self).show_details_window == old(self).show_details_window,
    {
        if !self.has_auto_checked {
            self.has_auto_checked = true;
            self.check_for_updates();
            true
        } else {
            false
        }
    }

    /// A check for updates starts: the status becomes `Checking`.
    pub fn check_for_updates(&mut self)
        ensures
            final(self).check_status is Checking,
            final(self).download_state == old(self).download_state,
            final(self).active_tab == old(self).active_tab,
            final(self).show_details_window == old(self).show_details_window,
            final(self).has_auto_checked == old(self).has_auto_checked,
    {
        self.check_status = UpdateCheckStatus::Checking;
    }

    /// The package for platform `plat_key`, when an update is available: the
    /// one listed under the key, else the first whose file name contains it.
    pub fn get_current_platform_asset(&self, plat_key: &str) -> (r: Option<PlatformAsset>)
        ensures
            match self.check_status {
                UpdateCheckStatus::UpdateAvailable(info) => match asset_index(
                    info.platforms@,
                    plat_key@,
                ) {
                    Some(i) => r matches Some(a) && same_asset(a, info.platforms@[i].1),
                    None => r is None,
                },
                _ => r is None,
            },
    {
        match &self.check_status {
            UpdateCheckStatus::UpdateAvailable(info) => match find_asset(&info.platforms, plat_key) {
                Some(i) => Some(copy_asset(&info.platforms[i].1)),
                None => None,
            },
            _ => None,
        }
    }

    /// A download is asked for: with a package for `plat_key` the state
    /// becomes `Downloading` of 0 bytes out of the package size and the package
    /// is returned to be fetched; without one the download fails at once.
    pub fn start_download(&mut self, plat_key: &str) -> (r: Option<PlatformAsset>)
        ensures
            match old(self).check_status {
                UpdateCheckStatus::UpdateAvailable(info) => asset_index(
                    info.platforms@,
                    plat_key@,
                ) is Some,
                _ => false,
            } ==> (r matches Some(a) && final(self).download_state == (DownloadState::Downloading {
                downloaded: 0,
                total: a.size,
            })),
            r matches Some(a) ==> (match old(self).check_status {
                UpdateCheckStatus::UpdateAvailable(info) => match asset_index(
                    info.platforms@,
                    plat_key@,
                ) {
                    Some(i) => same_asset(a, info.platforms@[i].1),
                    None => false,
                },
                _ => false,
            }),
            r is None ==> (final(self).download_state matches DownloadState::Failed(m) && m@
                == "未找到适用于当前平台 ("@ + plat_key@ + ") 的更新包"@),
            final(self).check_status == old(self).check_status,
            final(self).active_tab == old(self).active_tab,
            final(self).show_details_window == old(self).show_details_window,
            final(self).has_auto_checked == old(self).has_auto_checked,
    {
        match self.get_current_platform_asset(plat_key) {
            Some(asset) => {
                self.download_state = DownloadState::Downloading { downloaded: 0, total: asset.size };
                Some(asset)
            },
            None => {
                let mut m = String::new();
                push_str(&mut m, "未找到适用于当前平台 (");
                push_str(&mut m, plat_key);
                push_str(&mut m, ") 的更新包");
                self.download_state = DownloadState::Failed(m);
                None
            },
        }
    }

    /// The download is cancelled: nothing is downloading any more.
    pub fn cancel_download(&mut self)
        ensures
            final(self).download_state is NotStarted,
            final(self).check_status == old(self).check_status,
            final(self).active_tab == old(self).active_tab,
            final(self).show_details_window == old(self).show_details_window,
            final(self).has_auto_checked == old(self).has_auto_checked,
    {
        self.download_state = DownloadState::NotStarted;
    }

    /// Installing is asked for: once a package is downloaded the state becomes
    /// `Installing` and the downloaded file is returned; otherwise nothing
    /// changes.
    pub fn apply_update(&mut self) -> (r: Option<String>)
        ensures
            match old(self).download_state {
                DownloadState::Downloaded { temp_file, .. } => r matches Some(f) && f@ == temp_file@
                    && final(self).download_state is Installing,
                _ => r is None && final(self).download_state == old(self).download_state,
            },
            final(self).check_status == old(self).check_status,
            final(self).active_tab == old(self).active_tab,
            final(self).show_details_window == old(self).show_details_window,
            final(self).has_auto_checked == old(self).has_auto_checked,
    {
        let file = match &self.download_state {
            DownloadState::Downloaded { temp_file, .. } => Some(copy_string(temp_file)),
            _ => None,
        };
        if file.is_some() {
            self.download_state = DownloadState::Installing;
        }
        file
    }

    /// Takes in what the background work reported since the last call: the
    /// result of a check (compared with `current_version`), the download
    /// reports in the order they came, and the result of installing.
    pub fn poll(
        &mut self,
        check: Option<Result<VersionInfo, String>>,
        progress: Vec<DownloadProgress>,
        install: Option<Result<(), String>>,
        current_version: &str,
    )
        ensures
            final(self).check_status == (match check {
                Some(Ok(info)) => if newer_version(info.version@, current_version@) {
                    UpdateCheckStatus::UpdateAvailable(info)
                } else {
                    UpdateCheckStatus::UpToDate
                },
                Some(Err(e)) => UpdateCheckStatus::CheckFailed(e),
                None => old(self).check_status,
            }),
            final(self).download_state == (match install {
                Some(Err(e)) => DownloadState::InstallFailed(e),
                _ => if progress@.len() > 0 {
                    state_after_report(progress@.last())
                } else {
                    old(self).download_state
                },
            }),
            final(self).active_tab == old(self).active_tab,
            final(self).show_details_window == old(self).show_details_window,
            final(self).has_auto_checked == old(self).has_auto_checked,
    {
        match check {
            Some(Ok(info)) => {
                if is_newer_version(info.version.as_str(), current_version) {
                    self.check_status = UpdateCheckStatus::UpdateAvailable(info);
                } else {
                    self.check_status = UpdateCheckStatus::UpToDate;
                }
            },
            Some(Err(e)) => {
                self.check_status = UpdateCheckStatus::CheckFailed(e);
            },
            None => {},
        }
        let mut reports = progress;
        match reports.pop() {
            Some(p) => {
                self.download_state = match p {
                    DownloadProgress::Progress { downloaded, total } => DownloadState::Downloading {
                        downloaded,
                        total,
                    },
                    DownloadProgress::Done { temp_file, sha256 } => DownloadState::Downloaded {
                        temp_file,
                        sha256,
                    },
                    DownloadProgress::Failed(e) => DownloadState::Failed(e),
                    DownloadProgress::Cancelled => DownloadState::NotStarted,
                };
            },
            None => {},
        }
        match install {
            Some(Err(e)) => {
                self.download_state = DownloadState::InstallFailed(e);
            },
            _ => {},
        }
    }
}

impl Default for UpdateManager {
    fn default() -> (r: Self)
        ensures
            r.check_status is Idle,
            r.download_state is NotStarted,
            !r.show_details_window,
            !r.has_auto_checked,
    {
        UpdateManager::new()
    }
}

} // verus!
