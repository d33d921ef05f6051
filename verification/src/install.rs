//! How the editor extension finds or installs the language server: a
//! sequence of steps, each waiting for the outcome of one piece of outside
//! work (a lookup, a file check, a download), with the decision between
//! them made here.

use vstd::prelude::*;
use crate::text::{char_vec, string_from_chars, str_equal};
use crate::items::owned;
use crate::paths::{has_prefix, starts_with};

verus! {

/// The name of the language server's binary and of its release assets.
pub open spec fn server_id() -> Seq<char> {
    "ctrmml-lsp"@
}

/// The operating system the editor runs on.
#[derive(Clone, Copy, Debug, PartialEq, Eq, Structural)]
pub enum Os {
    Mac,
    Linux,
    Windows,
}

/// The processor architecture the editor runs on.
#[derive(Clone, Copy, Debug, PartialEq, Eq, Structural)]
pub enum Arch {
    Aarch64,
    X86,
    X8664,
}

/// The kind of archive a release asset is.
#[derive(Clone, Copy, Debug, PartialEq, Eq, Structural)]
pub enum ArchiveKind {
    Zip,
    GzipTar,
}

/// The file name of the server binary on `os`.
pub open spec fn bin_name_for(os: Os) -> Seq<char> {
    match os {
        Os::Windows => "ctrmml-lsp.exe"@,
        _ => "ctrmml-lsp"@,
    }
}

/// The file name of the server binary on `os`.
pub fn bin_name(os: Os) -> (name: String)
    ensures
        name@ == bin_name_for(os),
{
    match os {
        Os::Windows => owned("ctrmml-lsp.exe"),
        _ => owned("ctrmml-lsp"),
    }
}

/// Whether a directory name may hold an installed server (it begins with
/// the server's name).
pub fn is_server_dir_name(name: &str) -> (r: bool)
    ensures
        r == starts_with(name@, server_id()),
{
    has_prefix(name, "ctrmml-lsp")
}

/// A server binary found on disk, with its modification time in
/// nanoseconds from the Unix epoch (negative before it).
#[derive(Clone, Debug)]
pub struct CachedBinary {
    pub modified: i128,
    pub path: String,
}

/// Whether `i` is the first of the latest-modified binaries of `c`.
pub open spec fn is_newest(c: Seq<CachedBinary>, i: int) -> bool {
    &&& 0 <= i < c.len()
    &&& forall|j: int| 0 <= j < c.len() ==> #[trigger] c[j].modified <= c[i].modified
    &&& forall|j: int| 0 <= j < i ==> #[trigger] c[j].modified < c[i].modified
}

/// The path of the most recently modified binary; the first such one when
/// several share that time.
pub fn newest_binary(c: &Vec<CachedBinary>) -> (r: Option<String>)
    ensures
        r is None <==> c@.len() == 0,
        match r {
            Some(p) => exists|i: int| is_newest(c@, i) && #[trigger] c@[i].path@ == p@,
            None => true,
        },
{
    if c.len() == 0 {
        return None;
    }
    let mut best: usize = 0;
    let mut i: usize = 1;
    while i < c.len()
        invariant
            1 <= i <= c.len(),
            best < i,
            forall|j: int| 0 <= j < i ==> #[trigger] c@[j].modified <= c@[best as int].modified,
            forall|j: int| 0 <= j < best ==> #[trigger] c@[j].modified < c@[best as int].modified,
        decreases c.len() - i,
    {
        if c[i].modified > c[best].modified {
            best = i;
        }
        i = i + 1;
    }
    let p = c[best].path.clone();
    assert(is_newest(c@, best as int) && c@[best as int].path@ == p@);
    Some(p)
}

/// One asset of a release.
#[derive(Clone, Debug)]
pub struct ReleaseAsset {
    pub name: String,
    pub download_url: String,
}

/// A release of the language server.
#[derive(Clone, Debug)]
pub struct Release {
    pub version: String,
    pub assets: Vec<ReleaseAsset>,
}

/// The mathematical form of a [`Release`]: its version and the name and
/// download URL of each asset.
pub struct ReleaseView {
    pub version: Seq<char>,
    pub assets: Seq<(Seq<char>, Seq<char>)>,
}

impl View for Release {
    type V = ReleaseView;

    open spec fn view(&self) -> ReleaseView {
        ReleaseView {
            version: self.version@,
            assets: self.assets@.map_values(|a: ReleaseAsset| (a.name@, a.download_url@)),
        }
    }
}

/// `s` without its leading `v`s (`trim_start_matches('v')`).
pub open spec fn strip_leading_v(s: Seq<char>) -> Seq<char>
    decreases s.len(),
{
    if s.len() > 0 && s[0] == 'v' {
        strip_leading_v(s.drop_first())
    } else {
        s
    }
}

/// The name of the operating system in asset names.
pub open spec fn os_label(os: Os) -> Seq<char> {
    match os {
        Os::Mac => "macos"@,
        Os::Linux => "linux"@,
        Os::Windows => "windows"@,
    }
}

/// The name of the architecture in asset names; none for 32-bit x86.
pub open spec fn arch_label(arch: Arch) -> Option<Seq<char>> {
    match arch {
        Arch::Aarch64 => Some("arm64"@),
        Arch::X8664 => Some("x64"@),
        Arch::X86 => None,
    }
}

/// The archive extension of the asset for `os`.
pub open spec fn archive_extension(os: Os) -> Seq<char> {
    match os {
        Os::Windows => "zip"@,
        _ => "tar.gz"@,
    }
}

/// The archive kind of the asset for `os`.
pub open spec fn archive_kind(os: Os) -> ArchiveKind {
    match os {
        Os::Windows => ArchiveKind::Zip,
        _ => ArchiveKind::GzipTar,
    }
}

/// The asset name for a release version on `os`/`arch` (with a known
/// architecture label): `ctrmml-lsp-{version}-{os}-{arch}.{extension}`.
pub open spec fn asset_name_for(version: Seq<char>, os: Os, arch: Seq<char>) -> Seq<char> {
    server_id() + "-"@ + strip_leading_v(version) + "-"@ + os_label(os) + "-"@ + arch + "."@
        + archive_extension(os)
}

/// `Path::new(dir).join(name)` for a relative `name`, as the extension's
/// target (WASI) writes paths: a `/` is put between them unless `dir` is
/// empty or already ends in one.
pub open spec fn join_path(dir: Seq<char>, name: Seq<char>) -> Seq<char> {
    if dir.len() == 0 || dir.last() == '/' {
        dir + name
    } else {
        dir + "/"@ + name
    }
}

/// The index of the first asset named `name`.
pub open spec fn first_asset_named(assets: Seq<(Seq<char>, Seq<char>)>, name: Seq<char>) -> Option<
    int,
>
    decreases assets.len(),
{
    if assets.len() == 0 {
        None
    } else {
        match first_asset_named(assets.drop_last(), name) {
            Some(i) => Some(i),
            None => if assets.last().0 == name {
                Some(assets.len() - 1)
            } else {
                None
            },
        }
    }
}

/// The step the installation waits at, and what it needs done next.
pub enum InstallStep {
    /// Look the server up on the `PATH` of the worktree.
    FindOnPath { remembered: Option<String> },
    /// Check whether the path remembered from before is a file.
    CheckRemembered { path: String },
    /// Find the platform and the newest server installed before.
    LocateCached,
    /// Ask whether an update check is due.
    CheckUpdateDue { os: Os, arch: Arch, cached: String },
    /// Report that an update is being checked for, and fetch the release.
    FetchRelease { os: Os, arch: Arch, cached: Option<String> },
    /// Record the time of this update check, then use the installed server.
    RecordThenUse { cached: String },
    /// Record the time of this update check, then pick the release asset.
    RecordThenSelect { os: Os, arch: Arch, cached: Option<String>, release: Release },
    /// Check whether the release's binary is already a file.
    CheckBinary {
        os: Os,
        cached: Option<String>,
        binary_path: String,
        version_dir: String,
        download_url: String,
    },
    /// Report a download, and download and unpack the asset into `version_dir`.
    Download {
        os: Os,
        cached: Option<String>,
        binary_path: String,
        version_dir: String,
        download_url: String,
        kind: ArchiveKind,
    },
    /// Make the binary executable.
    MakeExecutable { binary_path: String },
    /// Done: the result, and the path to remember for next time, if any.
    Finished { result: Result<String, String>, remember: Option<String> },
}

/// The outcome of the work a step asked for.
pub enum InstallEvent {
    OnPath(Option<String>),
    IsFile(bool),
    Located { os: Os, arch: Arch, cached: Option<String> },
    UpdateDue(bool),
    Fetched(Result<Release, String>),
    Recorded,
    Downloaded(Result<(), String>),
    MadeExecutable(Result<(), String>),
}

/// The mathematical form of an [`InstallStep`].
pub enum StepView {
    FindOnPath { remembered: Option<Seq<char>> },
    CheckRemembered { path: Seq<char> },
    LocateCached,
    CheckUpdateDue { os: Os, arch: Arch, cached: Seq<char> },
    FetchRelease { os: Os, arch: Arch, cached: Option<Seq<char>> },
    RecordThenUse { cached: Seq<char> },
    RecordThenSelect { os: Os, arch: Arch, cached: Option<Seq<char>>, release: ReleaseView },
    CheckBinary {
        os: Os,
        cached: Option<Seq<char>>,
        binary_path: Seq<char>,
        version_dir: Seq<char>,
        download_url: Seq<char>,
    },
    Download {
        os: Os,
        cached: Option<Seq<char>>,
        binary_path: Seq<char>,
        version_dir: Seq<char>,
        download_url: Seq<char>,
        kind: ArchiveKind,
    },
    MakeExecutable { binary_path: Seq<char> },
    Finished { result: Result<Seq<char>, Seq<char>>, remember: Option<Seq<char>> },
}

/// The mathematical form of an [`InstallEvent`].
pub enum EventView {
    OnPath(Option<Seq<char>>),
    IsFile(bool),
    Located { os: Os, arch: Arch, cached: Option<Seq<char>> },
    UpdateDue(bool),
    Fetched(Result<ReleaseView, Seq<char>>),
    Recorded,
    Downloaded(Result<(), Seq<char>>),
    MadeExecutable(Result<(), Seq<char>>),
}

/// The characters of an optional string.
pub open spec fn opt_chars(s: Option<String>) -> Option<Seq<char>> {
    match s {
        Some(t) => Some(t@),
        None => None,
    }
}

impl View for InstallStep {
    type V = StepView;

    open spec fn view(&self) -> StepView {
        match self {
            InstallStep::FindOnPath { remembered } => StepView::FindOnPath {
                remembered: opt_chars(*remembered),
            },
            InstallStep::CheckRemembered { path } => StepView::CheckRemembered { path: path@ },
            InstallStep::LocateCached => StepView::LocateCached,
            InstallStep::CheckUpdateDue { os, arch, cached } => StepView::CheckUpdateDue {
                os: *os,
                arch: *arch,
                cached: cached@,
            },
            InstallStep::FetchRelease { os, arch, cached } => StepView::FetchRelease {
                os: *os,
                arch: *arch,
                cached: opt_chars(*cached),
            },
            InstallStep::RecordThenUse { cached } => StepView::RecordThenUse { cached: cached@ },
            InstallStep::RecordThenSelect { os, arch, cached, release } =>
                StepView::RecordThenSelect {
                os: *os,
                arch: *arch,
                cached: opt_chars(*cached),
                release: release@,
            },
            InstallStep::CheckBinary { os, cached, binary_path, version_dir, download_url } =>
                StepView::CheckBinary {
                os: *os,
                cached: opt_chars(*cached),
                binary_path: binary_path@,
                version_dir: version_dir@,
                download_url: download_url@,
            },
            InstallStep::Download {
                os,
                cached,
                binary_path,
                version_dir,
                download_url,
                kind,
            } => StepView::Download {
                os: *os,
                cached: opt_chars(*cached),
                binary_path: binary_path@,
                version_dir: version_dir@,
                download_url: download_url@,
                kind: *kind,
            },
            InstallStep::MakeExecutable { binary_path } => StepView::MakeExecutable {
                binary_path: binary_path@,
            },
            InstallStep::Finished { result, remember } => StepView::Finished {
                result: match result {
                    Ok(p) => Ok(p@),
                    Err(e) => Err(e@),
                },
                remember: opt_chars(*remember),
            },
        }
    }
}

impl View for InstallEvent {
    type V = EventView;

    open spec fn view(&self) -> EventView {
        match self {
            InstallEvent::OnPath(p) => EventView::OnPath(opt_chars(*p)),
            InstallEvent::IsFile(b) => EventView::IsFile(*b),
            InstallEvent::Located { os, arch, cached } => EventView::Located {
                os: *os,
                arch: *arch,
                cached: opt_chars(*cached),
            },
            InstallEvent::UpdateDue(b) => EventView::UpdateDue(*b),
            InstallEvent::Fetched(r) => EventView::Fetched(
                match r {
                    Ok(rel) => Ok(rel@),
                    Err(e) => Err(e@),
                },
            ),
            InstallEvent::Recorded => EventView::Recorded,
            InstallEvent::Downloaded(r) => EventView::Downloaded(
                match r {
                    Ok(()) => Ok(()),
                    Err(e) => Err(e@),
                },
            ),
            InstallEvent::MadeExecutable(r) => EventView::MadeExecutable(
                match r {
                    Ok(()) => Ok(()),
                    Err(e) => Err(e@),
                },
            ),
        }
    }
}

/// Whether `event` is the outcome of the work that `step` asked for.
pub open spec fn event_fits(step: StepView, event: EventView) -> bool {
    match step {
        StepView::FindOnPath { .. } => event is OnPath,
        StepView::CheckRemembered { .. } => event is IsFile,
        StepView::LocateCached => event is Located,
        StepView::CheckUpdateDue { .. } => event is UpdateDue,
        StepView::FetchRelease { .. } => event is Fetched,
        StepView::RecordThenUse { .. } => event is Recorded,
        StepView::RecordThenSelect { .. } => event is Recorded,
        StepView::CheckBinary { .. } => event is IsFile,
        StepView::Download { .. } => event is Downloaded,
        StepView::MakeExecutable { .. } => event is MadeExecutable,
        StepView::Finished { .. } => false,
    }
}

/// Use the installed binary `cached` and remember it.
pub open spec fn use_cached(cached: Seq<char>) -> StepView {
    StepView::Finished { result: Ok(cached), remember: Some(cached) }
}

/// After the binary is in place: make it executable, except on Windows.
pub open spec fn after_download(os: Os, binary_path: Seq<char>) -> StepView {
    if os == Os::Windows {
        StepView::Finished { result: Ok(binary_path), remember: Some(binary_path) }
    } else {
        StepView::MakeExecutable { binary_path }
    }
}

/// Fall back to the installed binary, or fail with `message`.
pub open spec fn fallback(cached: Option<Seq<char>>, message: Seq<char>) -> StepView {
    match cached {
        Some(c) => use_cached(c),
        None => StepView::Finished { result: Err(message), remember: None },
    }
}

/// Pick the asset of `release` for the platform and go on to check for its
/// binary.
pub open spec fn select_asset(os: Os, arch: Arch, cached: Option<Seq<char>>, release: ReleaseView) -> StepView {
    match arch_label(arch) {
        None => StepView::Finished {
            result: Err("unsupported architecture Architecture::X86"@),
            remember: None,
        },
        Some(a) => {
            let name = asset_name_for(release.version, os, a);
            match first_asset_named(release.assets, name) {
                None => fallback(cached, "no asset found matching "@ + name),
                Some(i) => {
                    let version_dir = server_id() + "-"@ + release.version;
                    StepView::CheckBinary {
                        os,
                        cached,
                        binary_path: join_path(version_dir, bin_name_for(os)),
                        version_dir,
                        download_url: release.assets[i].1,
                    }
                },
            }
        },
    }
}

/// The step after `step` once `event` has come.
pub open spec fn next_step(step: StepView, event: EventView) -> StepView {
    match step {
        StepView::FindOnPath { remembered } => match event {
            EventView::OnPath(Some(p)) => StepView::Finished { result: Ok(p), remember: None },
            _ => match remembered {
                Some(r) => StepView::CheckRemembered { path: r },
                None => StepView::LocateCached,
            },
        },
        StepView::CheckRemembered { path } => match event {
            EventView::IsFile(true) => StepView::Finished { result: Ok(path), remember: None },
            _ => StepView::LocateCached,
        },
        StepView::LocateCached => match event {
            EventView::Located { os, arch, cached } => match cached {
                Some(c) => StepView::CheckUpdateDue { os, arch, cached: c },
                None => StepView::FetchRelease { os, arch, cached: None },
            },
            _ => step,
        },
        StepView::CheckUpdateDue { os, arch, cached } => match event {
            EventView::UpdateDue(false) => use_cached(cached),
            _ => StepView::FetchRelease { os, arch, cached: Some(cached) },
        },
        StepView::FetchRelease { os, arch, cached } => match event {
            EventView::Fetched(Ok(release)) => StepView::RecordThenSelect {
                os,
                arch,
                cached,
                release,
            },
            EventView::Fetched(Err(e)) => match cached {
                Some(c) => StepView::RecordThenUse { cached: c },
                None => StepView::Finished {
                    result: Err("failed to fetch release: "@ + e),
                    remember: None,
                },
            },
            _ => step,
        },
        StepView::RecordThenUse { cached } => use_cached(cached),
        StepView::RecordThenSelect { os, arch, cached, release } => select_asset(
            os,
            arch,
            cached,
            release,
        ),
        StepView::CheckBinary { os, cached, binary_path, version_dir, download_url } =>
            match event {
            EventView::IsFile(true) => after_download(os, binary_path),
            _ => StepView::Download {
                os,
                cached,
                binary_path,
                version_dir,
                download_url,
                kind: archive_kind(os),
            },
        },
        StepView::Download { os, cached, binary_path, .. } => match event {
            EventView::Downloaded(Err(e)) => fallback(
                cached,
                "failed to download language server: "@ + e,
            ),
            _ => after_download(os, binary_path),
        },
        StepView::MakeExecutable { binary_path } => match event {
            EventView::MadeExecutable(Err(e)) => StepView::Finished {
                result: Err("failed to make binary executable: "@ + e),
                remember: None,
            },
            _ => StepView::Finished { result: Ok(binary_path), remember: Some(binary_path) },
        },
        StepView::Finished { .. } => step,
    }
}

/// The first step: look for the server, knowing the path remembered from
/// an earlier installation.
pub fn install_start(remembered: Option<String>) -> (step: InstallStep)
    ensures
        step@ == (StepView::FindOnPath { remembered: opt_chars(remembered) }),
{
    InstallStep::FindOnPath { remembered }
}

/// `a` followed by `b`.
pub fn join(a: &str, b: &str) -> (r: String)
    ensures
        r@ == a@ + b@,
{
    let mut s = owned(a);
    s.append(b);
    s
}

/// Joins a relative file name onto a folder, with one `/` between them.
pub fn path_join(dir: &str, name: &str) -> (r: String)
    ensures
        r@ == join_path(dir@, name@),
{
    let chars = char_vec(dir);
    let mut r = owned(dir);
    if !(chars.len() == 0 || chars[chars.len() - 1] == '/') {
        r.append("/");
    }
    r.append(name);
    r
}

/// `version.trim_start_matches('v')`.
pub fn without_leading_v(version: &str) -> (r: String)
    ensures
        r@ == strip_leading_v(version@),
{
    let chars = char_vec(version);
    let mut i: usize = 0;
    assert(chars@.skip(0) =~= chars@);
    while i < chars.len() && chars[i] == 'v'
        invariant
            i <= chars.len(),
            chars@ == version@,
            strip_leading_v(chars@.skip(i as int)) == strip_leading_v(version@),
        decreases chars.len() - i,
    {
        assert(chars@.skip(i as int).drop_first() =~= chars@.skip(i + 1));
        i = i + 1;
    }
    let r = string_from_chars(&chars, i, chars.len());
    assert(r@ =~= chars@.skip(i as int));
    r
}

/// The asset name for `version` on `os`, for an architecture label.
fn asset_name(version: &str, os: Os, arch: &str) -> (r: String)
    ensures
        r@ == asset_name_for(version@, os, arch@),
{
    let os_text = match os {
        Os::Mac => "macos",
        Os::Linux => "linux",
        Os::Windows => "windows",
    };
    let ext = match os {
        Os::Windows => "zip",
        _ => "tar.gz",
    };
    let mut s = owned("ctrmml-lsp");
    s.append("-");
    let v = without_leading_v(version);
    s.append(v.as_str());
    s.append("-");
    s.append(os_text);
    s.append("-");
    s.append(arch);
    s.append(".");
    s.append(ext);
    s
}

/// The index of the first asset whose name is `name`.
fn find_asset(assets: &Vec<ReleaseAsset>, name: &str) -> (r: Option<usize>)
    ensures
        match r {
            Some(i) => i < assets@.len() && first_asset_named(
                assets@.map_values(|a: ReleaseAsset| (a.name@, a.download_url@)),
                name@,
            ) == Some(i as int),
            None => first_asset_named(
                assets@.map_values(|a: ReleaseAsset| (a.name@, a.download_url@)),
                name@,
            ) is None,
        },
{
    let ghost all = assets@.map_values(|a: ReleaseAsset| (a.name@, a.download_url@));
    let mut i: usize = 0;
    assert(all.take(0) =~= Seq::<(Seq<char>, Seq<char>)>::empty());
    while i < assets.len()
        invariant
            i <= assets@.len(),
            all == assets@.map_values(|a: ReleaseAsset| (a.name@, a.download_url@)),
            first_asset_named(all.take(i as int), name@) is None,
        decreases assets.len() - i,
    {
        assert(all.take(i + 1).drop_last() =~= all.take(i as int));
        if str_equal(assets[i].name.as_str(), name) {
            proof {
                lemma_first_asset_prefix(all, i + 1, name@);
            }
            return Some(i);
        }
        i = i + 1;
    }
    assert(all.take(i as int) =~= all);
    None
}

/// The first match within a prefix is the first match of the whole.
proof fn lemma_first_asset_prefix(all: Seq<(Seq<char>, Seq<char>)>, k: int, name: Seq<char>)
    requires
        0 <= k <= all.len(),
        first_asset_named(all.take(k), name) is Some,
    ensures
        first_asset_named(all, name) == first_asset_named(all.take(k), name),
    decreases all.len() - k,
{
    if k < all.len() {
        assert(all.take(k + 1).drop_last() =~= all.take(k));
        lemma_first_asset_prefix(all, k + 1, name);
    } else {
        assert(all.take(k) =~= all);
    }
}

/// Use the installed binary and remember it.
fn finish_with_cached(cached: String) -> (step: InstallStep)
    ensures
        step@ == use_cached(cached@),
{
    InstallStep::Finished { result: Ok(cached.clone()), remember: Some(cached) }
}

/// Fall back to the installed binary, or fail with `message`.
fn fall_back(cached: Option<String>, message: String) -> (step: InstallStep)
    ensures
        step@ == fallback(opt_chars(cached), message@),
{
    match cached {
        Some(c) => finish_with_cached(c),
        None => InstallStep::Finished { result: Err(message), remember: None },
    }
}

/// After the binary is in place.
fn binary_in_place(os: Os, binary_path: String) -> (step: InstallStep)
    ensures
        step@ == after_download(os, binary_path@),
{
    match os {
        Os::Windows => InstallStep::Finished {
            result: Ok(binary_path.clone()),
            remember: Some(binary_path),
        },
        _ => InstallStep::MakeExecutable { binary_path },
    }
}

/// Picks the release asset for the platform.
fn select(os: Os, arch: Arch, cached: Option<String>, release: Release) -> (step: InstallStep)
    ensures
        step@ == select_asset(os, arch, opt_chars(cached), release@),
{
    let arch_text = match arch {
        Arch::Aarch64 => "arm64",
        Arch::X8664 => "x64",
        Arch::X86 => {
            return InstallStep::Finished {
                result: Err(owned("unsupported architecture Architecture::X86")),
                remember: None,
            };
        },
    };
    let name = asset_name(release.version.as_str(), os, arch_text);
    match find_asset(&release.assets, name.as_str()) {
        None => {
            let message = join("no asset found matching ", name.as_str());
            fall_back(cached, message)
        },
        Some(i) => {
            let mut version_dir = join("ctrmml-lsp", "-");
            version_dir.append(release.version.as_str());
            let bin = bin_name(os);
            let binary_path = path_join(version_dir.as_str(), bin.as_str());
            let download_url = release.assets[i].download_url.clone();
            assert(release@.assets[i as int].1 == download_url@);
            assert(arch_label(arch) == Some(arch_text@));
            InstallStep::CheckBinary { os, cached, binary_path, version_dir, download_url }
        },
    }
}

/// Takes the installation one step further.
pub fn install_step(step: InstallStep, event: InstallEvent) -> (next: InstallStep)
    requires
        event_fits(step@, event@),
    ensures
        next@ == next_step(step@, event@),
{
    match step {
        InstallStep::FindOnPath { remembered } => match event {
            InstallEvent::OnPath(Some(p)) => InstallStep::Finished { result: Ok(p), remember: None },
            _ => match remembered {
                Some(r) => InstallStep::CheckRemembered { path: r },
                None => InstallStep::LocateCached,
            },
        },
        InstallStep::CheckRemembered { path } => match event {
            InstallEvent::IsFile(true) => InstallStep::Finished { result: Ok(path), remember: None },
            _ => InstallStep::LocateCached,
        },
        InstallStep::LocateCached => match event {
            InstallEvent::Located { os, arch, cached } => match cached {
                Some(c) => InstallStep::CheckUpdateDue { os, arch, cached: c },
                None => InstallStep::FetchRelease { os, arch, cached: None },
            },
            _ => InstallStep::LocateCached,
        },
        InstallStep::CheckUpdateDue { os, arch, cached } => match event {
            InstallEvent::UpdateDue(false) => finish_with_cached(cached),
            _ => InstallStep::FetchRelease { os, arch, cached: Some(cached) },
        },
        InstallStep::FetchRelease { os, arch, cached } => match event {
            InstallEvent::Fetched(Ok(release)) => InstallStep::RecordThenSelect {
                os,
                arch,
                cached,
                release,
            },
            InstallEvent::Fetched(Err(e)) => match cached {
                Some(c) => InstallStep::RecordThenUse { cached: c },
                None => InstallStep::Finished {
                    result: Err(join("failed to fetch release: ", e.as_str())),
                    remember: None,
                },
            },
            _ => InstallStep::FetchRelease { os, arch, cached },
        },
        InstallStep::RecordThenUse { cached } => finish_with_cached(cached),
        InstallStep::RecordThenSelect { os, arch, cached, release } => select(
            os,
            arch,
            cached,
            release,
        ),
        InstallStep::CheckBinary { os, cached, binary_path, version_dir, download_url } =>
            match event {
            InstallEvent::IsFile(true) => binary_in_place(os, binary_path),
            _ => {
                let kind = match os {
                    Os::Windows => ArchiveKind::Zip,
                    _ => ArchiveKind::GzipTar,
                };
                InstallStep::Download { os, cached, binary_path, version_dir, download_url, kind }
            },
        },
        InstallStep::Download { os, cached, binary_path, .. } => match event {
            InstallEvent::Downloaded(Err(e)) => {
                let message = join("failed to download language server: ", e.as_str());
                fall_back(cached, message)
            },
            _ => binary_in_place(os, binary_path),
        },
        InstallStep::MakeExecutable { binary_path } => match event {
            InstallEvent::MadeExecutable(Err(e)) => InstallStep::Finished {
                result: Err(join("failed to make binary executable: ", e.as_str())),
                remember: None,
            },
            _ => InstallStep::Finished {
                result: Ok(binary_path.clone()),
                remember: Some(binary_path),
            },
        },
        InstallStep::Finished { result, remember } => InstallStep::Finished { result, remember },
    }
}

/// A command that starts the language server.
pub struct LaunchCommand {
    pub command: String,
    pub args: Vec<String>,
    pub env: Vec<(String, String)>,
}

/// How the server is started: with the binary the user's settings name, or
/// with one still to be found or installed.
pub enum LaunchPlan {
    Ready(LaunchCommand),
    NeedsBinary { args: Vec<String>, env: Vec<(String, String)> },
}

/// The arguments from the settings, or none.
pub open spec fn args_or_empty(args: Option<Vec<String>>) -> Seq<String> {
    match args {
        Some(a) => a@,
        None => seq![],
    }
}

/// The environment from the settings, or none.
pub open spec fn env_or_empty(env: Option<Vec<(String, String)>>) -> Seq<(String, String)> {
    match env {
        Some(e) => e@,
        None => seq![],
    }
}

/// Starts from the binary settings: a configured binary path is used as it
/// stands, with the configured arguments and environment (none when not
/// configured).
pub fn plan_launch(
    path: Option<String>,
    args: Option<Vec<String>>,
    env: Option<Vec<(String, String)>>,
) -> (plan: LaunchPlan)
    ensures
        match plan {
            LaunchPlan::Ready(c) => path == Some(c.command) && c.args@ == args_or_empty(args)
                && c.env@ == env_or_empty(env),
            LaunchPlan::NeedsBinary { args: a, env: e } => path is None && a@ == args_or_empty(
                args,
            ) && e@ == env_or_empty(env),
        },
{
    let args = match args {
        Some(a) => a,
        None => Vec::new(),
    };
    let env = match env {
        Some(e) => e,
        None => Vec::new(),
    };
    match path {
        Some(command) => LaunchPlan::Ready(LaunchCommand { command, args, env }),
        None => LaunchPlan::NeedsBinary { args, env },
    }
}

/// A server on the worktree's `PATH` is used as it is, and nothing is
/// remembered, fetched or downloaded.
pub proof fn law_path_binary_first(remembered: Option<Seq<char>>, path: Seq<char>)
    ensures
        next_step(StepView::FindOnPath { remembered }, EventView::OnPath(Some(path)))
            == (StepView::Finished { result: Ok(path), remember: None }),
{
}

/// With a server installed before, a failed release fetch, a release
/// without the platform's asset and a failed download all end with that
/// server, which is remembered.
pub proof fn law_falls_back_to_installed(
    os: Os,
    arch: Arch,
    cached: Seq<char>,
    error: Seq<char>,
    release: ReleaseView,
    binary_path: Seq<char>,
    version_dir: Seq<char>,
    download_url: Seq<char>,
    kind: ArchiveKind,
)
    ensures
        next_step(
            next_step(
                StepView::FetchRelease { os, arch, cached: Some(cached) },
                EventView::Fetched(Err(error)),
            ),
            EventView::Recorded,
        ) == use_cached(cached),
        arch_label(arch) matches Some(a) && first_asset_named(
            release.assets,
            asset_name_for(release.version, os, a),
        ) is None ==> select_asset(os, arch, Some(cached), release) == use_cached(cached),
        next_step(
            StepView::Download {
                os,
                cached: Some(cached),
                binary_path,
                version_dir,
                download_url,
                kind,
            },
            EventView::Downloaded(Err(error)),
        ) == use_cached(cached),
{
}

/// While no update check is due, the server installed before is used
/// without fetching anything.
pub proof fn law_no_fetch_while_not_due(os: Os, arch: Arch, cached: Seq<char>)
    ensures
        next_step(
            next_step(
                StepView::LocateCached,
                EventView::Located { os, arch, cached: Some(cached) },
            ),
            EventView::UpdateDue(false),
        ) == use_cached(cached),
{
}

/// The step reached from `step` after `events`, one by one.
pub open spec fn run(step: StepView, events: Seq<EventView>) -> StepView
    decreases events.len(),
{
    if events.len() == 0 {
        step
    } else {
        run(next_step(step, events[0]), events.drop_first())
    }
}

/// Whether each of `events` is the outcome of the work the step before it
/// asked for.
pub open spec fn run_fits(step: StepView, events: Seq<EventView>) -> bool
    decreases events.len(),
{
    events.len() == 0 || (event_fits(step, events[0]) && run_fits(
        next_step(step, events[0]),
        events.drop_first(),
    ))
}

/// The errors that give way to a binary installed before: a failed release
/// fetch, a release without the platform's asset, a failed download.
pub open spec fn fallback_error(e: Seq<char>) -> bool {
    ||| starts_with(e, "failed to fetch release: "@)
    ||| starts_with(e, "no asset found matching "@)
    ||| starts_with(e, "failed to download language server: "@)
}

/// Whether one of `events` reported that no binary was installed before.
pub open spec fn located_none(events: Seq<EventView>) -> bool {
    exists|k: int|
        0 <= k < events.len() && (#[trigger] events[k] matches EventView::Located {
            cached: None,
            ..
        })
}

/// The binary a step carries as installed before, for the steps that carry
/// one.
pub open spec fn carried(step: StepView) -> Option<Option<Seq<char>>> {
    match step {
        StepView::FetchRelease { cached, .. } => Some(cached),
        StepView::RecordThenSelect { cached, .. } => Some(cached),
        StepView::CheckBinary { cached, .. } => Some(cached),
        StepView::Download { cached, .. } => Some(cached),
        _ => None,
    }
}

/// What holds of each step on the way, given whether the lookup has found
/// no installed binary (`seen`).
pub open spec fn run_inv(step: StepView, seen: bool) -> bool {
    &&& (carried(step) == Some(None::<Seq<char>>) ==> seen)
    &&& match step {
        StepView::Finished { result: Err(e), remember } => remember is None && (fallback_error(
            e,
        ) ==> seen),
        _ => true,
    }
}

/// A literal followed by anything begins with that literal.
proof fn lemma_starts_with_concat(a: Seq<char>, x: Seq<char>)
    ensures
        starts_with(a + x, a),
{
    assert((a + x).take(a.len() as int) =~= a);
}

/// The two errors that are no fallback errors.
proof fn lemma_not_fallback(y: Seq<char>)
    ensures
        !fallback_error("failed to make binary executable: "@ + y),
        !fallback_error("unsupported architecture Architecture::X86"@),
{
    reveal_strlit("failed to make binary executable: ");
    reveal_strlit("unsupported architecture Architecture::X86");
    reveal_strlit("failed to fetch release: ");
    reveal_strlit("no asset found matching ");
    reveal_strlit("failed to download language server: ");
    let m = "failed to make binary executable: "@ + y;
    let u = "unsupported architecture Architecture::X86"@;
    let f = "failed to fetch release: "@;
    let n = "no asset found matching "@;
    let d = "failed to download language server: "@;
    if starts_with(m, f) {
        assert(m.take(f.len() as int)[10] == m[10]);
    }
    if starts_with(m, n) {
        assert(m.take(n.len() as int)[0] == m[0]);
    }
    if starts_with(m, d) {
        assert(m.take(d.len() as int)[10] == m[10]);
    }
    if starts_with(u, f) {
        assert(u.take(f.len() as int)[0] == u[0]);
    }
    if starts_with(u, n) {
        assert(u.take(n.len() as int)[0] == u[0]);
    }
    if starts_with(u, d) {
        assert(u.take(d.len() as int)[0] == u[0]);
    }
}

/// One step keeps the invariant.
proof fn lemma_step_inv(step: StepView, event: EventView, seen: bool)
    requires
        event_fits(step, event),
        run_inv(step, seen),
    ensures
        run_inv(
            next_step(step, event),
            seen || (event matches EventView::Located { cached: None, .. }),
        ),
{
    let next = next_step(step, event);
    match step {
        StepView::FetchRelease { cached, .. } => {
            if let EventView::Fetched(Err(e)) = event {
                lemma_starts_with_concat("failed to fetch release: "@, e);
            }
        },
        StepView::RecordThenSelect { os, arch, cached, release } => {
            lemma_not_fallback(seq![]);
            if let Some(a) = arch_label(arch) {
                let name = asset_name_for(release.version, os, a);
                lemma_starts_with_concat("no asset found matching "@, name);
            }
        },
        StepView::Download { cached, .. } => {
            if let EventView::Downloaded(Err(e)) = event {
                lemma_starts_with_concat("failed to download language server: "@, e);
            }
        },
        StepView::MakeExecutable { .. } => {
            if let EventView::MadeExecutable(Err(e)) = event {
                lemma_not_fallback(e);
            }
        },
        _ => {},
    }
}

/// The invariant holds to the end of a run.
proof fn lemma_run_inv(step: StepView, events: Seq<EventView>, seen: bool)
    requires
        run_fits(step, events),
        run_inv(step, seen),
    ensures
        run_inv(run(step, events), seen || located_none(events)),
    decreases events.len(),
{
    if events.len() > 0 {
        let e0 = events[0];
        let seen1 = seen || (e0 matches EventView::Located { cached: None, .. });
        lemma_step_inv(step, e0, seen);
        lemma_run_inv(next_step(step, e0), events.drop_first(), seen1);
        let rest = events.drop_first();
        if located_none(rest) {
            let k = choose|k: int|
                0 <= k < rest.len() && (#[trigger] rest[k] matches EventView::Located {
                    cached: None,
                    ..
                });
            assert(events[k + 1] == rest[k]);
        }
        if e0 matches EventView::Located { cached: None, .. } {
            assert(events[0] == e0);
        }
        assert(seen1 || located_none(rest) ==> seen || located_none(events));
    }
}

/// An installation that ends in an error leaves the remembered path as it
/// was; and it ends in a fetch, asset or download error only when no binary
/// was installed before.
pub proof fn law_failed_install_keeps_remembered(
    remembered: Option<Seq<char>>,
    events: Seq<EventView>,
)
    requires
        run_fits(StepView::FindOnPath { remembered }, events),
    ensures
        match run(StepView::FindOnPath { remembered }, events) {
            StepView::Finished { result: Err(e), remember } => remember is None && (fallback_error(
                e,
            ) ==> located_none(events)),
            _ => true,
        },
{
    lemma_run_inv(StepView::FindOnPath { remembered }, events, false);
}

/// Once the binary is in place, found as a file or just downloaded, it is
/// made executable before use on every system but Windows; on Windows it is
/// used and remembered at once.
pub proof fn law_binary_made_executable(
    os: Os,
    cached: Option<Seq<char>>,
    binary_path: Seq<char>,
    version_dir: Seq<char>,
    download_url: Seq<char>,
    kind: ArchiveKind,
)
    ensures
        ({
            let found = next_step(
                StepView::CheckBinary { os, cached, binary_path, version_dir, download_url },
                EventView::IsFile(true),
            );
            let downloaded = next_step(
                StepView::Download { os, cached, binary_path, version_dir, download_url, kind },
                EventView::Downloaded(Ok(())),
            );
            if os != Os::Windows {
                &&& found == (StepView::MakeExecutable { binary_path })
                &&& downloaded == (StepView::MakeExecutable { binary_path })
            } else {
                &&& found == (StepView::Finished {
                    result: Ok(binary_path),
                    remember: Some(binary_path),
                })
                &&& downloaded == (StepView::Finished {
                    result: Ok(binary_path),
                    remember: Some(binary_path),
                })
            }
        }),
{
}

} // verus!
