use zed_ctrmml::install::{
    path_join, bin_name, install_start, install_step, is_server_dir_name, newest_binary, plan_launch, Arch,
    ArchiveKind, CachedBinary, InstallEvent, InstallStep, LaunchPlan, Os, Release, ReleaseAsset,
};

fn finished(step: &InstallStep) -> Option<(Result<String, String>, Option<String>)> {
    match step {
        InstallStep::Finished { result, remember } => Some((result.clone(), remember.clone())),
        _ => None,
    }
}

fn release(version: &str, names: &[&str]) -> Release {
    Release {
        version: version.to_string(),
        assets: names
            .iter()
            .map(|n| ReleaseAsset { name: n.to_string(), download_url: format!("https://dl/{n}") })
            .collect(),
    }
}

#[test]
fn server_on_path_is_used() {
    let s = install_start(Some("old".to_string()));
    let s = install_step(s, InstallEvent::OnPath(Some("/usr/bin/ctrmml-lsp".to_string())));
    assert_eq!(finished(&s), Some((Ok("/usr/bin/ctrmml-lsp".to_string()), None)));
}

#[test]
fn remembered_binary_is_used_when_it_is_a_file() {
    let s = install_start(Some("dir/ctrmml-lsp".to_string()));
    let s = install_step(s, InstallEvent::OnPath(None));
    assert!(matches!(s, InstallStep::CheckRemembered { .. }));
    let s = install_step(s, InstallEvent::IsFile(true));
    assert_eq!(finished(&s), Some((Ok("dir/ctrmml-lsp".to_string()), None)));
}

#[test]
fn installed_binary_used_while_no_check_is_due() {
    let s = install_start(None);
    let s = install_step(s, InstallEvent::OnPath(None));
    assert!(matches!(s, InstallStep::LocateCached));
    let s = install_step(
        s,
        InstallEvent::Located { os: Os::Linux, arch: Arch::X8664, cached: Some("c".to_string()) },
    );
    assert!(matches!(s, InstallStep::CheckUpdateDue { .. }));
    let s = install_step(s, InstallEvent::UpdateDue(false));
    assert_eq!(finished(&s), Some((Ok("c".to_string()), Some("c".to_string()))));
}

#[test]
fn fresh_install_on_linux() {
    let s = install_step(
        InstallStep::LocateCached,
        InstallEvent::Located { os: Os::Linux, arch: Arch::X8664, cached: None },
    );
    assert!(matches!(s, InstallStep::FetchRelease { .. }));
    let rel = release("v0.6.1", &["ctrmml-lsp-0.6.1-macos-arm64.tar.gz", "ctrmml-lsp-0.6.1-linux-x64.tar.gz"]);
    let s = install_step(s, InstallEvent::Fetched(Ok(rel)));
    assert!(matches!(s, InstallStep::RecordThenSelect { .. }));
    let s = install_step(s, InstallEvent::Recorded);
    match &s {
        InstallStep::CheckBinary { binary_path, version_dir, download_url, .. } => {
            assert_eq!(binary_path, "ctrmml-lsp-v0.6.1/ctrmml-lsp");
            assert_eq!(version_dir, "ctrmml-lsp-v0.6.1");
            assert_eq!(download_url, "https://dl/ctrmml-lsp-0.6.1-linux-x64.tar.gz");
        }
        _ => panic!("expected a binary check"),
    }
    let s = install_step(s, InstallEvent::IsFile(false));
    match &s {
        InstallStep::Download { kind, .. } => assert_eq!(*kind, ArchiveKind::GzipTar),
        _ => panic!("expected a download"),
    }
    let s = install_step(s, InstallEvent::Downloaded(Ok(())));
    assert!(matches!(s, InstallStep::MakeExecutable { .. }));
    let s = install_step(s, InstallEvent::MadeExecutable(Ok(())));
    let path = "ctrmml-lsp-v0.6.1/ctrmml-lsp".to_string();
    assert_eq!(finished(&s), Some((Ok(path.clone()), Some(path))));
}

#[test]
fn windows_install_skips_chmod() {
    let s = InstallStep::RecordThenSelect {
        os: Os::Windows,
        arch: Arch::Aarch64,
        cached: None,
        release: release("0.7.0", &["ctrmml-lsp-0.7.0-windows-arm64.zip"]),
    };
    let s = install_step(s, InstallEvent::Recorded);
    let s = install_step(s, InstallEvent::IsFile(true));
    let path = "ctrmml-lsp-0.7.0/ctrmml-lsp.exe".to_string();
    assert_eq!(finished(&s), Some((Ok(path.clone()), Some(path))));
}

#[test]
fn failures_fall_back_or_report() {
    let fetch = |cached: Option<&str>| InstallStep::FetchRelease {
        os: Os::Mac,
        arch: Arch::Aarch64,
        cached: cached.map(|c| c.to_string()),
    };
    let s = install_step(fetch(None), InstallEvent::Fetched(Err("offline".to_string())));
    assert_eq!(finished(&s), Some((Err("failed to fetch release: offline".to_string()), None)));
    let s = install_step(fetch(Some("c")), InstallEvent::Fetched(Err("offline".to_string())));
    assert!(matches!(s, InstallStep::RecordThenUse { .. }));
    let s = install_step(s, InstallEvent::Recorded);
    assert_eq!(finished(&s), Some((Ok("c".to_string()), Some("c".to_string()))));

    let s = install_step(fetch(None), InstallEvent::Fetched(Ok(release("v1", &[]))));
    let s = install_step(s, InstallEvent::Recorded);
    assert_eq!(
        finished(&s),
        Some((Err("no asset found matching ctrmml-lsp-1-macos-arm64.tar.gz".to_string()), None))
    );

    let s = InstallStep::RecordThenSelect {
        os: Os::Linux,
        arch: Arch::X86,
        cached: Some("c".to_string()),
        release: release("1", &[]),
    };
    let s = install_step(s, InstallEvent::Recorded);
    assert_eq!(
        finished(&s),
        Some((Err("unsupported architecture Architecture::X86".to_string()), None))
    );

    let s = InstallStep::Download {
        os: Os::Linux,
        cached: None,
        binary_path: "p".to_string(),
        version_dir: "d".to_string(),
        download_url: "u".to_string(),
        kind: ArchiveKind::GzipTar,
    };
    let s = install_step(s, InstallEvent::Downloaded(Err("404".to_string())));
    assert_eq!(
        finished(&s),
        Some((Err("failed to download language server: 404".to_string()), None))
    );

    let s = InstallStep::MakeExecutable { binary_path: "p".to_string() };
    let s = install_step(s, InstallEvent::MadeExecutable(Err("denied".to_string())));
    assert_eq!(
        finished(&s),
        Some((Err("failed to make binary executable: denied".to_string()), None))
    );
}

#[test]
fn binary_names_and_dirs() {
    assert_eq!(bin_name(Os::Windows), "ctrmml-lsp.exe");
    assert_eq!(bin_name(Os::Mac), "ctrmml-lsp");
    assert!(is_server_dir_name("ctrmml-lsp-v0.6.1"));
    assert!(!is_server_dir_name("other"));
}

#[test]
fn newest_binary_first_of_latest() {
    let c = vec![
        CachedBinary { modified: 5, path: "a".to_string() },
        CachedBinary { modified: 9, path: "b".to_string() },
        CachedBinary { modified: 9, path: "c".to_string() },
        CachedBinary { modified: -3, path: "d".to_string() },
    ];
    assert_eq!(newest_binary(&c), Some("b".to_string()));
    assert_eq!(newest_binary(&Vec::new()), None);
}

#[test]
fn configured_binary_path_wins() {
    match plan_launch(Some("/bin/x".to_string()), Some(vec!["--v".to_string()]), None) {
        LaunchPlan::Ready(c) => {
            assert_eq!(c.command, "/bin/x");
            assert_eq!(c.args, vec!["--v".to_string()]);
            assert!(c.env.is_empty());
        }
        LaunchPlan::NeedsBinary { .. } => panic!("expected the configured binary"),
    }
    match plan_launch(None, None, Some(vec![("K".to_string(), "V".to_string())])) {
        LaunchPlan::NeedsBinary { args, env } => {
            assert!(args.is_empty());
            assert_eq!(env, vec![("K".to_string(), "V".to_string())]);
        }
        LaunchPlan::Ready(_) => panic!("expected a binary to be found"),
    }
}

#[test]
fn binary_path_joins_like_path_join() {
    assert_eq!(path_join("ctrmml-lsp-v1", "ctrmml-lsp"), "ctrmml-lsp-v1/ctrmml-lsp");
    assert_eq!(path_join("ctrmml-lsp-v1/", "ctrmml-lsp"), "ctrmml-lsp-v1/ctrmml-lsp");
    assert_eq!(path_join("", "ctrmml-lsp"), "ctrmml-lsp");
    let s = InstallStep::RecordThenSelect {
        os: Os::Linux,
        arch: Arch::X8664,
        cached: None,
        release: release("v2/", &["ctrmml-lsp-2/-linux-x64.tar.gz"]),
    };
    match install_step(s, InstallEvent::Recorded) {
        InstallStep::CheckBinary { binary_path, version_dir, .. } => {
            assert_eq!(version_dir, "ctrmml-lsp-v2/");
            assert_eq!(binary_path, "ctrmml-lsp-v2/ctrmml-lsp");
            assert_eq!(
                binary_path,
                std::path::Path::new(&version_dir).join("ctrmml-lsp").to_string_lossy()
            );
        }
        _ => panic!("expected a binary check"),
    }
}
