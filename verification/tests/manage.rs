use rush::manage::{choose_service, ServiceKind};
use rush::crypto::hex;
use rush::crypto::sha256;
use rush::manage::{
    asset_url, checksum_error_text, digest_hex, download_attempts, expected_checksum, installed_path,
    openrc_script, path_dirs, repo_name, systemd_unit, update_temp_paths, verify_checksum, version_from_output,
    key_env_file, ChecksumError, DEFAULT_REPO, INSTALL_PATH, KEY_ENV_FILE, LINUX_ASSET, SUMS_ASSET,
};

const SUMS: &str = "0f1e2d  rush-linux\r\nabcdef *dist/rush.exe\n\nbad-line\n1234  other/rush-linux\n";

#[test]
fn repo_and_urls() {
    assert_eq!(repo_name(None), DEFAULT_REPO);
    assert_eq!(repo_name(Some(String::new())), "FolderFile/rush");
    assert_eq!(repo_name(Some("me/fork".to_string())), "me/fork");
    assert_eq!(
        asset_url(DEFAULT_REPO, LINUX_ASSET),
        "https://github.com/FolderFile/rush/releases/latest/download/rush-linux"
    );
    assert_eq!(SUMS_ASSET, "SHA256SUMS");
}

#[test]
fn download_order() {
    let plain = download_attempts("U", "D", None, "R", "A");
    let argv: Vec<Vec<String>> = plain.iter().map(|a| a.argv.clone()).collect();
    assert_eq!(
        argv,
        vec![
            vec!["curl", "-fsSL", "U", "-o", "D"],
            vec!["wget", "-qO", "D", "U"],
            vec!["gh", "release", "download", "--repo", "R", "--pattern", "A", "--output", "D"],
        ]
        .into_iter()
        .map(|v| v.into_iter().map(String::from).collect::<Vec<String>>())
        .collect::<Vec<_>>()
    );
    assert_eq!(plain.iter().map(|a| a.remove_dest_first).collect::<Vec<_>>(), vec![false, false, true]);
    let with_token = download_attempts("U", "D", Some("T"), "R", "A");
    assert_eq!(with_token.len(), 4);
    assert_eq!(with_token[2].argv[3], "Authorization: token T");
    assert_eq!(download_attempts("U", "D", Some(""), "R", "A").len(), 3);
}

#[test]
fn installed_binary_location() {
    assert_eq!(installed_path(Some("/usr/bin/rush".to_string()), false), Some("/usr/bin/rush".to_string()));
    assert_eq!(
        installed_path(Some("/usr/local/bin/rush".to_string()), false),
        Some("/usr/local/bin/rush".to_string())
    );
    // Paths compare by component, not by text.
    assert_eq!(installed_path(Some("/usr/binx/rush".to_string()), false), None);
    assert_eq!(installed_path(Some("/home/me/rush".to_string()), true), Some(INSTALL_PATH.to_string()));
    assert_eq!(installed_path(None, false), None);
}

#[test]
fn checksum_lookup() {
    assert_eq!(expected_checksum(SUMS, "rush-linux"), Some("0f1e2d".to_string()));
    assert_eq!(expected_checksum(SUMS, "rush.exe"), Some("abcdef".to_string()));
    assert_eq!(expected_checksum(SUMS, "missing"), None);
    assert_eq!(expected_checksum("", "rush-linux"), None);
}

#[test]
fn checksum_verification() {
    assert!(matches!(verify_checksum(SUMS, "rush-linux", "0f1e2d"), Ok(())));
    let missing = verify_checksum(SUMS, "nothing", "00");
    assert!(matches!(&missing, Err(ChecksumError::NoEntry(a)) if a == "nothing"));
    assert_eq!(checksum_error_text(&missing.unwrap_err()), "SHA256SUMS has no entry for nothing");
    let wrong = verify_checksum(SUMS, "rush-linux", "ffff");
    assert_eq!(
        checksum_error_text(&wrong.unwrap_err()),
        "checksum mismatch for rush-linux: expected 0f1e2d, got ffff"
    );
}

#[test]
fn downloaded_bytes_against_their_listing() {
    let bytes = b"#!/bin/true\n".to_vec();
    let digest = digest_hex(&bytes);
    assert_eq!(digest, hex(&sha256(&bytes)).into_iter().collect::<String>());
    assert_eq!(digest.len(), 64);
    let sums = format!("{}  rush-linux\n", digest);
    assert!(matches!(verify_checksum(&sums, "rush-linux", &digest), Ok(())));
    assert!(verify_checksum(&sums, "rush-linux", &digest_hex(b"other")).is_err());
}

#[test]
fn version_of_new_binary() {
    assert_eq!(version_from_output("rush 1.0.0\n"), "1.0.0");
    assert_eq!(version_from_output("  rush rush 2.1\n"), "2.1");
    assert_eq!(version_from_output("1.0.0"), "1.0.0");
    assert_eq!(version_from_output(""), "");
}

#[test]
fn temp_paths() {
    assert_eq!(
        update_temp_paths(4242),
        ("/tmp/rush.update.4242".to_string(), "/tmp/rush.sums.4242".to_string())
    );
}

#[test]
fn service_files() {
    let unit = systemd_unit("/usr/bin/rush", 8080, None);
    assert!(unit.contains("\nExecStart=/usr/bin/rush --server -p 8080\n"));
    assert!(unit.starts_with("[Unit]\n"));
    assert!(unit.ends_with("[Install]\nWantedBy=multi-user.target\n"));
    assert!(!unit.contains("EnvironmentFile"));
    let rc = openrc_script("/usr/bin/rush", 9000, None);
    assert!(rc.starts_with("#!/sbin/openrc-run\n"));
    assert!(rc.contains("\ncommand=/usr/bin/rush\ncommand_args=\"--server -p 9000\"\n"));
    assert!(!rc.contains("RUSH_KEY"));
}

#[test]
fn services_carry_the_token() {
    let unit = systemd_unit("/usr/bin/rush", 8080, Some(KEY_ENV_FILE));
    assert!(unit.contains("\nEnvironment=TERM=xterm-256color\nEnvironmentFile=/etc/rush.env\nExecStart=/usr/bin/rush --server -p 8080\n"));
    assert_eq!(key_env_file("s3cret"), "RUSH_KEY='s3cret'\n");
    assert_eq!(key_env_file("it's $x"), "RUSH_KEY='it'\\''s $x'\n");
    let rc = openrc_script("/usr/bin/rush", 9000, Some("a b'c"));
    assert!(rc.ends_with("export TERM=xterm-256color\nexport RUSH_KEY='a b'\\''c'\n"));
}

#[test]
fn path_directories() {
    assert_eq!(path_dirs("/usr/bin:/bin"), vec!["/usr/bin".to_string(), "/bin".to_string()]);
    assert_eq!(path_dirs(""), vec![String::new()]);
    assert_eq!(path_dirs("a::b"), vec!["a".to_string(), String::new(), "b".to_string()]);
}

#[test]
fn service_manager_choice() {
    assert_eq!(choose_service(true, true, true), Some(ServiceKind::Systemd));
    assert_eq!(choose_service(true, false, true), Some(ServiceKind::OpenRc));
    assert_eq!(choose_service(false, true, false), None);
    assert_eq!(choose_service(false, false, false), None);
}

#[test]
fn root_only_options() {
    assert_eq!(rush::manage::require_root(true, "-si"), Ok(()));
    assert_eq!(rush::manage::require_root(false, "--uninstall"), Err("--uninstall must be run as root".to_string()));
}
