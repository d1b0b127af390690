use onesource::update::{
    asset_name, download_script, fetch_script, normalize_version, parse_command_output,
    parse_version, ps_quote, replace_script_windows, shell_quote, temp_download_path,
    version_is_newer, UpdateError,
};
use std::path::Path;

#[test]
fn version_compare_detects_newer_versions() {
    assert!(version_is_newer("v3.3.1", "3.3.0"));
    assert!(version_is_newer("4.0.0", "3.9.9"));
    assert!(!version_is_newer("v3.3.0", "3.3.0"));
    assert!(!version_is_newer("3.2.9", "3.3.0"));
}

#[test]
fn asset_name_matches_supported_platforms() {
    for os in ["linux", "macos", "windows"] {
        assert!(matches!(
            asset_name(os).unwrap(),
            "onesource.exe" | "onesource-linux" | "onesource-macos"
        ));
    }
    assert_eq!(asset_name("linux").unwrap(), "onesource-linux");
    let e = asset_name("plan9").unwrap_err();
    assert_eq!(e.message(), "Unsupported OS for self-update: plan9");
}

#[test]
fn temp_download_path_stays_next_to_current_exe() {
    let exe = "/usr/local/bin/onesource";
    let temp = temp_download_path(exe, 4242, false).unwrap();
    assert_eq!(Path::new(&temp).parent(), Path::new(exe).parent());
    assert!(Path::new(&temp)
        .file_name()
        .unwrap()
        .to_string_lossy()
        .starts_with("onesource-update-"));
    assert_eq!(temp, "/usr/local/bin/onesource-update-4242");
    assert_eq!(
        temp_download_path("tools/onesource.exe", 7, true).unwrap(),
        "tools/onesource-update-7.exe"
    );
    assert_eq!(temp_download_path("/", 1, false).unwrap_err(), UpdateError::NoParentDirectory);
    assert_eq!(temp_download_path("", 1, false).unwrap_err(), UpdateError::NoParentDirectory);
}

#[test]
fn versions_are_normalized_and_parsed() {
    assert_eq!(normalize_version("  vV1.2 "), "1.2");
    assert_eq!(parse_version("v1.2.3"), Some(vec![1, 2, 3]));
    assert_eq!(parse_version("1.2.3-beta.1"), Some(vec![1, 2, 3]));
    assert_eq!(parse_version("+1.02"), Some(vec![1, 2]));
    assert_eq!(parse_version("1..2"), None);
    assert_eq!(parse_version("1.x"), None);
    assert_eq!(parse_version("18446744073709551616"), None);
    assert_eq!(parse_version("18446744073709551615"), Some(vec![u64::MAX]));
}

#[test]
fn unparsable_versions_compare_by_text() {
    assert!(version_is_newer("nightly", "v1.0.0"));
    assert!(!version_is_newer("nightly", " nightly"));
    assert!(version_is_newer("1.0.0.1", "1.0.0"));
    assert!(!version_is_newer("1.0.0", "1.0.0.1"));
}

#[test]
fn quotes_are_escaped_for_shells() {
    assert_eq!(shell_quote("it's"), "it'\\''s");
    assert_eq!(ps_quote("it's"), "it''s");
    assert_eq!(shell_quote("plain"), "plain");
}

#[test]
fn command_output_is_trimmed_and_checked() {
    assert_eq!(
        parse_command_output(true, "0", &b" v1.2.3\n".to_vec(), "curl").unwrap(),
        "v1.2.3"
    );
    let e = parse_command_output(true, "0", &b"  \n".to_vec(), "curl").unwrap_err();
    assert_eq!(e.message(), "curl returned an empty response");
    let e = parse_command_output(false, "exit status: 6", &b"x".to_vec(), "curl").unwrap_err();
    assert_eq!(e.message(), "curl (exit code: exit status: 6)");
}

#[test]
fn scripts_name_the_release_and_quote_paths() {
    let api = "https://api.github.com/repos/TW-RF54732/onesource/releases/latest";
    assert_eq!(
        fetch_script(),
        format!(
            "curl -fsSL '{}' | grep '\"tag_name\"' | cut -d '\"' -f 4 | head -n 1",
            api
        )
    );
    let script = download_script("onesource-linux", "/tmp/a'b");
    assert_eq!(
        script,
        format!(
            "set -e\nurl=$(curl -fsSL '{api}' | grep '{pattern}' | cut -d '\"' -f 4 | head -n 1)\nif [ -z \"$url\" ]; then echo 'Could not find asset: {asset}' >&2; exit 1; fi\ncurl -fL -o '{output}' \"$url\"\nchmod +x '{output}'",
            api = api,
            pattern = "browser_download_url.*onesource-linux",
            asset = "onesource-linux",
            output = "/tmp/a'\\''b",
        )
    );
    let ps = replace_script_windows(12, "C:\\t\\new.exe", "C:\\t\\o'k.exe");
    assert!(ps.contains("Get-Process -Id 12 -ErrorAction SilentlyContinue"));
    assert!(ps.contains("-Destination 'C:\\t\\o''k.exe'"));
}
