use http_server_tester::check::{check_mode, check_tools, probe_command, ToolsFound};
use http_server_tester::{runs_advanced_tests, Version};

const ALL: ToolsFound = ToolsFound { curl: true, nc: true, ab: true };

#[test]
fn tools_must_all_be_found() {
    assert_eq!(check_tools(&ALL), Ok(()));
    let missing = ToolsFound { curl: true, nc: false, ab: true };
    assert_eq!(
        check_tools(&missing),
        Err("Checking tools finished. Please install all tools.".to_string())
    );
}

#[test]
fn modes() {
    assert_eq!(check_mode("basic", &ALL), Ok(()));
    assert_eq!(check_mode("advanced", &ALL), Ok(()));
    assert_eq!(
        check_mode("advancd", &ALL),
        Err("Unknown mode advancd, which should be 'basic' or 'advanced'.".to_string())
    );
    let missing = ToolsFound { curl: false, nc: true, ab: true };
    assert_eq!(
        check_mode("basic", &missing),
        Err("Checking tools finished. Please install all tools.".to_string())
    );
}

#[test]
fn probe_and_versions() {
    assert_eq!(probe_command("nc"), "which nc");
    assert!(Version::Release.starts_server());
    assert!(!Version::Debug.starts_server());
    assert!(runs_advanced_tests("advanced"));
    assert!(!runs_advanced_tests("basic"));
}
