use govm::registry::{Registry, RegistryError};
use govm::system::{
    classify_go_source, detect_go_source, first_path_line, get_import_hint, is_system_go_first_in_path,
    parse_go_version_output, system_go_version, GoSource, Platform, SystemGo,
};
use govm::version::GoVersion;

#[test]
fn precedence_follows_first_occurrence() {
    let l = Platform::Linux;
    assert!(is_system_go_first_in_path("/usr/local/go/bin:/home/u/.govm/current/bin", l, "/usr/local/go/bin", "/home/u/.govm/current/bin"));
    assert!(!is_system_go_first_in_path("/home/u/.govm/current/bin:/usr/local/go/bin", l, "/usr/local/go/bin", "/home/u/.govm/current/bin"));
    assert!(!is_system_go_first_in_path("/usr/bin:/bin", l, "/usr/local/go/bin", "/home/u/.govm/current/bin"));
}

#[test]
fn precedence_edge_cases() {
    let l = Platform::Linux;
    let w = Platform::Windows;
    assert!(is_system_go_first_in_path("/bin: /usr/local/go/bin ", l, "/usr/local/go/bin", "/m"));
    assert!(is_system_go_first_in_path(" /s:/m", l, "/s", "/m"));
    assert!(is_system_go_first_in_path("/s/:/m", l, "/s", "/m"));
    assert!(!is_system_go_first_in_path("/m//:/s", l, "/s", "/m"));
    assert!(!is_system_go_first_in_path("/m;/s;/m;/s", w, "/s", "/m"));
    assert!(is_system_go_first_in_path("C:\\Go\\bin\\;C:\\m", w, "C:\\Go\\bin", "C:\\m"));
    assert!(!is_system_go_first_in_path("/s\\:/m", l, "/s", "/m"));
    assert!(!is_system_go_first_in_path("", l, "/s", "/m"));
    assert!(!is_system_go_first_in_path("/same", l, "/same", "/same"));
}

#[test]
fn provenance_rules() {
    assert_eq!(classify_go_source("/usr/local/go", Platform::Linux), GoSource::Official);
    assert_eq!(classify_go_source("/usr/lib/go-1.21", Platform::Linux), GoSource::PackageManager);
    assert_eq!(classify_go_source("/opt/usr/local/go/x", Platform::Linux), GoSource::PackageManager);
    assert_eq!(classify_go_source("/opt/homebrew/cellar/go/1.21", Platform::MacOs), GoSource::PackageManager);
    assert_eq!(classify_go_source("/opt/homebrew/cellar/go/1.21", Platform::Linux), GoSource::Unknown);
    assert_eq!(classify_go_source("c:\\program files\\go", Platform::Windows), GoSource::PackageManager);
    assert_eq!(classify_go_source("c:\\go", Platform::Windows), GoSource::Official);
    assert_eq!(classify_go_source("d:\\tools\\go", Platform::Other), GoSource::Official);
    assert_eq!(classify_go_source("d:\\govm\\go", Platform::Other), GoSource::Unknown);
    assert_eq!(classify_go_source("/home/u/sdk/go", Platform::Linux), GoSource::Unknown);
}

#[test]
fn provenance_ignores_case() {
    assert_eq!(detect_go_source("/USR/LOCAL/GO", Platform::Linux), GoSource::Official);
    assert_eq!(detect_go_source("C:\\Go", Platform::Windows), GoSource::Official);
    assert_eq!(GoSource::PackageManager.describe(), "package manager");
}

#[test]
fn system_version_output() {
    assert_eq!(system_go_version("go version go1.21.5 linux/amd64\n"), Some(GoVersion::new(1, 21, 5)));
    assert_eq!(system_go_version("gccgo version go1.21.5 linux/amd64"), None);
    assert_eq!(system_go_version("go version"), None);
    let g = parse_go_version_output("go version go1.22.1 linux/amd64", "/usr/local/go/bin/go", "/usr/local/go", Platform::Linux).unwrap();
    assert_eq!(g.version, GoVersion::new(1, 22, 1));
    assert_eq!(g.path, "/usr/local/go");
    assert_eq!(g.bin_path, "/usr/local/go/bin/go");
    assert_eq!(g.source, GoSource::Official);
    assert!(parse_go_version_output("bash: go: not found", "", "", Platform::Linux).is_none());
}

fn system(v: GoVersion) -> Option<SystemGo> {
    Some(SystemGo { version: v, path: "/usr/local/go".to_string(), bin_path: "/usr/local/go/bin/go".to_string(), source: GoSource::Official })
}

#[test]
fn import_adds_once() {
    let mut r = Registry::new();
    assert!(matches!(r.import(&None), Err(RegistryError::NoSystemGo)));
    let s = system(GoVersion::new(1, 21, 5));
    assert_eq!(r.import(&s), Ok("1.21.5".to_string()));
    assert!(r.has_version(&GoVersion::new(1, 21, 5)));
    assert!(matches!(r.import(&s), Err(RegistryError::AlreadyManaged)));
    assert_eq!(r.entries.len(), 1);
}

#[test]
fn import_hint_text() {
    assert_eq!(get_import_hint(&None), None);
    assert_eq!(
        get_import_hint(&system(GoVersion::new(1, 21, 5))),
        Some("System Go 1.21.5 detected at /usr/local/go. Run 'govm import' to manage it with GoVM.".to_string())
    );
}

#[test]
fn lookup_output_first_line() {
    assert_eq!(first_path_line("/usr/local/go/bin/go\n"), Some("/usr/local/go/bin/go".to_string()));
    assert_eq!(first_path_line("  C:\\Go\\bin\\go.exe\r\nD:\\go.exe\r\n"), Some("C:\\Go\\bin\\go.exe".to_string()));
    assert_eq!(first_path_line(" \n "), None);
    assert_eq!(first_path_line(""), None);
}
