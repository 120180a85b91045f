use govm::registry::{
    archive_format, get_installed_versions, is_version_installed, version_from_report,
    ArchiveFormat, Entry, Registry, RegistryError,
};
use govm::version::GoVersion;

fn v(a: u32, b: u32, c: u32) -> GoVersion {
    GoVersion::new(a, b, c)
}

fn report(x: &GoVersion) -> String {
    format!("go version {} linux/amd64", x.to_download_string())
}

#[test]
fn install_switch_uninstall_scenario() {
    let mut r = Registry::new();
    let a = v(1, 21, 5);
    let b = v(1, 22, 0);
    assert!(r.install("go1.21.5.linux-amd64.tar.gz", &a).is_ok());
    assert!(r.install("go1.22.0.linux-amd64.tar.gz", &b).is_ok());
    assert!(r.switch_to(&a).is_ok());
    assert_eq!(r.current_version(Some(&report(&a))), Some(a));
    assert!(r.switch_to(&b).is_ok());
    assert_eq!(r.current_version(Some(&report(&b))), Some(b));
    assert!(r.uninstall(&a).is_ok());
    assert_eq!(r.list(), vec![b]);
}

#[test]
fn install_then_listed_once() {
    let mut r = Registry::new();
    let a = v(1, 21, 5);
    r.install("a.tar.gz", &a).unwrap();
    let plan = r.install("a.zip", &a).unwrap();
    assert!(plan.replace);
    assert_eq!(plan.dir, "1.21.5");
    assert_eq!(plan.format, ArchiveFormat::Zip);
    assert!(r.has_version(&a));
    assert!(is_version_installed(&r, &a));
    assert_eq!(r.list(), vec![a]);
    assert_eq!(r.entries.len(), 1);
}

#[test]
fn install_with_unknown_format_changes_nothing() {
    let mut r = Registry::new();
    let res = r.install("go1.21.5.linux-amd64.tar.xz", &v(1, 21, 5));
    assert!(matches!(res, Err(RegistryError::UnknownFormat)));
    assert!(matches!(r.install("go1.21.5.gz", &v(1, 21, 5)), Err(RegistryError::UnknownFormat)));
    assert!(r.entries.is_empty());
}

#[test]
fn archive_formats() {
    assert_eq!(archive_format("go1.21.5.linux-amd64.tar.gz"), Some(ArchiveFormat::TarGz));
    assert_eq!(archive_format("go1.21.5.windows-amd64.zip"), Some(ArchiveFormat::Zip));
    assert_eq!(archive_format("x.gz"), None);
    assert_eq!(archive_format(".zip"), Some(ArchiveFormat::Zip));
    assert_eq!(archive_format(".gz"), None);
    assert_eq!(archive_format("go.tar"), None);
}

#[test]
fn uninstall_removes_and_refuses_missing() {
    let mut r = Registry::new();
    let a = v(1, 20, 1);
    assert!(matches!(r.uninstall(&a), Err(RegistryError::NotFound)));
    r.install("a.tar.gz", &a).unwrap();
    assert_eq!(r.uninstall(&a), Ok("1.20.1".to_string()));
    assert!(!r.has_version(&a));
}

#[test]
fn switch_to_missing_version_keeps_pointer() {
    let mut r = Registry::new();
    let a = v(1, 21, 5);
    r.install("a.tar.gz", &a).unwrap();
    r.switch_to(&a).unwrap();
    let res = r.switch_to(&v(1, 9, 9));
    assert!(matches!(res, Err(RegistryError::NotFound)));
    assert_eq!(r.current, Some("1.21.5".to_string()));
}

#[test]
fn switch_to_entry_without_bin_is_invalid() {
    let mut r = Registry::new();
    r.entries.push(Entry { name: "1.18.0".to_string(), has_bin: false });
    let res = r.switch_to(&v(1, 18, 0));
    assert!(matches!(res, Err(RegistryError::InvalidInstallation)));
    assert_eq!(r.current, None);
}

#[test]
fn switch_plan_removes_old_pointer() {
    let mut r = Registry::new();
    r.install("a.tar.gz", &v(1, 1, 1)).unwrap();
    r.install("b.tar.gz", &v(1, 1, 2)).unwrap();
    let first = r.switch_to(&v(1, 1, 1)).unwrap();
    assert!(!first.remove_pointer);
    let second = r.switch_to(&v(1, 1, 2)).unwrap();
    assert!(second.remove_pointer);
    assert_eq!(second.dir, "1.1.2");
}

#[test]
fn current_trusts_the_report_not_the_pointer() {
    let mut r = Registry::new();
    r.install("a.tar.gz", &v(1, 21, 5)).unwrap();
    assert_eq!(r.current_version(Some("go version go1.21.5 linux/amd64")), None);
    r.switch_to(&v(1, 21, 5)).unwrap();
    assert_eq!(r.current_version(Some("go version go1.20.0 linux/amd64")), Some(v(1, 20, 0)));
    assert_eq!(r.current_version(None), None);
    assert_eq!(r.current_version(Some("garbage")), None);
}

#[test]
fn report_reading() {
    assert_eq!(version_from_report("go version go1.21.5 darwin/arm64\n"), Some(v(1, 21, 5)));
    assert_eq!(version_from_report("  go   version\tgo1.2.3"), Some(v(1, 2, 3)));
    assert_eq!(version_from_report("go version devel"), None);
    assert_eq!(version_from_report("go version"), None);
    assert_eq!(version_from_report("go release go1.21.5 linux/amd64"), None);
}

#[test]
fn listing_is_descending_and_skips_strays() {
    let mut r = Registry::new();
    for name in ["1.20.0", "notes", "1.21.5", "1.9.12", "1.21.0"] {
        r.entries.push(Entry { name: name.to_string(), has_bin: true });
    }
    assert_eq!(
        get_installed_versions(&r),
        vec![v(1, 21, 5), v(1, 21, 0), v(1, 20, 0), v(1, 9, 12)]
    );
}
