use govm::activation::{
    activation_script, env_command, get_current_dir, get_current_go_path, get_version_dir,
    get_versions_dir, join_path, script_file_name, Shell,
};
use govm::download::{download_url, get_go_archive_name, remote_versions};
use govm::version::GoVersion;

#[test]
fn layout_paths() {
    assert_eq!(join_path("/a", '/', "b"), "/a/b");
    assert_eq!(get_versions_dir("/h/.govm", '/'), "/h/.govm/versions");
    assert_eq!(get_version_dir("/h/.govm", '/', "1.21.5"), "/h/.govm/versions/1.21.5");
    assert_eq!(get_current_dir("C:\\g", '\\'), "C:\\g\\current");
    assert_eq!(get_current_go_path("/h/.govm", '/', true), Some("/h/.govm/current/bin".to_string()));
    assert_eq!(get_current_go_path("/h/.govm", '/', false), None);
}

#[test]
fn activation_scripts() {
    assert_eq!(
        activation_script(Shell::Bash, "/x/bin"),
        "#!/bin/bash\n# GoVM activation script\nexport PATH=\"/x/bin:$PATH\"\necho \"Go environment activated. Go binary: $(which go)\"\ngo version\n"
    );
    assert_eq!(
        activation_script(Shell::Cmd, "C:\\x\\bin"),
        "@echo off\nREM GoVM activation script\nset \"PATH=C:\\x\\bin;%PATH%\"\necho Go environment activated.\ngo version\n"
    );
    assert_eq!(
        activation_script(Shell::PowerShell, "C:\\x\\bin"),
        "# GoVM activation script\n$env:PATH = \"C:\\x\\bin;\" + $env:PATH\nWrite-Host \"Go environment activated.\" -ForegroundColor Green\n& go version\n"
    );
    assert_eq!(script_file_name(Shell::Bash), "activate.sh");
    assert_eq!(script_file_name(Shell::PowerShell), "activate.ps1");
}

#[test]
fn env_commands() {
    assert_eq!(env_command("/x/bin", false), "export PATH=\"/x/bin:$PATH\"");
    assert_eq!(env_command("C:\\x", true), "$env:PATH = \"C:\\x;$env:PATH\"");
}

#[test]
fn archive_names() {
    let v = GoVersion::new(1, 21, 5);
    assert_eq!(get_go_archive_name(&v, "linux", "x86_64"), "go1.21.5.linux-amd64.tar.gz");
    assert_eq!(get_go_archive_name(&v, "macos", "aarch64"), "go1.21.5.darwin-arm64.tar.gz");
    assert_eq!(get_go_archive_name(&v, "windows", "x86"), "go1.21.5.windows-386.zip");
    assert_eq!(get_go_archive_name(&v, "freebsd", "riscv64"), "go1.21.5.freebsd-riscv64.tar.gz");
    assert_eq!(download_url("go1.21.5.linux-amd64.tar.gz"), "https://go.dev/dl/go1.21.5.linux-amd64.tar.gz");
}

#[test]
fn remote_tags_sorted() {
    let tags: Vec<String> = ["go1.20.1", "go1.21rc2", "go1.22.0", "go1.20.10"].iter().map(|s| s.to_string()).collect();
    assert_eq!(
        remote_versions(&tags),
        vec![GoVersion::new(1, 22, 0), GoVersion::new(1, 20, 10), GoVersion::new(1, 20, 1)]
    );
}
