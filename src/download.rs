//! Names and addresses of the release archives on Go's download page, and
//! the ordering of the versions it lists.
use crate::registry::{descending, listed, sorted_versions, string_views};
use crate::text::str_equals;
use crate::version::{download_name, GoVersion};
use vstd::prelude::*;

verus! {

/// Where release archives are downloaded from.
pub const GO_DOWNLOAD_URL: &'static str = "https://go.dev/dl";

/// Go's name for a CPU architecture, from Rust's name for it.
pub open spec fn go_arch_of(arch: Seq<char>) -> Seq<char> {
    if arch == "x86_64"@ {
        "amd64"@
    } else if arch == "aarch64"@ {
        "arm64"@
    } else if arch == "x86"@ {
        "386"@
    } else {
        arch
    }
}

/// Go's name for an operating system, from Rust's name for it.
pub open spec fn go_os_of(os: Seq<char>) -> Seq<char> {
    if os == "macos"@ {
        "darwin"@
    } else {
        os
    }
}

/// The archive format Go publishes for an operating system.
pub open spec fn archive_ext_of(os: Seq<char>) -> Seq<char> {
    if os == "windows"@ {
        "zip"@
    } else {
        "tar.gz"@
    }
}

/// `go1.21.5.linux-amd64.tar.gz` and the like.
pub open spec fn archive_name_of(v: GoVersion, os: Seq<char>, arch: Seq<char>) -> Seq<char> {
    download_name(v) + seq!['.'] + go_os_of(os) + seq!['-'] + go_arch_of(arch) + seq!['.']
        + archive_ext_of(os)
}

/// The release archive's file name for a version on a platform, given
/// Rust's names for the operating system and the architecture.
pub fn get_go_archive_name(version: &GoVersion, os: &str, arch: &str) -> (r: String)
    ensures
        r@ == archive_name_of(*version, os@, arch@),
{
    let go_arch = if str_equals(arch, "x86_64") {
        "amd64"
    } else if str_equals(arch, "aarch64") {
        "arm64"
    } else if str_equals(arch, "x86") {
        "386"
    } else {
        arch
    };
    let windows = str_equals(os, "windows");
    let ext = if windows {
        "zip"
    } else {
        "tar.gz"
    };
    let go_os = if str_equals(os, "macos") {
        "darwin"
    } else {
        os
    };
    let mut r = version.to_download_string();
    r.push('.');
    r.append(go_os);
    r.push('-');
    r.append(go_arch);
    r.push('.');
    r.append(ext);
    r
}

/// The address of a release archive.
pub fn download_url(archive_name: &str) -> (r: String)
    ensures
        r@ == GO_DOWNLOAD_URL@ + seq!['/'] + archive_name@,
{
    let mut r = String::from_str(GO_DOWNLOAD_URL);
    r.push('/');
    r.append(archive_name);
    r
}

/// The versions named by the download page's release tags, most recent
/// first; tags that are not versions are skipped.
pub fn remote_versions(tags: &Vec<String>) -> (r: Vec<GoVersion>)
    ensures
        descending(r@),
        r@.to_multiset() == listed(string_views(tags@)).to_multiset(),
{
    sorted_versions(tags)
}

} // verus!
