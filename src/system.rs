//! A Go toolchain found on the search path outside the registry: reading
//! its self-report, guessing where it came from, deciding whether it
//! shadows the managed one, and importing it.
use crate::registry::{has_dir, well_formed, Entry, Registry, RegistryError, RegistryView};
use crate::text::{
    chars_of, contains_chars, ends_with_chars, has_infix, has_suffix, same_chars, split_chars,
    split_on, split_words, trim, trim_bounds, words,
};
use crate::version::{dir_name, parsed, string_from, GoVersion};
use vstd::prelude::*;

verus! {

/// Where a toolchain appears to have been installed from.
#[derive(Clone, Copy, Debug, PartialEq, Eq, Structural)]
pub enum GoSource {
    /// A release archive from the Go website.
    Official,
    /// A package manager (brew, apt, yum, ...).
    PackageManager,
    /// Neither could be told.
    Unknown,
}

/// The operating system, as far as the rules here depend on it.
#[derive(Clone, Copy, Debug, PartialEq, Eq, Structural)]
pub enum Platform {
    Linux,
    MacOs,
    Windows,
    Other,
}

/// A Go installation found outside the registry.
#[derive(Debug)]
pub struct SystemGo {
    pub version: GoVersion,
    /// Its root directory.
    pub path: String,
    /// Its `go` executable.
    pub bin_path: String,
    pub source: GoSource,
}

/// The lower-case form of a text, as `str::to_lowercase` gives it.
pub uninterp spec fn lower_of(s: Seq<char>) -> Seq<char>;

/// Relies on `str::to_lowercase`: the result depends on the characters alone.
#[verifier::external_body]
fn lowercase(s: &str) -> (r: String)
    ensures
        r@ == lower_of(s@),
{
    s.to_lowercase()
}

/// The provenance rules, on a lower-cased root path.
pub open spec fn source_of(p: Seq<char>, platform: Platform) -> GoSource {
    if (platform == Platform::MacOs && (has_infix(p, "homebrew"@) || has_infix(p, "opt/go"@)
        || has_infix(p, "cellar"@))) || (platform == Platform::Linux && (has_infix(
        p,
        "/usr/lib/go"@,
    ) || (has_infix(p, "/usr/local/go"@) && p != "/usr/local/go"@))) || (platform
        == Platform::Windows && (has_infix(p, "\\program files\\go"@) || has_infix(
        p,
        "\\program files (x86)\\go"@,
    ))) {
        GoSource::PackageManager
    } else if p == "/usr/local/go"@ || p == "c:\\go"@ || (has_suffix(p, "\\go"@) && !has_infix(
        p,
        "govm"@,
    )) {
        GoSource::Official
    } else {
        GoSource::Unknown
    }
}

/// The version in `go version <version> <platform>`, when the output has
/// that shape.
pub open spec fn system_version_of(out: Seq<char>) -> Option<GoVersion> {
    let w = words(out);
    if w.len() >= 3 && w[0] == "go"@ && w[1] == "version"@ {
        parsed(w[2])
    } else {
        None
    }
}

/// Whether `c` separates directories in a path on the platform.
pub open spec fn is_dir_sep(c: char, platform: Platform) -> bool {
    c == '/' || (platform == Platform::Windows && c == '\\')
}

/// A directory path without its trailing separators (a lone root keeps
/// its one), so that `/usr/local/go/bin/` and `/usr/local/go/bin` agree.
pub open spec fn dir_key(s: Seq<char>, platform: Platform) -> Seq<char>
    decreases s.len(),
{
    if s.len() > 1 && is_dir_sep(s.last(), platform) {
        dir_key(s.drop_last(), platform)
    } else {
        s
    }
}

/// The separator between the entries of the search-path variable.
pub open spec fn path_list_sep(platform: Platform) -> char {
    if platform == Platform::Windows {
        ';'
    } else {
        ':'
    }
}

/// The directories of a search-path variable, in order: each entry with
/// surrounding whitespace and trailing separators removed.
pub open spec fn path_keys(path_var: Seq<char>, platform: Platform) -> Seq<Seq<char>> {
    split_on(path_var, path_list_sep(platform)).map_values(
        |e: Seq<char>| dir_key(trim(e), platform),
    )
}

/// Whether the system directory `sys` comes before the managed directory
/// `managed` among the directories `entries`; only first occurrences count,
/// and an absent managed directory loses.
pub open spec fn system_ahead(entries: Seq<Seq<char>>, sys: Seq<char>, managed: Seq<char>) -> bool {
    exists|i: int|
        0 <= i < entries.len() && #[trigger] entries[i] == sys && forall|j: int|
            0 <= j <= i ==> #[trigger] entries[j] != managed
}

fn contains_str(p: &Vec<char>, t: &str) -> (r: bool)
    ensures
        r == has_infix(p@, t@),
{
    contains_chars(p, &chars_of(t))
}

fn equals_str(p: &Vec<char>, t: &str) -> (r: bool)
    ensures
        r == (p@ == t@),
{
    same_chars(p, &chars_of(t))
}

impl GoSource {
    /// A word for the user.
    pub fn describe(&self) -> (r: &'static str)
        ensures
            r@ == match self {
                GoSource::Official => "official"@,
                GoSource::PackageManager => "package manager"@,
                GoSource::Unknown => "unknown"@,
            },
    {
        match self {
            GoSource::Official => "official",
            GoSource::PackageManager => "package manager",
            GoSource::Unknown => "unknown",
        }
    }
}

/// Applies the provenance rules to an already lower-cased root path.
pub fn classify_go_source(lowered: &str, platform: Platform) -> (r: GoSource)
    ensures
        r == source_of(lowered@, platform),
{
    let p = chars_of(lowered);
    let package_manager = match platform {
        Platform::MacOs => contains_str(&p, "homebrew") || contains_str(&p, "opt/go")
            || contains_str(&p, "cellar"),
        Platform::Linux => contains_str(&p, "/usr/lib/go") || (contains_str(&p, "/usr/local/go")
            && !equals_str(&p, "/usr/local/go")),
        Platform::Windows => contains_str(&p, "\\program files\\go") || contains_str(
            &p,
            "\\program files (x86)\\go",
        ),
        Platform::Other => false,
    };
    if package_manager {
        return GoSource::PackageManager;
    }
    if equals_str(&p, "/usr/local/go") || equals_str(&p, "c:\\go") || (ends_with_chars(
        &p,
        &chars_of("\\go"),
    ) && !contains_str(&p, "govm")) {
        GoSource::Official
    } else {
        GoSource::Unknown
    }
}

/// Where the toolchain rooted at `go_root` appears to come from; the path
/// is compared in lower case. Advisory only.
pub fn detect_go_source(go_root: &str, platform: Platform) -> (r: GoSource)
    ensures
        r == source_of(lower_of(go_root@), platform),
{
    let lowered = lowercase(go_root);
    classify_go_source(lowered.as_str(), platform)
}

/// The version a `go version` output names, if it has the shape
/// `go version <version> ...`.
pub fn system_go_version(output: &str) -> (r: Option<GoVersion>)
    ensures
        r == system_version_of(output@),
{
    let w = split_words(&chars_of(output));
    if w.len() < 3 {
        return None;
    }
    let go = chars_of("go");
    let version = chars_of("version");
    if !same_chars(&w[0], &go) || !same_chars(&w[1], &version) {
        return None;
    }
    let t = string_from(&w[2]);
    match GoVersion::parse(t.as_str()) {
        Ok(v) => Some(v),
        Err(_) => None,
    }
}

/// The system toolchain that answered `go version` with `output`, found at
/// `bin_path` under the root `go_root`; `None` when the output does not
/// name a version.
pub fn parse_go_version_output(output: &str, bin_path: &str, go_root: &str, platform: Platform) -> (r:
    Option<SystemGo>)
    ensures
        system_version_of(output@) is None ==> r is None,
        system_version_of(output@) is Some ==> r is Some && r->Some_0.version == system_version_of(
            output@,
        )->Some_0 && r->Some_0.path@ == go_root@ && r->Some_0.bin_path@ == bin_path@
            && r->Some_0.source == source_of(lower_of(go_root@), platform),
{
    match system_go_version(output) {
        None => None,
        Some(version) => Some(
            SystemGo {
                version,
                path: String::from_str(go_root),
                bin_path: String::from_str(bin_path),
                source: detect_go_source(go_root, platform),
            },
        ),
    }
}

/// The first line of a text, without a trailing carriage return.
pub open spec fn first_line(t: Seq<char>) -> Seq<char> {
    let l = split_on(t, '\n')[0];
    if l.len() > 0 && l.last() == '\r' {
        l.drop_last()
    } else {
        l
    }
}

/// The path that a `which go` (or `where go.exe`) lookup printed: the first
/// line of its trimmed output, when that line is not empty.
pub fn first_path_line(output: &str) -> (r: Option<String>)
    ensures
        r is Some <==> first_line(trim(output@)).len() > 0,
        r is Some ==> r->Some_0@ == first_line(trim(output@)),
{
    let s = chars_of(output);
    let (lo, hi) = trim_bounds(&s);
    let parts = split_chars(&s, lo, hi, '\n');
    proof {
        crate::text::lemma_split_on_nonempty(s@.subrange(lo as int, hi as int), '\n');
    }
    let line = &parts[0];
    let n = line.len();
    let mut kept: Vec<char> = Vec::new();
    let end = if n > 0 && line[n - 1] == '\r' {
        n - 1
    } else {
        n
    };
    let mut i: usize = 0;
    while i < end
        invariant
            end <= n == line@.len(),
            i <= end,
            kept@ == line@.subrange(0, i as int),
        decreases end - i,
    {
        kept.push(line[i]);
        i += 1;
        assert(kept@ =~= line@.subrange(0, i as int));
    }
    assert(kept@ =~= first_line(trim(output@)));
    if kept.len() == 0 {
        None
    } else {
        Some(string_from(&kept))
    }
}

/// The directory key of `s[lo..hi]`.
fn key_of(s: &Vec<char>, lo: usize, hi: usize, platform: Platform) -> (r: Vec<char>)
    requires
        lo <= hi <= s@.len(),
    ensures
        r@ == dir_key(s@.subrange(lo as int, hi as int), platform),
{
    let windows = match platform {
        Platform::Windows => true,
        _ => false,
    };
    let mut end = hi;
    while end - lo > 1 && (s[end - 1] == '/' || (windows && s[end - 1] == '\\'))
        invariant
            lo <= end <= hi <= s@.len(),
            windows == (platform == Platform::Windows),
            dir_key(s@.subrange(lo as int, hi as int), platform) == dir_key(
                s@.subrange(lo as int, end as int),
                platform,
            ),
        decreases end,
    {
        assert(s@.subrange(lo as int, end as int).drop_last() =~= s@.subrange(
            lo as int,
            end - 1,
        ));
        end -= 1;
    }
    let mut r: Vec<char> = Vec::new();
    let mut k: usize = lo;
    while k < end
        invariant
            lo <= k <= end <= s@.len(),
            r@ == s@.subrange(lo as int, k as int),
        decreases end - k,
    {
        r.push(s[k]);
        k += 1;
        assert(r@ =~= s@.subrange(lo as int, k as int));
    }
    r
}

/// Whether a process started with this search path would find the system
/// toolchain's directory before the managed one. `path_var` is split on
/// the platform's list separator; entries are compared with surrounding
/// whitespace removed, and trailing directory separators do not count.
pub fn is_system_go_first_in_path(
    path_var: &str,
    platform: Platform,
    system_bin_dir: &str,
    managed_bin_dir: &str,
) -> (r: bool)
    ensures
        r == system_ahead(
            path_keys(path_var@, platform),
            dir_key(system_bin_dir@, platform),
            dir_key(managed_bin_dir@, platform),
        ),
{
    let separator = match platform {
        Platform::Windows => ';',
        _ => ':',
    };
    let s = chars_of(path_var);
    let parts = split_chars(&s, 0, s.len(), separator);
    let ghost es = path_keys(path_var@, platform);
    assert(s@.subrange(0, s@.len() as int) =~= path_var@);
    let sys_chars = chars_of(system_bin_dir);
    let sys = key_of(&sys_chars, 0, sys_chars.len(), platform);
    assert(sys_chars@.subrange(0, sys_chars@.len() as int) =~= system_bin_dir@);
    let managed_chars = chars_of(managed_bin_dir);
    let managed = key_of(&managed_chars, 0, managed_chars.len(), platform);
    assert(managed_chars@.subrange(0, managed_chars@.len() as int) =~= managed_bin_dir@);
    let mut j: usize = 0;
    while j < parts.len()
        invariant
            parts@.len() == es.len(),
            es == path_keys(path_var@, platform),
            es.len() == split_on(path_var@, separator).len(),
            separator == path_list_sep(platform),
            forall|k: int|
                0 <= k < parts@.len() ==> #[trigger] parts@[k]@ == split_on(
                    path_var@,
                    separator,
                )[k],
            j <= es.len(),
            sys@ == dir_key(system_bin_dir@, platform),
            managed@ == dir_key(managed_bin_dir@, platform),
            forall|k: int| 0 <= k < j ==> #[trigger] es[k] != sys@ && es[k] != managed@,
        decreases es.len() - j,
    {
        let part = &parts[j];
        let (lo, hi) = trim_bounds(part);
        let key = key_of(part, lo, hi, platform);
        assert(key@ == es[j as int]);
        if same_chars(&key, &managed) {
            assert(!system_ahead(es, sys@, managed@)) by {
                if system_ahead(es, sys@, managed@) {
                    let i = choose|i: int|
                        0 <= i < es.len() && #[trigger] es[i] == sys@ && forall|m: int|
                            0 <= m <= i ==> #[trigger] es[m] != managed@;
                    assert(i >= j);
                    assert(es[j as int] != managed@);
                }
            }
            return false;
        }
        if same_chars(&key, &sys) {
            assert(es[j as int] == sys@);
            assert(forall|m: int| 0 <= m <= j ==> #[trigger] es[m] != managed@);
            return true;
        }
        j += 1;
    }
    false
}

/// Among the directories of a search path (see `path_keys`), the system
/// directory listed before the managed one wins, listed after it loses,
/// and a search path holding neither never lets it win.
pub proof fn lemma_precedence_cases(sys: Seq<char>, managed: Seq<char>, others: Seq<Seq<char>>)
    requires
        sys != managed,
    ensures
        system_ahead(seq![sys, managed], sys, managed),
        !system_ahead(seq![managed, sys], sys, managed),
        (forall|i: int|
            0 <= i < others.len() ==> #[trigger] others[i] != sys && others[i] != managed) ==> !system_ahead(others, sys, managed),
{
    let a = seq![sys, managed];
    assert(a[0] == sys);
    assert(forall|j: int| 0 <= j <= 0 ==> #[trigger] a[j] != managed);
    let b = seq![managed, sys];
    if system_ahead(b, sys, managed) {
        let i = choose|i: int|
            0 <= i < b.len() && #[trigger] b[i] == sys && forall|j: int|
                0 <= j <= i ==> #[trigger] b[j] != managed;
        assert(b[0] == managed);
    }
}

/// A hint that a system toolchain could be imported, when one was found.
pub fn get_import_hint(detected: &Option<SystemGo>) -> (r: Option<String>)
    ensures
        match detected {
            None => r is None,
            Some(g) => r is Some && r->Some_0@ == "System Go "@ + dir_name(g.version)
                + " detected at "@ + g.path@ + ". Run 'govm import' to manage it with GoVM."@,
        },
{
    match detected {
        None => None,
        Some(g) => {
            let mut r = String::from_str("System Go ");
            let v = g.version.to_dir_name();
            r.append(v.as_str());
            r.append(" detected at ");
            r.append(g.path.as_str());
            r.append(". Run 'govm import' to manage it with GoVM.");
            Some(r)
        },
    }
}

/// The registry with the system toolchain added under its version's name.
pub open spec fn imported(r: RegistryView, v: GoVersion) -> RegistryView {
    RegistryView { entries: r.entries.push((dir_name(v), true)), current: r.current }
}

impl Registry {
    /// Adds the detected system toolchain to the registry, by reference to
    /// its root. Refused when there is none, or when its version is already
    /// in the registry (an import never overwrites). Returns the new entry's
    /// directory name.
    pub fn import(&mut self, detected: &Option<SystemGo>) -> (r: Result<String, RegistryError>)
        requires
            well_formed(old(self)@),
        ensures
            well_formed(final(self)@),
            match detected {
                None => r == Err::<String, RegistryError>(RegistryError::NoSystemGo)
                    && final(self)@ == old(self)@,
                Some(g) => if has_dir(old(self)@.entries, dir_name(g.version)) {
                    r == Err::<String, RegistryError>(RegistryError::AlreadyManaged)
                        && final(self)@ == old(self)@
                } else {
                    r is Ok && r->Ok_0@ == dir_name(g.version) && final(self)@ == imported(
                        old(self)@,
                        g.version,
                    )
                },
            },
    {
        match detected {
            None => Err(RegistryError::NoSystemGo),
            Some(g) => {
                if self.has_version(&g.version) {
                    return Err(RegistryError::AlreadyManaged);
                }
                let d = g.version.to_dir_name();
                let ghost es = self@.entries;
                self.entries.push(Entry { name: d.clone(), has_bin: true });
                assert(self@.entries =~= es.push((d@, true)));
                Ok(d)
            },
        }
    }
}

} // verus!
