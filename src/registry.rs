//! The registry of installed versions and the activation pointer, modelled
//! as the directory names under the versions directory and the name the
//! `current` pointer refers to. Each operation decides what happens to that
//! state and hands back what the filesystem must do to follow.
use crate::text::{chars_of, ends_with_chars, has_suffix, same_chars, split_words, words};
use crate::text::is_ws;
use crate::version::{
    decimal, dir_name, download_name, is_digit, lemma_decimal, lemma_dir_name_round_trip,
    lemma_order_total, lemma_prefixes_agree, parsed, version_le, version_lt, GoVersion,
};
use vstd::prelude::*;
use vstd::seq_lib::lemma_multiset_commutative;

verus! {

broadcast use vstd::seq_lib::group_to_multiset_ensures;

/// A directory under the versions directory.
pub struct Entry {
    /// The directory's name.
    pub name: String,
    /// Whether it holds a `bin` subdirectory.
    pub has_bin: bool,
}

/// What the versions directory and the `current` pointer hold.
pub struct Registry {
    pub entries: Vec<Entry>,
    /// The name of the entry that `current` refers to, if it exists.
    pub current: Option<String>,
}

/// The mathematical state of a registry.
pub struct RegistryView {
    pub entries: Seq<(Seq<char>, bool)>,
    pub current: Option<Seq<char>>,
}

impl View for Entry {
    type V = (Seq<char>, bool);

    open spec fn view(&self) -> (Seq<char>, bool) {
        (self.name@, self.has_bin)
    }
}

impl View for Registry {
    type V = RegistryView;

    open spec fn view(&self) -> RegistryView {
        RegistryView {
            entries: entry_views(self.entries@),
            current: match self.current {
                Some(c) => Some(c@),
                None => None,
            },
        }
    }
}

pub open spec fn entry_views(es: Seq<Entry>) -> Seq<(Seq<char>, bool)> {
    es.map_values(|e: Entry| e@)
}

pub open spec fn string_views(ss: Seq<String>) -> Seq<Seq<char>> {
    ss.map_values(|s: String| s@)
}

/// How an archive is unpacked.
#[derive(Clone, Copy, Debug, PartialEq, Eq, Structural)]
pub enum ArchiveFormat {
    TarGz,
    Zip,
}

/// Why a registry operation was refused.
#[derive(Clone, Copy, Debug, PartialEq, Eq, Structural)]
pub enum RegistryError {
    /// The version is not installed.
    NotFound,
    /// The version's directory has no `bin` subdirectory.
    InvalidInstallation,
    /// The archive's name has no known extension.
    UnknownFormat,
    /// No Go installation was found on the search path.
    NoSystemGo,
    /// The detected Go version is already in the registry.
    AlreadyManaged,
}

/// What `install` asks of the filesystem.
pub struct InstallPlan {
    /// The entry's directory name.
    pub dir: String,
    /// Whether an entry of that name is removed first.
    pub replace: bool,
    /// Which extractor unpacks the archive.
    pub format: ArchiveFormat,
}

/// What `switch_to` asks of the filesystem.
pub struct SwitchPlan {
    /// The entry that `current` is to refer to.
    pub dir: String,
    /// Whether an existing `current` is removed first.
    pub remove_pointer: bool,
}

/// Names ending in `.tar.gz` are gzipped tarballs and names ending in `.zip`
/// are zip archives; any other name is refused.
pub open spec fn archive_format_of(name: Seq<char>) -> Option<ArchiveFormat> {
    if has_suffix(name, seq!['.', 't', 'a', 'r', '.', 'g', 'z']) {
        Some(ArchiveFormat::TarGz)
    } else if has_suffix(name, seq!['.', 'z', 'i', 'p']) {
        Some(ArchiveFormat::Zip)
    } else {
        None
    }
}

/// The versions that the names denote, in order, unparseable names skipped.
pub open spec fn listed(names: Seq<Seq<char>>) -> Seq<GoVersion>
    decreases names.len(),
{
    if names.len() == 0 {
        Seq::<GoVersion>::empty()
    } else {
        let rest = listed(names.drop_last());
        match parsed(names.last()) {
            Some(v) => rest.push(v),
            None => rest,
        }
    }
}

/// Most recent first.
pub open spec fn descending(s: Seq<GoVersion>) -> bool {
    forall|i: int, j: int| 0 <= i < j < s.len() ==> version_le(#[trigger] s[j], #[trigger] s[i])
}

pub open spec fn names_of(es: Seq<(Seq<char>, bool)>) -> Seq<Seq<char>> {
    es.map_values(|e: (Seq<char>, bool)| e.0)
}

/// Whether the entry named `d` holds a `bin` subdirectory.
pub open spec fn has_bin_dir(es: Seq<(Seq<char>, bool)>, d: Seq<char>) -> bool {
    exists|i: int| 0 <= i < es.len() && #[trigger] es[i] == (d, true)
}

pub open spec fn has_dir(es: Seq<(Seq<char>, bool)>, d: Seq<char>) -> bool {
    exists|i: int| 0 <= i < es.len() && #[trigger] es[i].0 == d
}

/// The entries without the one named `d`.
pub open spec fn without(es: Seq<(Seq<char>, bool)>, d: Seq<char>) -> Seq<(Seq<char>, bool)>
    decreases es.len(),
{
    if es.len() == 0 {
        es
    } else {
        let rest = without(es.drop_last(), d);
        if es.last().0 == d {
            rest
        } else {
            rest.push(es.last())
        }
    }
}

/// Directory names are unique.
pub open spec fn well_formed(r: RegistryView) -> bool {
    forall|i: int, j: int|
        0 <= i < j < r.entries.len() ==> #[trigger] r.entries[i].0 != #[trigger] r.entries[j].0
}

/// The version's entry is replaced by a fresh one holding a toolchain.
pub open spec fn installed(r: RegistryView, v: GoVersion) -> RegistryView {
    RegistryView {
        entries: without(r.entries, dir_name(v)).push((dir_name(v), true)),
        current: r.current,
    }
}

pub open spec fn uninstalled(r: RegistryView, v: GoVersion) -> RegistryView {
    RegistryView { entries: without(r.entries, dir_name(v)), current: r.current }
}

pub open spec fn switched(r: RegistryView, v: GoVersion) -> RegistryView {
    RegistryView { entries: r.entries, current: Some(dir_name(v)) }
}

/// The version a toolchain reports in `<name> version <version> <platform>`;
/// output of any other shape names none.
pub open spec fn reported_version(out: Seq<char>) -> Option<GoVersion> {
    if words(out).len() >= 3 && words(out)[1] == seq!['v', 'e', 'r', 's', 'i', 'o', 'n'] {
        parsed(words(out)[2])
    } else {
        None
    }
}

/// What `current` yields: nothing without a pointer or without an answer
/// from the toolchain behind it, else the version that toolchain reports.
pub open spec fn current_of(r: RegistryView, report: Option<Seq<char>>) -> Option<GoVersion> {
    match (r.current, report) {
        (Some(_), Some(out)) => reported_version(out),
        _ => None,
    }
}

/// Inserts `x` into a descending vector, keeping it descending.
fn insert_descending(r: &mut Vec<GoVersion>, x: GoVersion)
    requires
        descending(old(r)@),
    ensures
        descending(final(r)@),
        final(r)@.to_multiset() == old(r)@.to_multiset().insert(x),
{
    let mut p: usize = 0;
    while p < r.len() && !r[p].is_older_than(&x)
        invariant
            p <= r@.len(),
            forall|k: int| 0 <= k < p ==> version_le(x, #[trigger] r@[k]),
        decreases r@.len() - p,
    {
        proof {
            lemma_order_total(x, r@[p as int], x);
        }
        p += 1;
    }
    let ghost s = r@;
    proof {
        assert forall|k: int| p <= k < s.len() implies version_lt(#[trigger] s[k], x) by {
            lemma_order_total(s[k], s[p as int], x);
        }
    }
    r.insert(p, x);
    proof {
        let t = r@;
        assert(t =~= s.subrange(0, p as int).push(x) + s.subrange(p as int, s.len() as int));
        lemma_multiset_commutative(s.subrange(0, p as int).push(x), s.subrange(p as int, s.len() as int));
        lemma_multiset_commutative(s.subrange(0, p as int), s.subrange(p as int, s.len() as int));
        assert(s.subrange(0, p as int) + s.subrange(p as int, s.len() as int) =~= s);
        assert(t.to_multiset() =~= s.to_multiset().insert(x));
        assert forall|i: int, j: int| 0 <= i < j < t.len() implies version_le(
            #[trigger] t[j],
            #[trigger] t[i],
        ) by {
            if j < p {
            } else if j == p {
            } else if i < p {
                lemma_order_total(t[j], x, t[i]);
            } else if i == p {
            } else {
            }
        }
    }
}

/// The versions that the names denote, most recent first; names that are
/// not versions are skipped.
pub fn sorted_versions(names: &Vec<String>) -> (r: Vec<GoVersion>)
    ensures
        descending(r@),
        r@.to_multiset() == listed(string_views(names@)).to_multiset(),
{
    let ghost ns = string_views(names@);
    let mut r: Vec<GoVersion> = Vec::new();
    let mut i: usize = 0;
    while i < names.len()
        invariant
            i <= names@.len(),
            ns == string_views(names@),
            descending(r@),
            r@.to_multiset() == listed(ns.subrange(0, i as int)).to_multiset(),
        decreases names@.len() - i,
    {
        let ghost pre = ns.subrange(0, i as int);
        let ghost nxt = ns.subrange(0, i + 1);
        assert(nxt.drop_last() =~= pre);
        assert(nxt.last() == names@[i as int]@);
        match GoVersion::parse(names[i].as_str()) {
            Ok(v) => {
                insert_descending(&mut r, v);
            },
            Err(_) => {},
        }
        i += 1;
    }
    assert(ns.subrange(0, names@.len() as int) =~= ns);
    r
}

/// Which extractor an archive of this file name needs.
pub fn archive_format(file_name: &str) -> (r: Option<ArchiveFormat>)
    ensures
        r == archive_format_of(file_name@),
{
    let s = chars_of(file_name);
    if ends_with_chars(&s, &vec!['.', 't', 'a', 'r', '.', 'g', 'z']) {
        Some(ArchiveFormat::TarGz)
    } else if ends_with_chars(&s, &vec!['.', 'z', 'i', 'p']) {
        Some(ArchiveFormat::Zip)
    } else {
        None
    }
}

/// The version a toolchain reports on its version query, read from the
/// third whitespace-separated word of its output when the second is
/// `version`.
pub fn version_from_report(out: &str) -> (r: Option<GoVersion>)
    ensures
        r == reported_version(out@),
{
    let w = split_words(&chars_of(out));
    if w.len() < 3 {
        return None;
    }
    if !same_chars(&w[1], &vec!['v', 'e', 'r', 's', 'i', 'o', 'n']) {
        return None;
    }
    let t = crate::version::string_from(&w[2]);
    match GoVersion::parse(t.as_str()) {
        Ok(v) => Some(v),
        Err(_) => None,
    }
}


proof fn lemma_without_shape(es: Seq<(Seq<char>, bool)>, d: Seq<char>)
    ensures
        !has_dir(without(es, d), d),
        forall|i: int|
            0 <= i < without(es, d).len() ==> #[trigger] es.contains(without(es, d)[i]),
        !has_dir(es, d) ==> without(es, d) == es,
    decreases es.len(),
{
    if es.len() > 0 {
        let rest = es.drop_last();
        lemma_without_shape(rest, d);
        let w = without(es, d);
        let wr = without(rest, d);
        assert forall|i: int| 0 <= i < w.len() implies #[trigger] es.contains(w[i]) by {
            if i < wr.len() {
                assert(rest.contains(wr[i]));
                let k = choose|k: int| 0 <= k < rest.len() && rest[k] == wr[i];
                assert(es[k] == wr[i]);
            } else {
                assert(es[es.len() - 1] == w[i]);
            }
        }
        if !has_dir(es, d) {
            assert(!has_dir(rest, d)) by {
                if has_dir(rest, d) {
                    let k = choose|k: int| 0 <= k < rest.len() && #[trigger] rest[k].0 == d;
                    assert(es[k].0 == d);
                }
            }
            assert(es.last().0 != d) by {
                assert(es[es.len() - 1].0 == es.last().0);
            }
            assert(rest.push(es.last()) =~= es);
        }
    }
}

proof fn lemma_without_unique(es: Seq<(Seq<char>, bool)>, d: Seq<char>)
    requires
        forall|i: int, j: int| 0 <= i < j < es.len() ==> #[trigger] es[i].0 != #[trigger] es[j].0,
    ensures
        forall|i: int, j: int|
            0 <= i < j < without(es, d).len() ==> #[trigger] without(es, d)[i].0
                != #[trigger] without(es, d)[j].0,
    decreases es.len(),
{
    if es.len() > 0 {
        let rest = es.drop_last();
        lemma_without_unique(rest, d);
        lemma_without_shape(rest, d);
        let w = without(es, d);
        let wr = without(rest, d);
        if es.last().0 != d {
            assert forall|i: int, j: int| 0 <= i < j < w.len() implies #[trigger] w[i].0
                != #[trigger] w[j].0 by {
                if j == w.len() - 1 {
                    assert(rest.contains(wr[i]));
                    let k = choose|k: int| 0 <= k < rest.len() && rest[k] == wr[i];
                    assert(es[k].0 != es[es.len() - 1].0);
                }
            }
        }
    }
}

impl Registry {
    /// An empty versions directory and no pointer.
    pub fn new() -> (r: Registry)
        ensures
            r@.entries.len() == 0,
            r@.current is None,
            well_formed(r@),
    {
        Registry { entries: Vec::new(), current: None }
    }

    /// The index of the entry named `d`.
    fn find(&self, d: &String) -> (r: Option<usize>)
        ensures
            match r {
                Some(i) => i < self@.entries.len() && self@.entries[i as int].0 == d@,
                None => !has_dir(self@.entries, d@),
            },
    {
        let mut i: usize = 0;
        while i < self.entries.len()
            invariant
                i <= self.entries@.len(),
                forall|k: int| 0 <= k < i ==> #[trigger] self.entries@[k].name@ != d@,
            decreases self.entries@.len() - i,
        {
            if self.entries[i].name == *d {
                return Some(i);
            }
            i += 1;
        }
        assert forall|k: int| 0 <= k < self@.entries.len() implies #[trigger] self@.entries[k].0
            != d@ by {
            assert(self@.entries[k].0 == self.entries@[k].name@);
        }
        None
    }

    /// Drops the entry named `d`, if there is one.
    fn remove_dir(&mut self, d: &String)
        ensures
            final(self)@.entries == without(old(self)@.entries, d@),
            final(self)@.current == old(self)@.current,
    {
        let ghost es = self@.entries;
        let mut kept: Vec<Entry> = Vec::new();
        let mut i: usize = 0;
        while i < self.entries.len()
            invariant
                i <= self.entries@.len(),
                es == entry_views(self.entries@),
                entry_views(kept@) == without(es.subrange(0, i as int), d@),
            decreases self.entries@.len() - i,
        {
            let ghost pre = es.subrange(0, i as int);
            assert(es.subrange(0, i + 1).drop_last() =~= pre);
            assert(es.subrange(0, i + 1).last() == self.entries@[i as int]@);
            if self.entries[i].name != *d {
                let e = Entry { name: self.entries[i].name.clone(), has_bin: self.entries[i].has_bin };
                kept.push(e);
                assert(entry_views(kept@) =~= without(es.subrange(0, i + 1), d@));
            }
            i += 1;
        }
        assert(es.subrange(0, es.len() as int) =~= es);
        self.entries = kept;
    }

    /// Whether the version's directory exists; its contents are not looked at.
    pub fn has_version(&self, v: &GoVersion) -> (r: bool)
        ensures
            r == has_dir(self@.entries, dir_name(*v)),
    {
        let d = v.to_dir_name();
        self.find(&d).is_some()
    }

    /// The installed versions, most recent first; directory names that are
    /// not versions are skipped.
    pub fn list(&self) -> (r: Vec<GoVersion>)
        ensures
            descending(r@),
            r@.to_multiset() == listed(names_of(self@.entries)).to_multiset(),
    {
        let mut names: Vec<String> = Vec::new();
        let mut i: usize = 0;
        while i < self.entries.len()
            invariant
                i <= self.entries@.len(),
                string_views(names@) == names_of(self@.entries).subrange(0, i as int),
            decreases self.entries@.len() - i,
        {
            let nm = self.entries[i].name.clone();
            assert(nm@ == names_of(self@.entries)[i as int]);
            let ghost before = names@;
            names.push(nm);
            assert(string_views(names@) =~= string_views(before).push(nm@));
            i += 1;
            assert(string_views(names@) =~= names_of(self@.entries).subrange(0, i as int));
        }
        assert(names_of(self@.entries).subrange(0, i as int) =~= names_of(self@.entries));
        sorted_versions(&names)
    }

    /// Installs `v` from an archive of the given file name: a directory of
    /// the same name is replaced, not merged. An archive name without a
    /// known extension is refused and nothing changes.
    pub fn install(&mut self, archive_name: &str, v: &GoVersion) -> (r: Result<
        InstallPlan,
        RegistryError,
    >)
        requires
            well_formed(old(self)@),
        ensures
            well_formed(final(self)@),
            match archive_format_of(archive_name@) {
                None => r == Err::<InstallPlan, RegistryError>(RegistryError::UnknownFormat)
                    && final(self)@ == old(self)@,
                Some(f) => r is Ok && final(self)@ == installed(old(self)@, *v) && r->Ok_0.dir@
                    == dir_name(*v) && r->Ok_0.replace == has_dir(old(self)@.entries, dir_name(*v))
                    && r->Ok_0.format == f,
            },
    {
        let format = match archive_format(archive_name) {
            Some(f) => f,
            None => {
                return Err(RegistryError::UnknownFormat);
            },
        };
        let d = v.to_dir_name();
        let replace = self.find(&d).is_some();
        let ghost es = self@.entries;
        self.remove_dir(&d);
        proof {
            lemma_without_shape(es, d@);
            lemma_without_unique(es, d@);
        }
        self.entries.push(Entry { name: d.clone(), has_bin: true });
        assert(self@.entries =~= without(es, d@).push((d@, true)));
        Ok(InstallPlan { dir: d, replace, format })
    }

    /// Removes the version's directory; refused when it does not exist.
    /// Whether the version is active is not looked at.
    pub fn uninstall(&mut self, v: &GoVersion) -> (r: Result<String, RegistryError>)
        requires
            well_formed(old(self)@),
        ensures
            well_formed(final(self)@),
            !has_dir(old(self)@.entries, dir_name(*v)) ==> r == Err::<String, RegistryError>(
                RegistryError::NotFound,
            ) && final(self)@ == old(self)@,
            has_dir(old(self)@.entries, dir_name(*v)) ==> r is Ok && r->Ok_0@ == dir_name(*v)
                && final(self)@ == uninstalled(old(self)@, *v),
    {
        let d = v.to_dir_name();
        if self.find(&d).is_none() {
            return Err(RegistryError::NotFound);
        }
        let ghost es = self@.entries;
        self.remove_dir(&d);
        proof {
            lemma_without_unique(es, d@);
        }
        Ok(d)
    }

    /// Points `current` at the version's entry. Refused, with nothing
    /// changed, when the version is not installed or its entry has no `bin`.
    pub fn switch_to(&mut self, v: &GoVersion) -> (r: Result<SwitchPlan, RegistryError>)
        requires
            well_formed(old(self)@),
        ensures
            well_formed(final(self)@),
            !has_dir(old(self)@.entries, dir_name(*v)) ==> r == Err::<SwitchPlan, RegistryError>(
                RegistryError::NotFound,
            ) && final(self)@ == old(self)@,
            has_dir(old(self)@.entries, dir_name(*v)) && !has_bin_dir(
                old(self)@.entries,
                dir_name(*v),
            ) ==> r == Err::<SwitchPlan, RegistryError>(RegistryError::InvalidInstallation)
                && final(self)@ == old(self)@,
            has_bin_dir(old(self)@.entries, dir_name(*v)) ==> r is Ok && final(self)@ == switched(
                old(self)@,
                *v,
            ) && r->Ok_0.dir@ == dir_name(*v) && r->Ok_0.remove_pointer == old(
                self,
            )@.current is Some,
    {
        let d = v.to_dir_name();
        match self.find(&d) {
            None => {
                assert(!has_bin_dir(self@.entries, d@)) by {
                    if has_bin_dir(self@.entries, d@) {
                        let k = choose|k: int|
                            0 <= k < self@.entries.len() && #[trigger] self@.entries[k] == (
                                d@,
                                true,
                            );
                        assert(self@.entries[k].0 == d@);
                    }
                }
                Err(RegistryError::NotFound)
            },
            Some(i) => {
                if !self.entries[i].has_bin {
                    assert(!has_bin_dir(self@.entries, d@)) by {
                        if has_bin_dir(self@.entries, d@) {
                            let k = choose|k: int|
                                0 <= k < self@.entries.len() && #[trigger] self@.entries[k] == (
                                    d@,
                                    true,
                                );
                            if k < i {
                                assert(self@.entries[k].0 != self@.entries[i as int].0);
                            } else if k > i {
                                assert(self@.entries[i as int].0 != self@.entries[k].0);
                            }
                        }
                    }
                    return Err(RegistryError::InvalidInstallation);
                }
                assert(self@.entries[i as int] == (d@, true));
                let remove_pointer = self.current.is_some();
                self.current = Some(d.clone());
                Ok(SwitchPlan { dir: d, remove_pointer })
            },
        }
    }

    /// The active version, as the toolchain behind `current` reports it
    /// (`report` is what its version query printed, `None` when it could
    /// not be run or failed); `None` without a pointer or without a
    /// readable answer.
    pub fn current_version(&self, report: Option<&str>) -> (r: Option<GoVersion>)
        ensures
            r == current_of(
                self@,
                match report {
                    Some(s) => Some(s@),
                    None => None,
                },
            ),
    {
        if self.current.is_none() {
            return None;
        }
        match report {
            Some(out) => version_from_report(out),
            None => None,
        }
    }
}

/// Whether the version is installed in the registry.
pub fn is_version_installed(registry: &Registry, version: &GoVersion) -> (r: bool)
    ensures
        r == has_dir(registry@.entries, dir_name(*version)),
{
    registry.has_version(version)
}

/// The installed versions, most recent first.
pub fn get_installed_versions(registry: &Registry) -> (r: Vec<GoVersion>)
    ensures
        descending(r@),
        r@.to_multiset() == listed(names_of(registry@.entries)).to_multiset(),
{
    registry.list()
}


proof fn lemma_listed_absent(ns: Seq<Seq<char>>, v: GoVersion)
    requires
        forall|i: int| 0 <= i < ns.len() ==> parsed(#[trigger] ns[i]) != Some(v),
    ensures
        listed(ns).to_multiset().count(v) == 0,
    decreases ns.len(),
{
    broadcast use vstd::multiset::group_multiset_axioms;

    if ns.len() > 0 {
        let rest = ns.drop_last();
        assert forall|i: int| 0 <= i < rest.len() implies parsed(#[trigger] rest[i]) != Some(v) by {
            assert(rest[i] == ns[i]);
        }
        lemma_listed_absent(rest, v);
        assert(parsed(ns[ns.len() - 1]) != Some(v));
    }
}

/// After `install(v)` the registry has `v`'s directory and lists `v`
/// exactly once, provided no other directory name already denotes `v`
/// (such as `v1.21.5` beside `1.21.5`).
pub proof fn lemma_install_lists_once(r: RegistryView, v: GoVersion)
    requires
        forall|i: int|
            0 <= i < r.entries.len() && parsed(#[trigger] r.entries[i].0) == Some(v)
                ==> r.entries[i].0 == dir_name(v),
    ensures
        has_dir(installed(r, v).entries, dir_name(v)),
        listed(names_of(installed(r, v).entries)).to_multiset().count(v) == 1,
{
    broadcast use vstd::multiset::group_multiset_axioms;

    let d = dir_name(v);
    let w = without(r.entries, d);
    let es = installed(r, v).entries;
    lemma_without_shape(r.entries, d);
    assert(es[es.len() - 1].0 == d);
    let ns = names_of(w);
    assert forall|i: int| 0 <= i < ns.len() implies parsed(#[trigger] ns[i]) != Some(v) by {
        assert(r.entries.contains(w[i]));
        let k = choose|k: int| 0 <= k < r.entries.len() && r.entries[k] == w[i];
        assert(r.entries[k].0 == w[i].0);
        assert(w[i].0 != d);
    }
    lemma_listed_absent(ns, v);
    assert(names_of(es) =~= ns.push(d));
    assert(names_of(es).drop_last() =~= ns);
    lemma_dir_name_round_trip(v);
}

/// After `uninstall(v)` the registry no longer has `v`'s directory.
pub proof fn lemma_uninstall_removes(r: RegistryView, v: GoVersion)
    ensures
        !has_dir(uninstalled(r, v).entries, dir_name(v)),
{
    lemma_without_shape(r.entries, dir_name(v));
}

proof fn lemma_words_push_ws(p: Seq<char>, c: char)
    requires
        is_ws(c),
    ensures
        words(p.push(c)) == words(p),
{
    assert(p.push(c).drop_last() =~= p);
}

proof fn lemma_words_append_word(p: Seq<char>, w: Seq<char>)
    requires
        p.len() == 0 || is_ws(p.last()),
        w.len() > 0,
        forall|i: int| 0 <= i < w.len() ==> !is_ws(#[trigger] w[i]),
    ensures
        words(p + w) == words(p).push(w),
    decreases w.len(),
{
    let s = p + w;
    assert(s.drop_last() =~= p + w.drop_last());
    assert(s.last() == w.last());
    if w.len() == 1 {
        assert(p + w.drop_last() =~= p);
        if s.len() >= 2 {
            assert(s[s.len() - 2] == p.last());
        }
        assert(seq![w.last()] =~= w);
    } else {
        lemma_words_append_word(p, w.drop_last());
        assert(s[s.len() - 2] == w[w.len() - 2]);
        assert(w.drop_last().push(w.last()) =~= w);
        assert(words(p).push(w.drop_last()).update(
            words(p).len() as int,
            w.drop_last().push(w.last()),
        ) =~= words(p).push(w));
    }
}

/// What a toolchain of version `v` prints on its version query:
/// `go version go<v> <platform>`.
pub open spec fn version_report(v: GoVersion, platform: Seq<char>) -> Seq<char> {
    seq!['g', 'o', ' ', 'v', 'e', 'r', 's', 'i', 'o', 'n', ' '] + download_name(v) + seq![' ']
        + platform
}

/// After switching to `v`, `current` gives `v` back when the toolchain in
/// `v`'s entry reports its own version.
pub proof fn lemma_switch_then_current(r: RegistryView, v: GoVersion, platform: Seq<char>)
    requires
        platform.len() > 0,
        forall|i: int| 0 <= i < platform.len() ==> !is_ws(#[trigger] platform[i]),
    ensures
        current_of(switched(r, v), Some(version_report(v, platform))) == Some(v),
{
    let x = download_name(v);
    let d = dir_name(v);
    lemma_decimal(v.major as nat);
    lemma_decimal(v.minor as nat);
    lemma_decimal(v.patch as nat);
    assert forall|i: int| 0 <= i < d.len() implies is_digit(#[trigger] d[i]) || d[i] == '.' by {
        let a = decimal(v.major as nat);
        let b = decimal(v.minor as nat);
        let c = decimal(v.patch as nat);
        if i < a.len() {
            assert(is_digit(a[i]));
        } else if i == a.len() {
        } else if i < a.len() + 1 + b.len() {
            assert(is_digit(b[i - a.len() - 1]));
        } else if i == a.len() + 1 + b.len() {
        } else {
            assert(is_digit(c[i - a.len() - 2 - b.len()]));
        }
    }
    assert forall|i: int| 0 <= i < x.len() implies !is_ws(#[trigger] x[i]) by {
        if i >= 2 {
            assert(x[i] == d[i - 2]);
            assert(is_digit(d[i - 2]) || d[i - 2] == '.');
        }
    }
    let go = seq!['g', 'o'];
    let ver = seq!['v', 'e', 'r', 's', 'i', 'o', 'n'];
    let e = Seq::<char>::empty();
    lemma_words_append_word(e, go);
    assert(e + go =~= go);
    lemma_words_push_ws(go, ' ');
    lemma_words_append_word(go.push(' '), ver);
    let s2 = go.push(' ') + ver;
    lemma_words_push_ws(s2, ' ');
    lemma_words_append_word(s2.push(' '), x);
    let s3 = s2.push(' ') + x;
    lemma_words_push_ws(s3, ' ');
    lemma_words_append_word(s3.push(' '), platform);
    assert(s3.push(' ') + platform =~= version_report(v, platform));
    assert(words(version_report(v, platform))[1] == ver);
    assert(words(version_report(v, platform))[2] == x);
    lemma_prefixes_agree(v.major, v.minor, v.patch);
}

} // verus!
