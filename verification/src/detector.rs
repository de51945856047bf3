//! Discovery: recognising installations on disk and reading what their launcher reports.
//!
//! The library does not touch the disk and starts no process. The caller walks the
//! directories, runs each launcher with `-version` and hands over what it saw; the
//! decisions are taken here.

use vstd::prelude::*;
use vstd::string::StringExecFns;

use crate::config::{
    paths_distinct, paths_tidy, records, tracks_path, JavaVersion, JavaVersionView,
};
use crate::error::{JamanError, JamanErrorView};
use crate::number::{parse_number, parse_u32};
use crate::pattern::{first_group, regex_accepts, regex_first_group};
use crate::platform::{is_tidy, joined, parent_path, tidy, Platform};
use crate::text::{
    chars_of, contains, contains_seq, dedup_texts, distinct_first, first_index,
    lemma_first_index_is, lines, lines_seq, slice_of, starts_with, starts_with_seq, string_of,
    text_of, texts, trim, trimmed, views,
};

verus! {

// ---------------------------------------------------------------------------
// Version strings
// ---------------------------------------------------------------------------

/// A legacy version string `1.<major>.<rest>` without its leading `1.`; any other
/// string unchanged. Only the prefix goes: a later `1.` stays.
pub open spec fn normalized(version: Seq<char>) -> Seq<char> {
    if starts_with_seq(version, "1."@) {
        version.skip(2)
    } else {
        version
    }
}

/// The part of a version string before its first `.`: the whole string where it has none.
pub open spec fn major_token(version: Seq<char>) -> Seq<char> {
    version.take(first_index(version, '.'))
}

/// The major version that a version string names, `None` where its first token is not
/// a number.
pub open spec fn major_of(version: Seq<char>) -> Option<u32> {
    parse_u32(major_token(version))
}

/// Whether `major` is a long-term-support release.
pub open spec fn is_lts_major(major: u32) -> bool {
    major == 8 || major == 11 || major == 17 || major == 21
}

/// Whether a version string names a long-term-support release. One whose major version
/// cannot be read does not.
pub open spec fn is_lts(version: Seq<char>) -> bool {
    match major_of(version) {
        Some(major) => is_lts_major(major),
        None => false,
    }
}

/// The architecture named in the output of a version probe, `native` where it names none.
pub open spec fn architecture_of(output: Seq<char>, native: Seq<char>) -> Seq<char> {
    if contains_seq(output, "64-Bit"@) || contains_seq(output, "x86_64"@) || contains_seq(
        output,
        "amd64"@,
    ) {
        "x64"@
    } else if contains_seq(output, "aarch64"@) || contains_seq(output, "arm64"@) {
        "arm64"@
    } else if contains_seq(output, "x86"@) || contains_seq(output, "i386"@) {
        "x86"@
    } else {
        native
    }
}

/// The pattern that finds the version in the output of a version probe.
pub open spec fn version_pattern() -> Seq<char> {
    "(?:java|openjdk) version \"([^\"]+)\""@
}

/// The pattern that finds a known vendor's name in the output of a version probe.
pub open spec fn vendor_pattern() -> Seq<char> {
    "(?i)(openjdk|oracle|adoptium|eclipse|corretto|amazon|zulu|azul|graalvm|bellsoft|liberica|microsoft|temurin)"@
}

/// The version and the vendor, given what the two patterns found: the version
/// normalized, the vendor `Unknown` where none was found. Without a version there is
/// nothing.
pub open spec fn version_and_vendor(version: Option<Seq<char>>, vendor: Option<Seq<char>>) -> Option<
    (Seq<char>, Seq<char>),
> {
    match version {
        Some(v) => Some(
            (
                normalized(v),
                match vendor {
                    Some(name) => name,
                    None => "Unknown"@,
                },
            ),
        ),
        None => None,
    }
}

/// The version and the vendor that the output of a version probe names.
pub open spec fn parsed_output(output: Seq<char>) -> Option<(Seq<char>, Seq<char>)> {
    if regex_accepts(version_pattern()) && regex_accepts(vendor_pattern()) {
        version_and_vendor(
            regex_first_group(version_pattern(), output),
            regex_first_group(vendor_pattern(), output),
        )
    } else {
        None
    }
}

/// The record of the installation at `path` whose launcher printed `output`. The record
/// holds the path without separators at its end.
pub open spec fn detected(
    path: Seq<char>,
    output: Seq<char>,
    native: Seq<char>,
    platform: Platform,
) -> Option<JavaVersionView> {
    match parsed_output(output) {
        Some((version, vendor)) => Some(
            JavaVersionView {
                version,
                vendor,
                path: tidy(path, platform),
                is_lts: is_lts(version),
                architecture: architecture_of(output, native),
                last_used: None,
                auto_detected: true,
            },
        ),
        None => None,
    }
}

/// Normalizing `1.<major>.<rest>` gives `<major>.<rest>`, whatever `major` and `rest`
/// hold: a `1.` further on is not touched.
pub proof fn lemma_normalize_legacy(major: Seq<char>, rest: Seq<char>)
    ensures
        normalized("1."@ + major + "."@ + rest) == major + "."@ + rest,
{
    reveal_strlit("1.");
    let v = "1."@ + major + "."@ + rest;
    assert(v.subrange(0, 2) =~= "1."@);
    assert(v.skip(2) =~= major + "."@ + rest);
}

/// The long-term-support majors are 8, 11, 17 and 21 and no others; a version whose
/// major cannot be read is not one.
pub proof fn lemma_lts_by_major(version: Seq<char>)
    ensures
        is_lts(version) <==> (major_of(version) == Some(8u32) || major_of(version) == Some(11u32)
            || major_of(version) == Some(17u32) || major_of(version) == Some(21u32)),
        major_of(version) is None ==> !is_lts(version),
{
}

/// Two versions with the same major version are long-term-support releases together or
/// not at all.
pub proof fn lemma_lts_depends_on_major(a: Seq<char>, b: Seq<char>)
    requires
        major_of(a) == major_of(b),
    ensures
        is_lts(a) == is_lts(b),
{
}

// ---------------------------------------------------------------------------
// Search roots
// ---------------------------------------------------------------------------

/// The number of drive letters.
pub const DRIVE_LETTERS: usize = 26;

/// The root directory of the drive with the letter number `i`, counted from `A`.
pub open spec fn drive_root(i: int) -> Seq<char> {
    seq![(('A' as u8) + i) as char, ':', '\\']
}

/// The roots of the first `n` drive letters that `present` marks as existing. A letter
/// without an entry in `present` counts as absent.
pub open spec fn available_drives(present: Seq<bool>, n: int) -> Seq<Seq<char>>
    decreases n,
{
    if n <= 0 {
        Seq::empty()
    } else if n - 1 < present.len() && present[n - 1] {
        available_drives(present, n - 1).push(drive_root(n - 1))
    } else {
        available_drives(present, n - 1)
    }
}

/// The directories below a drive's root in which vendors install runtimes: the parent
/// and the vendor's own directory.
pub open spec fn program_dirs() -> Seq<(Seq<char>, Seq<char>)> {
    seq![
        ("Program Files"@, "Java"@),
        ("Program Files"@, "Eclipse Adoptium"@),
        ("Program Files"@, "Eclipse Foundation"@),
        ("Program Files"@, "Amazon Corretto"@),
        ("Program Files"@, "Zulu"@),
        ("Program Files"@, "BellSoft"@),
        ("Program Files"@, "Microsoft"@),
        ("Program Files"@, "GraalVM"@),
        ("Program Files"@, "Azul"@),
        ("Program Files"@, "Liberica"@),
        ("Program Files (x86)"@, "Java"@),
        ("Program Files (x86)"@, "Eclipse Adoptium"@),
    ]
}

/// The search roots on one drive.
pub open spec fn drive_search_roots(drive: Seq<char>) -> Seq<Seq<char>> {
    Seq::new(
        program_dirs().len(),
        |i: int|
            joined(
                joined(drive, program_dirs()[i].0, Platform::Windows),
                program_dirs()[i].1,
                Platform::Windows,
            ),
    )
}

/// The search roots on the given drives, drive by drive.
pub open spec fn windows_roots(drives: Seq<Seq<char>>) -> Seq<Seq<char>>
    decreases drives.len(),
{
    if drives.len() == 0 {
        Seq::empty()
    } else {
        windows_roots(drives.drop_last()) + drive_search_roots(drives.last())
    }
}

/// The system-wide search roots of the Unix family.
pub open spec fn unix_system_roots() -> Seq<Seq<char>> {
    seq!["/usr/lib/jvm"@, "/usr/java"@, "/opt/java"@, "/Library/Java/JavaVirtualMachines"@]
}

/// The search roots below a user's home directory: where SDKMAN and jEnv keep runtimes.
pub open spec fn unix_user_roots(home: Seq<char>, platform: Platform) -> Seq<Seq<char>> {
    seq![
        joined(joined(joined(home, ".sdkman"@, platform), "candidates"@, platform), "java"@, platform),
        joined(joined(home, ".jenv"@, platform), "versions"@, platform),
    ]
}

/// The search roots before duplicates are dropped.
pub open spec fn raw_search_roots(
    platform: Platform,
    home: Option<Seq<char>>,
    drives: Seq<Seq<char>>,
) -> Seq<Seq<char>> {
    if platform == Platform::Windows {
        windows_roots(drives)
    } else {
        match home {
            Some(h) => unix_system_roots() + unix_user_roots(h, platform),
            None => unix_system_roots(),
        }
    }
}

/// The directories in which installations are looked for, in the order of the search
/// and each once.
pub open spec fn search_roots(
    platform: Platform,
    home: Option<Seq<char>>,
    drives: Seq<Seq<char>>,
) -> Seq<Seq<char>> {
    distinct_first(raw_search_roots(platform, home, drives))
}

// ---------------------------------------------------------------------------
// The launcher on the search path
// ---------------------------------------------------------------------------

/// The installation root that a launcher's path points at: the directory two levels
/// up, where there is one.
pub open spec fn root_of_launcher(launcher: Seq<char>, platform: Platform) -> Option<Seq<char>> {
    match parent_path(launcher, platform) {
        Some(bin) => parent_path(bin, platform),
        None => None,
    }
}

/// The launcher paths in the answer of the system's executable lookup: on Windows each
/// line, elsewhere the answer as a whole; in both cases without the white space around.
pub open spec fn lookup_entries(answer: Seq<char>, platform: Platform) -> Seq<Seq<char>> {
    if platform == Platform::Windows {
        lines_seq(answer).map_values(|line: Seq<char>| trimmed(line))
    } else {
        seq![trimmed(answer)]
    }
}

/// The installation roots that the launcher paths point at, in their order.
pub open spec fn roots_of_launchers(entries: Seq<Seq<char>>, platform: Platform) -> Seq<Seq<char>> {
    entries.filter_map(|entry: Seq<char>| root_of_launcher(entry, platform))
}

/// The directories that may hold the installation which the shell resolves: those two
/// levels above the launchers that the lookup answered with and, on Windows, the value
/// of the home variable where the launcher on the search path runs.
pub open spec fn roots_from_path(
    answer: Option<Seq<char>>,
    java_runs: bool,
    java_home: Option<Seq<char>>,
    platform: Platform,
) -> Seq<Seq<char>> {
    (match answer {
        Some(a) => roots_of_launchers(lookup_entries(a, platform), platform),
        None => Seq::empty(),
    }) + (if platform == Platform::Windows && java_runs && java_home is Some {
        seq![java_home->Some_0]
    } else {
        Seq::empty()
    })
}

// ---------------------------------------------------------------------------
// What the caller saw
// ---------------------------------------------------------------------------

/// A directory met during the walk of a search root, with what the caller saw in it.
#[derive(Debug)]
pub struct Candidate {
    /// The directory.
    pub path: String,
    /// Whether it holds an entry named `bin`.
    pub has_bin: bool,
    /// Whether the platform's launcher exists below `bin`.
    pub has_launcher: bool,
}

/// The result of running one installation's launcher with `-version`.
#[derive(Debug)]
pub struct Probe {
    /// The installation root.
    pub path: String,
    /// What the launcher wrote to its standard output and standard error, in that
    /// order; `None` where it could not be started.
    pub output: Option<String>,
}

/// The model of a [`Probe`].
pub struct ProbeView {
    pub path: Seq<char>,
    pub output: Option<Seq<char>>,
}

impl View for Probe {
    type V = ProbeView;

    open spec fn view(&self) -> ProbeView {
        ProbeView { path: self.path@, output: text_of(self.output) }
    }
}

/// The models of a sequence of probes.
pub open spec fn probes(ps: Seq<Probe>) -> Seq<ProbeView> {
    Seq::new(ps.len(), |i: int| ps[i]@)
}

/// Whether a directory is an installation root: it holds `bin`, and the launcher in it.
pub open spec fn is_root(c: Candidate) -> bool {
    c.has_bin && c.has_launcher
}

/// The paths of the installation roots among `cs`, in their order.
pub open spec fn roots_among(cs: Seq<Candidate>) -> Seq<Seq<char>>
    decreases cs.len(),
{
    if cs.len() == 0 {
        Seq::empty()
    } else if is_root(cs.last()) {
        roots_among(cs.drop_last()).push(cs.last().path@)
    } else {
        roots_among(cs.drop_last())
    }
}

/// The record that a probe yields: none where the launcher did not start or its output
/// cannot be read.
pub open spec fn probe_record(p: ProbeView, native: Seq<char>, platform: Platform) -> Option<
    JavaVersionView,
> {
    match p.output {
        Some(output) => detected(p.path, output, native, platform),
        None => None,
    }
}

/// The records that the probes yield, in their order.
pub open spec fn found_records(ps: Seq<ProbeView>, native: Seq<char>, platform: Platform) -> Seq<
    JavaVersionView,
> {
    ps.filter_map(|p: ProbeView| probe_record(p, native, platform))
}

/// The records of `vs` in their order, of each path only the last one.
pub open spec fn last_per_path(vs: Seq<JavaVersionView>) -> Seq<JavaVersionView>
    decreases vs.len(),
{
    if vs.len() == 0 {
        vs
    } else if tracks_path(vs.drop_first(), vs[0].path) {
        last_per_path(vs.drop_first())
    } else {
        seq![vs[0]] + last_per_path(vs.drop_first())
    }
}

/// The result of a scan: what the probes yield, of each path the last record.
pub open spec fn scanned(ps: Seq<ProbeView>, native: Seq<char>, platform: Platform) -> Seq<
    JavaVersionView,
> {
    last_per_path(found_records(ps, native, platform))
}

/// `last_per_path` keeps exactly the records that no later record at the same path
/// follows: it holds every path of `vs`, each once, and each of its records is in `vs`.
pub proof fn lemma_last_per_path(vs: Seq<JavaVersionView>)
    ensures
        paths_distinct(last_per_path(vs)),
        forall|p: Seq<char>| tracks_path(last_per_path(vs), p) <==> tracks_path(vs, p),
        forall|i: int|
            0 <= i < vs.len() ==> (last_per_path(vs).contains(#[trigger] vs[i]) <== !tracks_path(
                vs.skip(i + 1),
                vs[i].path,
            )),
        forall|k: int|
            0 <= k < last_per_path(vs).len() ==> vs.contains(#[trigger] last_per_path(vs)[k]),
    decreases vs.len(),
{
    if vs.len() > 0 {
        let rest = vs.drop_first();
        let head = vs[0];
        lemma_last_per_path(rest);
        let inner = last_per_path(rest);
        let out = last_per_path(vs);
        let later = tracks_path(rest, head.path);
        assert forall|p: Seq<char>| tracks_path(out, p) <==> tracks_path(vs, p) by {
            if tracks_path(out, p) {
                let k = choose|k: int| 0 <= k < out.len() && (#[trigger] out[k]).path == p;
                if !later && k == 0 {
                    assert(vs[0].path == p);
                } else {
                    let k2 = if later {
                        k
                    } else {
                        k - 1
                    };
                    assert(inner[k2].path == p);
                    assert(tracks_path(inner, p));
                    let m = choose|m: int| 0 <= m < rest.len() && (#[trigger] rest[m]).path == p;
                    assert(vs[m + 1].path == p);
                }
            }
            if tracks_path(vs, p) {
                let m = choose|m: int| 0 <= m < vs.len() && (#[trigger] vs[m]).path == p;
                if m == 0 && !later {
                    assert(out[0].path == p);
                } else {
                    if m > 0 {
                        assert(rest[m - 1].path == p);
                    }
                    assert(tracks_path(rest, p));
                    assert(tracks_path(inner, p));
                    let k = choose|k: int| 0 <= k < inner.len() && (#[trigger] inner[k]).path == p;
                    if later {
                        assert(out[k].path == p);
                    } else {
                        assert(out[k + 1].path == p);
                    }
                }
            }
        }
        assert forall|i: int| 0 <= i < vs.len() && !tracks_path(
            vs.skip(i + 1),
            (#[trigger] vs[i]).path,
        ) implies last_per_path(vs).contains(vs[i]) by {
            if i == 0 {
                assert(vs.skip(1) =~= rest);
                assert(out[0] == vs[0]);
            } else {
                assert(rest.skip(i) =~= vs.skip(i + 1));
                assert(rest[i - 1] == vs[i]);
                assert(inner.contains(rest[i - 1]));
                let k = choose|k: int| 0 <= k < inner.len() && inner[k] == vs[i];
                if later {
                    assert(out[k] == vs[i]);
                } else {
                    assert(out[k + 1] == vs[i]);
                }
            }
        }
        assert forall|k: int| 0 <= k < out.len() implies vs.contains(#[trigger] out[k]) by {
            if !later && k == 0 {
                assert(vs[0] == out[0]);
            } else {
                let k2 = if later {
                    k
                } else {
                    k - 1
                };
                assert(rest.contains(inner[k2]));
                let m = choose|m: int| 0 <= m < rest.len() && rest[m] == inner[k2];
                assert(vs[m + 1] == out[k]);
            }
        }
        if !later {
            assert forall|a: int, b: int| 0 <= a < b < out.len() implies (#[trigger] out[a]).path != (
            #[trigger] out[b]).path by {
                if a == 0 {
                    assert(inner[b - 1] == out[b]);
                    if out[b].path == head.path {
                        assert(tracks_path(inner, head.path));
                    }
                } else {
                    assert(inner[a - 1].path != inner[b - 1].path);
                }
            }
        }
    }
}

// ---------------------------------------------------------------------------
// Executable functions
// ---------------------------------------------------------------------------

/// Unit type that gathers the discovery functions.
pub struct JavaDetector;

impl JavaDetector {
    /// Strips the leading `1.` of a legacy version string.
    pub fn normalize_version(version: &str) -> (r: String)
        ensures
            r@ == normalized(version@),
    {
        let chars = chars_of(version);
        let legacy = chars_of("1.");
        proof {
            reveal_strlit("1.");
        }
        if starts_with(&chars, &legacy) {
            let rest = slice_of(&chars, 2, chars.len());
            assert(chars@.subrange(2, chars@.len() as int) =~= chars@.skip(2));
            string_of(&rest)
        } else {
            String::from_str(version)
        }
    }

    /// Whether a version string names a long-term-support release: one whose major
    /// version, the number before the first `.`, is 8, 11, 17 or 21.
    pub fn is_lts_version(version: &str) -> (r: bool)
        ensures
            r == is_lts(version@),
            r <==> (major_of(version@) == Some(8u32) || major_of(version@) == Some(11u32)
                || major_of(version@) == Some(17u32) || major_of(version@) == Some(21u32)),
    {
        let chars = chars_of(version);
        let mut end: usize = 0;
        while end < chars.len() && chars[end] != '.'
            invariant
                end <= chars.len(),
                forall|j: int| 0 <= j < end ==> chars@[j] != '.',
            decreases chars.len() - end,
        {
            end += 1;
        }
        proof {
            lemma_first_index_is(chars@, '.', end as int);
        }
        let token = slice_of(&chars, 0, end);
        assert(token@ =~= major_token(version@));
        match parse_number(&token) {
            Some(major) => major == 8 || major == 11 || major == 17 || major == 21,
            None => false,
        }
    }

    /// The architecture named in the output of a version probe: `x64`, `arm64` or
    /// `x86`, and `native` where the output names none.
    pub fn detect_architecture(output: &str, native: &str) -> (r: String)
        ensures
            r@ == architecture_of(output@, native@),
    {
        let text = chars_of(output);
        if contains(&text, &chars_of("64-Bit")) || contains(&text, &chars_of("x86_64")) || contains(
            &text,
            &chars_of("amd64"),
        ) {
            String::from_str("x64")
        } else if contains(&text, &chars_of("aarch64")) || contains(&text, &chars_of("arm64")) {
            String::from_str("arm64")
        } else if contains(&text, &chars_of("x86")) || contains(&text, &chars_of("i386")) {
            String::from_str("x86")
        } else {
            String::from_str(native)
        }
    }

    /// The version and the vendor, given what the two patterns found in the output of a
    /// version probe. The version is normalized; the vendor is `Unknown` where none was
    /// found. Without a version the output cannot be read.
    pub fn assemble_version(version: Option<String>, vendor: Option<String>) -> (r: Result<
        (String, String),
        JamanError,
    >)
        ensures
            match version_and_vendor(text_of(version), text_of(vendor)) {
                Some(pair) => r is Ok && r->Ok_0.0@ == pair.0 && r->Ok_0.1@ == pair.1,
                None => r is Err && r->Err_0@ == JamanErrorView::ParseFailure,
            },
    {
        match version {
            Some(v) => {
                let name = match vendor {
                    Some(name) => name,
                    None => String::from_str("Unknown"),
                };
                Ok((JavaDetector::normalize_version(v.as_str()), name))
            },
            None => Err(JamanError::ParseFailure),
        }
    }

    /// The version and the vendor that the output of a version probe names. The version
    /// is what stands between the quotes after `java version` or `openjdk version`; the
    /// vendor is the first known vendor name in the output, in any letter case.
    pub fn parse_version_output(output: &str) -> (r: Result<(String, String), JamanError>)
        ensures
            match parsed_output(output@) {
                Some(pair) => r is Ok && r->Ok_0.0@ == pair.0 && r->Ok_0.1@ == pair.1,
                None => r is Err && r->Err_0@ == JamanErrorView::ParseFailure,
            },
    {
        let version = first_group("(?:java|openjdk) version \"([^\"]+)\"", output);
        let vendor = first_group(
            "(?i)(openjdk|oracle|adoptium|eclipse|corretto|amazon|zulu|azul|graalvm|bellsoft|liberica|microsoft|temurin)",
            output,
        );
        match version {
            Ok(v) => match vendor {
                Ok(w) => JavaDetector::assemble_version(v, w),
                Err(_) => Err(JamanError::ParseFailure),
            },
            Err(_) => Err(JamanError::ParseFailure),
        }
    }

    /// The record of the installation at `path`, given the text that its launcher
    /// printed for `-version` and the host's own architecture name. The record is
    /// marked as found on disk and as never used, and holds the path without
    /// separators at its end.
    pub fn detect_version(path: &str, version_output: &str, native: &str, platform: Platform) -> (r:
        Result<JavaVersion, JamanError>)
        ensures
            match detected(path@, version_output@, native@, platform) {
                Some(record) => r is Ok && r->Ok_0@ == record && is_tidy(record.path, platform),
                None => r is Err && r->Err_0@ == JamanErrorView::ParseFailure,
            },
    {
        match JavaDetector::parse_version_output(version_output) {
            Ok((version, vendor)) => {
                let is_lts = JavaDetector::is_lts_version(version.as_str());
                let architecture = JavaDetector::detect_architecture(version_output, native);
                Ok(
                    JavaVersion::new(
                        version,
                        vendor,
                        platform.tidy(path),
                        is_lts,
                        architecture,
                        true,
                    ),
                )
            },
            Err(e) => Err(e),
        }
    }
    /// The installation root that a launcher's path points at: the directory two
    /// levels up, where there is one.
    pub fn launcher_root(launcher: &str, platform: Platform) -> (r: Option<String>)
        ensures
            text_of(r) == root_of_launcher(launcher@, platform),
    {
        match platform.parent(launcher) {
            Some(bin) => platform.parent(bin.as_str()),
            None => None,
        }
    }

    /// The directories that may hold the installation which the shell resolves. The
    /// caller hands over what it saw: `answer` is what the system's executable lookup
    /// (`where java` on Windows, `which java` elsewhere) printed, `None` where the
    /// lookup failed; `java_runs` tells whether the launcher on the search path could
    /// be run; `java_home` is the value of the home variable. The result names the
    /// directory two levels above each launcher in the answer and, on Windows, the home
    /// variable's value where the launcher runs. Whether a directory is an installation
    /// root is for the caller to see.
    pub fn detect_from_path(
        answer: Option<&str>,
        java_runs: bool,
        java_home: Option<&str>,
        platform: Platform,
    ) -> (r: Vec<String>)
        ensures
            texts(r@) == roots_from_path(
                match answer {
                    Some(a) => Some(a@),
                    None => None,
                },
                java_runs,
                match java_home {
                    Some(h) => Some(h@),
                    None => None,
                },
                platform,
            ),
    {
        let mut roots: Vec<String> = Vec::new();
        match answer {
            Some(a) => {
                let text = chars_of(a);
                let mut entries: Vec<Vec<char>> = Vec::new();
                match platform {
                    Platform::Windows => {
                        let all = lines(&text);
                        let mut i: usize = 0;
                        while i < all.len()
                            invariant
                                i <= all.len(),
                                entries@.len() == i,
                                forall|j: int| 0 <= j < i ==> (#[trigger] entries@[j])@ == trimmed(
                                    all@[j]@,
                                ),
                            decreases all.len() - i,
                        {
                            entries.push(trim(&all[i]));
                            i += 1;
                        }
                        assert(views(entries@) =~= views(all@).map_values(
                            |line: Seq<char>| trimmed(line),
                        ));
                    },
                    _ => {
                        entries.push(trim(&text));
                        assert(views(entries@) =~= seq![trimmed(a@)]);
                    },
                }
                assert(views(entries@) == lookup_entries(a@, platform));
                let ghost found = |entry: Seq<char>| root_of_launcher(entry, platform);
                let mut k: usize = 0;
                assert(views(entries@).take(0) =~= Seq::<Seq<char>>::empty());
                while k < entries.len()
                    invariant
                        k <= entries.len(),
                        found == |entry: Seq<char>| root_of_launcher(entry, platform),
                        texts(roots@) == views(entries@).take(k as int).filter_map(found),
                    decreases entries.len() - k,
                {
                    proof {
                        views(entries@).lemma_filter_map_take_succ(found, k as int);
                    }
                    let entry = string_of(&entries[k]);
                    match JavaDetector::launcher_root(entry.as_str(), platform) {
                        Some(root) => {
                            assert(texts(roots@.push(root)) =~= texts(roots@) + seq![root@]);
                            roots.push(root);
                        },
                        None => {
                            assert(texts(roots@) + Seq::<Seq<char>>::empty() =~= texts(roots@));
                        },
                    }
                    k += 1;
                }
                assert(views(entries@).take(entries.len() as int) =~= views(entries@));
            },
            None => {
                assert(texts(roots@) =~= Seq::<Seq<char>>::empty());
            },
        }
        let ghost from_lookup = texts(roots@);
        match platform {
            Platform::Windows => {
                if java_runs {
                    match java_home {
                        Some(home) => {
                            roots.push(String::from_str(home));
                            assert(texts(roots@) =~= from_lookup + seq![home@]);
                            return roots;
                        },
                        None => {},
                    }
                }
            },
            _ => {},
        }
        assert(texts(roots@) + Seq::<Seq<char>>::empty() =~= texts(roots@));
        roots
    }

    /// Whether a directory is an installation root: it holds `bin`, and the launcher
    /// in it.
    pub fn is_jdk_root(candidate: &Candidate) -> (r: bool)
        ensures
            r == is_root(*candidate),
    {
        if !candidate.has_bin {
            return false;
        }
        candidate.has_launcher
    }

    /// The paths of the installation roots among the directories met while walking a
    /// search root, in the order of the walk.
    pub fn scan_directory(entries: &Vec<Candidate>) -> (r: Vec<String>)
        ensures
            texts(r@) == roots_among(entries@),
    {
        let mut roots: Vec<String> = Vec::new();
        let mut i: usize = 0;
        assert(entries@.take(0) =~= Seq::<Candidate>::empty());
        while i < entries.len()
            invariant
                i <= entries.len(),
                texts(roots@) == roots_among(entries@.take(i as int)),
            decreases entries.len() - i,
        {
            proof {
                let upto = entries@.take(i + 1);
                assert(upto.drop_last() =~= entries@.take(i as int));
                assert(upto.last() == entries@[i as int]);
            }
            if JavaDetector::is_jdk_root(&entries[i]) {
                let path = entries[i].path.clone();
                assert(texts(roots@.push(path)) =~= texts(roots@).push(path@));
                roots.push(path);
            }
            i += 1;
        }
        assert(entries@.take(entries.len() as int) =~= entries@);
        roots
    }

    /// The roots of the drives that exist. `present` tells, letter by letter from `A`,
    /// whether the drive exists; a letter without an entry counts as absent.
    pub fn get_available_drives(present: &Vec<bool>) -> (r: Vec<String>)
        ensures
            texts(r@) == available_drives(present@, DRIVE_LETTERS as int),
    {
        let mut drives: Vec<String> = Vec::new();
        let mut i: usize = 0;
        while i < DRIVE_LETTERS
            invariant
                i <= DRIVE_LETTERS,
                texts(drives@) == available_drives(present@, i as int),
            decreases DRIVE_LETTERS - i,
        {
            if i < present.len() && present[i] {
                let letter = (('A' as u8) + (i as u8)) as char;
                let mut name: Vec<char> = Vec::new();
                name.push(letter);
                name.push(':');
                name.push('\\');
                let drive = string_of(&name);
                proof {
                    assert(drive@ =~= drive_root(i as int));
                    assert(texts(drives@.push(drive)) =~= texts(drives@).push(drive@));
                }
                drives.push(drive);
            }
            i += 1;
        }
        drives
    }

    /// The directories in which installations are looked for, in the order of the
    /// search and each once. On Windows these are the vendors' directories on each of
    /// `drives`; elsewhere the system-wide directories and, where `home` is known, the
    /// directories of the per-user SDK managers.
    pub fn get_search_paths(platform: Platform, home: Option<&str>, drives: &Vec<String>) -> (r:
        Vec<String>)
        ensures
            texts(r@) == search_roots(
                platform,
                match home {
                    Some(h) => Some(h@),
                    None => None,
                },
                texts(drives@),
            ),
            texts(r@).no_duplicates(),
    {
        let mut paths: Vec<String> = Vec::new();
        match platform {
            Platform::Windows => {
                let mut d: usize = 0;
                assert(texts(drives@).take(0) =~= Seq::<Seq<char>>::empty());
                while d < drives.len()
                    invariant
                        d <= drives.len(),
                        texts(paths@) == windows_roots(texts(drives@).take(d as int)),
                    decreases drives.len() - d,
                {
                    let ghost before = texts(paths@);
                    let w = Platform::Windows;
                    let drive = drives[d].as_str();
                    let files = w.join(drive, "Program Files");
                    let files32 = w.join(drive, "Program Files (x86)");
                    paths.push(w.join(files.as_str(), "Java"));
                    paths.push(w.join(files.as_str(), "Eclipse Adoptium"));
                    paths.push(w.join(files.as_str(), "Eclipse Foundation"));
                    paths.push(w.join(files.as_str(), "Amazon Corretto"));
                    paths.push(w.join(files.as_str(), "Zulu"));
                    paths.push(w.join(files.as_str(), "BellSoft"));
                    paths.push(w.join(files.as_str(), "Microsoft"));
                    paths.push(w.join(files.as_str(), "GraalVM"));
                    paths.push(w.join(files.as_str(), "Azul"));
                    paths.push(w.join(files.as_str(), "Liberica"));
                    paths.push(w.join(files32.as_str(), "Java"));
                    paths.push(w.join(files32.as_str(), "Eclipse Adoptium"));
                    proof {
                        let upto = texts(drives@).take(d + 1);
                        assert(upto.drop_last() =~= texts(drives@).take(d as int));
                        assert(upto.last() == drives@[d as int]@);
                        assert(texts(paths@) =~= before + drive_search_roots(drives@[d as int]@));
                    }
                    d += 1;
                }
                assert(texts(drives@).take(drives.len() as int) =~= texts(drives@));
            },
            _ => {
                paths.push(String::from_str("/usr/lib/jvm"));
                paths.push(String::from_str("/usr/java"));
                paths.push(String::from_str("/opt/java"));
                paths.push(String::from_str("/Library/Java/JavaVirtualMachines"));
                assert(texts(paths@) =~= unix_system_roots());
                match home {
                    Some(h) => {
                        let sdkman = platform.join(h, ".sdkman");
                        let candidates = platform.join(sdkman.as_str(), "candidates");
                        paths.push(platform.join(candidates.as_str(), "java"));
                        let jenv = platform.join(h, ".jenv");
                        paths.push(platform.join(jenv.as_str(), "versions"));
                        assert(texts(paths@) =~= unix_system_roots() + unix_user_roots(h@, platform));
                    },
                    None => {},
                }
            },
        }
        dedup_texts(paths)
    }

    /// Whether a record at `path` stands in `records` at index `from` or later.
    fn path_follows(records: &Vec<JavaVersion>, from: usize, path: &String) -> (r: bool)
        requires
            from <= records.len(),
        ensures
            r == tracks_path(crate::config::records(records@).skip(from as int), path@),
    {
        let ghost tail = crate::config::records(records@).skip(from as int);
        let mut j: usize = from;
        while j < records.len()
            invariant
                from <= j <= records.len(),
                tail == crate::config::records(records@).skip(from as int),
                forall|k: int| 0 <= k < j - from ==> (#[trigger] tail[k]).path != path@,
            decreases records.len() - j,
        {
            if records[j].path == *path {
                assert(tail[j - from].path == path@);
                return true;
            }
            j += 1;
        }
        false
    }

    /// The records in their order, of each path only the last one.
    pub fn dedup_by_path(found: &Vec<JavaVersion>) -> (r: Vec<JavaVersion>)
        ensures
            records(r@) == last_per_path(records(found@)),
            paths_distinct(records(r@)),
            forall|p: Seq<char>| tracks_path(records(r@), p) <==> tracks_path(records(found@), p),
    {
        let ghost all = records(found@);
        let mut out: Vec<JavaVersion> = Vec::new();
        let mut i: usize = 0;
        assert(all.skip(0) =~= all);
        while i < found.len()
            invariant
                i <= found.len(),
                all == records(found@),
                last_per_path(all) == records(out@) + last_per_path(all.skip(i as int)),
            decreases found.len() - i,
        {
            let ghost tail = all.skip(i as int);
            proof {
                assert(tail.drop_first() =~= all.skip(i + 1));
                assert(tail[0] == all[i as int]);
            }
            if !JavaDetector::path_follows(found, i + 1, &found[i].path) {
                let record = found[i].clone();
                proof {
                    assert(records(out@.push(record)) =~= records(out@) + seq![tail[0]]);
                }
                out.push(record);
            }
            i += 1;
        }
        proof {
            assert(all.skip(found.len() as int) =~= Seq::<JavaVersionView>::empty());
            assert(records(out@) + Seq::<JavaVersionView>::empty() =~= records(out@));
            lemma_last_per_path(all);
        }
        out
    }

    /// The installations that a scan found, given the result of probing each
    /// installation root. A probe whose launcher did not start, or whose output cannot
    /// be read, is passed over. Paths are held without separators at their end, and of
    /// several records at one path the last one stays. An empty result is no failure.
    pub fn scan_system(results: &Vec<Probe>, native: &str, platform: Platform) -> (r: Vec<
        JavaVersion,
    >)
        ensures
            records(r@) == scanned(probes(results@), native@, platform),
            paths_distinct(records(r@)),
            paths_tidy(records(r@), platform),
            forall|i: int|
                0 <= i < r@.len() ==> (#[trigger] r@[i]).auto_detected && r@[i].last_used is None,
    {
        let mut found: Vec<JavaVersion> = Vec::new();
        let mut i: usize = 0;
        assert(probes(results@).take(0) =~= Seq::<ProbeView>::empty());
        while i < results.len()
            invariant
                i <= results.len(),
                records(found@) == found_records(
                    probes(results@).take(i as int),
                    native@,
                    platform,
                ),
                forall|k: int|
                    0 <= k < found@.len() ==> (#[trigger] found@[k]).auto_detected
                        && found@[k].last_used is None && is_tidy(found@[k].path@, platform),
            decreases results.len() - i,
        {
            proof {
                probes(results@).lemma_filter_map_take_succ(
                    |p: ProbeView| probe_record(p, native@, platform),
                    i as int,
                );
            }
            match &results[i].output {
                Some(output) => {
                    match JavaDetector::detect_version(
                        results[i].path.as_str(),
                        output.as_str(),
                        native,
                        platform,
                    ) {
                        Ok(record) => {
                            proof {
                                assert(records(found@.push(record)) =~= records(found@) + seq![
                                    record@,
                                ]);
                            }
                            found.push(record);
                        },
                        Err(_) => {
                            assert(records(found@) + Seq::<JavaVersionView>::empty() =~= records(
                                found@,
                            ));
                        },
                    }
                },
                None => {
                    assert(records(found@) + Seq::<JavaVersionView>::empty() =~= records(found@));
                },
            }
            i += 1;
        }
        assert(probes(results@).take(results.len() as int) =~= probes(results@));
        let out = JavaDetector::dedup_by_path(&found);
        proof {
            lemma_last_per_path(records(found@));
            assert forall|k: int| 0 <= k < out@.len() implies (#[trigger] out@[k]).auto_detected
                && out@[k].last_used is None && is_tidy(out@[k].path@, platform) by {
                let v = records(out@)[k];
                assert(records(found@).contains(v));
                let m = choose|m: int| 0 <= m < records(found@).len() && records(found@)[m] == v;
                assert(found@[m]@ == out@[k]@);
            }
            assert forall|k: int| 0 <= k < records(out@).len() implies is_tidy(
                (#[trigger] records(out@)[k]).path,
                platform,
            ) by {
                assert(records(out@)[k] == out@[k]@);
            }
        }
        out
    }
}

} // verus!
