//! Acquisition: the catalog of installable versions, and the checks and names that
//! turn a downloaded archive into an installation.
//!
//! The library opens no connection and writes no file. The caller fetches the answers
//! of the catalog service and the bytes of the archive and hands them over; what is
//! asked for, what is accepted and where it goes is decided here.

use vstd::prelude::*;
use vstd::string::StringExecFns;

use crate::detector::{is_root, roots_among, Candidate, JavaDetector};
use crate::digest::{checksum_matches, digest_matches, sha256_hex};
use crate::error::{JamanError, JamanErrorView};
use crate::number::{decimal_text, to_decimal};
use crate::platform::{joined, Platform};
use crate::text::{
    chars_of, ends_with, ends_with_seq, replace_char, replaced_char, same_text, split, split_seq,
    string_of, text_of, texts, views,
};

verus! {

/// A version that the catalog offers for download.
#[derive(Debug)]
pub struct AvailableVersion {
    /// The version string, such as `21.0.1+12`.
    pub version: String,
    /// The distributor's name.
    pub vendor: String,
    /// Whether the catalog marks the major version as a long-term-support release.
    pub is_lts: bool,
    /// The processor architecture, in the words of the catalog.
    pub architecture: String,
    /// Where the archive is downloaded from.
    pub download_url: String,
    /// The SHA-256 digest of the archive in hexadecimal, where the catalog gives one.
    pub checksum: Option<String>,
}

/// The model of an [`AvailableVersion`].
pub struct AvailableVersionView {
    pub version: Seq<char>,
    pub vendor: Seq<char>,
    pub is_lts: bool,
    pub architecture: Seq<char>,
    pub download_url: Seq<char>,
    pub checksum: Option<Seq<char>>,
}

impl View for AvailableVersion {
    type V = AvailableVersionView;

    open spec fn view(&self) -> AvailableVersionView {
        AvailableVersionView {
            version: self.version@,
            vendor: self.vendor@,
            is_lts: self.is_lts,
            architecture: self.architecture@,
            download_url: self.download_url@,
            checksum: text_of(self.checksum),
        }
    }
}

impl Clone for AvailableVersion {
    fn clone(&self) -> (r: Self)
        ensures
            r == *self,
    {
        AvailableVersion {
            version: self.version.clone(),
            vendor: self.vendor.clone(),
            is_lts: self.is_lts,
            architecture: self.architecture.clone(),
            download_url: self.download_url.clone(),
            checksum: match &self.checksum {
                Some(c) => Some(c.clone()),
                None => None,
            },
        }
    }
}

/// The major versions that the catalog service publishes, and those among them that
/// it marks as long-term-support releases.
#[derive(Debug)]
pub struct AvailableReleases {
    pub available_releases: Vec<u32>,
    pub available_lts_releases: Vec<u32>,
}

/// One downloadable archive in an answer of the catalog service.
#[derive(Debug)]
pub struct Asset {
    /// The full version of the release.
    pub semver: String,
    /// Where the archive is downloaded from.
    pub link: String,
    /// The SHA-256 digest of the archive in hexadecimal.
    pub checksum: String,
}

/// The model of an [`Asset`].
pub struct AssetView {
    pub semver: Seq<char>,
    pub link: Seq<char>,
    pub checksum: Seq<char>,
}

impl View for Asset {
    type V = AssetView;

    open spec fn view(&self) -> AssetView {
        AssetView { semver: self.semver@, link: self.link@, checksum: self.checksum@ }
    }
}

/// The archive formats that can be unpacked.
#[derive(Debug, Clone, Copy, PartialEq, Eq, Structural)]
pub enum ArchiveFormat {
    /// A zip container.
    Zip,
    /// A gzip-compressed tar stream.
    TarGz,
}

/// What is settled about an installation before anything is unpacked.
#[derive(Debug)]
pub struct InstallPlan {
    /// The name under which the archive is stored while it is downloaded.
    pub file_name: String,
    /// The format of the archive.
    pub format: ArchiveFormat,
    /// The directory into which the archive is unpacked.
    pub extract_dir: String,
}

/// The model of an [`InstallPlan`].
pub struct InstallPlanView {
    pub file_name: Seq<char>,
    pub format: ArchiveFormat,
    pub extract_dir: Seq<char>,
}

impl View for InstallPlan {
    type V = InstallPlanView;

    open spec fn view(&self) -> InstallPlanView {
        InstallPlanView {
            file_name: self.file_name@,
            format: self.format,
            extract_dir: self.extract_dir@,
        }
    }
}

// ---------------------------------------------------------------------------
// Models
// ---------------------------------------------------------------------------

/// The largest number of major versions for which the catalog is asked.
pub const CATALOG_LIMIT: usize = 10;

/// How many items of `s` are greater than `m`.
pub open spec fn count_greater(s: Seq<u32>, m: u32) -> nat
    decreases s.len(),
{
    if s.len() == 0 {
        0
    } else {
        count_greater(s.drop_last(), m) + if s.last() > m {
            1nat
        } else {
            0nat
        }
    }
}

/// Whether `major` is among the most recent of `releases`: fewer than `CATALOG_LIMIT`
/// of them are greater.
pub open spec fn is_recent(releases: Seq<u32>, major: u32) -> bool {
    count_greater(releases, major) < CATALOG_LIMIT
}

/// The most recent of the published major versions, in the order in which they were
/// published, and `CATALOG_LIMIT` of them at most.
pub open spec fn recent_majors(releases: Seq<u32>) -> Seq<u32> {
    let recent = releases.filter(|m: u32| is_recent(releases, m));
    if recent.len() > CATALOG_LIMIT {
        recent.take(CATALOG_LIMIT as int)
    } else {
        recent
    }
}

/// The name of the platform in the words of the catalog service.
pub open spec fn os_name(platform: Platform) -> Seq<char> {
    match platform {
        Platform::Windows => "windows"@,
        Platform::MacOs => "mac"@,
        Platform::Linux => "linux"@,
    }
}

/// The name of the host's architecture in the words of the catalog service. What is
/// not a 64-bit ARM machine is asked for as `x64`.
pub open spec fn api_architecture(native: Seq<char>) -> Seq<char> {
    if native == "aarch64"@ {
        "aarch64"@
    } else {
        "x64"@
    }
}

/// The address that lists the published major versions.
pub open spec fn releases_address() -> Seq<char> {
    "https://api.adoptium.net/v3/info/available_releases"@
}

/// The address that lists the latest archives of `major` for an architecture and a
/// platform.
pub open spec fn assets_address(major: u32, architecture: Seq<char>, os: Seq<char>) -> Seq<char> {
    "https://api.adoptium.net/v3/assets/latest/"@ + decimal_text(major as nat)
        + "/hotspot?architecture="@ + architecture + "&image_type=jdk&os="@ + os
}

/// The catalog entry for one archive.
pub open spec fn entry_of(asset: AssetView, is_lts: bool, architecture: Seq<char>) -> AvailableVersionView {
    AvailableVersionView {
        version: asset.semver,
        vendor: "Eclipse Temurin"@,
        is_lts,
        architecture,
        download_url: asset.link,
        checksum: Some(asset.checksum),
    }
}

/// The catalog entries for the archives of one major version.
pub open spec fn entries_of(
    major: u32,
    lts: Seq<u32>,
    assets: Seq<AssetView>,
    architecture: Seq<char>,
) -> Seq<AvailableVersionView> {
    Seq::new(assets.len(), |i: int| entry_of(assets[i], lts.contains(major), architecture))
}

/// The catalog, given for each of `majors` the answer of the service: the entries of
/// each answered major, in the order of `majors`. A major without an answer adds
/// nothing.
pub open spec fn catalog(
    majors: Seq<u32>,
    lts: Seq<u32>,
    answers: Seq<Option<Seq<AssetView>>>,
    architecture: Seq<char>,
) -> Seq<AvailableVersionView>
    decreases majors.len(),
{
    if majors.len() == 0 {
        Seq::empty()
    } else {
        let k = majors.len() - 1;
        catalog(majors.drop_last(), lts, answers, architecture) + (if k < answers.len() {
            match answers[k] {
                Some(assets) => entries_of(majors[k], lts, assets, architecture),
                None => Seq::empty(),
            }
        } else {
            Seq::empty()
        })
    }
}

/// The models of a sequence of archives.
pub open spec fn assets_view(assets: Seq<Asset>) -> Seq<AssetView> {
    Seq::new(assets.len(), |i: int| assets[i]@)
}

/// The models of a sequence of answers.
pub open spec fn answers_view(answers: Seq<Option<Vec<Asset>>>) -> Seq<Option<Seq<AssetView>>> {
    Seq::new(
        answers.len(),
        |i: int|
            match answers[i] {
                Some(assets) => Some(assets_view(assets@)),
                None => None,
            },
    )
}

/// The models of a sequence of catalog entries.
pub open spec fn offers(vs: Seq<AvailableVersion>) -> Seq<AvailableVersionView> {
    Seq::new(vs.len(), |i: int| vs[i]@)
}

/// The name under which the archive behind `url` is stored: what follows the last `/`,
/// and `download.zip` where nothing follows it.
pub open spec fn file_name_of(url: Seq<char>) -> Seq<char> {
    let last = split_seq(url, '/').last();
    if last.len() == 0 {
        "download.zip"@
    } else {
        last
    }
}

/// The format that the name of an archive announces.
pub open spec fn format_of(name: Seq<char>) -> Option<ArchiveFormat> {
    if ends_with_seq(name, ".zip"@) {
        Some(ArchiveFormat::Zip)
    } else if ends_with_seq(name, ".gz"@) {
        Some(ArchiveFormat::TarGz)
    } else {
        None
    }
}

/// What follows the last `.` of `name`; nothing where it has none.
pub open spec fn extension_of(name: Seq<char>) -> Seq<char> {
    let pieces = split_seq(name, '.');
    if pieces.len() > 1 {
        pieces.last()
    } else {
        Seq::empty()
    }
}

/// The name of the directory that holds an installation from the catalog: the vendor
/// with `_` for each space, a hyphen, and the version.
pub open spec fn directory_name(vendor: Seq<char>, version: Seq<char>) -> Seq<char> {
    replaced_char(vendor, ' ', '_') + "-"@ + version
}

/// The plan for installing `v` below `installation_dir`, where its archive can be
/// unpacked.
pub open spec fn plan_for(
    v: AvailableVersionView,
    installation_dir: Seq<char>,
    platform: Platform,
) -> Option<InstallPlanView> {
    match format_of(file_name_of(v.download_url)) {
        Some(format) => Some(
            InstallPlanView {
                file_name: file_name_of(v.download_url),
                format,
                extract_dir: joined(installation_dir, directory_name(v.vendor, v.version), platform),
            },
        ),
        None => None,
    }
}

/// Whether the downloaded bytes pass the integrity check: without a published checksum
/// there is none to fail.
pub open spec fn download_intact(v: AvailableVersionView, data: Seq<u8>) -> bool {
    match v.checksum {
        Some(expected) => checksum_matches(data, expected),
        None => true,
    }
}

/// The installation root after unpacking: the only child directory that is an
/// installation root, where there is exactly one and the directory itself is none;
/// the directory itself otherwise.
pub open spec fn resolved_root(extracted: Candidate, children: Seq<Candidate>) -> Seq<char> {
    let roots = roots_among(children);
    if !is_root(extracted) && roots.len() == 1 {
        roots[0]
    } else {
        extracted.path@
    }
}

/// `split_seq` gives at least one piece.
pub proof fn lemma_split_nonempty(s: Seq<char>, sep: char)
    ensures
        split_seq(s, sep).len() >= 1,
    decreases s.len(),
{
    let i = crate::text::first_index(s, sep);
    crate::text::lemma_first_index(s, sep);
    if 0 <= i < s.len() {
        lemma_split_nonempty(s.subrange(i + 1, s.len() as int), sep);
    }
}

/// A name that ends in `.zip` announces a zip container, one that ends in `.tar.gz` a
/// gzip-compressed tar stream, and one that ends in neither `.zip` nor `.gz` nothing
/// that can be unpacked.
pub proof fn lemma_format_dispatch(name: Seq<char>)
    ensures
        ends_with_seq(name, ".zip"@) ==> format_of(name) == Some(ArchiveFormat::Zip),
        ends_with_seq(name, ".tar.gz"@) ==> format_of(name) == Some(ArchiveFormat::TarGz),
        !ends_with_seq(name, ".zip"@) && !ends_with_seq(name, ".gz"@) ==> format_of(name) is None,
{
    reveal_strlit(".zip");
    reveal_strlit(".gz");
    reveal_strlit(".tar.gz");
    if ends_with_seq(name, ".tar.gz"@) {
        let n = name.len() as int;
        let tail = name.subrange(n - 7, n);
        assert(tail == ".tar.gz"@);
        assert(name.subrange(n - 3, n) =~= tail.subrange(4, 7));
        assert(tail.subrange(4, 7) =~= ".gz"@);
        assert(ends_with_seq(name, ".gz"@));
        if ends_with_seq(name, ".zip"@) {
            assert(name.subrange(n - 4, n) =~= tail.subrange(3, 7));
            assert(tail.subrange(3, 7)[1] == 'z');
            assert(".zip"@[1] == 'z');
            assert(tail.subrange(3, 7)[0] == '.');
            assert(tail.subrange(3, 7)[2] == 'g');
            assert(".zip"@[2] == 'i');
            assert(false);
        }
    }
}

// ---------------------------------------------------------------------------
// Executable functions
// ---------------------------------------------------------------------------

/// Unit type that gathers the acquisition functions.
pub struct Downloader;

impl Downloader {
    /// How many items of `releases` are greater than `major`.
    fn greater_than(releases: &Vec<u32>, major: u32) -> (r: usize)
        ensures
            r == count_greater(releases@, major),
    {
        let mut count: usize = 0;
        let mut i: usize = 0;
        assert(releases@.take(0) =~= Seq::<u32>::empty());
        while i < releases.len()
            invariant
                i <= releases.len(),
                count <= i,
                count == count_greater(releases@.take(i as int), major),
            decreases releases.len() - i,
        {
            proof {
                let upto = releases@.take(i + 1);
                assert(upto.drop_last() =~= releases@.take(i as int));
                assert(upto.last() == releases@[i as int]);
            }
            if releases[i] > major {
                count += 1;
            }
            i += 1;
        }
        assert(releases@.take(releases.len() as int) =~= releases@);
        count
    }

    /// The major versions for which the catalog is asked: the most recent of the
    /// published ones, in the order in which they were published, ten at most.
    pub fn recent_majors(releases: &Vec<u32>) -> (r: Vec<u32>)
        ensures
            r@ == recent_majors(releases@),
            r@.len() <= CATALOG_LIMIT,
    {
        let ghost keep = |m: u32| is_recent(releases@, m);
        let mut out: Vec<u32> = Vec::new();
        let mut i: usize = 0;
        proof {
            assert(releases@.take(0) =~= Seq::<u32>::empty());
            reveal(Seq::filter);
        }
        while i < releases.len() && out.len() < CATALOG_LIMIT
            invariant
                i <= releases.len(),
                out@.len() <= CATALOG_LIMIT,
                keep == |m: u32| is_recent(releases@, m),
                out@ == releases@.take(i as int).filter(keep),
            decreases releases.len() - i,
        {
            proof {
                assert(releases@.take(i + 1) =~= releases@.take(i as int).push(releases@[i as int]));
                releases@.take(i as int).lemma_filter_push(releases@[i as int], keep);
            }
            if Downloader::greater_than(releases, releases[i]) < CATALOG_LIMIT {
                out.push(releases[i]);
            }
            i += 1;
        }
        proof {
            let done = releases@.take(i as int);
            let rest = releases@.skip(i as int);
            assert(releases@ =~= done + rest);
            Seq::filter_distributes_over_add(done, rest, keep);
            let all = releases@.filter(keep);
            assert(all == out@ + rest.filter(keep));
            if i == releases.len() {
                assert(rest =~= Seq::<u32>::empty());
                reveal(Seq::filter);
                assert(rest.filter(keep) =~= Seq::<u32>::empty());
                assert(all =~= out@);
            } else {
                assert(out@.len() == CATALOG_LIMIT);
                if all.len() > CATALOG_LIMIT {
                    assert(all.take(CATALOG_LIMIT as int) =~= out@);
                } else {
                    assert(all =~= out@);
                }
            }
        }
        out
    }

    /// The name of the platform in the words of the catalog service.
    pub fn os_name(platform: Platform) -> (r: String)
        ensures
            r@ == os_name(platform),
    {
        match platform {
            Platform::Windows => String::from_str("windows"),
            Platform::MacOs => String::from_str("mac"),
            Platform::Linux => String::from_str("linux"),
        }
    }

    /// The name of the host's architecture in the words of the catalog service.
    pub fn api_architecture(native: &str) -> (r: String)
        ensures
            r@ == api_architecture(native@),
    {
        if same_text(native, "aarch64") {
            String::from_str("aarch64")
        } else {
            String::from_str("x64")
        }
    }

    /// The address that lists the published major versions.
    pub fn releases_url() -> (r: String)
        ensures
            r@ == releases_address(),
    {
        String::from_str("https://api.adoptium.net/v3/info/available_releases")
    }

    /// The address that lists the latest archives of `major` for an architecture and a
    /// platform, both in the words of the catalog service.
    pub fn assets_url(major: u32, architecture: &str, os: &str) -> (r: String)
        ensures
            r@ == assets_address(major, architecture@, os@),
    {
        let number = to_decimal(major as u64);
        String::from_str("https://api.adoptium.net/v3/assets/latest/").concat(
            number.as_str(),
        ).concat("/hotspot?architecture=").concat(architecture).concat("&image_type=jdk&os=").concat(
            os,
        )
    }

    /// Whether `major` is among `lts`.
    fn is_listed(lts: &Vec<u32>, major: u32) -> (r: bool)
        ensures
            r == lts@.contains(major),
    {
        let mut i: usize = 0;
        while i < lts.len()
            invariant
                i <= lts.len(),
                forall|j: int| 0 <= j < i ==> lts@[j] != major,
            decreases lts.len() - i,
        {
            if lts[i] == major {
                return true;
            }
            i += 1;
        }
        false
    }

    /// The catalog, given the published releases and, for each of the majors that
    /// `recent_majors` selects, the answer of the service: `None` where the request
    /// for that major failed, and also where `answers` is too short to hold one. A
    /// major without an answer is passed over; it does not fail the catalog.
    pub fn fetch_adoptium_versions(
        releases: &AvailableReleases,
        answers: &Vec<Option<Vec<Asset>>>,
        native: &str,
    ) -> (r: Vec<AvailableVersion>)
        ensures
            offers(r@) == catalog(
                recent_majors(releases.available_releases@),
                releases.available_lts_releases@,
                answers_view(answers@),
                api_architecture(native@),
            ),
    {
        let majors = Downloader::recent_majors(&releases.available_releases);
        let architecture = Downloader::api_architecture(native);
        let ghost lts = releases.available_lts_releases@;
        let mut versions: Vec<AvailableVersion> = Vec::new();
        let mut k: usize = 0;
        assert(majors@.take(0) =~= Seq::<u32>::empty());
        while k < majors.len()
            invariant
                k <= majors.len(),
                lts == releases.available_lts_releases@,
                offers(versions@) == catalog(
                    majors@.take(k as int),
                    lts,
                    answers_view(answers@),
                    architecture@,
                ),
            decreases majors.len() - k,
        {
            let ghost before = offers(versions@);
            proof {
                let upto = majors@.take(k + 1);
                assert(upto.drop_last() =~= majors@.take(k as int));
                assert(upto[k as int] == majors@[k as int]);
            }
            if k < answers.len() {
                match &answers[k] {
                    Some(assets) => {
                        let is_lts = Downloader::is_listed(
                            &releases.available_lts_releases,
                            majors[k],
                        );
                        let mut a: usize = 0;
                        while a < assets.len()
                            invariant
                                a <= assets.len(),
                                k < majors.len(),
                                is_lts == lts.contains(majors@[k as int]),
                                offers(versions@) == before + entries_of(
                                    majors@[k as int],
                                    lts,
                                    assets_view(assets@),
                                    architecture@,
                                ).take(a as int),
                            decreases assets.len() - a,
                        {
                            let entry = AvailableVersion {
                                version: assets[a].semver.clone(),
                                vendor: String::from_str("Eclipse Temurin"),
                                is_lts,
                                architecture: architecture.clone(),
                                download_url: assets[a].link.clone(),
                                checksum: Some(assets[a].checksum.clone()),
                            };
                            proof {
                                let all = entries_of(
                                    majors@[k as int],
                                    lts,
                                    assets_view(assets@),
                                    architecture@,
                                );
                                assert(entry@ == all[a as int]);
                                assert(all.take(a + 1) =~= all.take(a as int).push(all[a as int]));
                                assert(offers(versions@.push(entry)) =~= offers(versions@).push(
                                    entry@,
                                ));
                                assert(offers(versions@.push(entry)) =~= before + all.take(a + 1));
                            }
                            versions.push(entry);
                            a += 1;
                        }
                        proof {
                            let all = entries_of(
                                majors@[k as int],
                                lts,
                                assets_view(assets@),
                                architecture@,
                            );
                            assert(all.take(assets.len() as int) =~= all);
                        }
                    },
                    None => {
                        assert(before + Seq::<AvailableVersionView>::empty() =~= before);
                    },
                }
            } else {
                assert(before + Seq::<AvailableVersionView>::empty() =~= before);
            }
            k += 1;
        }
        assert(majors@.take(majors.len() as int) =~= majors@);
        versions
    }

    /// The versions that can be installed: the catalog of the one service that is
    /// asked.
    pub fn fetch_available_versions(
        releases: &AvailableReleases,
        answers: &Vec<Option<Vec<Asset>>>,
        native: &str,
    ) -> (r: Vec<AvailableVersion>)
        ensures
            offers(r@) == catalog(
                recent_majors(releases.available_releases@),
                releases.available_lts_releases@,
                answers_view(answers@),
                api_architecture(native@),
            ),
    {
        Downloader::fetch_adoptium_versions(releases, answers, native)
    }

    /// The name under which the archive behind `url` is stored: what follows the last
    /// `/`, and `download.zip` where nothing follows it.
    pub fn extract_filename(url: &str) -> (r: String)
        ensures
            r@ == file_name_of(url@),
    {
        let pieces = split(&chars_of(url), '/');
        proof {
            lemma_split_nonempty(url@, '/');
        }
        let last = &pieces[pieces.len() - 1];
        assert(last@ == views(pieces@).last());
        if last.len() == 0 {
            String::from_str("download.zip")
        } else {
            string_of(last)
        }
    }

    /// The format of the archive with the given file name: a zip container where the
    /// name ends in `.zip`, a gzip-compressed tar stream where it ends in `.gz`. Any
    /// other name is refused, with what follows its last `.` in the error.
    pub fn archive_format(name: &str) -> (r: Result<ArchiveFormat, JamanError>)
        ensures
            match format_of(name@) {
                Some(format) => r == Ok::<ArchiveFormat, JamanError>(format),
                None => r is Err && r->Err_0@ == JamanErrorView::UnsupportedFormat(
                    extension_of(name@),
                ),
            },
            ends_with_seq(name@, ".zip"@) ==> r == Ok::<ArchiveFormat, JamanError>(ArchiveFormat::Zip),
            ends_with_seq(name@, ".tar.gz"@) ==> r == Ok::<ArchiveFormat, JamanError>(
                ArchiveFormat::TarGz,
            ),
            !ends_with_seq(name@, ".zip"@) && !ends_with_seq(name@, ".gz"@) ==> r is Err,
    {
        proof {
            lemma_format_dispatch(name@);
        }
        let chars = chars_of(name);
        if ends_with(&chars, &chars_of(".zip")) {
            Ok(ArchiveFormat::Zip)
        } else if ends_with(&chars, &chars_of(".gz")) {
            Ok(ArchiveFormat::TarGz)
        } else {
            let pieces = split(&chars, '.');
            proof {
                lemma_split_nonempty(name@, '.');
            }
            let extension = if pieces.len() > 1 {
                let last = &pieces[pieces.len() - 1];
                assert(last@ == views(pieces@).last());
                string_of(last)
            } else {
                String::new()
            };
            Err(JamanError::UnsupportedFormat(extension))
        }
    }

    /// Checks the downloaded bytes against the published checksum: the SHA-256 digest
    /// in hexadecimal, compared without regard to letter case.
    pub fn verify_checksum(data: &[u8], expected: &str) -> (r: Result<(), JamanError>)
        ensures
            checksum_matches(data@, expected@) ==> r is Ok,
            !checksum_matches(data@, expected@) ==> r is Err && r->Err_0@
                == JamanErrorView::IntegrityFailure,
    {
        let digest = sha256_hex(data);
        if digest_matches(digest.as_str(), expected) {
            Ok(())
        } else {
            Err(JamanError::IntegrityFailure)
        }
    }

    /// The name of the directory that holds an installation from the catalog: the
    /// vendor with `_` for each space, a hyphen, and the version.
    pub fn install_dir_name(vendor: &str, version: &str) -> (r: String)
        ensures
            r@ == directory_name(vendor@, version@),
    {
        let name = replace_char(&chars_of(vendor), ' ', '_');
        string_of(&name).concat("-").concat(version)
    }

    /// Decides, once the archive of `version` is downloaded and before anything is
    /// written below `installation_dir`, whether and how it is installed. Bytes that
    /// fail the integrity check are refused first; then an archive whose format cannot
    /// be unpacked. Otherwise the plan names the format and the directory to unpack
    /// into.
    pub fn prepare_install(
        version: &AvailableVersion,
        installation_dir: &str,
        data: &[u8],
        platform: Platform,
    ) -> (r: Result<InstallPlan, JamanError>)
        ensures
            !download_intact(version@, data@) ==> r is Err && r->Err_0@
                == JamanErrorView::IntegrityFailure,
            download_intact(version@, data@) ==> match plan_for(
                version@,
                installation_dir@,
                platform,
            ) {
                Some(plan) => r is Ok && r->Ok_0@ == plan,
                None => r is Err && r->Err_0@ == JamanErrorView::UnsupportedFormat(
                    extension_of(file_name_of(version@.download_url)),
                ),
            },
    {
        match &version.checksum {
            Some(expected) => {
                match Downloader::verify_checksum(data, expected.as_str()) {
                    Ok(()) => {},
                    Err(e) => {
                        return Err(e);
                    },
                }
            },
            None => {},
        }
        let file_name = Downloader::extract_filename(version.download_url.as_str());
        match Downloader::archive_format(file_name.as_str()) {
            Ok(format) => {
                let name = Downloader::install_dir_name(
                    version.vendor.as_str(),
                    version.version.as_str(),
                );
                let extract_dir = platform.join(installation_dir, name.as_str());
                Ok(InstallPlan { file_name, format, extract_dir })
            },
            Err(e) => Err(e),
        }
    }

    /// The installation root after unpacking into `extracted`, given its child
    /// directories: the only child that is an installation root, where there is
    /// exactly one and `extracted` itself is none; `extracted` otherwise.
    pub fn find_jdk_root(extracted: &Candidate, children: &Vec<Candidate>) -> (r: String)
        ensures
            r@ == resolved_root(*extracted, children@),
    {
        let roots = JavaDetector::scan_directory(children);
        if !JavaDetector::is_jdk_root(extracted) && roots.len() == 1 {
            assert(roots@[0]@ == texts(roots@)[0]);
            roots[0].clone()
        } else {
            extracted.path.clone()
        }
    }
}

} // verus!
