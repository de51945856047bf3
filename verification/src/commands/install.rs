//! Installing: choosing a catalog entry and recording what was installed.

use vstd::prelude::*;
use vstd::string::StringExecFns;

use crate::config::{paths_distinct, Config, JavaVersion, JavaVersionView};
use crate::downloader::{offers, AvailableVersion, AvailableVersionView};
use crate::error::{JamanError, JamanErrorView};
use crate::platform::{is_tidy, tidy, Platform};
use crate::text::{contains_seq, contains_text};

verus! {

/// Index of the first catalog entry whose version contains `query`, or the length where
/// there is none.
pub open spec fn first_offer(vs: Seq<AvailableVersionView>, query: Seq<char>) -> int
    decreases vs.len(),
{
    if vs.len() == 0 {
        0
    } else if contains_seq(vs[0].version, query) {
        0
    } else {
        1 + first_offer(vs.drop_first(), query)
    }
}

/// `first_offer` is the least index of an entry whose version contains `query`.
pub proof fn lemma_first_offer(vs: Seq<AvailableVersionView>, query: Seq<char>)
    ensures
        0 <= first_offer(vs, query) <= vs.len(),
        forall|j: int|
            0 <= j < first_offer(vs, query) ==> !contains_seq((#[trigger] vs[j]).version, query),
        first_offer(vs, query) < vs.len() ==> contains_seq(
            vs[first_offer(vs, query)].version,
            query,
        ),
    decreases vs.len(),
{
    if vs.len() > 0 && !contains_seq(vs[0].version, query) {
        let t = vs.drop_first();
        lemma_first_offer(t, query);
        assert forall|j: int| 0 <= j < first_offer(vs, query) implies !contains_seq(
            (#[trigger] vs[j]).version,
            query,
        ) by {
            if j > 0 {
                assert(vs[j] == t[j - 1]);
            }
        }
    }
}

/// The record of an installation from the catalog: the entry's own data, the path
/// where it was unpacked, never used, and not found on disk.
pub open spec fn installed_record(entry: AvailableVersionView, path: Seq<char>) -> JavaVersionView {
    JavaVersionView {
        version: entry.version,
        vendor: entry.vendor,
        path,
        is_lts: entry.is_lts,
        architecture: entry.architecture,
        last_used: None,
        auto_detected: false,
    }
}

/// Unit type that gathers the decisions of the install command.
pub struct InstallCommand;

impl InstallCommand {
    /// The first catalog entry whose version contains `query`. Where there is none the
    /// query comes back in the error.
    pub fn select(available: &Vec<AvailableVersion>, query: &str) -> (r: Result<
        AvailableVersion,
        JamanError,
    >)
        ensures
            first_offer(offers(available@), query@) < available@.len() ==> r is Ok && r->Ok_0
                == available@[first_offer(offers(available@), query@)],
            first_offer(offers(available@), query@) >= available@.len() ==> r is Err && r->Err_0@
                == JamanErrorView::NotFound(query@),
    {
        let ghost all = offers(available@);
        let mut i: usize = 0;
        while i < available.len()
            invariant
                i <= available.len(),
                all == offers(available@),
                forall|j: int| 0 <= j < i ==> !contains_seq((#[trigger] all[j]).version, query@),
            decreases available.len() - i,
        {
            if contains_text(available[i].version.as_str(), query) {
                proof {
                    lemma_first_offer(all, query@);
                    assert(contains_seq(all[i as int].version, query@));
                }
                return Ok(available[i].clone());
            }
            i += 1;
        }
        proof {
            lemma_first_offer(all, query@);
        }
        Err(JamanError::NotFound(String::from_str(query)))
    }

    /// Whether the registry already tracks an installation whose version contains
    /// `version`.
    pub fn is_installed(config: &Config, version: &str) -> (r: bool)
        ensures
            r == config@.find(version@) is Some,
    {
        config.get_version(version).is_some()
    }

    /// The record of an installation from the catalog that was unpacked at `path`. The
    /// record holds the path without separators at its end.
    pub fn record_for(entry: &AvailableVersion, path: &str, platform: Platform) -> (r: JavaVersion)
        ensures
            r@ == installed_record(entry@, tidy(path@, platform)),
            is_tidy(r@.path, platform),
    {
        JavaVersion::new(
            entry.version.clone(),
            entry.vendor.clone(),
            platform.tidy(path),
            entry.is_lts,
            entry.architecture.clone(),
            false,
        )
    }

    /// Records the outcome of an installation attempt. Where the archive was unpacked
    /// the registry gets the record of the new installation, at the path that was
    /// handed over. Where the attempt failed the registry stays exactly as it was, and
    /// the failure is handed on.
    pub fn record(
        config: &mut Config,
        entry: &AvailableVersion,
        outcome: Result<String, JamanError>,
        platform: Platform,
    ) -> (r: Result<(), JamanError>)
        ensures
            match outcome {
                Ok(path) => r is Ok && final(config)@ == old(config)@.with_version(
                    installed_record(entry@, tidy(path@, platform)),
                ),
                Err(e) => r == Err::<(), JamanError>(e) && *final(config) == *old(config),
            },
            paths_distinct(old(config)@.installed_versions) ==> paths_distinct(
                final(config)@.installed_versions,
            ),
            old(config)@.wf(platform) ==> final(config)@.wf(platform),
    {
        match outcome {
            Ok(path) => {
                config.add_version(InstallCommand::record_for(entry, path.as_str(), platform));
                Ok(())
            },
            Err(e) => Err(e),
        }
    }
}

} // verus!
