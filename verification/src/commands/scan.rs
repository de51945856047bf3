//! Scanning: taking the installations that a scan found into the registry.

use vstd::prelude::*;

use crate::config::{
    paths_tidy, records, tracks_path, Config, ConfigView, JavaVersion, JavaVersionView,
};
use crate::platform::Platform;
use crate::timestamp::Timestamp;

verus! {

/// How many of the found installations were new, and how many were tracked already.
#[derive(Debug, Clone, Copy, PartialEq, Eq, Structural)]
pub struct ScanSummary {
    pub added: usize,
    pub skipped: usize,
}

/// The registry after the found installations have been taken in, one after the other:
/// one whose path is tracked by then is passed over, any other is added.
pub open spec fn taken_in(c: ConfigView, found: Seq<JavaVersionView>) -> ConfigView
    decreases found.len(),
{
    if found.len() == 0 {
        c
    } else {
        let before = taken_in(c, found.drop_last());
        if tracks_path(before.installed_versions, found.last().path) {
            before
        } else {
            before.with_version(found.last())
        }
    }
}

/// Unit type that gathers the decisions of the scan command.
pub struct ScanCommand;

impl ScanCommand {
    /// Whether some record of the registry is at `path`.
    pub fn is_tracked(config: &Config, path: &String) -> (r: bool)
        ensures
            r == tracks_path(config@.installed_versions, path@),
    {
        let ghost all = records(config.installed_versions@);
        let mut i: usize = 0;
        while i < config.installed_versions.len()
            invariant
                i <= config.installed_versions.len(),
                all == records(config.installed_versions@),
                forall|j: int| 0 <= j < i ==> (#[trigger] all[j]).path != path@,
            decreases config.installed_versions.len() - i,
        {
            if config.installed_versions[i].path == *path {
                assert(all[i as int].path == path@);
                return true;
            }
            i += 1;
        }
        false
    }

    /// Takes the installations that a scan found into the registry and notes `now` as
    /// the time of the scan. An installation whose path is tracked already is passed
    /// over, and the tracked record stays as it is; the others are added in their
    /// order. The summary counts both.
    pub fn merge(config: &mut Config, found: Vec<JavaVersion>, now: Timestamp) -> (r: ScanSummary)
        ensures
            final(config)@ == (ConfigView {
                last_scan: Some(now),
                ..taken_in(old(config)@, records(found@))
            }),
            r.added + r.skipped == found@.len(),
            final(config)@.installed_versions.len() == old(config)@.installed_versions.len()
                + r.added,
            forall|platform: Platform|
                #[trigger] old(config)@.wf(platform) && paths_tidy(records(found@), platform)
                    ==> final(config)@.wf(platform),
    {
        let ghost all = records(found@);
        let mut added: usize = 0;
        let mut skipped: usize = 0;
        let mut i: usize = 0;
        assert(all.take(0) =~= Seq::<JavaVersionView>::empty());
        while i < found.len()
            invariant
                i <= found.len(),
                all == records(found@),
                added + skipped == i,
                config@ == taken_in(old(config)@, all.take(i as int)),
                config@.installed_versions.len() == old(config)@.installed_versions.len() + added,
                forall|platform: Platform|
                    #[trigger] old(config)@.wf(platform) && paths_tidy(all, platform) ==> config@.wf(
                        platform,
                    ),
            decreases found.len() - i,
        {
            proof {
                let upto = all.take(i + 1);
                assert(upto.drop_last() =~= all.take(i as int));
                assert(upto.last() == found@[i as int]@);
                assert(all[i as int] == found@[i as int]@);
            }
            if ScanCommand::is_tracked(config, &found[i].path) {
                skipped += 1;
            } else {
                let ghost before = config@.installed_versions;
                proof {
                    crate::config::lemma_first_at_path(before, found@[i as int]@.path);
                    let at = crate::config::first_at_path(before, found@[i as int]@.path);
                    if at < before.len() {
                        assert(before[at].path == found@[i as int]@.path);
                    }
                }
                config.add_version(found[i].clone());
                added += 1;
            }
            i += 1;
        }
        assert(all.take(found.len() as int) =~= all);
        config.last_scan = Some(now);
        ScanSummary { added, skipped }
    }
}

} // verus!
