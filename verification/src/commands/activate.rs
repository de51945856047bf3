//! Activating: choosing a tracked installation and recording that it is active.

use vstd::prelude::*;
use vstd::string::StringExecFns;

use crate::config::{has_version, records, Config, ConfigView, JavaVersion, JavaVersionView};
use crate::platform::Platform;
use crate::error::{JamanError, JamanErrorView};
use crate::timestamp::Timestamp;

verus! {

/// Index of the first record whose version is `version`, or the length where there is
/// none.
pub open spec fn first_with_version(vs: Seq<JavaVersionView>, version: Seq<char>) -> int
    decreases vs.len(),
{
    if vs.len() == 0 {
        0
    } else if vs[0].version == version {
        0
    } else {
        1 + first_with_version(vs.drop_first(), version)
    }
}

/// `first_with_version` is the least index of a record with that version.
pub proof fn lemma_first_with_version(vs: Seq<JavaVersionView>, version: Seq<char>)
    ensures
        0 <= first_with_version(vs, version) <= vs.len(),
        forall|j: int|
            0 <= j < first_with_version(vs, version) ==> (#[trigger] vs[j]).version != version,
        first_with_version(vs, version) < vs.len() ==> vs[first_with_version(vs, version)].version
            == version,
    decreases vs.len(),
{
    if vs.len() > 0 && vs[0].version != version {
        let t = vs.drop_first();
        lemma_first_with_version(t, version);
        assert forall|j: int| 0 <= j < first_with_version(vs, version) implies (#[trigger] vs[j]).version
            != version by {
            if j > 0 {
                assert(vs[j] == t[j - 1]);
            }
        }
    }
}

/// The records after the first one with the given version has been marked as used at
/// `at`. Where no record has that version nothing changes.
pub open spec fn marked_used(vs: Seq<JavaVersionView>, version: Seq<char>, at: Timestamp) -> Seq<
    JavaVersionView,
> {
    let i = first_with_version(vs, version);
    if 0 <= i < vs.len() {
        vs.update(i, JavaVersionView { last_used: Some(at), ..vs[i] })
    } else {
        vs
    }
}

/// Unit type that gathers the decisions of the activate command.
pub struct ActivateCommand;

impl ActivateCommand {
    /// The first tracked installation whose version contains `query`. Where there is
    /// none the query comes back in the error.
    pub fn select(config: &Config, query: &str) -> (r: Result<JavaVersion, JamanError>)
        ensures
            match config@.find(query@) {
                Some(v) => r is Ok && r->Ok_0@ == v,
                None => r is Err && r->Err_0@ == JamanErrorView::NotFound(query@),
            },
    {
        match config.get_version(query) {
            Some(v) => Ok(v.clone()),
            None => Err(JamanError::NotFound(String::from_str(query))),
        }
    }

    /// Records that the installation with the version `version` has been activated at
    /// `now`: it becomes the active version, and the first record with exactly that
    /// version is marked as used. Where no record has that version, nothing changes and
    /// the version comes back in the error.
    pub fn commit(config: &mut Config, version: &str, now: Timestamp) -> (r: Result<(), JamanError>)
        ensures
            has_version(old(config)@.installed_versions, version@) ==> r is Ok && final(config)@ == (
            ConfigView {
                active_version: Some(version@),
                installed_versions: marked_used(old(config)@.installed_versions, version@, now),
                ..old(config)@
            }),
            !has_version(old(config)@.installed_versions, version@) ==> r is Err && r->Err_0@
                == JamanErrorView::NotFound(version@) && *final(config) == *old(config),
            forall|platform: Platform|
                #[trigger] old(config)@.wf(platform) ==> final(config)@.wf(platform),
    {
        match config.set_active(version) {
            Ok(()) => {},
            Err(e) => {
                return Err(e);
            },
        }
        let wanted = String::from_str(version);
        let ghost all = records(config.installed_versions@);
        let mut i: usize = 0;
        while i < config.installed_versions.len()
            invariant
                i <= config.installed_versions.len(),
                wanted@ == version@,
                all == records(config.installed_versions@),
                config@ == old(config)@.with_active(version@),
                all == old(config)@.installed_versions,
                has_version(all, version@),
                forall|j: int| 0 <= j < i ==> (#[trigger] all[j]).version != version@,
            decreases config.installed_versions.len() - i,
        {
            if config.installed_versions[i].version == wanted {
                proof {
                    lemma_first_with_version(all, version@);
                    assert(all[i as int].version == version@);
                }
                let mut record = config.installed_versions.remove(i);
                record.mark_used(now);
                config.installed_versions.insert(i, record);
                proof {
                    let marked = marked_used(all, version@, now);
                    assert(records(config.installed_versions@) =~= marked);
                    assert forall|k: int| 0 <= k < marked.len() implies (#[trigger] marked[k]).path
                        == all[k].path && (marked[k].version == all[k].version) by {}
                    assert(marked[i as int].version == version@);
                    assert(has_version(marked, version@));
                }
                return Ok(());
            }
            i += 1;
        }
        proof {
            // Some record has the version, so the search cannot come to the end.
            let k = choose|k: int| 0 <= k < all.len() && (#[trigger] all[k]).version == version@;
            assert(all[k].version != version@);
        }
        Ok(())
    }
}

} // verus!
