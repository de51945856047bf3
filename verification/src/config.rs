//! The registry: the tracked installations and the active selection.

use vstd::prelude::*;
use vstd::string::StringExecFns;

use crate::error::{JamanError, JamanErrorView};
use crate::platform::{is_tidy, joined, Platform};
use crate::text::{contains_seq, contains_text};
use crate::timestamp::Timestamp;

verus! {

broadcast use vstd::seq_lib::group_seq_properties;

/// A tracked runtime installation.
#[derive(Debug)]
pub struct JavaVersion {
    /// The normalized version string, such as `21.0.1`.
    pub version: String,
    /// The distributor's name, `Unknown` where it could not be told.
    pub vendor: String,
    /// The installation root: the directory that holds `bin`.
    pub path: String,
    /// Whether the major version is a long-term-support release.
    pub is_lts: bool,
    /// The processor architecture the runtime was built for.
    pub architecture: String,
    /// When the installation was last activated, if ever.
    pub last_used: Option<Timestamp>,
    /// Whether the installation was found on disk rather than installed from the catalog.
    pub auto_detected: bool,
}

/// The model of a [`JavaVersion`].
pub struct JavaVersionView {
    pub version: Seq<char>,
    pub vendor: Seq<char>,
    pub path: Seq<char>,
    pub is_lts: bool,
    pub architecture: Seq<char>,
    pub last_used: Option<Timestamp>,
    pub auto_detected: bool,
}

impl View for JavaVersion {
    type V = JavaVersionView;

    open spec fn view(&self) -> JavaVersionView {
        JavaVersionView {
            version: self.version@,
            vendor: self.vendor@,
            path: self.path@,
            is_lts: self.is_lts,
            architecture: self.architecture@,
            last_used: self.last_used,
            auto_detected: self.auto_detected,
        }
    }
}

impl Clone for JavaVersion {
    fn clone(&self) -> (r: Self)
        ensures
            r == *self,
    {
        JavaVersion {
            version: self.version.clone(),
            vendor: self.vendor.clone(),
            path: self.path.clone(),
            is_lts: self.is_lts,
            architecture: self.architecture.clone(),
            last_used: self.last_used,
            auto_detected: self.auto_detected,
        }
    }
}

/// The models of a sequence of records.
pub open spec fn records(vs: Seq<JavaVersion>) -> Seq<JavaVersionView> {
    Seq::new(vs.len(), |i: int| vs[i]@)
}

/// Index of the first record at `path`, or the length where there is none.
pub open spec fn first_at_path(vs: Seq<JavaVersionView>, path: Seq<char>) -> int
    decreases vs.len(),
{
    if vs.len() == 0 {
        0
    } else if vs[0].path == path {
        0
    } else {
        1 + first_at_path(vs.drop_first(), path)
    }
}

/// The records that are not at `path`, in their order.
pub open spec fn without_path(vs: Seq<JavaVersionView>, path: Seq<char>) -> Seq<JavaVersionView> {
    vs.filter(|v: JavaVersionView| v.path != path)
}

/// The records after `v` has been added: `v` takes the place of the first record at its
/// path and every other record at that path leaves; where no record is at its path, `v`
/// comes last.
pub open spec fn with_record(vs: Seq<JavaVersionView>, v: JavaVersionView) -> Seq<JavaVersionView> {
    let i = first_at_path(vs, v.path);
    if 0 <= i < vs.len() {
        vs.take(i).push(v) + without_path(vs.skip(i + 1), v.path)
    } else {
        vs.push(v)
    }
}

/// Index of the first record whose version contains `query`, or the length where there
/// is none.
pub open spec fn first_match(vs: Seq<JavaVersionView>, query: Seq<char>) -> int
    decreases vs.len(),
{
    if vs.len() == 0 {
        0
    } else if contains_seq(vs[0].version, query) {
        0
    } else {
        1 + first_match(vs.drop_first(), query)
    }
}

/// The first record, in stored order, whose version contains `query`.
pub open spec fn find_record(vs: Seq<JavaVersionView>, query: Seq<char>) -> Option<JavaVersionView> {
    let i = first_match(vs, query);
    if 0 <= i < vs.len() {
        Some(vs[i])
    } else {
        None
    }
}

/// No two records share a path.
pub open spec fn paths_distinct(vs: Seq<JavaVersionView>) -> bool {
    forall|i: int, j: int| 0 <= i < j < vs.len() ==> (#[trigger] vs[i]).path != (#[trigger] vs[j]).path
}

/// Some record has exactly the version `version`.
pub open spec fn has_version(vs: Seq<JavaVersionView>, version: Seq<char>) -> bool {
    exists|i: int| 0 <= i < vs.len() && (#[trigger] vs[i]).version == version
}

/// Every record's path has the form in which the registry holds paths: no separator
/// at its end.
pub open spec fn paths_tidy(vs: Seq<JavaVersionView>, platform: Platform) -> bool {
    forall|i: int| 0 <= i < vs.len() ==> is_tidy((#[trigger] vs[i]).path, platform)
}

/// Some record is at `path`.
pub open spec fn tracks_path(vs: Seq<JavaVersionView>, path: Seq<char>) -> bool {
    exists|i: int| 0 <= i < vs.len() && (#[trigger] vs[i]).path == path
}

/// `first_at_path` is the least index of a record at `path`.
pub proof fn lemma_first_at_path(vs: Seq<JavaVersionView>, path: Seq<char>)
    ensures
        0 <= first_at_path(vs, path) <= vs.len(),
        forall|j: int| 0 <= j < first_at_path(vs, path) ==> (#[trigger] vs[j]).path != path,
        first_at_path(vs, path) < vs.len() ==> vs[first_at_path(vs, path)].path == path,
    decreases vs.len(),
{
    if vs.len() > 0 && vs[0].path != path {
        let t = vs.drop_first();
        lemma_first_at_path(t, path);
        assert forall|j: int| 0 <= j < first_at_path(vs, path) implies (#[trigger] vs[j]).path
            != path by {
            if j > 0 {
                assert(vs[j] == t[j - 1]);
            }
        }
    }
}

/// `first_match` is the least index of a record whose version contains `query`.
pub proof fn lemma_first_match(vs: Seq<JavaVersionView>, query: Seq<char>)
    ensures
        0 <= first_match(vs, query) <= vs.len(),
        forall|j: int|
            0 <= j < first_match(vs, query) ==> !contains_seq((#[trigger] vs[j]).version, query),
        first_match(vs, query) < vs.len() ==> contains_seq(
            vs[first_match(vs, query)].version,
            query,
        ),
    decreases vs.len(),
{
    if vs.len() > 0 && !contains_seq(vs[0].version, query) {
        let t = vs.drop_first();
        lemma_first_match(t, query);
        assert forall|j: int| 0 <= j < first_match(vs, query) implies !contains_seq(
            (#[trigger] vs[j]).version,
            query,
        ) by {
            if j > 0 {
                assert(vs[j] == t[j - 1]);
            }
        }
    }
}

/// What `without_path` keeps: no record at `path`, and every record it keeps was there.
pub proof fn lemma_without_path(vs: Seq<JavaVersionView>, path: Seq<char>)
    ensures
        !tracks_path(without_path(vs, path), path),
        forall|i: int|
            0 <= i < without_path(vs, path).len() ==> vs.contains(
                #[trigger] without_path(vs, path)[i],
            ),
        paths_distinct(vs) ==> paths_distinct(without_path(vs, path)),
        !tracks_path(vs, path) ==> without_path(vs, path) == vs,
    decreases vs.len(),
{
    reveal(Seq::filter);
    let pred = |v: JavaVersionView| v.path != path;
    if vs.len() > 0 {
        let init = vs.drop_last();
        lemma_without_path(init, path);
        let kept = without_path(init, path);
        assert(without_path(vs, path) == if pred(vs.last()) {
            kept.push(vs.last())
        } else {
            kept
        });
        assert forall|i: int| 0 <= i < without_path(vs, path).len() implies vs.contains(
            #[trigger] without_path(vs, path)[i],
        ) by {
            let x = without_path(vs, path)[i];
            if i < kept.len() {
                assert(init.contains(kept[i]));
                let k = choose|k: int| 0 <= k < init.len() && init[k] == x;
                assert(vs[k] == x);
            } else {
                assert(vs[vs.len() - 1] == x);
            }
        }
        if paths_distinct(vs) {
            assert(paths_distinct(init)) by {
                assert forall|i: int, j: int| 0 <= i < j < init.len() implies (#[trigger] init[i]).path
                    != (#[trigger] init[j]).path by {
                    assert(init[i] == vs[i] && init[j] == vs[j]);
                }
            }
            if pred(vs.last()) {
                let out = kept.push(vs.last());
                assert forall|i: int, j: int| 0 <= i < j < out.len() implies (#[trigger] out[i]).path
                    != (#[trigger] out[j]).path by {
                    if j == kept.len() {
                        assert(init.contains(kept[i]));
                        let k = choose|k: int| 0 <= k < init.len() && init[k] == kept[i];
                        assert(vs[k] == kept[i]);
                        assert(vs[k].path != vs[vs.len() - 1].path);
                    }
                }
            }
        }
        if !tracks_path(vs, path) {
            assert(!tracks_path(init, path)) by {
                if tracks_path(init, path) {
                    let k = choose|k: int| 0 <= k < init.len() && (#[trigger] init[k]).path == path;
                    assert(vs[k].path == path);
                }
            }
            assert(vs[vs.len() - 1].path != path);
            assert(kept.push(vs.last()) =~= vs);
        }
        if tracks_path(without_path(vs, path), path) {
            let w = without_path(vs, path);
            let k = choose|k: int| 0 <= k < w.len() && (#[trigger] w[k]).path == path;
            if k < kept.len() {
                assert(kept[k].path == path);
            }
        }
    } else {
        assert(without_path(vs, path) =~= vs);
    }
}

impl JavaVersion {
    /// A record that was never activated.
    pub fn new(
        version: String,
        vendor: String,
        path: String,
        is_lts: bool,
        architecture: String,
        auto_detected: bool,
    ) -> (r: Self)
        ensures
            r.version == version,
            r.vendor == vendor,
            r.path == path,
            r.is_lts == is_lts,
            r.architecture == architecture,
            r.last_used is None,
            r.auto_detected == auto_detected,
    {
        Self { version, vendor, path, is_lts, architecture, last_used: None, auto_detected }
    }

    /// The path of the runtime's launcher on `platform`.
    pub fn java_executable(&self, platform: Platform) -> (r: String)
        ensures
            r@ == platform.java_path(self.path@),
    {
        platform.java_executable(self.path.as_str())
    }

    /// The path of the compiler's launcher on `platform`.
    pub fn javac_executable(&self, platform: Platform) -> (r: String)
        ensures
            r@ == platform.javac_path(self.path@),
    {
        platform.javac_executable(self.path.as_str())
    }

    /// Records `at`, the time at which the caller read the clock, as the time of the
    /// last activation. Everything else stays as it was.
    pub fn mark_used(&mut self, at: Timestamp)
        ensures
            final(self)@ == (JavaVersionView { last_used: Some(at), ..old(self)@ }),
    {
        self.last_used = Some(at);
    }
}

/// The persisted state of the tool.
#[derive(Debug)]
pub struct Config {
    /// The directory below which archives are installed.
    pub installation_dir: String,
    /// The directory that holds downloads while they are in progress.
    pub download_dir: String,
    /// The version that is wired into the environment, if any.
    pub active_version: Option<String>,
    /// The tracked installations, in the order in which they were added.
    pub installed_versions: Vec<JavaVersion>,
    /// When the disk was last searched for installations, if ever.
    pub last_scan: Option<Timestamp>,
}

/// The model of a [`Config`].
pub struct ConfigView {
    pub installation_dir: Seq<char>,
    pub download_dir: Seq<char>,
    pub active_version: Option<Seq<char>>,
    pub installed_versions: Seq<JavaVersionView>,
    pub last_scan: Option<Timestamp>,
}

impl View for Config {
    type V = ConfigView;

    open spec fn view(&self) -> ConfigView {
        ConfigView {
            installation_dir: self.installation_dir@,
            download_dir: self.download_dir@,
            active_version: match self.active_version {
                Some(a) => Some(a@),
                None => None,
            },
            installed_versions: records(self.installed_versions@),
            last_scan: self.last_scan,
        }
    }
}

impl ConfigView {
    /// The state with the active version cleared where no record has that version.
    pub open spec fn settled(self) -> ConfigView {
        match self.active_version {
            Some(a) => if has_version(self.installed_versions, a) {
                self
            } else {
                ConfigView { active_version: None, ..self }
            },
            None => self,
        }
    }

    /// The state after `v` has been added: `v` stands among the records, and the
    /// active version is cleared where the record that had it was replaced.
    pub open spec fn with_version(self, v: JavaVersionView) -> ConfigView {
        (ConfigView { installed_versions: with_record(self.installed_versions, v), ..self }).settled()
    }

    /// The state after every record at `path` has been dropped: the active version is
    /// cleared where no record that is left has it.
    pub open spec fn without_version(self, path: Seq<char>) -> ConfigView {
        (ConfigView {
            installed_versions: without_path(self.installed_versions, path),
            ..self
        }).settled()
    }

    /// The first record, in stored order, whose version contains `query`.
    pub open spec fn find(self, query: Seq<char>) -> Option<JavaVersionView> {
        find_record(self.installed_versions, query)
    }

    /// The state after `version` has been made the active one.
    pub open spec fn with_active(self, version: Seq<char>) -> ConfigView {
        ConfigView { active_version: Some(version), ..self }
    }

    /// Where an active version is set, it is the version of some record.
    pub open spec fn active_is_tracked(self) -> bool {
        match self.active_version {
            Some(a) => has_version(self.installed_versions, a),
            None => true,
        }
    }

    /// The invariant of the registry on `platform`: one record per path at most, every
    /// path without a separator at its end, and an active version only where a record
    /// has that version.
    pub open spec fn wf(self, platform: Platform) -> bool {
        &&& paths_distinct(self.installed_versions)
        &&& paths_tidy(self.installed_versions, platform)
        &&& self.active_is_tracked()
    }
}

impl Config {
    /// A registry without records and without an active version.
    pub fn new(installation_dir: String, download_dir: String) -> (r: Self)
        ensures
            r.installation_dir == installation_dir,
            r.download_dir == download_dir,
            r.active_version is None,
            r.installed_versions@.len() == 0,
            r.last_scan is None,
            forall|platform: Platform| #[trigger] r@.wf(platform),
    {
        Self {
            installation_dir,
            download_dir,
            active_version: None,
            installed_versions: Vec::new(),
            last_scan: None,
        }
    }

    /// The directory of the tool's own configuration below the user's configuration
    /// directory `base`.
    pub fn config_dir(base: &str, platform: Platform) -> (r: String)
        ensures
            r@ == joined(base@, "jaman"@, platform),
    {
        platform.join(base, "jaman")
    }

    /// The file that holds the persisted state, below the user's configuration directory
    /// `base`.
    pub fn config_file(base: &str, platform: Platform) -> (r: String)
        ensures
            r@ == joined(joined(base@, "jaman"@, platform), "config.toml"@, platform),
    {
        let dir = Config::config_dir(base, platform);
        platform.join(dir.as_str(), "config.toml")
    }

    /// The state used where none was persisted yet: archives are installed below
    /// `jaman/jdks` and staged below `jaman/downloads`, both inside the user's data
    /// directory `data_dir`.
    pub fn default_config(data_dir: &str, platform: Platform) -> (r: Self)
        ensures
            r@ == (ConfigView {
                installation_dir: joined(joined(data_dir@, "jaman"@, platform), "jdks"@, platform),
                download_dir: joined(joined(data_dir@, "jaman"@, platform), "downloads"@, platform),
                active_version: None,
                installed_versions: Seq::empty(),
                last_scan: None,
            }),
            r@.wf(platform),
    {
        let own = platform.join(data_dir, "jaman");
        let r = Config::new(
            platform.join(own.as_str(), "jdks"),
            platform.join(own.as_str(), "downloads"),
        );
        assert(r@.installed_versions =~= Seq::empty());
        r
    }

    /// Whether some record has exactly the version `version`.
    pub fn holds_version(&self, version: &str) -> (r: bool)
        ensures
            r == has_version(self@.installed_versions, version@),
    {
        let wanted = String::from_str(version);
        let ghost all = records(self.installed_versions@);
        let mut i: usize = 0;
        while i < self.installed_versions.len()
            invariant
                i <= self.installed_versions.len(),
                wanted@ == version@,
                all == records(self.installed_versions@),
                forall|j: int| 0 <= j < i ==> (#[trigger] all[j]).version != version@,
            decreases self.installed_versions.len() - i,
        {
            if self.installed_versions[i].version == wanted {
                assert(all[i as int].version == version@);
                return true;
            }
            i += 1;
        }
        false
    }

    /// Clears the active version where no record has that version.
    fn settle(&mut self)
        ensures
            final(self)@ == old(self)@.settled(),
            final(self)@.active_is_tracked(),
    {
        let dangling = match &self.active_version {
            Some(a) => !self.holds_version(a.as_str()),
            None => false,
        };
        if dangling {
            self.active_version = None;
        }
    }

    /// Adds `version`. A record at the same path is replaced where it stands; a new path
    /// is added at the end. Where the replaced record was the one with the active
    /// version, and no record has that version any more, no version is active.
    pub fn add_version(&mut self, version: JavaVersion)
        ensures
            final(self)@ == old(self)@.with_version(version@),
            paths_distinct(old(self)@.installed_versions) ==> paths_distinct(
                final(self)@.installed_versions,
            ),
            final(self)@.active_is_tracked(),
            forall|platform: Platform|
                #[trigger] old(self)@.wf(platform) && is_tidy(version@.path, platform) ==> final(self)@.wf(platform),
    {
        let ghost v = version@;
        self.put_record(version);
        self.settle();
        proof {
            lemma_with_record_members(old(self)@.installed_versions, v);
        }
    }

    /// Puts `version` among the records and leaves everything else as it is.
    fn put_record(&mut self, version: JavaVersion)
        ensures
            final(self)@ == (ConfigView {
                installed_versions: with_record(old(self)@.installed_versions, version@),
                ..old(self)@
            }),
            paths_distinct(old(self)@.installed_versions) ==> paths_distinct(
                final(self)@.installed_versions,
            ),
    {
        let ghost before = records(self.installed_versions@);
        let ghost v = version@;
        let path = version.path.clone();
        let mut i: usize = 0;
        while i < self.installed_versions.len() && !(self.installed_versions[i].path == path)
            invariant
                i <= self.installed_versions.len(),
                records(self.installed_versions@) == before,
                *self == *old(self),
                path@ == v.path,
                forall|j: int| 0 <= j < i ==> (#[trigger] before[j]).path != v.path,
            decreases self.installed_versions.len() - i,
        {
            i += 1;
        }
        proof {
            lemma_first_at_path(before, v.path);
            if i < before.len() {
                assert(before[i as int].path == v.path);
            }
            assert(first_at_path(before, v.path) == i);
            if paths_distinct(before) {
                lemma_with_record_distinct(before, v);
            }
        }
        if i == self.installed_versions.len() {
            self.installed_versions.push(version);
            assert(records(self.installed_versions@) =~= before.push(v));
            return ;
        }
        self.installed_versions.remove(i);
        self.installed_versions.insert(i, version);
        assert(records(self.installed_versions@) =~= before.take(i as int).push(v) + before.skip(
            i + 1,
        ));
        let mut j: usize = i + 1;
        while j < self.installed_versions.len()
            invariant
                i < j <= self.installed_versions.len(),
                path@ == v.path,
                self.installation_dir == old(self).installation_dir,
                self.download_dir == old(self).download_dir,
                self.active_version == old(self).active_version,
                self.last_scan == old(self).last_scan,
                with_record(before, v) == records(self.installed_versions@).take(j as int)
                    + without_path(records(self.installed_versions@).skip(j as int), v.path),
            decreases self.installed_versions.len() - j,
        {
            let ghost cur = records(self.installed_versions@);
            proof {
                let tail = cur.skip(j as int);
                assert(tail =~= seq![cur[j as int]] + cur.skip(j + 1));
                cur.skip(j + 1).lemma_filter_prepend(
                    cur[j as int],
                    |x: JavaVersionView| x.path != v.path,
                );
            }
            if self.installed_versions[j].path == path {
                self.installed_versions.remove(j);
                proof {
                    let next = records(self.installed_versions@);
                    assert(next.take(j as int) =~= cur.take(j as int));
                    assert(next.skip(j as int) =~= cur.skip(j + 1));
                }
            } else {
                j += 1;
                proof {
                    assert(cur.take(j as int) =~= cur.take(j - 1).push(cur[j - 1]));
                }
            }
        }
        proof {
            let cur = records(self.installed_versions@);
            assert(cur.skip(j as int) =~= Seq::<JavaVersionView>::empty());
            reveal(Seq::filter);
            assert(cur.take(j as int) =~= cur);
        }
    }

    /// Drops every record at `path`. Where the active version was that of a dropped
    /// record, and no record that is left has it, no version is active afterwards.
    pub fn remove_version(&mut self, path: &str)
        ensures
            final(self)@ == old(self)@.without_version(path@),
            paths_distinct(old(self)@.installed_versions) ==> paths_distinct(
                final(self)@.installed_versions,
            ),
            final(self)@.active_is_tracked(),
            forall|platform: Platform|
                #[trigger] old(self)@.wf(platform) ==> final(self)@.wf(platform),
    {
        self.drop_path(path);
        self.settle();
        proof {
            lemma_without_path(old(self)@.installed_versions, path@);
        }
    }

    /// Drops every record at `path` and leaves everything else as it is.
    fn drop_path(&mut self, path: &str)
        ensures
            final(self)@ == (ConfigView {
                installed_versions: without_path(old(self)@.installed_versions, path@),
                ..old(self)@
            }),
            paths_distinct(old(self)@.installed_versions) ==> paths_distinct(
                final(self)@.installed_versions,
            ),
    {
        let ghost before = records(self.installed_versions@);
        let wanted = String::from_str(path);
        let mut j: usize = 0;
        assert(before.skip(0) =~= before);
        while j < self.installed_versions.len()
            invariant
                j <= self.installed_versions.len(),
                wanted@ == path@,
                self.installation_dir == old(self).installation_dir,
                self.download_dir == old(self).download_dir,
                self.active_version == old(self).active_version,
                self.last_scan == old(self).last_scan,
                without_path(before, path@) == records(self.installed_versions@).take(j as int)
                    + without_path(records(self.installed_versions@).skip(j as int), path@),
            decreases self.installed_versions.len() - j,
        {
            let ghost cur = records(self.installed_versions@);
            proof {
                let tail = cur.skip(j as int);
                assert(tail =~= seq![cur[j as int]] + cur.skip(j + 1));
                cur.skip(j + 1).lemma_filter_prepend(
                    cur[j as int],
                    |x: JavaVersionView| x.path != path@,
                );
            }
            if self.installed_versions[j].path == wanted {
                self.installed_versions.remove(j);
                proof {
                    let next = records(self.installed_versions@);
                    assert(next.take(j as int) =~= cur.take(j as int));
                    assert(next.skip(j as int) =~= cur.skip(j + 1));
                }
            } else {
                j += 1;
                proof {
                    assert(cur.take(j as int) =~= cur.take(j - 1).push(cur[j - 1]));
                }
            }
        }
        proof {
            let cur = records(self.installed_versions@);
            assert(cur.skip(j as int) =~= Seq::<JavaVersionView>::empty());
            reveal(Seq::filter);
            assert(cur.take(j as int) =~= cur);
            lemma_without_path(before, path@);
        }
    }

    /// The first record, in stored order, whose version contains `version_str`.
    pub fn get_version(&self, version_str: &str) -> (r: Option<&JavaVersion>)
        ensures
            match r {
                Some(v) => self@.find(version_str@) == Some(v@),
                None => self@.find(version_str@) is None,
            },
    {
        let ghost all = records(self.installed_versions@);
        let mut i: usize = 0;
        while i < self.installed_versions.len()
            invariant
                i <= self.installed_versions.len(),
                all == records(self.installed_versions@),
                forall|j: int| 0 <= j < i ==> !contains_seq((#[trigger] all[j]).version, version_str@),
            decreases self.installed_versions.len() - i,
        {
            if contains_text(self.installed_versions[i].version.as_str(), version_str) {
                proof {
                    lemma_first_match(all, version_str@);
                    assert(contains_seq(all[i as int].version, version_str@));
                }
                return Some(&self.installed_versions[i]);
            }
            i += 1;
        }
        proof {
            lemma_first_match(all, version_str@);
        }
        None
    }

    /// Makes `version` the active one, provided that it is the version of some record.
    /// A version that no record has, and so one that is only part of a tracked version,
    /// is refused: nothing changes and the version comes back in the error.
    pub fn set_active(&mut self, version: &str) -> (r: Result<(), JamanError>)
        ensures
            has_version(old(self)@.installed_versions, version@) ==> r is Ok && final(self)@ == old(self)@.with_active(version@),
            !has_version(old(self)@.installed_versions, version@) ==> r is Err && r->Err_0@
                == JamanErrorView::NotFound(version@) && *final(self) == *old(self),
            forall|platform: Platform|
                #[trigger] old(self)@.wf(platform) ==> final(self)@.wf(platform),
    {
        let found = self.holds_version(version);
        if found {
            self.active_version = Some(String::from_str(version));
            Ok(())
        } else {
            Err(JamanError::NotFound(String::from_str(version)))
        }
    }
}

/// Adding a record keeps the paths distinct.
pub proof fn lemma_with_record_distinct(vs: Seq<JavaVersionView>, v: JavaVersionView)
    requires
        paths_distinct(vs),
    ensures
        paths_distinct(with_record(vs, v)),
        first_at_path(vs, v.path) < vs.len() ==> with_record(vs, v) == vs.update(
            first_at_path(vs, v.path),
            v,
        ),
{
    let i = first_at_path(vs, v.path);
    lemma_first_at_path(vs, v.path);
    let out = with_record(vs, v);
    if i < vs.len() {
        let tail = vs.skip(i + 1);
        assert(!tracks_path(tail, v.path)) by {
            if tracks_path(tail, v.path) {
                let k = choose|k: int| 0 <= k < tail.len() && (#[trigger] tail[k]).path == v.path;
                assert(tail[k] == vs[i + 1 + k]);
                assert(vs[i].path != vs[i + 1 + k].path);
            }
        }
        lemma_without_path(tail, v.path);
        assert(out =~= vs.update(i, v));
        assert forall|a: int, b: int| 0 <= a < b < out.len() implies (#[trigger] out[a]).path != (
        #[trigger] out[b]).path by {
            assert(vs[a].path != vs[b].path);
            assert(vs[i].path == v.path);
            if a == i {
                assert(vs[i].path != vs[b].path);
            }
            if b == i {
                assert(vs[a].path != vs[i].path);
            }
        }
    } else {
        assert forall|a: int, b: int| 0 <= a < b < out.len() implies (#[trigger] out[a]).path != (
        #[trigger] out[b]).path by {
            if b < vs.len() {
                assert(vs[a].path != vs[b].path);
            } else {
                assert(vs[a].path != v.path);
            }
        }
    }
}

/// Adding a record whose path is tracked replaces the tracked record where it stands:
/// the collection keeps its length and its other records, and the new record's fields
/// stand at the old place.
pub proof fn lemma_add_replaces_in_place(c: ConfigView, v: JavaVersionView, i: int)
    requires
        paths_distinct(c.installed_versions),
        0 <= i < c.installed_versions.len(),
        c.installed_versions[i].path == v.path,
    ensures
        c.with_version(v).installed_versions == c.installed_versions.update(i, v),
        c.with_version(v).installed_versions.len() == c.installed_versions.len(),
        c.with_version(v).installed_versions[i] == v,
{
    let vs = c.installed_versions;
    lemma_first_at_path(vs, v.path);
    let first = first_at_path(vs, v.path);
    if first < i {
        assert(vs[first].path != vs[i].path);
    }
    lemma_with_record_distinct(vs, v);
}

/// Adding a record whose path is not tracked puts it last and keeps every other record.
pub proof fn lemma_add_appends(c: ConfigView, v: JavaVersionView)
    requires
        !tracks_path(c.installed_versions, v.path),
    ensures
        c.with_version(v).installed_versions == c.installed_versions.push(v),
{
    let vs = c.installed_versions;
    lemma_first_at_path(vs, v.path);
    let first = first_at_path(vs, v.path);
    if first < vs.len() {
        assert(vs[first].path == v.path);
    }
}

/// After the records at `path` are removed, a query finds nothing, provided that no
/// record at another path matches it.
pub proof fn lemma_removed_version_is_absent(c: ConfigView, path: Seq<char>, query: Seq<char>)
    requires
        forall|i: int|
            0 <= i < c.installed_versions.len() && (#[trigger] c.installed_versions[i]).path != path
                ==> !contains_seq(c.installed_versions[i].version, query),
    ensures
        c.without_version(path).find(query) is None,
{
    let vs = c.installed_versions;
    let left = without_path(vs, path);
    lemma_without_path(vs, path);
    lemma_first_match(left, query);
    let m = first_match(left, query);
    if m < left.len() {
        assert(vs.contains(left[m]));
        let k = choose|k: int| 0 <= k < vs.len() && vs[k] == left[m];
        assert(left[m].path != path) by {
            if left[m].path == path {
                assert(tracks_path(left, path));
            }
        }
        assert(!contains_seq(vs[k].version, query));
    }
}

/// Every record after an addition is the added one or was there before.
pub proof fn lemma_with_record_members(vs: Seq<JavaVersionView>, v: JavaVersionView)
    ensures
        forall|k: int|
            0 <= k < with_record(vs, v).len() ==> (#[trigger] with_record(vs, v)[k]) == v
                || vs.contains(with_record(vs, v)[k]),
{
    let i = first_at_path(vs, v.path);
    lemma_first_at_path(vs, v.path);
    let out = with_record(vs, v);
    if i < vs.len() {
        let tail = vs.skip(i + 1);
        let kept = without_path(tail, v.path);
        lemma_without_path(tail, v.path);
        assert forall|k: int| 0 <= k < out.len() implies (#[trigger] out[k]) == v || vs.contains(
            out[k],
        ) by {
            if k < i {
                assert(out[k] == vs[k]);
            } else if k > i {
                assert(out[k] == kept[k - i - 1]);
                assert(tail.contains(kept[k - i - 1]));
                let m = choose|m: int| 0 <= m < tail.len() && tail[m] == kept[k - i - 1];
                assert(vs[i + 1 + m] == out[k]);
            }
        }
    } else {
        assert forall|k: int| 0 <= k < out.len() implies (#[trigger] out[k]) == v || vs.contains(
            out[k],
        ) by {
            if k < vs.len() {
                assert(out[k] == vs[k]);
            }
        }
    }
}

} // verus!
