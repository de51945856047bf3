//! Listing: which installations and which catalog entries are shown.

use vstd::prelude::*;

use crate::config::{records, Config, JavaVersion, JavaVersionView};
use crate::downloader::{offers, AvailableVersion, AvailableVersionView};
use crate::text::{
    chars_of, contains, contains_seq, contains_text, lemma_less_total, lemma_less_transitive, less,
    less_seq, lower_seq, texts, to_lower, views,
};

verus! {

/// Whether a version string passes the filter: every string passes where there is none.
pub open spec fn passes(version: Seq<char>, filter: Option<Seq<char>>) -> bool {
    match filter {
        Some(f) => contains_seq(version, f),
        None => true,
    }
}

/// Whether a tracked installation is listed.
pub open spec fn lists_installed(v: JavaVersionView, filter: Option<Seq<char>>, lts_only: bool) -> bool {
    passes(v.version, filter) && (lts_only ==> v.is_lts)
}

/// Whether a catalog entry is listed.
pub open spec fn lists_available(
    v: AvailableVersionView,
    filter: Option<Seq<char>>,
    lts_only: bool,
    graalvm_only: bool,
) -> bool {
    &&& passes(v.version, filter)
    &&& lts_only ==> v.is_lts
    &&& graalvm_only ==> contains_seq(lower_seq(v.vendor), "graalvm"@)
}

/// The text of an optional string slice.
pub open spec fn filter_text(filter: Option<&str>) -> Option<Seq<char>> {
    match filter {
        Some(f) => Some(f@),
        None => None,
    }
}

/// Whether the item at index `i` is shown before the item at index `j`: its key stands
/// later in the order of strings or, where the keys are equal, it has the smaller
/// index.
pub open spec fn shown_before(keys: Seq<Seq<char>>, i: int, j: int) -> bool {
    less_seq(keys[j], keys[i]) || (keys[i] == keys[j] && i < j)
}

/// Whether `order` lists the indices of `keys` in the order of display: every index
/// once, the greatest key first, and equal keys in the order of their indices.
pub open spec fn is_display_order(keys: Seq<Seq<char>>, order: Seq<usize>) -> bool {
    &&& order.len() == keys.len()
    &&& forall|a: int| 0 <= a < order.len() ==> (#[trigger] order[a]) < keys.len()
    &&& forall|i: int| 0 <= i < keys.len() ==> order.contains(#[trigger] (i as usize))
    &&& forall|a: int, b: int|
        0 <= a < b < order.len() ==> shown_before(keys, #[trigger] order[a] as int, #[trigger] order[b] as int)
}

/// Unit type that gathers the decisions of the list command.
pub struct ListCommand;

impl ListCommand {
    /// Whether a version string passes the filter.
    fn passes_filter(version: &str, filter: Option<&str>) -> (r: bool)
        ensures
            r == passes(version@, filter_text(filter)),
    {
        match filter {
            Some(f) => contains_text(version, f),
            None => true,
        }
    }

    /// The order in which items with the given version strings are displayed: the
    /// indices of `keys`, the greatest version string first, equal ones in the order
    /// in which they were given.
    pub fn display_order(keys: &Vec<String>) -> (r: Vec<usize>)
        ensures
            is_display_order(texts(keys@), r@),
    {
        let n = keys.len();
        let ghost all = texts(keys@);
        let mut chars: Vec<Vec<char>> = Vec::new();
        let mut c: usize = 0;
        while c < n
            invariant
                c <= n,
                n == keys.len(),
                chars@.len() == c,
                forall|j: int| 0 <= j < c ==> (#[trigger] chars@[j])@ == keys@[j]@,
            decreases n - c,
        {
            chars.push(chars_of(keys[c].as_str()));
            c += 1;
        }
        assert(views(chars@) =~= all);
        let mut order: Vec<usize> = Vec::new();
        let mut k: usize = 0;
        while k < n
            invariant
                k <= n,
                n == keys.len(),
                all == texts(keys@),
                views(chars@) == all,
                order@.len() == k,
                forall|a: int| 0 <= a < order@.len() ==> (#[trigger] order@[a]) < k,
                forall|i: int| 0 <= i < k ==> order@.contains(#[trigger] (i as usize)),
                forall|a: int, b: int|
                    0 <= a < b < order@.len() ==> shown_before(
                        all,
                        #[trigger] order@[a] as int,
                        #[trigger] order@[b] as int,
                    ),
            decreases n - k,
        {
            let mut p: usize = 0;
            while p < order.len() && !less(&chars[order[p]], &chars[k])
                invariant
                    p <= order@.len(),
                    k < n,
                    n == keys.len(),
                    views(chars@) == all,
                    all.len() == n,
                    forall|a: int| 0 <= a < order@.len() ==> (#[trigger] order@[a]) < k,
                    forall|a: int|
                        0 <= a < p ==> !less_seq(all[(#[trigger] order@[a]) as int], all[k as int]),
                decreases order@.len() - p,
            {
                assert(chars@[order@[p as int] as int]@ == all[order@[p as int] as int]);
                assert(chars@[k as int]@ == all[k as int]);
                p += 1;
            }
            let ghost before = order@;
            proof {
                if p < before.len() {
                    assert(chars@[before[p as int] as int]@ == all[before[p as int] as int]);
                    assert(chars@[k as int]@ == all[k as int]);
                    assert(less_seq(all[before[p as int] as int], all[k as int]));
                }
            }
            order.insert(p, k);
            proof {
                let after = order@;
                assert forall|a: int| 0 <= a < after.len() implies (#[trigger] after[a]) < k + 1 by {
                    if a < p {
                        assert(after[a] == before[a]);
                    } else if a > p {
                        assert(after[a] == before[a - 1]);
                    }
                }
                assert forall|i: int| 0 <= i < k + 1 implies after.contains(
                    #[trigger] (i as usize),
                ) by {
                    if i == k {
                        assert(after[p as int] == k);
                    } else {
                        assert(before.contains(i as usize));
                        let a = choose|a: int| 0 <= a < before.len() && before[a] == i as usize;
                        if a < p {
                            assert(after[a] == i as usize);
                        } else {
                            assert(after[a + 1] == i as usize);
                        }
                    }
                }
                assert forall|a: int, b: int| 0 <= a < b < after.len() implies shown_before(
                    all,
                    #[trigger] after[a] as int,
                    #[trigger] after[b] as int,
                ) by {
                    let new_key = all[k as int];
                    if b == p {
                        // An earlier item does not stand before the new one in the order
                        // of strings, and it has the smaller index.
                        assert(after[a] == before[a]);
                        assert(!less_seq(all[before[a] as int], new_key));
                        lemma_less_total(all[before[a] as int], new_key);
                    } else if a == p {
                        // The item at the place of insertion stands before the new one,
                        // and so does every later item.
                        assert(after[b] == before[b - 1]);
                        let at = all[before[p as int] as int];
                        let later = all[before[b - 1] as int];
                        if b - 1 > p {
                            assert(shown_before(all, before[p as int] as int, before[b - 1] as int));
                            if less_seq(later, at) {
                                lemma_less_transitive(later, at, new_key);
                            }
                        }
                    } else {
                        let a0 = if a < p {
                            a
                        } else {
                            a - 1
                        };
                        let b0 = if b < p {
                            b
                        } else {
                            b - 1
                        };
                        assert(after[a] == before[a0] && after[b] == before[b0]);
                        assert(shown_before(all, before[a0] as int, before[b0] as int));
                    }
                }
            }
            k += 1;
        }
        order
    }

    /// The tracked installations that are listed, in stored order: those whose
    /// version contains the filter, where there is one, and only the long-term-support
    /// releases where `lts_only` is set.
    pub fn installed(config: &Config, filter: Option<&str>, lts_only: bool) -> (r: Vec<JavaVersion>)
        ensures
            records(r@) == config@.installed_versions.filter(
                |v: JavaVersionView| lists_installed(v, filter_text(filter), lts_only),
            ),
    {
        let ghost all = records(config.installed_versions@);
        let ghost keep = |v: JavaVersionView| lists_installed(v, filter_text(filter), lts_only);
        let mut out: Vec<JavaVersion> = Vec::new();
        let mut i: usize = 0;
        proof {
            assert(all.take(0) =~= Seq::<JavaVersionView>::empty());
            reveal(Seq::filter);
        }
        while i < config.installed_versions.len()
            invariant
                i <= config.installed_versions.len(),
                all == records(config.installed_versions@),
                keep == |v: JavaVersionView| lists_installed(v, filter_text(filter), lts_only),
                records(out@) == all.take(i as int).filter(keep),
            decreases config.installed_versions.len() - i,
        {
            let version = &config.installed_versions[i];
            proof {
                assert(all.take(i + 1) =~= all.take(i as int).push(all[i as int]));
                all.take(i as int).lemma_filter_push(all[i as int], keep);
                assert(all[i as int] == version@);
            }
            if ListCommand::passes_filter(version.version.as_str(), filter) && (!lts_only
                || version.is_lts) {
                let copy = version.clone();
                proof {
                    assert(records(out@.push(copy)) =~= records(out@).push(version@));
                }
                out.push(copy);
            }
            i += 1;
        }
        assert(all.take(config.installed_versions.len() as int) =~= all);
        out
    }

    /// The catalog entries that are listed, in the order of the catalog: those whose
    /// version contains the filter, where there is one; only the long-term-support
    /// releases where `lts_only` is set; only those whose vendor names GraalVM, in any
    /// letter case, where `graalvm_only` is set.
    pub fn available(
        versions: &Vec<AvailableVersion>,
        filter: Option<&str>,
        lts_only: bool,
        graalvm_only: bool,
    ) -> (r: Vec<AvailableVersion>)
        ensures
            offers(r@) == offers(versions@).filter(
                |v: AvailableVersionView|
                    lists_available(v, filter_text(filter), lts_only, graalvm_only),
            ),
    {
        let ghost all = offers(versions@);
        let ghost keep = |v: AvailableVersionView|
            lists_available(v, filter_text(filter), lts_only, graalvm_only);
        let graalvm = chars_of("graalvm");
        let mut out: Vec<AvailableVersion> = Vec::new();
        let mut i: usize = 0;
        proof {
            assert(all.take(0) =~= Seq::<AvailableVersionView>::empty());
            reveal(Seq::filter);
        }
        while i < versions.len()
            invariant
                i <= versions.len(),
                all == offers(versions@),
                graalvm@ == "graalvm"@,
                keep == |v: AvailableVersionView|
                    lists_available(v, filter_text(filter), lts_only, graalvm_only),
                offers(out@) == all.take(i as int).filter(keep),
            decreases versions.len() - i,
        {
            let version = &versions[i];
            proof {
                assert(all.take(i + 1) =~= all.take(i as int).push(all[i as int]));
                all.take(i as int).lemma_filter_push(all[i as int], keep);
                assert(all[i as int] == version@);
            }
            let vendor_ok = !graalvm_only || contains(
                &to_lower(&chars_of(version.vendor.as_str())),
                &graalvm,
            );
            if ListCommand::passes_filter(version.version.as_str(), filter) && (!lts_only
                || version.is_lts) && vendor_ok {
                let copy = version.clone();
                proof {
                    assert(offers(out@.push(copy)) =~= offers(out@).push(version@));
                }
                out.push(copy);
            }
            i += 1;
        }
        assert(all.take(versions.len() as int) =~= all);
        out
    }
}

} // verus!
