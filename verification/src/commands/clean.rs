//! Cleaning: which installations have not been used for long, and how sizes are shown.

use vstd::prelude::*;
use vstd::string::StringExecFns;

use crate::config::{records, Config, JavaVersion, JavaVersionView};
use crate::number::{decimal_text, digit_char, to_decimal};
use crate::text::string_of;
use crate::timestamp::Timestamp;

verus! {

/// Whether a record may be cleaned away: it was installed by the tool, it is not the
/// active version, and it was never used or last used more than `days` days before
/// `now`.
pub open spec fn is_unused(
    v: JavaVersionView,
    active: Option<Seq<char>>,
    now: Timestamp,
    days: int,
) -> bool {
    &&& !v.auto_detected
    &&& active != Some(v.version)
    &&& match v.last_used {
        Some(at) => at.older_than(now, days),
        None => true,
    }
}

/// The records that may be cleaned away, in stored order.
pub open spec fn unused_among(
    vs: Seq<JavaVersionView>,
    active: Option<Seq<char>>,
    now: Timestamp,
    days: int,
) -> Seq<JavaVersionView> {
    vs.filter(|v: JavaVersionView| is_unused(v, active, now, days))
}

/// The number of bytes in a kibibyte, a mebibyte and a gibibyte.
pub const KB: u64 = 1024;

pub const MB: u64 = 1_048_576;

pub const GB: u64 = 1_073_741_824;

/// The number of hundredths of `unit` in `bytes`, rounded to the nearest whole number
/// and, half-way between two, to the even one.
pub open spec fn hundredths(bytes: nat, unit: nat) -> nat {
    let whole = (bytes * 100) / unit;
    let left = (bytes * 100) % unit;
    if 2 * left > unit || (2 * left == unit && whole % 2 == 1) {
        whole + 1
    } else {
        whole
    }
}

/// A number of hundredths written with two decimal places.
pub open spec fn two_places(h: nat) -> Seq<char> {
    decimal_text(h / 100) + seq!['.', digit_char(((h / 10) % 10) as int), digit_char((h % 10) as int)]
}

/// A size for display: in the largest of GB, MB and KB that it reaches, with two
/// decimal places, and in whole bytes below one KB.
pub open spec fn size_text(bytes: nat) -> Seq<char> {
    if bytes >= GB {
        two_places(hundredths(bytes, GB as nat)) + " GB"@
    } else if bytes >= MB {
        two_places(hundredths(bytes, MB as nat)) + " MB"@
    } else if bytes >= KB {
        two_places(hundredths(bytes, KB as nat)) + " KB"@
    } else {
        decimal_text(bytes) + " bytes"@
    }
}

/// Unit type that gathers the decisions of the clean command.
pub struct CleanCommand;

impl CleanCommand {
    /// The installations that may be cleaned away, in stored order: those that the
    /// tool installed, that are not active, and that were never used or last used more
    /// than `days` days before `now`.
    pub fn unused_versions(config: &Config, now: Timestamp, days: i64) -> (r: Vec<JavaVersion>)
        ensures
            records(r@) == unused_among(
                config@.installed_versions,
                config@.active_version,
                now,
                days as int,
            ),
    {
        let ghost all = records(config.installed_versions@);
        let ghost active = config@.active_version;
        let ghost keep = |v: JavaVersionView| is_unused(v, active, now, days as int);
        let mut out: Vec<JavaVersion> = Vec::new();
        let mut i: usize = 0;
        proof {
            assert(all.take(0) =~= Seq::<JavaVersionView>::empty());
            reveal(Seq::filter);
        }
        while i < config.installed_versions.len()
            invariant
                i <= config.installed_versions.len(),
                all == records(config.installed_versions@),
                active == config@.active_version,
                keep == |v: JavaVersionView| is_unused(v, active, now, days as int),
                records(out@) == all.take(i as int).filter(keep),
            decreases config.installed_versions.len() - i,
        {
            let version = &config.installed_versions[i];
            proof {
                assert(all.take(i + 1) =~= all.take(i as int).push(all[i as int]));
                all.take(i as int).lemma_filter_push(all[i as int], keep);
                assert(all[i as int] == version@);
            }
            let is_active = match &config.active_version {
                Some(a) => *a == version.version,
                None => false,
            };
            let stale = match version.last_used {
                Some(at) => at.is_older_than(&now, days),
                None => true,
            };
            if !version.auto_detected && !is_active && stale {
                let copy = version.clone();
                proof {
                    assert(records(out@.push(copy)) =~= records(out@).push(version@));
                }
                out.push(copy);
            }
            i += 1;
        }
        assert(all.take(config.installed_versions.len() as int) =~= all);
        out
    }

    /// The number of hundredths of `unit` in `bytes`, rounded half to even.
    fn hundredths_of(bytes: u64, unit: u64) -> (h: u64)
        requires
            unit == KB || unit == MB || unit == GB,
        ensures
            h == hundredths(bytes as nat, unit as nat),
    {
        let scaled: u128 = (bytes as u128) * 100;
        let whole: u128 = scaled / (unit as u128);
        let left: u128 = scaled % (unit as u128);
        let rounded: u128 = if 2 * left > (unit as u128) || (2 * left == (unit as u128) && whole % 2
            == 1) {
            whole + 1
        } else {
            whole
        };
        rounded as u64
    }

    /// A number of hundredths written with two decimal places.
    fn two_places_of(h: u64) -> (r: String)
        ensures
            r@ == two_places(h as nat),
    {
        let mut tail: Vec<char> = Vec::new();
        tail.push('.');
        tail.push((('0' as u8) + (((h / 10) % 10) as u8)) as char);
        tail.push((('0' as u8) + ((h % 10) as u8)) as char);
        let fraction = string_of(&tail);
        let r = to_decimal(h / 100).concat(fraction.as_str());
        assert(r@ =~= two_places(h as nat));
        r
    }

    /// A size for display: `1.50 GB`, `1.00 MB`, `1.00 KB`, `512 bytes`. The unit is
    /// the largest of GB, MB and KB that the size reaches; the number has two decimal
    /// places and is rounded to the nearest hundredth, half-way to the even one.
    pub fn format_size(bytes: u64) -> (r: String)
        ensures
            r@ == size_text(bytes as nat),
    {
        if bytes >= GB {
            CleanCommand::two_places_of(CleanCommand::hundredths_of(bytes, GB)).concat(" GB")
        } else if bytes >= MB {
            CleanCommand::two_places_of(CleanCommand::hundredths_of(bytes, MB)).concat(" MB")
        } else if bytes >= KB {
            CleanCommand::two_places_of(CleanCommand::hundredths_of(bytes, KB)).concat(" KB")
        } else {
            to_decimal(bytes).concat(" bytes")
        }
    }
}

} // verus!
