use jaman::commands::activate::ActivateCommand;
use jaman::commands::clean::CleanCommand;
use jaman::commands::doctor::{Diagnosis, DoctorCommand, Observations};
use jaman::commands::install::InstallCommand;
use jaman::commands::list::ListCommand;
use jaman::commands::scan::{ScanCommand, ScanSummary};
use jaman::config::{Config, JavaVersion};
use jaman::downloader::AvailableVersion;
use jaman::error::JamanError;
use jaman::platform::Platform;
use jaman::timestamp::Timestamp;

fn record(version: &str, path: &str, lts: bool, auto_detected: bool) -> JavaVersion {
    JavaVersion::new(
        version.to_string(),
        "Eclipse Temurin".to_string(),
        path.to_string(),
        lts,
        "x64".to_string(),
        auto_detected,
    )
}

fn registry() -> Config {
    let mut config = Config::new("/i".to_string(), "/d".to_string());
    config.add_version(record("8.0.392", "/a", true, true));
    config.add_version(record("17.0.9", "/b", true, false));
    config.add_version(record("20.0.2", "/c", false, false));
    config.add_version(record("21.0.1", "/d", true, false));
    config
}

fn versions(found: &Vec<JavaVersion>) -> Vec<String> {
    found.iter().map(|v| v.version.clone()).collect()
}

const DAY: i64 = 86_400;

#[test]
fn unused_versions_are_old_managed_and_inactive() {
    let mut config = registry();
    let now = Timestamp { secs: 1_000 * DAY, nanos: 0 };
    config.installed_versions[1].last_used = Some(Timestamp { secs: 100 * DAY, nanos: 0 });
    config.installed_versions[2].last_used = Some(Timestamp { secs: 950 * DAY, nanos: 0 });
    config.set_active("21.0.1").unwrap();
    // 8 was found on disk, 20 was used recently, 21 is active.
    assert_eq!(versions(&CleanCommand::unused_versions(&config, now, 90)), vec!["17.0.9"]);
    // With a shorter period 20 is old as well.
    assert_eq!(
        versions(&CleanCommand::unused_versions(&config, now, 30)),
        vec!["17.0.9", "20.0.2"]
    );
    config.active_version = None;
    // A version that was never used is unused.
    assert_eq!(
        versions(&CleanCommand::unused_versions(&config, now, 90)),
        vec!["17.0.9", "21.0.1"]
    );
    config.active_version = Some("21".to_string());
    assert_eq!(
        versions(&CleanCommand::unused_versions(&config, now, 90)),
        vec!["17.0.9", "21.0.1"]
    );
}

#[test]
fn scan_results_are_merged_into_the_registry() {
    let mut config = registry();
    let found = vec![
        record("8.0.400", "/a", true, true),
        record("11.0.1", "/e", true, true),
        record("11.0.2", "/e", true, true),
        record("22.0.1", "/f", false, true),
    ];
    let now = Timestamp { secs: 5, nanos: 6 };
    let summary = ScanCommand::merge(&mut config, found, now);
    assert_eq!(summary, ScanSummary { added: 2, skipped: 2 });
    assert_eq!(config.installed_versions.len(), 6);
    // The tracked record stays as it was.
    assert_eq!(config.installed_versions[0].version, "8.0.392");
    assert_eq!(config.installed_versions[4].version, "11.0.1");
    assert_eq!(config.installed_versions[5].version, "22.0.1");
    assert_eq!(config.last_scan, Some(now));
    assert!(ScanCommand::is_tracked(&config, &"/e".to_string()));
    assert!(!ScanCommand::is_tracked(&config, &"/zz".to_string()));
    let nothing = ScanCommand::merge(&mut config, Vec::new(), now);
    assert_eq!(nothing, ScanSummary { added: 0, skipped: 0 });
}

fn offer(version: &str, vendor: &str, lts: bool) -> AvailableVersion {
    AvailableVersion {
        version: version.to_string(),
        vendor: vendor.to_string(),
        is_lts: lts,
        architecture: "x64".to_string(),
        download_url: format!("https://example.com/{}.zip", version),
        checksum: None,
    }
}

#[test]
fn install_selects_the_first_matching_offer() {
    let offers = vec![
        offer("11.0.21+9", "Eclipse Temurin", true),
        offer("21.0.1+12", "Eclipse Temurin", true),
        offer("21.0.1", "GraalVM CE", true),
    ];
    assert_eq!(InstallCommand::select(&offers, "21").unwrap().version, "11.0.21+9");
    assert_eq!(InstallCommand::select(&offers, "21.0").unwrap().version, "21.0.1+12");
    assert_eq!(
        InstallCommand::select(&offers, "17").err(),
        Some(JamanError::NotFound("17".to_string()))
    );
    assert_eq!(
        InstallCommand::select(&Vec::new(), "").err(),
        Some(JamanError::NotFound("".to_string()))
    );
    let config = registry();
    assert!(InstallCommand::is_installed(&config, "17.0.9"));
    assert!(!InstallCommand::is_installed(&config, "11.0.21+9"));
    let installed = InstallCommand::record_for(&offers[1], "/opt/jdks/x/", Platform::Linux);
    assert_eq!(installed.version, "21.0.1+12");
    assert_eq!(installed.vendor, "Eclipse Temurin");
    assert_eq!(installed.path, "/opt/jdks/x");
    assert!(installed.is_lts);
    assert_eq!(installed.architecture, "x64");
    assert!(!installed.auto_detected);
    assert!(installed.last_used.is_none());
}

#[test]
fn activation_is_recorded_in_the_registry() {
    let mut config = registry();
    assert_eq!(ActivateCommand::select(&config, "17").unwrap().path, "/b");
    assert_eq!(
        ActivateCommand::select(&config, "99").err(),
        Some(JamanError::NotFound("99".to_string()))
    );
    let now = Timestamp { secs: 77, nanos: 1 };
    assert_eq!(ActivateCommand::commit(&mut config, "17.0.9", now), Ok(()));
    assert_eq!(config.active_version, Some("17.0.9".to_string()));
    assert_eq!(config.installed_versions[1].last_used, Some(now));
    assert!(config.installed_versions[0].last_used.is_none());
    assert!(config.installed_versions[3].last_used.is_none());
    assert_eq!(
        ActivateCommand::commit(&mut config, "99", now),
        Err(JamanError::NotFound("99".to_string()))
    );
    assert_eq!(config.active_version, Some("17.0.9".to_string()));
    // A part of a version is no version: nothing is activated.
    assert_eq!(
        ActivateCommand::commit(&mut config, "21", now),
        Err(JamanError::NotFound("21".to_string()))
    );
    assert_eq!(config.active_version, Some("17.0.9".to_string()));
    assert!(config.installed_versions[3].last_used.is_none());
}

#[test]
fn listing_filters_by_version_and_support() {
    let config = registry();
    assert_eq!(versions(&ListCommand::installed(&config, None, false)).len(), 4);
    assert_eq!(
        versions(&ListCommand::installed(&config, Some("2"), false)),
        vec!["8.0.392", "20.0.2", "21.0.1"]
    );
    assert_eq!(
        versions(&ListCommand::installed(&config, Some("2"), true)),
        vec!["8.0.392", "21.0.1"]
    );
    assert!(ListCommand::installed(&config, Some("99"), false).is_empty());
    let offers = vec![
        offer("11.0.21+9", "Eclipse Temurin", true),
        offer("20.0.2", "GraalVM CE", false),
        offer("21.0.1", "Oracle GRAALVM", true),
    ];
    let graal = ListCommand::available(&offers, None, false, true);
    assert_eq!(graal.len(), 2);
    assert_eq!(graal[0].version, "20.0.2");
    let lts_graal = ListCommand::available(&offers, Some("21"), true, true);
    assert_eq!(lts_graal.len(), 1);
    assert_eq!(lts_graal[0].vendor, "Oracle GRAALVM");
    assert_eq!(ListCommand::available(&offers, Some("21"), false, false).len(), 2);
}

#[test]
fn diagnosis_counts_the_five_checks() {
    let fine = Observations {
        config_valid: true,
        java_home_valid: Some(true),
        java_runs: true,
        invalid_installations: 0,
        installation_dir_exists: true,
    };
    assert_eq!(
        DoctorCommand::diagnose(&fine),
        Diagnosis { checks_passed: 5, issues_found: 0 }
    );
    let poor = Observations {
        config_valid: false,
        java_home_valid: None,
        java_runs: false,
        invalid_installations: 2,
        installation_dir_exists: false,
    };
    assert_eq!(
        DoctorCommand::diagnose(&poor),
        Diagnosis { checks_passed: 0, issues_found: 5 }
    );
    let mixed = Observations { java_home_valid: Some(false), invalid_installations: 1, ..fine };
    assert_eq!(
        DoctorCommand::diagnose(&mixed),
        Diagnosis { checks_passed: 3, issues_found: 2 }
    );
}

#[test]
fn display_order_is_a_stable_descending_sort() {
    let samples: Vec<Vec<&str>> = vec![
        vec![],
        vec!["17.0.9"],
        vec!["8.0.392", "17.0.9", "20.0.2", "21.0.1"],
        vec!["21.0.1", "8.0.392", "21.0.1", "11.0.2", "8.0.392", "9"],
        vec!["a", "", "ab", "a", "b", "", "é", "z", "ab"],
        vec!["1.8", "1.10", "1.9", "10", "2"],
    ];
    for sample in samples {
        let keys: Vec<String> = sample.iter().map(|s| s.to_string()).collect();
        let order = ListCommand::display_order(&keys);
        let mut expected: Vec<usize> = (0..keys.len()).collect();
        expected.sort_by(|a, b| keys[*b].cmp(&keys[*a]));
        assert_eq!(order, expected);
    }
    let keys: Vec<String> = ["8.0.392", "17.0.9", "21.0.1"].iter().map(|s| s.to_string()).collect();
    assert_eq!(ListCommand::display_order(&keys), vec![0, 2, 1]);
}

#[test]
fn string_order_is_the_order_of_the_standard_library() {
    let samples = ["", "a", "ab", "b", "B", "é", "z", "~", "10", "9", "a\u{10000}", "a\u{ffff}"];
    for a in samples {
        for b in samples {
            let x: Vec<char> = a.chars().collect();
            let y: Vec<char> = b.chars().collect();
            assert_eq!(jaman::text::less(&x, &y), a < b);
        }
    }
}

#[test]
fn a_failed_installation_adds_no_record() {
    let entry = offer("21.0.1+12", "Eclipse Temurin", true);
    let mut config = registry();
    let failed = InstallCommand::record(
        &mut config,
        &entry,
        Err(JamanError::IntegrityFailure),
        Platform::Linux,
    );
    assert_eq!(failed, Err(JamanError::IntegrityFailure));
    assert_eq!(versions(&config.installed_versions), versions(&registry().installed_versions));
    assert_eq!(config.active_version, None);

    let done = InstallCommand::record(
        &mut config,
        &entry,
        Ok("/opt/jdks/new/".to_string()),
        Platform::Linux,
    );
    assert_eq!(done, Ok(()));
    assert_eq!(config.installed_versions.len(), 5);
    assert_eq!(config.installed_versions[4].version, "21.0.1+12");
    assert_eq!(config.installed_versions[4].path, "/opt/jdks/new");
    assert!(!config.installed_versions[4].auto_detected);
}
