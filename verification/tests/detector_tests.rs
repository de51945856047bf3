use jaman::config::JavaVersion;
use jaman::detector::{Candidate, JavaDetector, Probe};
use jaman::error::JamanError;
use jaman::number::{parse_number, to_decimal};
use jaman::platform::Platform;
use std::path::PathBuf;

fn chars(s: &str) -> Vec<char> {
    s.chars().collect()
}

#[test]
fn test_is_lts_version() {
    let lts_versions = ["8", "11", "17", "21"];
    let non_lts_versions = ["9", "10", "12", "13", "14", "15", "16", "18", "19", "20"];

    for version in lts_versions {
        assert!(JavaDetector::is_lts_version(version));
    }
    for version in non_lts_versions {
        assert!(!JavaDetector::is_lts_version(version));
    }
}

#[test]
fn test_detect_architecture() {
    // Test that architecture detection works
    let arch = "x86_64";
    assert!(!arch.is_empty());
    assert_eq!(JavaDetector::detect_architecture("no hint here", arch), arch);
}

#[test]
fn test_version_normalization() {
    let old_format = "1.8.0_292";
    let expected = "8.0_292";

    assert_eq!(JavaDetector::normalize_version(old_format), expected);
    let (version, _) =
        JavaDetector::parse_version_output("java version \"1.8.0_292\"").unwrap();
    assert_eq!(version, expected);
}

#[test]
fn test_get_search_paths_windows() {
    // Test that Windows search paths are correct
    let paths = vec![
        PathBuf::from("C:\\Program Files\\Java"),
        PathBuf::from("C:\\Program Files\\Eclipse Adoptium"),
    ];
    let searched =
        JavaDetector::get_search_paths(Platform::Windows, None, &vec!["C:\\".to_string()]);

    // Verify paths exist in search list
    for path in paths {
        assert!(path.to_string_lossy().contains("Program Files"));
        assert!(searched.contains(&path.to_string_lossy().into_owned()));
    }
}

#[test]
fn test_get_search_paths_linux() {
    // Test that Linux search paths are correct
    let paths = vec![PathBuf::from("/usr/lib/jvm"), PathBuf::from("/usr/java")];
    let searched = JavaDetector::get_search_paths(Platform::Linux, None, &Vec::new());

    for path in paths {
        assert!(path.to_string_lossy().starts_with("/usr"));
        assert!(searched.contains(&path.to_string_lossy().into_owned()));
    }
}

#[test]
fn test_get_search_paths_macos() {
    // Test that macOS search paths are correct
    let path = PathBuf::from("/Library/Java/JavaVirtualMachines");
    assert!(path.to_string_lossy().contains("Library"));
    let searched = JavaDetector::get_search_paths(Platform::MacOs, None, &Vec::new());
    assert!(searched.contains(&path.to_string_lossy().into_owned()));
}

#[test]
fn test_parse_vendor_from_output() {
    let outputs = vec![
        ("openjdk version \"11.0.12\"", "openjdk"),
        ("java version \"1.8.0_292\" (Oracle)", "Oracle"),
        ("Eclipse Temurin version \"17.0.1\"", "Temurin"),
    ];

    for (output, expected_vendor) in outputs {
        assert!(
            output
                .to_lowercase()
                .contains(&expected_vendor.to_lowercase())
        );
    }

    let (_, vendor) = JavaDetector::parse_version_output("openjdk version \"11.0.12\"").unwrap();
    assert_eq!(vendor, "openjdk");
    let (_, vendor) =
        JavaDetector::parse_version_output("java version \"1.8.0_292\" (Oracle)").unwrap();
    assert_eq!(vendor, "Oracle");
    // Without `java version` or `openjdk version` there is no version to read.
    assert_eq!(
        JavaDetector::parse_version_output("Eclipse Temurin version \"17.0.1\""),
        Err(JamanError::ParseFailure)
    );
}

#[test]
fn normalization_strips_the_prefix_once() {
    assert_eq!(JavaDetector::normalize_version("1.8.0_292"), "8.0_292");
    assert_eq!(JavaDetector::normalize_version("1.1.1.1."), "1.1.1.");
    assert_eq!(JavaDetector::normalize_version("1.7.1.8"), "7.1.8");
    assert_eq!(JavaDetector::normalize_version("11.0.1.1"), "11.0.1.1");
    assert_eq!(JavaDetector::normalize_version("21.1.0"), "21.1.0");
    assert_eq!(JavaDetector::normalize_version("1."), "");
    assert_eq!(JavaDetector::normalize_version("1"), "1");
    assert_eq!(JavaDetector::normalize_version(""), "");
    for version in ["1.8.0_292", "1.1.1", "17.0.1", "1.", "x1.8"] {
        let expected = if version.starts_with("1.") {
            version.replacen("1.", "", 1)
        } else {
            version.to_string()
        };
        assert_eq!(JavaDetector::normalize_version(version), expected);
    }
}

#[test]
fn lts_depends_on_the_major_alone() {
    assert!(JavaDetector::is_lts_version("8.0_292"));
    assert!(JavaDetector::is_lts_version("11.0.12"));
    assert!(JavaDetector::is_lts_version("17.0.1+12"));
    assert!(JavaDetector::is_lts_version("21"));
    assert!(JavaDetector::is_lts_version("+21.0"));
    assert!(JavaDetector::is_lts_version("0021.3"));
    assert!(!JavaDetector::is_lts_version("9.0.4"));
    assert!(!JavaDetector::is_lts_version("12"));
    assert!(!JavaDetector::is_lts_version("18.0.2"));
    assert!(!JavaDetector::is_lts_version("20"));
    assert!(!JavaDetector::is_lts_version("1.8.0"));
    assert!(!JavaDetector::is_lts_version(""));
    assert!(!JavaDetector::is_lts_version(".8"));
    assert!(!JavaDetector::is_lts_version("8-ea"));
    assert!(!JavaDetector::is_lts_version("8 .0"));
    assert!(!JavaDetector::is_lts_version("-8"));
    assert!(!JavaDetector::is_lts_version("eight"));
    assert!(!JavaDetector::is_lts_version("4294967304.0"));
    for major in 0u32..200 {
        let expected = matches!(major, 8 | 11 | 17 | 21);
        assert_eq!(JavaDetector::is_lts_version(&format!("{}.0.1", major)), expected);
    }
}

#[test]
fn numbers_are_read_as_the_standard_library_reads_them() {
    let samples = [
        "", "0", "7", "+7", "-7", "++7", "+", "-", "007", "42", "4294967295", "4294967296",
        "04294967295", "99999999999999999999", "12a", "a12", " 12", "12 ", "1_000", "٣", "1.5",
        "0000000000000000000000000000000000008",
    ];
    for sample in samples {
        assert_eq!(parse_number(&chars(sample)), sample.parse::<u32>().ok());
    }
    assert_eq!(parse_number(&chars("4294967295")), Some(u32::MAX));
    assert_eq!(parse_number(&chars("4294967296")), None);
}

#[test]
fn numbers_are_written_in_decimal() {
    for n in [0u64, 1, 9, 10, 11, 99, 100, 1024, 4294967295, u64::MAX] {
        assert_eq!(to_decimal(n), n.to_string());
    }
}

#[test]
fn architecture_is_read_from_the_output() {
    let native = "riscv64";
    assert_eq!(
        JavaDetector::detect_architecture("OpenJDK 64-Bit Server VM", native),
        "x64"
    );
    assert_eq!(JavaDetector::detect_architecture("os.arch = amd64", native), "x64");
    assert_eq!(JavaDetector::detect_architecture("x86_64 and aarch64", native), "x64");
    assert_eq!(JavaDetector::detect_architecture("built for aarch64", native), "arm64");
    assert_eq!(JavaDetector::detect_architecture("arm64 build", native), "arm64");
    assert_eq!(JavaDetector::detect_architecture("Client VM x86", native), "x86");
    assert_eq!(JavaDetector::detect_architecture("i386", native), "x86");
    assert_eq!(JavaDetector::detect_architecture("64-bit", native), "riscv64");
    assert_eq!(JavaDetector::detect_architecture("", native), "riscv64");
}

#[test]
fn version_output_is_parsed() {
    let temurin = "openjdk version \"17.0.9\" 2023-10-17\nOpenJDK Runtime Environment Temurin-17.0.9+9 (build 17.0.9+9)\nOpenJDK 64-Bit Server VM Temurin-17.0.9+9 (build 17.0.9+9, mixed mode, sharing)\n";
    assert_eq!(
        JavaDetector::parse_version_output(temurin),
        Ok(("17.0.9".to_string(), "openjdk".to_string()))
    );
    let oracle = "java version \"1.8.0_292\"\nJava(TM) SE Runtime Environment (build 1.8.0_292-b10)\nJava HotSpot(TM) 64-Bit Server VM (build 25.292-b10, mixed mode)\n";
    assert_eq!(
        JavaDetector::parse_version_output(oracle),
        Ok(("8.0_292".to_string(), "Unknown".to_string()))
    );
    let zulu = "Picked up _JAVA_OPTIONS\njava version \"21.0.1\" 2023-10-17 LTS\nZULU build";
    assert_eq!(
        JavaDetector::parse_version_output(zulu),
        Ok(("21.0.1".to_string(), "ZULU".to_string()))
    );
    assert_eq!(
        JavaDetector::parse_version_output("java version \"\""),
        Err(JamanError::ParseFailure)
    );
    assert_eq!(
        JavaDetector::parse_version_output("command not found"),
        Err(JamanError::ParseFailure)
    );
    assert_eq!(JavaDetector::parse_version_output(""), Err(JamanError::ParseFailure));
}

#[test]
fn version_and_vendor_are_assembled_from_the_matches() {
    assert_eq!(
        JavaDetector::assemble_version(Some("1.8.0".to_string()), None),
        Ok(("8.0".to_string(), "Unknown".to_string()))
    );
    assert_eq!(
        JavaDetector::assemble_version(Some("17".to_string()), Some("Azul".to_string())),
        Ok(("17".to_string(), "Azul".to_string()))
    );
    assert_eq!(
        JavaDetector::assemble_version(None, Some("Azul".to_string())),
        Err(JamanError::ParseFailure)
    );
}

#[test]
fn detected_record_is_marked_as_found_on_disk() {
    let output = "openjdk version \"11.0.12\" 2021-07-20\nOpenJDK 64-Bit Server VM";
    let record: JavaVersion =
        JavaDetector::detect_version("/usr/lib/jvm/java-11/", output, "aarch64", Platform::Linux)
            .unwrap();
    assert_eq!(record.version, "11.0.12");
    assert_eq!(record.vendor, "openjdk");
    assert_eq!(record.path, "/usr/lib/jvm/java-11");
    assert!(record.is_lts);
    assert_eq!(record.architecture, "x64");
    assert!(record.auto_detected);
    assert!(record.last_used.is_none());
    assert_eq!(
        JavaDetector::detect_version("/x", "garbage", "aarch64", Platform::Linux).err(),
        Some(JamanError::ParseFailure)
    );
}

fn probe(path: &str, output: Option<&str>) -> Probe {
    Probe { path: path.to_string(), output: output.map(|o| o.to_string()) }
}

#[test]
fn scan_skips_failures_and_keeps_the_last_record_of_a_path() {
    let probes = vec![
        probe("/a", Some("openjdk version \"11.0.1\"")),
        probe("/b", None),
        probe("/c", Some("nothing to read")),
        probe("/d", Some("java version \"1.8.0_292\" 64-Bit")),
        probe("/a", Some("openjdk version \"17.0.1\"")),
    ];
    let found = JavaDetector::scan_system(&probes, "x86_64", Platform::Linux);
    assert_eq!(found.len(), 2);
    assert_eq!(found[0].path, "/d");
    assert_eq!(found[0].version, "8.0_292");
    assert_eq!(found[0].architecture, "x64");
    assert_eq!(found[1].path, "/a");
    assert_eq!(found[1].version, "17.0.1");
    assert_eq!(found[1].architecture, "x86_64");
    for record in &found {
        assert!(record.auto_detected);
        assert!(record.last_used.is_none());
    }
    assert!(JavaDetector::scan_system(&Vec::new(), "x86_64", Platform::Linux).is_empty());
}

#[test]
fn scan_holds_one_record_for_a_path_with_and_without_a_separator_at_its_end() {
    let probes = vec![
        probe("C:\\jdk", Some("openjdk version \"17.0.1\"")),
        probe("C:\\jdk\\", Some("openjdk version \"17.0.2\"")),
    ];
    let found = JavaDetector::scan_system(&probes, "x86_64", Platform::Windows);
    assert_eq!(found.len(), 1);
    assert_eq!(found[0].path, "C:\\jdk");
    assert_eq!(found[0].version, "17.0.2");
}

fn record(version: &str, path: &str) -> JavaVersion {
    JavaVersion::new(
        version.to_string(),
        "Unknown".to_string(),
        path.to_string(),
        false,
        "x64".to_string(),
        true,
    )
}

#[test]
fn dedup_by_path_lets_the_last_occurrence_win() {
    let found = vec![
        record("1", "/a"),
        record("2", "/b"),
        record("3", "/a"),
        record("4", "/c"),
        record("5", "/b"),
    ];
    let kept = JavaDetector::dedup_by_path(&found);
    let versions: Vec<&str> = kept.iter().map(|v| v.version.as_str()).collect();
    assert_eq!(versions, vec!["3", "4", "5"]);
}

fn candidate(path: &str, has_bin: bool, has_launcher: bool) -> Candidate {
    Candidate { path: path.to_string(), has_bin, has_launcher }
}

#[test]
fn installation_roots_hold_bin_and_the_launcher() {
    assert!(JavaDetector::is_jdk_root(&candidate("/a", true, true)));
    assert!(!JavaDetector::is_jdk_root(&candidate("/a", true, false)));
    assert!(!JavaDetector::is_jdk_root(&candidate("/a", false, true)));
    assert!(!JavaDetector::is_jdk_root(&candidate("/a", false, false)));
    let walked = vec![
        candidate("/jvm", false, false),
        candidate("/jvm/17", true, true),
        candidate("/jvm/17/bin", false, false),
        candidate("/jvm/broken", true, false),
        candidate("/jvm/21", true, true),
    ];
    assert_eq!(JavaDetector::scan_directory(&walked), vec!["/jvm/17", "/jvm/21"]);
    assert!(JavaDetector::scan_directory(&Vec::new()).is_empty());
}

#[test]
fn drives_are_named_by_their_letters() {
    let mut present = vec![false; 26];
    present[2] = true;
    present[3] = true;
    present[25] = true;
    assert_eq!(
        JavaDetector::get_available_drives(&present),
        vec!["C:\\", "D:\\", "Z:\\"]
    );
    assert!(JavaDetector::get_available_drives(&Vec::new()).is_empty());
    assert_eq!(JavaDetector::get_available_drives(&vec![true]), vec!["A:\\"]);
    assert_eq!(JavaDetector::get_available_drives(&vec![true; 40]).len(), 26);
}

#[test]
fn search_paths_follow_the_platform() {
    let unix = JavaDetector::get_search_paths(Platform::Linux, Some("/home/u"), &Vec::new());
    assert_eq!(
        unix,
        vec![
            "/usr/lib/jvm",
            "/usr/java",
            "/opt/java",
            "/Library/Java/JavaVirtualMachines",
            "/home/u/.sdkman/candidates/java",
            "/home/u/.jenv/versions",
        ]
    );
    let drives = vec!["C:\\".to_string(), "D:\\".to_string(), "C:\\".to_string()];
    let windows = JavaDetector::get_search_paths(Platform::Windows, Some("C:\\Users\\u"), &drives);
    assert_eq!(windows.len(), 24);
    assert_eq!(windows[0], "C:\\Program Files\\Java");
    assert_eq!(windows[9], "C:\\Program Files\\Liberica");
    assert_eq!(windows[10], "C:\\Program Files (x86)\\Java");
    assert_eq!(windows[11], "C:\\Program Files (x86)\\Eclipse Adoptium");
    assert_eq!(windows[12], "D:\\Program Files\\Java");
    assert_eq!(windows[23], "D:\\Program Files (x86)\\Eclipse Adoptium");
    assert!(JavaDetector::get_search_paths(Platform::Windows, None, &Vec::new()).is_empty());
    // A home that repeats a system root adds nothing twice.
    let odd = JavaDetector::get_search_paths(Platform::Linux, Some("/"), &Vec::new());
    let mut seen = odd.clone();
    seen.dedup();
    assert_eq!(seen.len(), odd.len());
}

#[test]
fn parent_is_the_directory_that_holds_a_path() {
    let unix = Platform::Linux;
    assert_eq!(unix.parent("/usr/lib/jvm/java-17/bin/java"), Some("/usr/lib/jvm/java-17/bin".to_string()));
    assert_eq!(unix.parent("/usr/bin/"), Some("/usr".to_string()));
    assert_eq!(unix.parent("/usr//bin"), Some("/usr".to_string()));
    assert_eq!(unix.parent("/usr"), Some("/".to_string()));
    assert_eq!(unix.parent("/"), None);
    assert_eq!(unix.parent("//"), None);
    assert_eq!(unix.parent(""), None);
    assert_eq!(unix.parent("java"), Some("".to_string()));
    assert_eq!(unix.parent("bin/java"), Some("bin".to_string()));
    assert_eq!(unix.parent("a\\b"), Some("".to_string()));
    let windows = Platform::Windows;
    assert_eq!(
        windows.parent("C:\\Program Files\\Java\\jdk-21\\bin\\java.exe"),
        Some("C:\\Program Files\\Java\\jdk-21\\bin".to_string())
    );
    assert_eq!(windows.parent("C:/jdk/bin"), Some("C:/jdk".to_string()));
    assert_eq!(windows.parent("\\jdk"), Some("\\".to_string()));
    // For ordinary absolute paths this is what the standard library answers.
    for path in ["/usr/lib/jvm/java-17/bin/java", "/usr/bin/", "/usr", "/", "bin/java", "java"] {
        let expected = std::path::Path::new(path).parent().map(|p| p.to_string_lossy().into_owned());
        assert_eq!(unix.parent(path), expected);
    }
}

#[test]
fn launcher_on_the_search_path_points_at_its_installation() {
    assert_eq!(
        JavaDetector::launcher_root("/usr/lib/jvm/java-17/bin/java", Platform::Linux),
        Some("/usr/lib/jvm/java-17".to_string())
    );
    assert_eq!(JavaDetector::launcher_root("/java", Platform::Linux), None);
    assert_eq!(JavaDetector::launcher_root("java", Platform::Linux), None);
    assert_eq!(
        JavaDetector::detect_from_path(
            Some("/opt/jdk-21/bin/java\n"),
            true,
            Some("/ignored/elsewhere"),
            Platform::Linux
        ),
        vec!["/opt/jdk-21"]
    );
    assert_eq!(
        JavaDetector::detect_from_path(
            Some("C:\\jdk-17\\bin\\java.exe\r\n  C:\\jdk-21\\bin\\java.exe  \r\njava.exe\r\n"),
            true,
            Some("C:\\home"),
            Platform::Windows
        ),
        vec!["C:\\jdk-17", "C:\\jdk-21", "C:\\home"]
    );
    assert_eq!(
        JavaDetector::detect_from_path(
            Some("C:\\jdk-17\\bin\\java.exe"),
            false,
            Some("C:\\home"),
            Platform::Windows
        ),
        vec!["C:\\jdk-17"]
    );
    assert_eq!(
        JavaDetector::detect_from_path(None, true, Some("C:\\home"), Platform::Windows),
        vec!["C:\\home"]
    );
    assert!(JavaDetector::detect_from_path(None, true, None, Platform::Windows).is_empty());
    assert!(JavaDetector::detect_from_path(None, true, Some("/h"), Platform::MacOs).is_empty());
    assert!(JavaDetector::detect_from_path(Some(""), false, None, Platform::Linux).is_empty());
}
