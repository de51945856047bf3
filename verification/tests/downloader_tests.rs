use jaman::commands::clean::CleanCommand;
use jaman::detector::Candidate;
use jaman::digest::{digest_matches, sha256_hex};
use jaman::downloader::{
    ArchiveFormat, Asset, AvailableReleases, AvailableVersion, Downloader,
};
use jaman::error::JamanError;
use jaman::platform::Platform;
use sha2::{Digest, Sha256};

#[test]
fn test_available_version_creation() {
    let version = AvailableVersion {
        version: "21.0.1".to_string(),
        vendor: "Eclipse Temurin".to_string(),
        is_lts: true,
        architecture: "x64".to_string(),
        download_url: "https://example.com/java.zip".to_string(),
        checksum: Some("abc123".to_string()),
    };

    assert_eq!(version.version, "21.0.1");
    assert_eq!(version.vendor, "Eclipse Temurin");
    assert!(version.is_lts);
    assert_eq!(version.architecture, "x64");
    assert!(version.checksum.is_some());
}

#[test]
fn test_extract_filename() {
    let urls = vec![
        ("https://example.com/java-21.0.1.zip", "java-21.0.1.zip"),
        ("https://example.com/path/to/file.tar.gz", "file.tar.gz"),
        ("https://example.com/", "download.zip"),
    ];

    for (url, expected) in urls {
        let filename = Downloader::extract_filename(url);
        assert_eq!(filename, expected);
    }
}

#[test]
fn test_format_size() {
    let test_cases = vec![
        (512u64, "512 bytes"),
        (1024u64, "1.00 KB"),
        (1024 * 1024, "1.00 MB"),
        (1024 * 1024 * 1024, "1.00 GB"),
        (1536 * 1024 * 1024, "1.50 GB"),
    ];

    for (bytes, expected) in test_cases {
        let result = CleanCommand::format_size(bytes);
        assert_eq!(result, expected);
    }
}

fn format_size_with_floats(bytes: u64) -> String {
    const KB: u64 = 1024;
    const MB: u64 = KB * 1024;
    const GB: u64 = MB * 1024;

    if bytes >= GB {
        format!("{:.2} GB", bytes as f64 / GB as f64)
    } else if bytes >= MB {
        format!("{:.2} MB", bytes as f64 / MB as f64)
    } else if bytes >= KB {
        format!("{:.2} KB", bytes as f64 / KB as f64)
    } else {
        format!("{} bytes", bytes)
    }
}

#[test]
fn format_size_agrees_with_floating_point_formatting() {
    let mut samples: Vec<u64> = vec![
        0,
        1,
        1023,
        1024,
        1025,
        1029,
        1030,
        1536,
        10 * 1024 + 5,
        1024 * 1024 - 1,
        1024 * 1024,
        1024 * 1024 + 5242,
        1024 * 1024 + 5243,
        1024 * 1024 * 1024 - 1,
        1024 * 1024 * 1024,
        // Exactly half-way between two hundredths: 1.125, 1.375 and 2.625 GB.
        9 * 128 * 1024 * 1024,
        11 * 128 * 1024 * 1024,
        21 * 128 * 1024 * 1024,
        // 1.005 KB cannot be hit exactly; its neighbours round apart.
        1029,
        (1u64 << 53) - 1,
    ];
    let mut x: u64 = 88172645463325252;
    for _ in 0..2000 {
        x ^= x << 13;
        x ^= x >> 7;
        x ^= x << 17;
        samples.push(x >> 11);
        samples.push(x >> 30);
        samples.push(x >> 45);
    }
    for bytes in samples {
        assert_eq!(CleanCommand::format_size(bytes), format_size_with_floats(bytes));
    }
}

#[test]
fn format_size_rounds_half_to_even() {
    assert_eq!(CleanCommand::format_size(9 * 128 * 1024 * 1024), "1.12 GB");
    assert_eq!(CleanCommand::format_size(11 * 128 * 1024 * 1024), "1.38 GB");
    assert_eq!(CleanCommand::format_size(1023), "1023 bytes");
    assert_eq!(CleanCommand::format_size(1024 * 1024 - 1), "1024.00 KB");
    assert_eq!(CleanCommand::format_size(u64::MAX), "17179869184.00 GB");
}

#[test]
fn test_checksum_verification() {
    let data = b"test data";
    let hash_str = sha256_hex(data);

    assert!(!hash_str.is_empty());
    assert_eq!(hash_str.len(), 64); // SHA256 produces 64 hex characters

    let mut hasher = Sha256::new();
    hasher.update(data);
    let hash = hasher.finalize();
    assert_eq!(hash_str, hex::encode(hash));
}

const ABC_DIGEST: &str = "ba7816bf8f01cfea414140de5dae2223b00361a396177a9cb410ff61f20015ad";

#[test]
fn digest_is_sha256_in_lower_case_hexadecimal() {
    assert_eq!(sha256_hex(b"abc"), ABC_DIGEST);
    assert_eq!(
        sha256_hex(b""),
        "e3b0c44298fc1c149afbf4c8996fb92427ae41e4649b934ca495991b7852b855"
    );
}

#[test]
fn checksum_is_compared_without_regard_to_case() {
    assert_eq!(Downloader::verify_checksum(b"abc", ABC_DIGEST), Ok(()));
    assert_eq!(
        Downloader::verify_checksum(b"abc", &ABC_DIGEST.to_uppercase()),
        Ok(())
    );
    assert_eq!(
        Downloader::verify_checksum(b"abd", ABC_DIGEST),
        Err(JamanError::IntegrityFailure)
    );
    assert_eq!(
        Downloader::verify_checksum(b"abc", ""),
        Err(JamanError::IntegrityFailure)
    );
    // The bytes themselves are not their own digest.
    assert_eq!(
        Downloader::verify_checksum(b"abc", "abc"),
        Err(JamanError::IntegrityFailure)
    );
    assert_eq!(
        Downloader::verify_checksum(b"abc", "616263"),
        Err(JamanError::IntegrityFailure)
    );
    assert!(digest_matches("ABCdef09", "abcDEF09"));
    assert!(!digest_matches("abcdef09", "abcdef0"));
    assert!(!digest_matches("ab", "ac"));
}

#[test]
fn archive_format_is_told_by_the_name() {
    assert_eq!(Downloader::archive_format("jdk.zip"), Ok(ArchiveFormat::Zip));
    assert_eq!(Downloader::archive_format("/tmp/x/jdk-21.zip"), Ok(ArchiveFormat::Zip));
    assert_eq!(Downloader::archive_format("jdk.tar.gz"), Ok(ArchiveFormat::TarGz));
    assert_eq!(Downloader::archive_format("jdk.gz"), Ok(ArchiveFormat::TarGz));
    assert_eq!(
        Downloader::archive_format("jdk.7z"),
        Err(JamanError::UnsupportedFormat("7z".to_string()))
    );
    assert_eq!(
        Downloader::archive_format("jdk.ZIP"),
        Err(JamanError::UnsupportedFormat("ZIP".to_string()))
    );
    assert_eq!(
        Downloader::archive_format("jdk"),
        Err(JamanError::UnsupportedFormat("".to_string()))
    );
    assert_eq!(
        Downloader::archive_format("jdk.tar.xz"),
        Err(JamanError::UnsupportedFormat("xz".to_string()))
    );
    assert_eq!(
        Downloader::archive_format("zip"),
        Err(JamanError::UnsupportedFormat("".to_string()))
    );
    assert_eq!(
        Downloader::archive_format(""),
        Err(JamanError::UnsupportedFormat("".to_string()))
    );
}

#[test]
fn file_name_is_what_follows_the_last_slash() {
    assert_eq!(Downloader::extract_filename("jdk.zip"), "jdk.zip");
    assert_eq!(Downloader::extract_filename(""), "download.zip");
    assert_eq!(Downloader::extract_filename("a/b/"), "download.zip");
    assert_eq!(Downloader::extract_filename("a//b"), "b");
    assert_eq!(
        Downloader::extract_filename(
            "https://github.com/adoptium/temurin21-binaries/releases/download/jdk-21.0.1%2B12/OpenJDK21U-jdk_x64_linux_hotspot_21.0.1_12.tar.gz"
        ),
        "OpenJDK21U-jdk_x64_linux_hotspot_21.0.1_12.tar.gz"
    );
}

fn offer(url: &str, checksum: Option<&str>) -> AvailableVersion {
    AvailableVersion {
        version: "21.0.1+12".to_string(),
        vendor: "Eclipse Temurin".to_string(),
        is_lts: true,
        architecture: "x64".to_string(),
        download_url: url.to_string(),
        checksum: checksum.map(|c| c.to_string()),
    }
}

#[test]
fn install_is_planned_only_for_intact_archives_of_a_known_format() {
    let good = offer("https://example.com/jdk/temurin.tar.gz", Some(ABC_DIGEST));
    let plan = Downloader::prepare_install(&good, "/opt/jdks", b"abc", Platform::Linux).unwrap();
    assert_eq!(plan.file_name, "temurin.tar.gz");
    assert_eq!(plan.format, ArchiveFormat::TarGz);
    assert_eq!(plan.extract_dir, "/opt/jdks/Eclipse_Temurin-21.0.1+12");

    let tampered = Downloader::prepare_install(&good, "/opt/jdks", b"abX", Platform::Linux);
    assert_eq!(tampered.err(), Some(JamanError::IntegrityFailure));

    let unchecked = offer("https://example.com/jdk.zip", None);
    let plan =
        Downloader::prepare_install(&unchecked, "C:\\jdks", b"whatever", Platform::Windows)
            .unwrap();
    assert_eq!(plan.format, ArchiveFormat::Zip);
    assert_eq!(plan.extract_dir, "C:\\jdks\\Eclipse_Temurin-21.0.1+12");

    let odd = offer("https://example.com/jdk.7z", Some(ABC_DIGEST));
    assert_eq!(
        Downloader::prepare_install(&odd, "/opt/jdks", b"abc", Platform::Linux).err(),
        Some(JamanError::UnsupportedFormat("7z".to_string()))
    );
    // A bad checksum is reported before a bad format.
    assert_eq!(
        Downloader::prepare_install(&odd, "/opt/jdks", b"abX", Platform::Linux).err(),
        Some(JamanError::IntegrityFailure)
    );
}

#[test]
fn directory_name_replaces_every_space() {
    assert_eq!(
        Downloader::install_dir_name("Eclipse Temurin", "21.0.1"),
        "Eclipse_Temurin-21.0.1"
    );
    assert_eq!(Downloader::install_dir_name("A  B C", "1 2"), "A__B_C-1 2");
    assert_eq!(Downloader::install_dir_name("", ""), "-");
}

fn dir(path: &str, root: bool) -> Candidate {
    Candidate { path: path.to_string(), has_bin: root, has_launcher: root }
}

#[test]
fn installation_root_is_the_single_nested_root() {
    let extracted = dir("/opt/jdks/t-21", false);
    assert_eq!(
        Downloader::find_jdk_root(&extracted, &vec![dir("/opt/jdks/t-21/jdk-21", true)]),
        "/opt/jdks/t-21/jdk-21"
    );
    assert_eq!(
        Downloader::find_jdk_root(
            &extracted,
            &vec![dir("/opt/jdks/t-21/docs", false), dir("/opt/jdks/t-21/jdk-21", true)]
        ),
        "/opt/jdks/t-21/jdk-21"
    );
    // Two candidates: none is chosen.
    assert_eq!(
        Downloader::find_jdk_root(
            &extracted,
            &vec![dir("/opt/jdks/t-21/a", true), dir("/opt/jdks/t-21/b", true)]
        ),
        "/opt/jdks/t-21"
    );
    assert_eq!(Downloader::find_jdk_root(&extracted, &Vec::new()), "/opt/jdks/t-21");
    // The directory itself is a root: it stays.
    assert_eq!(
        Downloader::find_jdk_root(
            &dir("/opt/jdks/t-21", true),
            &vec![dir("/opt/jdks/t-21/jre", true)]
        ),
        "/opt/jdks/t-21"
    );
}

#[test]
fn only_the_most_recent_majors_are_asked_for() {
    assert_eq!(Downloader::recent_majors(&vec![8, 11, 17]), vec![8, 11, 17]);
    assert!(Downloader::recent_majors(&Vec::new()).is_empty());
    let published: Vec<u32> = vec![8, 11, 16, 17, 18, 19, 20, 21, 22, 23, 24, 25];
    assert_eq!(
        Downloader::recent_majors(&published),
        vec![16, 17, 18, 19, 20, 21, 22, 23, 24, 25]
    );
    let mixed: Vec<u32> = vec![25, 8, 24, 11, 23, 16, 22, 17, 21, 18, 20, 19];
    assert_eq!(
        Downloader::recent_majors(&mixed),
        vec![25, 24, 23, 16, 22, 17, 21, 18, 20, 19]
    );
    assert_eq!(Downloader::recent_majors(&vec![21; 15]).len(), 10);
}

#[test]
fn catalog_addresses() {
    assert_eq!(
        Downloader::releases_url(),
        "https://api.adoptium.net/v3/info/available_releases"
    );
    assert_eq!(
        Downloader::assets_url(21, "x64", "linux"),
        "https://api.adoptium.net/v3/assets/latest/21/hotspot?architecture=x64&image_type=jdk&os=linux"
    );
    assert_eq!(
        Downloader::assets_url(8, "aarch64", "mac"),
        "https://api.adoptium.net/v3/assets/latest/8/hotspot?architecture=aarch64&image_type=jdk&os=mac"
    );
    assert_eq!(Downloader::os_name(Platform::Windows), "windows");
    assert_eq!(Downloader::os_name(Platform::MacOs), "mac");
    assert_eq!(Downloader::os_name(Platform::Linux), "linux");
    assert_eq!(Downloader::api_architecture("x86_64"), "x64");
    assert_eq!(Downloader::api_architecture("aarch64"), "aarch64");
    assert_eq!(Downloader::api_architecture("riscv64"), "x64");
}

fn asset(semver: &str) -> Asset {
    Asset {
        semver: semver.to_string(),
        link: format!("https://example.com/{}.tar.gz", semver),
        checksum: format!("sum-{}", semver),
    }
}

#[test]
fn catalog_is_built_from_the_answers_and_passes_over_failures() {
    let releases = AvailableReleases {
        available_releases: vec![8, 11, 17, 21],
        available_lts_releases: vec![8, 17, 21],
    };
    let answers = vec![
        Some(vec![asset("8.0.392")]),
        None,
        Some(vec![asset("17.0.9"), asset("17.0.8")]),
    ];
    let catalog = Downloader::fetch_adoptium_versions(&releases, &answers, "aarch64");
    let versions: Vec<&str> = catalog.iter().map(|v| v.version.as_str()).collect();
    assert_eq!(versions, vec!["8.0.392", "17.0.9", "17.0.8"]);
    for entry in &catalog {
        assert_eq!(entry.vendor, "Eclipse Temurin");
        assert_eq!(entry.architecture, "aarch64");
        assert!(entry.is_lts);
    }
    assert_eq!(catalog[1].download_url, "https://example.com/17.0.9.tar.gz");
    assert_eq!(catalog[1].checksum, Some("sum-17.0.9".to_string()));

    let not_lts = AvailableReleases {
        available_releases: vec![11],
        available_lts_releases: vec![8],
    };
    let one = Downloader::fetch_available_versions(
        &not_lts,
        &vec![Some(vec![asset("11.0.1")])],
        "x86_64",
    );
    assert_eq!(one.len(), 1);
    assert!(!one[0].is_lts);
    assert_eq!(one[0].architecture, "x64");
    assert!(Downloader::fetch_adoptium_versions(&releases, &Vec::new(), "x86_64").is_empty());
}
