use jaman::config::{Config, JavaVersion};
use jaman::path_manager::PathManager;
use jaman::platform::Platform;
use std::path::PathBuf;

#[test]
fn test_remove_java_paths_windows() {
    let test_cases = vec![
        (
            "C:\\Windows;C:\\Program Files\\Java\\bin;C:\\Users",
            "C:\\Windows;C:\\Users",
        ),
        (
            "C:\\Path1;C:\\JavaPath\\bin;C:\\Path2",
            "C:\\Path1;C:\\Path2",
        ),
        (
            "C:\\JavaScript\\bin;C:\\Java\\bin;C:\\Node",
            "C:\\JavaScript\\bin;C:\\Node",
        ),
    ];

    for (input, expected) in test_cases {
        let result = PathManager::remove_java_paths(input);
        assert_eq!(result, expected);

        let paths: Vec<&str> = input.split(';').collect();
        let filtered: Vec<&str> = paths
            .into_iter()
            .filter(|p| {
                let p_lower = p.to_lowercase();
                !p_lower.contains("java") || p_lower.contains("javascript")
            })
            .collect();
        assert_eq!(filtered.join(";"), expected);
    }
}

#[test]
fn test_is_jaman_active() {
    let mut config = Config::new("/i".to_string(), "/d".to_string());
    config.add_version(JavaVersion::new(
        "21.0.1".to_string(),
        "Eclipse Temurin".to_string(),
        "/opt/jdks/21".to_string(),
        true,
        "x64".to_string(),
        false,
    ));
    assert!(PathManager::is_jaman_active(&config, Some("/opt/jdks/21"), Platform::Linux));
    assert!(PathManager::is_jaman_active(&config, Some("/opt/jdks/21/"), Platform::Linux));
    assert!(!PathManager::is_jaman_active(&config, Some("/opt/jdks/17"), Platform::Linux));
    assert!(!PathManager::is_jaman_active(&config, None, Platform::Linux));
}

#[test]
fn test_remove_jaman_entries_from_shell_config() {
    let content = r#"
# Some config
export PATH="/usr/bin:$PATH"

# Added by jaman
export JAVA_HOME="/path/to/java"
export PATH="$JAVA_HOME/bin:$PATH"

# More config
alias ll='ls -la'
"#;

    let result = PathManager::remove_jaman_entries(content);

    assert!(!result.contains("Added by jaman"));
    assert!(!result.contains("JAVA_HOME=\"/path/to/java\""));
    assert!(result.contains("alias ll='ls -la'"));
}

#[test]
fn test_path_validation() {
    let valid_paths = vec![
        PathBuf::from("/usr/lib/jvm/java-21"),
        PathBuf::from("C:\\Program Files\\Java\\jdk-21"),
    ];

    for path in valid_paths {
        // Test that paths can be created
        assert!(!path.to_string_lossy().is_empty());
    }
}

#[test]
fn test_windows_path_format() {
    let path = PathBuf::from("C:\\Program Files\\Java\\jdk-21");
    let path_str = path.to_string_lossy();

    assert!(path_str.contains("\\"));
    assert!(path_str.contains("Program Files"));
    assert_eq!(
        Platform::Windows.join("C:\\Program Files\\Java", "jdk-21"),
        path_str
    );
}

#[test]
fn test_unix_path_format() {
    let path = PathBuf::from("/usr/lib/jvm/java-21");
    let path_str = path.to_string_lossy();

    assert!(path_str.starts_with("/"));
    assert!(!path_str.contains("\\"));
    assert_eq!(Platform::Linux.join("/usr/lib/jvm", "java-21"), path_str);
}

fn remove_with_the_standard_library(content: &str) -> String {
    let lines: Vec<&str> = content.lines().collect();
    let mut result = Vec::new();
    let mut skip_next = false;

    for line in lines {
        if line.contains("# Added by jaman") {
            skip_next = true;
            continue;
        }

        if skip_next {
            if line.starts_with("export JAVA_HOME") || line.starts_with("export PATH") {
                continue;
            } else {
                skip_next = false;
            }
        }

        result.push(line);
    }

    result.join("\n")
}

#[test]
fn managed_blocks_are_removed_exactly() {
    let content = "a\n# Added by jaman\nexport JAVA_HOME=\"/x\"\nexport PATH=\"$JAVA_HOME/bin:$PATH\"\nb\n";
    assert_eq!(PathManager::remove_jaman_entries(content), "a\nb");
    assert_eq!(PathManager::remove_jaman_entries(""), "");
    assert_eq!(PathManager::remove_jaman_entries("\n"), "");
    assert_eq!(PathManager::remove_jaman_entries("only"), "only");
    // An export outside a block stays; a block ends at the first other line.
    let user = "export JAVA_HOME=/mine\n# Added by jaman\nexport PATH=x\nline\nexport PATH=y\n";
    assert_eq!(
        PathManager::remove_jaman_entries(user),
        "export JAVA_HOME=/mine\nline\nexport PATH=y"
    );
    // A sentinel inside a longer line counts, and two sentinels in a row do too.
    let odd = "x # Added by jaman y\n# Added by jaman\nexport JAVA_HOME=1\nkeep";
    assert_eq!(PathManager::remove_jaman_entries(odd), "keep");
    assert_eq!(PathManager::deactivated_profile(content), "a\nb");
}

#[test]
fn managed_block_removal_agrees_with_the_standard_library() {
    let samples = [
        "",
        "\n",
        "\n\n",
        "a",
        "a\n",
        "a\r\n",
        "a\r",
        "a\r\r\nb",
        "\r\n\r\n",
        "a\n\nb\n\n",
        "# Added by jaman",
        "# Added by jaman\r\nexport JAVA_HOME=\"x\"\r\nexport PATH=\"y\"\r\nrest\r\n",
        "# Added by jaman\n\nexport JAVA_HOME=1\n",
        "x\n# Added by jaman\nexport JAVA_HOME=1\n# Added by jaman\nexport PATH=2\n export PATH=3\n",
        "é\n# Added by jaman\nexport PATHS\nñ",
        "\n# Some config\nexport PATH=\"/usr/bin:$PATH\"\n\n# Added by jaman\nexport JAVA_HOME=\"/path/to/java\"\nexport PATH=\"$JAVA_HOME/bin:$PATH\"\n\n# More config\nalias ll='ls -la'\n",
    ];
    for sample in samples {
        assert_eq!(
            PathManager::remove_jaman_entries(sample),
            remove_with_the_standard_library(sample)
        );
    }
}

fn count(hay: &str, needle: &str) -> usize {
    hay.matches(needle).count()
}

#[test]
fn activation_writes_one_block_at_the_end() {
    let activated = PathManager::activated_profile("alias ll='ls -la'\n", "/opt/jdk-21");
    assert_eq!(
        activated,
        "alias ll='ls -la'\n# Added by jaman\nexport JAVA_HOME=\"/opt/jdk-21\"\nexport PATH=\"$JAVA_HOME/bin:$PATH\"\n"
    );
    assert_eq!(
        PathManager::activated_profile("", "/j"),
        "\n# Added by jaman\nexport JAVA_HOME=\"/j\"\nexport PATH=\"$JAVA_HOME/bin:$PATH\"\n"
    );
}

#[test]
fn activating_twice_leaves_one_home_assignment() {
    let profile = "# my profile\nexport EDITOR=vi\n";
    let first = PathManager::activated_profile(profile, "/opt/jdk-17");
    let second = PathManager::activated_profile(&first, "/opt/jdk-21");
    assert_eq!(count(&second, "export JAVA_HOME"), 1);
    assert_eq!(count(&second, "# Added by jaman"), 1);
    assert!(second.contains("export JAVA_HOME=\"/opt/jdk-21\""));
    assert!(!second.contains("/opt/jdk-17"));
    assert!(second.starts_with("# my profile\nexport EDITOR=vi\n"));
    let third = PathManager::activated_profile(&second, "/opt/jdk-21");
    assert_eq!(third, second);
    assert_eq!(PathManager::deactivated_profile(&third), "# my profile\nexport EDITOR=vi");
}

#[test]
fn shell_configs_are_the_four_start_up_files() {
    assert_eq!(
        PathManager::shell_configs("/home/u", Platform::Linux),
        vec![
            "/home/u/.bashrc",
            "/home/u/.bash_profile",
            "/home/u/.zshrc",
            "/home/u/.profile"
        ]
    );
}

#[test]
fn search_path_segments_are_filtered_by_name() {
    assert_eq!(PathManager::remove_java_paths(""), "");
    assert_eq!(PathManager::remove_java_paths(";"), ";");
    assert_eq!(PathManager::remove_java_paths("C:\\JAVA"), "");
    assert_eq!(PathManager::remove_java_paths("a;C:\\jAvA\\bin;;b"), "a;;b");
    assert_eq!(
        PathManager::remove_java_paths("C:\\JavaScript;C:\\java;C:\\javascript\\java"),
        "C:\\JavaScript;C:\\javascript\\java"
    );
    assert_eq!(
        PathManager::activated_search_path(
            "C:\\Windows;C:\\old\\Java\\bin",
            None,
            "C:\\jdks\\21"
        ),
        "C:\\jdks\\21\\bin;C:\\Windows"
    );
    assert_eq!(
        PathManager::activated_search_path("", None, "C:\\jdks\\21"),
        "C:\\jdks\\21\\bin;"
    );
}

#[test]
fn activations_of_the_search_path_do_not_pile_up() {
    let stored = "C:\\Windows;C:\\Tools";
    let first = PathManager::activated_search_path(stored, None, "C:\\jdks\\temurin-17");
    assert_eq!(first, "C:\\jdks\\temurin-17\\bin;C:\\Windows;C:\\Tools");
    let second = PathManager::activated_search_path(
        &first,
        Some("C:\\jdks\\temurin-17"),
        "C:\\jdks\\temurin-21",
    );
    assert_eq!(second, "C:\\jdks\\temurin-21\\bin;C:\\Windows;C:\\Tools");
    // Activating the same installation again changes nothing.
    let third = PathManager::activated_search_path(
        &second,
        Some("C:\\jdks\\temurin-21"),
        "C:\\jdks\\temurin-21",
    );
    assert_eq!(third, second);
    // Its own entry goes even where the old home value is unknown.
    let again = PathManager::activated_search_path(&second, None, "C:\\jdks\\temurin-21");
    assert_eq!(again, second);
    assert_eq!(
        PathManager::deactivated_search_path(&second, Some("C:\\jdks\\temurin-21")),
        stored
    );
    assert_eq!(PathManager::deactivated_search_path(&second, None), second);
    let dropped = vec!["C:\\Tools".to_string()];
    assert_eq!(PathManager::remove_entries(stored, &dropped), "C:\\Windows");
}
