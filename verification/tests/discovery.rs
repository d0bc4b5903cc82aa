use notos::discovery::{extension_of, is_plugin_library, matches_library_extension, Platform};

#[test]
fn extension_is_what_follows_the_last_dot() {
    assert_eq!(extension_of("plugin.so"), Some("so".to_string()));
    assert_eq!(extension_of("archive.tar.gz"), Some("gz".to_string()));
    assert_eq!(extension_of("libnotos_plugin_about.dylib"), Some("dylib".to_string()));
    assert_eq!(extension_of("trailing."), Some("".to_string()));
    assert_eq!(extension_of("naïve.dll"), Some("dll".to_string()));
    assert_eq!(extension_of("a.b/c"), Some("b/c".to_string()));
}

#[test]
fn names_without_extension() {
    assert_eq!(extension_of(""), None);
    assert_eq!(extension_of("README"), None);
    assert_eq!(extension_of(".hidden"), None);
    assert_eq!(extension_of(".."), None);
    assert_eq!(extension_of("."), None);
}

#[test]
fn hidden_file_with_extension() {
    assert_eq!(extension_of(".hidden.so"), Some("so".to_string()));
    assert_eq!(extension_of("..."), Some("".to_string()));
}

#[test]
fn extension_agrees_with_std_on_file_names() {
    for name in ["", "a", "a.b", ".a", "..", "...", "a.", ".a.b", "a..b", "x.tar.gz", "é.ü"] {
        let expected = std::path::Path::new(name)
            .extension()
            .map(|e| e.to_string_lossy().to_string());
        assert_eq!(extension_of(name), expected, "for {:?}", name);
    }
}

#[test]
fn each_platform_has_one_library_extension() {
    assert_eq!(Platform::Windows.extension(), "dll");
    assert_eq!(Platform::MacOs.extension(), "dylib");
    assert_eq!(Platform::Unix.extension(), "so");
    for (platform, own) in
        [(Platform::Windows, "dll"), (Platform::MacOs, "dylib"), (Platform::Unix, "so")]
    {
        for ext in ["dll", "dylib", "so"] {
            assert_eq!(matches_library_extension(ext, platform), ext == own);
        }
        assert!(!matches_library_extension("", platform));
        assert!(!matches_library_extension(&own.to_uppercase(), platform));
        assert!(!matches_library_extension("txt", platform));
    }
    assert!(!matches_library_extension("soo", Platform::Unix));
    assert!(!matches_library_extension("dyli", Platform::MacOs));
}

#[test]
fn plugin_libraries_by_name() {
    assert!(is_plugin_library("about.dll", Platform::Windows));
    assert!(is_plugin_library("libabout.so", Platform::Unix));
    assert!(is_plugin_library("libabout.dylib", Platform::MacOs));
    assert!(is_plugin_library("ABOUT.DLL", Platform::Windows));
    assert!(is_plugin_library("About.DyLib", Platform::MacOs));
    assert!(is_plugin_library(".hidden.so", Platform::Unix));
    assert!(!is_plugin_library("about.dll.bak", Platform::Windows));
    assert!(!is_plugin_library("so", Platform::Unix));
    assert!(!is_plugin_library(".so", Platform::Unix));
    assert!(!is_plugin_library("libabout.so.1", Platform::Unix));
    assert!(!is_plugin_library("notes.txt", Platform::Unix));
    assert!(!is_plugin_library("", Platform::Unix));
}

#[test]
fn library_of_another_platform_is_no_plugin_library() {
    assert!(!is_plugin_library("about.dll", Platform::Unix));
    assert!(!is_plugin_library("about.dll", Platform::MacOs));
    assert!(!is_plugin_library("libabout.so", Platform::Windows));
    assert!(!is_plugin_library("libabout.so", Platform::MacOs));
    assert!(!is_plugin_library("libabout.dylib", Platform::Windows));
    assert!(!is_plugin_library("libabout.dylib", Platform::Unix));
}
