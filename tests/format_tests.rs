use repodiet::format::{extension_label, format_size};

#[test]
fn test_format_size() {
    assert_eq!(format_size(500), "500 B");
    assert_eq!(format_size(1024), "1.0 KB");
    assert_eq!(format_size(1024 * 1024), "1.0 MB");
    assert_eq!(format_size(1024 * 1024 * 1024), "1.00 GB");
    assert_eq!(format_size(2 * 1024 * 1024 * 1024), "2.00 GB");
}

#[test]
fn format_size_rounds_like_float_formatting() {
    assert_eq!(format_size(0), "0 B");
    assert_eq!(format_size(1023), "1023 B");
    assert_eq!(format_size(1536), "1.5 KB");
    assert_eq!(format_size(1024 * 1024 - 1), "1024.0 KB");
    assert_eq!(format_size(1024 * 1024 * 3 / 2), "1.5 MB");
    assert_eq!(format_size(u64::MAX), format!("{:.2} GB", u64::MAX as f64 / (1u64 << 30) as f64));
    for b in [1100u64, 5000, 123_456, 9_999_999, 3_000_000_000] {
        let expected = if b >= 1 << 30 {
            format!("{:.2} GB", b as f64 / (1u64 << 30) as f64)
        } else if b >= 1 << 20 {
            format!("{:.1} MB", b as f64 / (1u64 << 20) as f64)
        } else {
            format!("{:.1} KB", b as f64 / 1024.0)
        };
        assert_eq!(format_size(b), expected);
    }
}

#[test]
fn test_simple_extension() {
    assert_eq!(extension_label("main.rs"), ".rs");
    assert_eq!(extension_label("logo.png"), ".png");
    assert_eq!(extension_label("README.md"), ".md");
}

#[test]
fn test_no_extension() {
    assert_eq!(extension_label("Makefile"), "(no ext)");
    assert_eq!(extension_label("LICENSE"), "(no ext)");
}

#[test]
fn test_hidden_files() {
    // Hidden files with an extension part are treated as having that extension
    assert_eq!(extension_label(".gitignore"), ".gitignore");
    assert_eq!(extension_label(".env"), ".env");
    // But truly extension-less hidden files remain so
    assert_eq!(extension_label("."), "(no ext)");
}

#[test]
fn test_multiple_dots() {
    assert_eq!(extension_label("file.test.rs"), ".rs");
    assert_eq!(extension_label("app.config.json"), ".json");
}

#[test]
fn test_case_normalization() {
    assert_eq!(extension_label("IMAGE.PNG"), ".png");
    assert_eq!(extension_label("Script.JS"), ".js");
}

#[test]
fn test_long_extension_rejected() {
    // Extensions longer than 10 chars should be rejected
    assert_eq!(extension_label("file.verylongextension"), "(no ext)");
}

#[test]
fn extension_with_slash_or_ten_bytes() {
    assert_eq!(extension_label("dir.d/file"), "(no ext)");
    assert_eq!(extension_label("a.abcdefghij"), ".abcdefghij");
    assert_eq!(extension_label("a.abcdefghijk"), "(no ext)");
}
