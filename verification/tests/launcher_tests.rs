use trance::launcher::{sanitize_saver_name, ALLOWED_SAVERS};

#[test]
fn sanitize_accepts_clean_names() {
    assert_eq!(
        sanitize_saver_name("security"),
        Some("security".to_string())
    );
    assert_eq!(
        sanitize_saver_name("/path/to/beams.scr"),
        Some("beams".to_string())
    );
    assert_eq!(
        sanitize_saver_name("screensaver-storm"),
        Some("storm".to_string())
    );
}

#[test]
fn sanitize_rejects_bad_names() {
    assert!(sanitize_saver_name("evil;rm -rf /").is_none());
    assert_eq!(
        sanitize_saver_name("../../etc/passwd"),
        Some("passwd".to_string())
    );
    assert_eq!(
        sanitize_saver_name("not-a-real-saver"),
        Some("not-a-real-saver".to_string())
    );
    assert!(sanitize_saver_name("").is_none());
}

#[test]
fn allowlist_is_complete() {
    assert_eq!(ALLOWED_SAVERS.len(), 7);
    assert!(ALLOWED_SAVERS.contains(&"beams"));
}

#[test]
fn sanitize_strips_extension_and_prefix_together() {
    assert_eq!(
        sanitize_saver_name("/usr/lib/screensaver-beams.scr"),
        Some("beams".to_string())
    );
    // only one extension is stripped, and '.' is not a name character
    assert!(sanitize_saver_name("beams.scr.scr").is_none());
}

#[test]
fn sanitize_rejects_empty_after_stripping() {
    assert!(sanitize_saver_name("screensaver-").is_none());
    assert!(sanitize_saver_name(".scr").is_none());
    assert!(sanitize_saver_name("dir/").is_none());
}

#[test]
fn sanitize_rejects_other_characters() {
    assert!(sanitize_saver_name("bad name").is_none());
    assert!(sanitize_saver_name("naïve").is_none());
    assert_eq!(sanitize_saver_name("Saver_2-x"), Some("Saver_2-x".to_string()));
}
