//! URL recovery: pattern scanning, last-match selection, normalization, and
//! the log-file location logic.

use wish_core::error::ErrorKind;
use wish_core::log_parser::auto_extract_wish_url;
use wish_core::log_parser::candidate_log_paths;
use wish_core::log_parser::extract_wish_url;
use wish_core::log_parser::find_last_wish_match;
use wish_core::log_parser::normalize_wish_url;
use wish_core::log_parser::select_log_path;
use wish_core::log_parser::LogSource;
use wish_core::log_parser::Platform;
use wish_core::log_parser::WishPattern;

const PRIMARY: &str = "https://gs.hoyoverse.com/genshin/event/e20190909gacha-v3";

#[test]
fn extracts_primary_url() {
    let text = format!("noise\nOpenURL {PRIMARY}/log?authkey=abc123&lang=en\nmore noise");
    let url = extract_wish_url(&text).unwrap();
    assert_eq!(url, format!("{PRIMARY}/log?authkey=abc123&lang=en"));
}

#[test]
fn latest_occurrence_wins() {
    let text = format!(
        "{PRIMARY}/log?authkey=old111 middle text {PRIMARY}/log?authkey=new222\n"
    );
    let url = extract_wish_url(&text).unwrap();
    assert_eq!(url, format!("{PRIMARY}/log?authkey=new222"));
}

#[test]
fn match_stops_at_whitespace_and_quote() {
    let text = format!("a \"{PRIMARY}/log?authkey=q1\" b {PRIMARY}/log?authkey=q2\tafter");
    let url = extract_wish_url(&text).unwrap();
    assert_eq!(url, format!("{PRIMARY}/log?authkey=q2"));
}

#[test]
fn index_html_is_normalized_to_log() {
    let text = format!("x {PRIMARY}/index.html?authkey=zz9 y");
    let url = extract_wish_url(&text).unwrap();
    assert_eq!(url, format!("{PRIMARY}/log?authkey=zz9"));
}

#[test]
fn normalization_is_idempotent() {
    let once = normalize_wish_url("https://a/index.html?x=1");
    let twice = normalize_wish_url(&once);
    assert_eq!(once, "https://a/log?x=1");
    assert_eq!(twice, once);

    let canonical = format!("{PRIMARY}/log?authkey=abc");
    assert_eq!(normalize_wish_url(&canonical), canonical);
}

#[test]
fn primary_pattern_takes_priority_over_legacy() {
    let text = format!(
        "https://hk4e-api-os.example/event/gacha/x?k=1 then {PRIMARY}/log?authkey=p1 end"
    );
    let url = extract_wish_url(&text).unwrap();
    assert_eq!(url, format!("{PRIMARY}/log?authkey=p1"));
}

#[test]
fn legacy_pattern_matches_when_primary_absent() {
    let text = "start https://hk4e-api-os.hoyoverse.com/event/gacha_info/api?authkey=le7 end";
    let url = extract_wish_url(text).unwrap();
    assert_eq!(url, "https://hk4e-api-os.hoyoverse.com/event/gacha_info/api?authkey=le7");
}

#[test]
fn legacy_requires_gacha_marker() {
    let text = "https://hk4e-api-os.hoyoverse.com/event/other/api?authkey=x";
    let r = extract_wish_url(text);
    assert_eq!(r.unwrap_err().kind(), ErrorKind::PatternNotFound);
}

#[test]
fn no_pattern_is_pattern_not_found() {
    let r = extract_wish_url("nothing of interest here");
    assert_eq!(r.unwrap_err().kind(), ErrorKind::PatternNotFound);
}

#[test]
fn primary_needs_tail_after_query_mark() {
    // The query must hold at least one character.
    let text = format!("{PRIMARY}/log? next");
    let r = extract_wish_url(&text);
    assert_eq!(r.unwrap_err().kind(), ErrorKind::PatternNotFound);
}

#[test]
fn find_last_match_reports_span() {
    let text = format!("ab {PRIMARY}/log?k=1 cd");
    let (b, e) = find_last_wish_match(&text, WishPattern::Primary).unwrap();
    assert_eq!(b, 3);
    assert_eq!(e, text.chars().count() - 3);
    assert!(find_last_wish_match(&text, WishPattern::Legacy).is_none());
}

#[test]
fn windows_candidates_in_priority_order() {
    let paths = candidate_log_paths(Platform::Windows, "C:\\Users\\u", None);
    assert_eq!(
        paths,
        vec![
            "C:\\Users\\u\\AppData\\LocalLow\\miHoYo\\Genshin Impact\\output_log.txt".to_string(),
            "C:\\Users\\u\\AppData\\LocalLow\\miHoYo\\原神\\output_log.txt".to_string(),
        ]
    );
}

#[test]
fn macos_candidate() {
    let paths = candidate_log_paths(Platform::MacOs, "/Users/u", None);
    assert_eq!(
        paths,
        vec!["/Users/u/Library/Application Support/miHoYo/Genshin Impact/output_log.txt"
            .to_string()]
    );
}

#[test]
fn linux_candidates_use_username_with_steam_fallback() {
    let paths = candidate_log_paths(Platform::Linux, "/home/u", Some("alice"));
    assert_eq!(paths.len(), 2);
    assert_eq!(
        paths[0],
        "/home/u/.wine/drive_c/users/alice/AppData/LocalLow/miHoYo/Genshin Impact/output_log.txt"
    );
    assert!(paths[1].starts_with("/home/u/.local/share/Steam/steamapps/compatdata/1938010"));

    let fallback = candidate_log_paths(Platform::Linux, "/home/u", None);
    assert!(fallback[0].contains("/users/steamuser/"));
}

#[test]
fn other_platform_has_no_candidates() {
    assert!(candidate_log_paths(Platform::Other, "/h", None).is_empty());
}

#[test]
fn select_log_path_picks_first_existing() {
    let paths = vec!["a".to_string(), "b".to_string(), "c".to_string()];
    let r = select_log_path(&paths, &vec![false, true, true]).unwrap();
    assert_eq!(r, "b");
}

#[test]
fn select_log_path_not_found() {
    let paths = vec!["a".to_string()];
    let r = select_log_path(&paths, &vec![false]);
    assert_eq!(r.unwrap_err().kind(), ErrorKind::NotFound);
}

#[test]
fn auto_extract_maps_probe_failures() {
    assert_eq!(
        auto_extract_wish_url(&LogSource::MissingHome).unwrap_err().kind(),
        ErrorKind::EnvironmentError
    );
    assert_eq!(
        auto_extract_wish_url(&LogSource::NoLogFile).unwrap_err().kind(),
        ErrorKind::NotFound
    );
    assert_eq!(
        auto_extract_wish_url(&LogSource::Unreadable).unwrap_err().kind(),
        ErrorKind::ReadError
    );
    let text = format!("{PRIMARY}/log?authkey=auto1 tail");
    let url = auto_extract_wish_url(&LogSource::Text(text)).unwrap();
    assert_eq!(url, format!("{PRIMARY}/log?authkey=auto1"));
}
