use daytrip::format::OutputFormat;
use daytrip::metadata::{frozen_file_name, get_file_name, legalize_name, pattern_compiles,
    resolved_file_name, NameOptions, TrackDetails, TrackMetadata};

fn meta(title: &str, artists: &[&str]) -> TrackMetadata {
    TrackMetadata {
        title: title.to_string(),
        artists: artists.iter().map(|a| a.to_string()).collect(),
        parent_title: String::new(),
        ordinal: 0,
        uri: String::new(),
        encodings: Vec::new(),
        details: TrackDetails::Track { album_artists: Vec::new() },
    }
}

fn plain_opts() -> NameOptions {
    NameOptions { strip_features: false, cleanup_pattern: None }
}

#[test]
fn feature_strip_scenario() {
    // Template "%a - %t" with a feature tag on the title and strip enabled.
    let m = meta("Karma Police (feat. Thom)", &["Radiohead"]);
    let opts = NameOptions { strip_features: true, cleanup_pattern: None };
    let name = get_file_name(&m, &opts, "%a - %t", None, Some("opus"));
    assert_eq!(name, "Radiohead - Karma Police.opus");
}

#[test]
fn feature_strip_variants() {
    let opts = NameOptions { strip_features: true, cleanup_pattern: None };
    let m = meta("Song (ft. Guest)", &["A"]);
    assert_eq!(get_file_name(&m, &opts, "%t", None, None), "Song");
    let m = meta("Song (WITH Guest)", &["A"]);
    assert_eq!(get_file_name(&m, &opts, "%t", None, None), "Song");
    // The tag must be trailing: a parenthetical elsewhere stays.
    let m = meta("Song (feat. Guest) Remix", &["A"]);
    assert_eq!(get_file_name(&m, &opts, "%t", None, None), "Song (feat. Guest) Remix");
    // An ordinary parenthetical stays even at the end.
    let m = meta("Song (Live)", &["A"]);
    assert_eq!(get_file_name(&m, &opts, "%t", None, None), "Song (Live)");
}

#[test]
fn feature_strip_disabled_keeps_tag() {
    let m = meta("Karma Police (feat. Thom)", &["Radiohead"]);
    let name = get_file_name(&m, &plain_opts(), "%a - %t", None, Some("opus"));
    assert_eq!(name, "Radiohead - Karma Police (feat. Thom).opus");
}

#[test]
fn index_independence_without_number_placeholder() {
    let m = meta("Title", &["Artist"]);
    let a = get_file_name(&m, &plain_opts(), "%a - %t", Some(3), Some("opus"));
    let b = get_file_name(&m, &plain_opts(), "%a - %t", Some(99), Some("opus"));
    let c = get_file_name(&m, &plain_opts(), "%a - %t", None, Some("opus"));
    assert_eq!(a, b);
    assert_eq!(a, c);
}

#[test]
fn number_placeholder_padding() {
    let m = meta("T", &["A"]);
    assert_eq!(get_file_name(&m, &plain_opts(), "%n %t", Some(3), None), "03 T");
    assert_eq!(get_file_name(&m, &plain_opts(), "%n %t", Some(42), None), "42 T");
    assert_eq!(get_file_name(&m, &plain_opts(), "%n %t", Some(123), None), "123 T");
    assert_eq!(get_file_name(&m, &plain_opts(), "%n %t", None, None), "00 T");
}

#[test]
fn all_artists_placeholder() {
    let m = meta("T", &["One", "Two", "Three"]);
    assert_eq!(get_file_name(&m, &plain_opts(), "%A - %t", None, None), "One, Two, Three - T");
    assert_eq!(get_file_name(&m, &plain_opts(), "%a - %t", None, None), "One - T");
}

#[test]
fn missing_artist_is_empty() {
    let m = meta("T", &[]);
    assert_eq!(get_file_name(&m, &plain_opts(), "%a%t", None, None), "T");
    assert_eq!(get_file_name(&m, &plain_opts(), "%A%t", None, None), "T");
}

#[test]
fn unknown_placeholders_stay_verbatim() {
    let m = meta("T", &["A"]);
    assert_eq!(get_file_name(&m, &plain_opts(), "%x %z %t", None, None), "%x %z T");
    // A trailing lone percent stays too.
    assert_eq!(get_file_name(&m, &plain_opts(), "%t%", None, None), "T%");
}

#[test]
fn substituted_text_is_not_rescanned() {
    // An artist name containing a placeholder token is taken literally.
    let m = meta("T", &["%t"]);
    assert_eq!(get_file_name(&m, &plain_opts(), "%a", None, None), "%t");
}

#[test]
fn legalization_replaces_every_illegal_character() {
    assert_eq!(legalize_name("a/b\\c:d*e?f\"g<h>i|j"), "a_b_c_d_e_f_g_h_i_j");
    assert_eq!(legalize_name("clean name.opus"), "clean name.opus");
    assert_eq!(legalize_name(""), "");
}

#[test]
fn synthesized_name_is_legalized() {
    let m = meta("AC/DC: Live", &["AC/DC"]);
    let name = get_file_name(&m, &plain_opts(), "%a - %t", None, Some("mp3"));
    assert_eq!(name, "AC_DC - AC_DC_ Live.mp3");
    assert!(!name[..name.len() - 4].contains('/'));
}

#[test]
fn cleanup_pattern_deletes_matches() {
    let m = meta("Track [Official Video]", &["A"]);
    let opts = NameOptions {
        strip_features: false,
        cleanup_pattern: Some(" \\[Official Video\\]".to_string()),
    };
    let name = get_file_name(&m, &opts, "%t", None, Some("opus"));
    assert_eq!(name, "Track.opus");
}

#[test]
fn invalid_cleanup_pattern_changes_nothing() {
    let m = meta("Track", &["A"]);
    let opts = NameOptions { strip_features: false, cleanup_pattern: Some("[".to_string()) };
    assert_eq!(get_file_name(&m, &opts, "%t", None, None), "Track");
}

#[test]
fn pattern_compiles_reports_validity() {
    assert!(pattern_compiles("a+b"));
    assert!(!pattern_compiles("["));
}

#[test]
fn extension_suffix_only_when_given() {
    let m = meta("T", &["A"]);
    assert_eq!(get_file_name(&m, &plain_opts(), "%t", None, Some("flac")), "T.flac");
    assert_eq!(get_file_name(&m, &plain_opts(), "%t", None, None), "T");
}

#[test]
fn frozen_name_is_legalized() {
    assert_eq!(frozen_file_name("kept name", "opus"), "kept name.opus");
    assert_eq!(frozen_file_name("a/b:c", "mp3"), "a_b_c.mp3");
}

#[test]
fn resolved_name_with_metadata_synthesizes() {
    let m = meta("Title", &["Artist"]);
    let opts = NameOptions { strip_features: false, cleanup_pattern: None };
    let name = resolved_file_name(&Some(m), &opts, "%a - %t", None, 7, OutputFormat::Opus);
    assert_eq!(name, "Artist - Title.opus");
    // A template that already carries the extension does not get it twice.
    let m = meta("Title", &["Artist"]);
    let name = resolved_file_name(&Some(m), &opts, "%t.opus", None, 7, OutputFormat::Opus);
    assert_eq!(name, "Title.opus");
}

#[test]
fn resolved_name_without_metadata_falls_back_to_id() {
    let opts = NameOptions { strip_features: false, cleanup_pattern: None };
    let name = resolved_file_name(&None, &opts, "%a - %t", Some(4), 1, OutputFormat::Mp3);
    assert_eq!(name, "0000000000000000000001.mp3");
}
