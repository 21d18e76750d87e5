use daytrip::format::{get_bitrate, get_input_format, resolve_output_format,
    template_carries_extension, try_get_format_from_file_name, try_get_format_from_path,
    AudioEncoding, OutputFormat, QualityTier};

#[test]
fn bitrates() {
    assert_eq!(get_bitrate(&AudioEncoding::OggVorbis96), 96);
    assert_eq!(get_bitrate(&AudioEncoding::OggVorbis160), 160);
    assert_eq!(get_bitrate(&AudioEncoding::OggVorbis320), 320);
    assert_eq!(get_bitrate(&AudioEncoding::Mp3_256), 256);
    assert_eq!(get_bitrate(&AudioEncoding::Flac), 1411);
    assert_eq!(get_bitrate(&AudioEncoding::XheAac12), 12);
    assert_eq!(get_bitrate(&AudioEncoding::Other), 0);
}

#[test]
fn extensions() {
    assert_eq!(OutputFormat::Opus.extension(), "opus");
    assert_eq!(OutputFormat::Mp3.extension(), "mp3");
    assert_eq!(OutputFormat::Ogg.extension(), "ogg");
    assert_eq!(OutputFormat::Flac.extension(), "flac");
    assert_eq!(OutputFormat::Wav.extension(), "wav");
    assert_eq!(OutputFormat::from_extension("opus"), Some(OutputFormat::Opus));
    assert_eq!(OutputFormat::from_extension("wav"), Some(OutputFormat::Wav));
    assert_eq!(OutputFormat::from_extension("OPUS"), None);
    assert_eq!(OutputFormat::from_extension("weird"), None);
}

#[test]
fn input_format_prefers_the_tier() {
    let avail = vec![AudioEncoding::Mp3_160, AudioEncoding::OggVorbis320];
    assert_eq!(get_input_format(QualityTier::High, &avail), Some(AudioEncoding::OggVorbis320));
    assert_eq!(get_input_format(QualityTier::Medium, &avail), Some(AudioEncoding::Mp3_160));
    assert_eq!(get_input_format(QualityTier::Low, &avail), Some(AudioEncoding::Mp3_160));
}

#[test]
fn input_format_degrades_when_the_tier_is_absent() {
    let avail = vec![AudioEncoding::Mp3_320];
    assert_eq!(get_input_format(QualityTier::Low, &avail), Some(AudioEncoding::Mp3_320));
    // Within the preferred tier, ogg comes before mp3.
    let avail = vec![AudioEncoding::Mp3_96, AudioEncoding::OggVorbis96];
    assert_eq!(get_input_format(QualityTier::Low, &avail), Some(AudioEncoding::OggVorbis96));
}

#[test]
fn input_format_none_when_nothing_supported() {
    assert_eq!(get_input_format(QualityTier::High, &vec![]), None);
    // Formats outside the preference tables are not selected.
    let avail = vec![AudioEncoding::Flac, AudioEncoding::Aac320];
    assert_eq!(get_input_format(QualityTier::High, &avail), None);
}

#[test]
fn format_from_file_name() {
    assert_eq!(try_get_format_from_file_name("%a - %t.flac"), Some(OutputFormat::Flac));
    assert_eq!(try_get_format_from_file_name("song.live.mp3"), Some(OutputFormat::Mp3));
    assert_eq!(try_get_format_from_file_name("no extension"), None);
    assert_eq!(try_get_format_from_file_name("wav"), Some(OutputFormat::Wav));
    assert_eq!(try_get_format_from_file_name("trailing."), None);
}

#[test]
fn format_from_path() {
    assert_eq!(try_get_format_from_path(Some("out/dir/song.ogg")), Some(OutputFormat::Ogg));
    assert_eq!(try_get_format_from_path(Some("song.opus")), Some(OutputFormat::Opus));
    assert_eq!(try_get_format_from_path(Some("dir.mp3/file")), None);
    // A hidden-style name has no extension.
    assert_eq!(try_get_format_from_path(Some(".opus")), None);
    assert_eq!(try_get_format_from_path(Some("opus")), None);
    assert_eq!(try_get_format_from_path(None), None);
}

#[test]
fn output_format_fallback_chain() {
    assert_eq!(
        resolve_output_format(Some(OutputFormat::Wav), Some("a.mp3"), "%t.ogg"),
        OutputFormat::Wav
    );
    assert_eq!(resolve_output_format(None, Some("a.mp3"), "%t.ogg"), OutputFormat::Mp3);
    assert_eq!(resolve_output_format(None, Some("plain"), "%t.ogg"), OutputFormat::Ogg);
    assert_eq!(resolve_output_format(None, None, "%t"), OutputFormat::Opus);
}

#[test]
fn template_extension_detection() {
    assert!(template_carries_extension("%a - %t.opus", OutputFormat::Opus));
    assert!(!template_carries_extension("%a - %t.opus", OutputFormat::Mp3));
    assert!(!template_carries_extension("%a - %t", OutputFormat::Opus));
    assert!(!template_carries_extension("opus", OutputFormat::Opus));
}
