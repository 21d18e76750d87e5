use daytrip::format::{AudioEncoding, OutputFormat};
use daytrip::metadata::{get_file_name, NameOptions, TrackDetails, TrackMetadata};
use daytrip::pipeline::{encoder_args, pipeline_start, pipeline_step, scratch_path,
    DownloadRequest, PipelineAction, PipelineEvent, PipelinePhase, TrackError};
use daytrip::resolve::{CatalogReference, ItemKind};
use daytrip::sequence::{DownloadOutcome, SeqAction, SeqDirective, SequencerState,
    INTER_ITEM_DELAY_MS};

fn request(force_download: bool) -> DownloadRequest {
    DownloadRequest {
        track: CatalogReference { kind: ItemKind::Track, id: 7 },
        output_path: "out.opus".to_string(),
        format: OutputFormat::Opus,
        force_download,
        max_tries: 3,
    }
}

fn meta(title: &str, artist: &str, parent: &str, ordinal: u32) -> TrackMetadata {
    TrackMetadata {
        title: title.to_string(),
        artists: vec![artist.to_string()],
        parent_title: parent.to_string(),
        ordinal,
        uri: format!("spotify:track:000000000000000000000{}", ordinal % 10),
        encodings: Vec::new(),
        details: TrackDetails::Track { album_artists: vec![artist.to_string()] },
    }
}

fn episode_meta(title: &str, show: &str, description: &str) -> TrackMetadata {
    TrackMetadata {
        title: title.to_string(),
        artists: vec![show.to_string()],
        parent_title: show.to_string(),
        ordinal: 0,
        uri: "spotify:episode:0000000000000000000002".to_string(),
        encodings: Vec::new(),
        details: TrackDetails::Episode { description: description.to_string() },
    }
}

#[test]
fn skip_if_exists_short_circuits() {
    let (p0, a0) = pipeline_start(&request(false));
    assert_eq!((p0, a0), (PipelinePhase::Pending, PipelineAction::CheckOutput));
    let (p1, a1) = pipeline_step(p0, PipelineEvent::OutputExists(true));
    assert_eq!((p1, a1), (PipelinePhase::Skipped, PipelineAction::Finish));
    // Nothing streams afterwards, whatever else arrives.
    let (p2, a2) = pipeline_step(p1, PipelineEvent::StreamEnded);
    assert_eq!((p2, a2), (PipelinePhase::Skipped, PipelineAction::Finish));
}

#[test]
fn force_download_streams_without_checking() {
    let (p0, a0) = pipeline_start(&request(true));
    assert_eq!((p0, a0), (PipelinePhase::Streaming, PipelineAction::StartStream));
}

#[test]
fn successful_download_path() {
    let (p0, _) = pipeline_start(&request(false));
    let (p1, a1) = pipeline_step(p0, PipelineEvent::OutputExists(false));
    assert_eq!((p1, a1), (PipelinePhase::Streaming, PipelineAction::StartStream));
    let (p2, a2) = pipeline_step(p1, PipelineEvent::StreamEnded);
    assert_eq!((p2, a2), (PipelinePhase::Encoding, PipelineAction::RunEncoder));
    let (p3, a3) = pipeline_step(p2, PipelineEvent::EncoderExited(true));
    assert_eq!((p3, a3), (PipelinePhase::Done, PipelineAction::TruncateBuffer));
}

#[test]
fn unavailable_event_aborts_before_encoding() {
    // The unavailable event wins the race: the stream is stopped and torn
    // down, the track fails, and the encoder is never invoked.
    let (p0, _) = pipeline_start(&request(false));
    let (p1, _) = pipeline_step(p0, PipelineEvent::OutputExists(false));
    let (p2, a2) = pipeline_step(p1, PipelineEvent::Unavailable);
    assert_eq!(p2, PipelinePhase::Failed(TrackError::TrackUnavailable));
    assert_eq!(a2, PipelineAction::StopAndDiscard);
    // Terminal: no further event produces an encoder run.
    for e in [PipelineEvent::StreamEnded, PipelineEvent::EncoderExited(true)] {
        let (p3, a3) = pipeline_step(p2, e);
        assert_eq!(p3, p2);
        assert_eq!(a3, PipelineAction::Finish);
    }
}

#[test]
fn second_run_with_skip_streams_zero_times() {
    // First run under skip-if-exists, output absent: exactly one stream.
    let mut streams = 0;
    let (p, a) = pipeline_start(&request(false));
    assert_eq!(a, PipelineAction::CheckOutput);
    let (p, a) = pipeline_step(p, PipelineEvent::OutputExists(false));
    if a == PipelineAction::StartStream {
        streams += 1;
    }
    let (p, a) = pipeline_step(p, PipelineEvent::StreamEnded);
    assert_eq!(a, PipelineAction::RunEncoder);
    let (p, _) = pipeline_step(p, PipelineEvent::EncoderExited(true));
    assert_eq!(p, PipelinePhase::Done);
    assert_eq!(streams, 1);
    // Second run: the output now exists — nothing streams at all.
    let (p, a) = pipeline_start(&request(false));
    assert_ne!(a, PipelineAction::StartStream);
    let (_, a) = pipeline_step(p, PipelineEvent::OutputExists(true));
    assert_ne!(a, PipelineAction::StartStream);
}

#[test]
fn encoder_failure_still_truncates() {
    let (p, a) = pipeline_step(PipelinePhase::Encoding, PipelineEvent::EncoderExited(false));
    assert_eq!(p, PipelinePhase::Failed(TrackError::EncodeFailed));
    assert_eq!(a, PipelineAction::TruncateBuffer);
}

#[test]
fn backend_failure_fails_the_track() {
    let (p, _) = pipeline_step(PipelinePhase::Streaming, PipelineEvent::BackendFailed);
    assert_eq!(p, PipelinePhase::Failed(TrackError::BackendUnavailable));
}

#[test]
fn encoder_args_for_a_track() {
    let m = meta("Song", "Artist", "Album", 7);
    let args = encoder_args(Some(AudioEncoding::OggVorbis160), OutputFormat::Opus, "out.opus", &m);
    let expected: Vec<String> = [
        "-y", "-hide_banner", "-loglevel", "error", "-f", "s16le", "-ac", "2", "-i", "temp.pcm",
        "-metadata", "title=Song",
        "-metadata", "comment=spotify:track:0000000000000000000007",
        "-metadata", "artist=Artist",
        "-metadata", "album=Album",
        "-metadata", "album_artist=Artist",
        "-metadata", "track=7",
        "-b:a", "160000", "out.opus",
    ].iter().map(|s| s.to_string()).collect();
    assert_eq!(args, expected);
    assert_eq!(scratch_path(), "temp.pcm");
}

#[test]
fn encoder_args_for_an_episode() {
    let m = episode_meta("Pilot", "Some Show", "The first one.");
    let args = encoder_args(None, OutputFormat::Opus, "out.opus", &m);
    let expected: Vec<String> = [
        "-y", "-hide_banner", "-loglevel", "error", "-f", "s16le", "-ac", "2", "-i", "temp.pcm",
        "-metadata", "title=Pilot",
        "-metadata", "comment=spotify:episode:0000000000000000000002",
        "-metadata", "show=Some Show",
        "-metadata", "description=The first one.",
        "out.opus",
    ].iter().map(|s| s.to_string()).collect();
    assert_eq!(args, expected);
}

#[test]
fn encoder_args_join_multiple_artists() {
    let m = TrackMetadata {
        title: "T".to_string(),
        artists: vec!["One".to_string(), "Two".to_string()],
        parent_title: "P".to_string(),
        ordinal: 1,
        uri: "u".to_string(),
        encodings: Vec::new(),
        details: TrackDetails::Track {
            album_artists: vec!["Three".to_string(), "Four".to_string()],
        },
    };
    let args = encoder_args(None, OutputFormat::Opus, "o.opus", &m);
    assert!(args.iter().any(|a| a == "artist=One, Two"));
    assert!(args.iter().any(|a| a == "album_artist=Three, Four"));
}

#[test]
fn encoder_args_wav_or_unknown_source_omit_bitrate() {
    let m = meta("S", "A", "P", 1);
    let wav = encoder_args(Some(AudioEncoding::Mp3_320), OutputFormat::Wav, "o.wav", &m);
    assert!(!wav.iter().any(|a| a == "-b:a"));
    let unknown = encoder_args(None, OutputFormat::Opus, "o.opus", &m);
    assert!(!unknown.iter().any(|a| a == "-b:a"));
    let lossy = encoder_args(Some(AudioEncoding::Mp3_320), OutputFormat::Mp3, "o.mp3", &m);
    assert!(lossy.iter().any(|a| a == "-b:a"));
    assert!(lossy.iter().any(|a| a == "320000"));
}

#[test]
fn retry_bound_exhausts_exactly_max_tries() {
    // A pipeline that always fails is invoked exactly max_tries times.
    let max_tries = 3;
    let mut st = SequencerState::new(5, max_tries);
    let mut invocations = 0;
    let aborted = loop {
        match st.next_action() {
            SeqAction::Attempt { .. } => {
                invocations += 1;
                match st.record(DownloadOutcome::Failure(TrackError::EncodeFailed)) {
                    SeqDirective::Retry => continue,
                    SeqDirective::Abort(e) => break e,
                    SeqDirective::Proceed => panic!("a failure never proceeds"),
                }
            },
            SeqAction::Finished => panic!("an always-failing batch never finishes"),
        }
    };
    assert_eq!(invocations, max_tries);
    assert_eq!(aborted, TrackError::EncodeFailed);
}

#[test]
fn one_failure_then_success_continues() {
    let mut st = SequencerState::new(2, 3);
    assert_eq!(st.record(DownloadOutcome::Failure(TrackError::TrackUnavailable)),
        SeqDirective::Retry);
    assert_eq!(st.record(DownloadOutcome::Success), SeqDirective::Proceed);
    // The attempt counter starts fresh on the next member.
    assert_eq!(st.tries, 1);
    assert_eq!(st.next_index, 1);
    assert!(INTER_ITEM_DELAY_MS == 100);
}

#[test]
fn members_are_numbered_by_position() {
    // Composite with 3 tracks and a numbering template: names follow the
    // member-list position, not any ordinal in the metadata.
    let titles = ["first", "second", "third"];
    let opts = NameOptions { strip_features: false, cleanup_pattern: None };
    let mut st = SequencerState::new(3, 1);
    let mut names = Vec::new();
    loop {
        match st.next_action() {
            SeqAction::Attempt { index, number } => {
                // The metadata carries a misleading ordinal on purpose.
                let m = meta(titles[index], "A", "P", 99);
                names.push(get_file_name(&m, &opts, "%n %t", Some(number), Some("opus")));
                assert_eq!(st.record(DownloadOutcome::Success), SeqDirective::Proceed);
            },
            SeqAction::Finished => break,
        }
    }
    assert_eq!(names, vec!["01 first.opus", "02 second.opus", "03 third.opus"]);
}
