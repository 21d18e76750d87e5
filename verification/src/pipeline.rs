//! The per-track download pipeline, as a state machine: pre-check (skip when
//! the output already exists), streaming (racing natural end-of-stream
//! against an unavailable event), encoding through the external encoder, and
//! finalization. The driver performs each returned action and feeds the
//! resulting event back in; the machine decides every transition.

use vstd::prelude::*;
use crate::format::{AudioEncoding, OutputFormat, spec_bitrate, get_bitrate};
use crate::metadata::{TrackDetails, TrackMetadata, spec_join, join_artists};
use crate::resolve::CatalogReference;
use crate::text::{chars_of, string_of, append_chars, spec_decimal, u32_decimal};

verus! {

/// Why one track's download failed.
#[derive(Clone, Copy, PartialEq, Eq, Structural, Debug)]
pub enum TrackError {
    /// The remote side signalled the item unavailable mid-stream.
    TrackUnavailable,
    /// The external encoder failed to run or exited with an error.
    EncodeFailed,
    /// The local decode backend could not be initialized.
    BackendUnavailable,
}

/// One download request: the track, where its file goes, the target format,
/// the overwrite policy, and the retry budget.
pub struct DownloadRequest {
    pub track: CatalogReference,
    pub output_path: String,
    pub format: OutputFormat,
    /// `true` downloads even when the output already exists.
    pub force_download: bool,
    pub max_tries: u32,
}

/// Where one track's download stands.
#[derive(Clone, Copy, PartialEq, Eq, Structural, Debug)]
pub enum PipelinePhase {
    /// Awaiting the answer to the output pre-check.
    Pending,
    /// Decoding, racing end-of-stream against an unavailable event.
    Streaming,
    /// The external encoder is running.
    Encoding,
    /// The output file exists at the requested path.
    Done,
    /// The output already existed and the policy said to keep it.
    Skipped,
    /// The download failed.
    Failed(TrackError),
}

/// What the driver observed while performing the last action.
#[derive(Clone, Copy, PartialEq, Eq, Structural, Debug)]
pub enum PipelineEvent {
    /// Whether the output path already exists.
    OutputExists(bool),
    /// The local decode backend could not be initialized.
    BackendFailed,
    /// The decode reached natural end-of-stream.
    StreamEnded,
    /// The unavailable event won the race.
    Unavailable,
    /// The encoder process exited; `true` on exit code 0.
    EncoderExited(bool),
}

/// What the driver must do next.
#[derive(Clone, Copy, PartialEq, Eq, Structural, Debug)]
pub enum PipelineAction {
    /// Test whether the output path exists.
    CheckOutput,
    /// Initialize the backend, start decoding into the scratch buffer, and
    /// listen for the unavailable event alongside.
    StartStream,
    /// Stop the decode and tear the event listener down; nothing was written.
    StopAndDiscard,
    /// Tear the event listener down and run the encoder to completion.
    RunEncoder,
    /// Truncate the scratch buffer so the next request starts clean.
    TruncateBuffer,
    /// Nothing: the pipeline has reached a terminal phase.
    Finish,
}

/// True in the phases where the pipeline is finished.
pub open spec fn spec_is_terminal(p: PipelinePhase) -> bool {
    match p {
        PipelinePhase::Done | PipelinePhase::Skipped | PipelinePhase::Failed(_) => true,
        _ => false,
    }
}

/// How a download begins: with the output pre-check when the policy is
/// skip-if-exists, else streaming at once.
pub open spec fn spec_pipeline_start(force_download: bool) -> (PipelinePhase, PipelineAction) {
    if force_download {
        (PipelinePhase::Streaming, PipelineAction::StartStream)
    } else {
        (PipelinePhase::Pending, PipelineAction::CheckOutput)
    }
}

/// The transition relation: from a phase and the event the driver observed,
/// the next phase and the next action. An event that does not belong to the
/// phase leaves the phase unchanged and asks for nothing.
pub open spec fn spec_pipeline_step(p: PipelinePhase, e: PipelineEvent) -> (
    PipelinePhase,
    PipelineAction,
) {
    match (p, e) {
        (PipelinePhase::Pending, PipelineEvent::OutputExists(true)) => (
            PipelinePhase::Skipped,
            PipelineAction::Finish,
        ),
        (PipelinePhase::Pending, PipelineEvent::OutputExists(false)) => (
            PipelinePhase::Streaming,
            PipelineAction::StartStream,
        ),
        (PipelinePhase::Streaming, PipelineEvent::BackendFailed) => (
            PipelinePhase::Failed(TrackError::BackendUnavailable),
            PipelineAction::Finish,
        ),
        (PipelinePhase::Streaming, PipelineEvent::Unavailable) => (
            PipelinePhase::Failed(TrackError::TrackUnavailable),
            PipelineAction::StopAndDiscard,
        ),
        (PipelinePhase::Streaming, PipelineEvent::StreamEnded) => (
            PipelinePhase::Encoding,
            PipelineAction::RunEncoder,
        ),
        (PipelinePhase::Encoding, PipelineEvent::EncoderExited(true)) => (
            PipelinePhase::Done,
            PipelineAction::TruncateBuffer,
        ),
        (PipelinePhase::Encoding, PipelineEvent::EncoderExited(false)) => (
            PipelinePhase::Failed(TrackError::EncodeFailed),
            PipelineAction::TruncateBuffer,
        ),
        _ => (p, PipelineAction::Finish),
    }
}

/// How a download begins, for the driver of one request.
pub fn pipeline_start(req: &DownloadRequest) -> (r: (PipelinePhase, PipelineAction))
    ensures
        r == spec_pipeline_start(req.force_download),
{
    if req.force_download {
        (PipelinePhase::Streaming, PipelineAction::StartStream)
    } else {
        (PipelinePhase::Pending, PipelineAction::CheckOutput)
    }
}

/// One transition, for the driver.
pub fn pipeline_step(p: PipelinePhase, e: PipelineEvent) -> (r: (PipelinePhase, PipelineAction))
    ensures
        r == spec_pipeline_step(p, e),
{
    match (p, e) {
        (PipelinePhase::Pending, PipelineEvent::OutputExists(true)) => (
            PipelinePhase::Skipped,
            PipelineAction::Finish,
        ),
        (PipelinePhase::Pending, PipelineEvent::OutputExists(false)) => (
            PipelinePhase::Streaming,
            PipelineAction::StartStream,
        ),
        (PipelinePhase::Streaming, PipelineEvent::BackendFailed) => (
            PipelinePhase::Failed(TrackError::BackendUnavailable),
            PipelineAction::Finish,
        ),
        (PipelinePhase::Streaming, PipelineEvent::Unavailable) => (
            PipelinePhase::Failed(TrackError::TrackUnavailable),
            PipelineAction::StopAndDiscard,
        ),
        (PipelinePhase::Streaming, PipelineEvent::StreamEnded) => (
            PipelinePhase::Encoding,
            PipelineAction::RunEncoder,
        ),
        (PipelinePhase::Encoding, PipelineEvent::EncoderExited(true)) => (
            PipelinePhase::Done,
            PipelineAction::TruncateBuffer,
        ),
        (PipelinePhase::Encoding, PipelineEvent::EncoderExited(false)) => (
            PipelinePhase::Failed(TrackError::EncodeFailed),
            PipelineAction::TruncateBuffer,
        ),
        _ => (p, PipelineAction::Finish),
    }
}

/// The actions a run produces: the machine stepped over a sequence of
/// events, collecting the action of each step.
pub open spec fn spec_run_actions(p: PipelinePhase, events: Seq<PipelineEvent>) -> Seq<
    PipelineAction,
>
    decreases events.len(),
{
    if events.len() == 0 {
        Seq::empty()
    } else {
        let (p2, a) = spec_pipeline_step(p, events[0]);
        seq![a] + spec_run_actions(p2, events.drop_first())
    }
}

/// The phase a run ends in.
pub open spec fn spec_run_final(p: PipelinePhase, events: Seq<PipelineEvent>) -> PipelinePhase
    decreases events.len(),
{
    if events.len() == 0 {
        p
    } else {
        spec_run_final(spec_pipeline_step(p, events[0]).0, events.drop_first())
    }
}

/// How many times an action occurs in a run's actions.
pub open spec fn spec_count_action(actions: Seq<PipelineAction>, a: PipelineAction) -> nat
    decreases actions.len(),
{
    if actions.len() == 0 {
        0
    } else {
        (if actions[0] == a {
            1nat
        } else {
            0nat
        }) + spec_count_action(actions.drop_first(), a)
    }
}

/// Once out of `Pending`, a run never starts a stream again: `StartStream`
/// is issued only from the pre-check, which no phase leads back to.
pub proof fn lemma_no_restream(p: PipelinePhase, events: Seq<PipelineEvent>)
    requires
        p != PipelinePhase::Pending,
    ensures
        spec_count_action(spec_run_actions(p, events), PipelineAction::StartStream) == 0,
    decreases events.len(),
{
    if events.len() > 0 {
        let (p2, a) = spec_pipeline_step(p, events[0]);
        assert(p2 != PipelinePhase::Pending);
        assert(a != PipelineAction::StartStream);
        lemma_no_restream(p2, events.drop_first());
        assert((seq![a] + spec_run_actions(p2, events.drop_first())).drop_first()
            =~= spec_run_actions(p2, events.drop_first()));
    }
}

/// A terminal phase absorbs every further event without any action.
pub proof fn lemma_terminal_absorbs(p: PipelinePhase, events: Seq<PipelineEvent>)
    requires
        spec_is_terminal(p),
    ensures
        spec_run_final(p, events) == p,
        forall|i: int|
            0 <= i < spec_run_actions(p, events).len() ==> spec_run_actions(p, events)[i]
                == PipelineAction::Finish,
    decreases events.len(),
{
    if events.len() > 0 {
        let (p2, a) = spec_pipeline_step(p, events[0]);
        assert(p2 == p && a == PipelineAction::Finish);
        lemma_terminal_absorbs(p2, events.drop_first());
        assert forall|i: int| 0 <= i < spec_run_actions(p, events).len() implies spec_run_actions(
            p,
            events,
        )[i] == PipelineAction::Finish by {
            if i > 0 {
                assert(spec_run_actions(p, events)[i] == spec_run_actions(
                    p2,
                    events.drop_first(),
                )[i - 1]);
            }
        }
    }
}

/// Skip short-circuit, and idempotence of a completed download: when the
/// output already exists under the skip-if-exists policy, the very first
/// step ends the pipeline in `Skipped`, and no run from there ever starts a
/// network stream.
pub proof fn lemma_skip_if_exists(events: Seq<PipelineEvent>)
    ensures
        spec_pipeline_step(PipelinePhase::Pending, PipelineEvent::OutputExists(true)) == (
            PipelinePhase::Skipped,
            PipelineAction::Finish,
        ),
        spec_count_action(
            spec_run_actions(PipelinePhase::Skipped, events),
            PipelineAction::StartStream,
        ) == 0,
{
    lemma_no_restream(PipelinePhase::Skipped, events);
}

/// A fresh download streams exactly once: when the output does not exist,
/// the first step starts the stream, and the rest of the run never starts
/// another.
pub proof fn lemma_fresh_download_streams_once(events: Seq<PipelineEvent>)
    ensures
        ({
            let first = spec_pipeline_step(PipelinePhase::Pending, PipelineEvent::OutputExists(false));
            let actions = seq![first.1] + spec_run_actions(first.0, events);
            spec_count_action(actions, PipelineAction::StartStream) == 1
        }),
{
    let first = spec_pipeline_step(PipelinePhase::Pending, PipelineEvent::OutputExists(false));
    let rest = spec_run_actions(first.0, events);
    lemma_no_restream(first.0, events);
    assert((seq![first.1] + rest).drop_first() =~= rest);
}

/// An unavailable event before end-of-stream fails the track with
/// `TrackUnavailable`, and the encoder — the only writer of the destination
/// file — is never invoked afterwards: no destination file is created.
pub proof fn lemma_unavailable_aborts(events: Seq<PipelineEvent>)
    ensures
        spec_pipeline_step(PipelinePhase::Streaming, PipelineEvent::Unavailable) == (
            PipelinePhase::Failed(TrackError::TrackUnavailable),
            PipelineAction::StopAndDiscard,
        ),
        spec_run_final(PipelinePhase::Failed(TrackError::TrackUnavailable), events)
            == PipelinePhase::Failed(TrackError::TrackUnavailable),
        spec_count_action(
            spec_run_actions(PipelinePhase::Failed(TrackError::TrackUnavailable), events),
            PipelineAction::RunEncoder,
        ) == 0,
{
    let p = PipelinePhase::Failed(TrackError::TrackUnavailable);
    lemma_terminal_absorbs(p, events);
    lemma_count_none(spec_run_actions(p, events), PipelineAction::RunEncoder);
}

proof fn lemma_count_none(actions: Seq<PipelineAction>, a: PipelineAction)
    requires
        forall|i: int| 0 <= i < actions.len() ==> actions[i] != a,
    ensures
        spec_count_action(actions, a) == 0,
    decreases actions.len(),
{
    if actions.len() > 0 {
        assert(forall|i: int|
            0 <= i < actions.drop_first().len() ==> actions.drop_first()[i] == actions[i + 1]);
        lemma_count_none(actions.drop_first(), a);
    }
}

/// The fixed name of the scratch buffer the decode writes into and the
/// encoder reads from.
pub fn scratch_path() -> (r: &'static str)
    ensures
        r@ == "temp.pcm"@,
{
    "temp.pcm"
}

/// The exact argument list the external encoder is invoked with: raw
/// interleaved signed 16-bit little-endian stereo PCM read from the scratch
/// buffer, the title and source-URI comment tags, per-kind tags (a track's
/// artists, album, album artists and number; an episode's show and
/// description), a target bitrate matching the selected source encoding
/// (omitted for a WAV target or an unknown source), and the output path.
pub open spec fn spec_encoder_args(
    input_format: Option<AudioEncoding>,
    output_format: OutputFormat,
    output_path: Seq<char>,
    m: TrackMetadata,
) -> Seq<Seq<char>> {
    let common = seq![
        "-y"@,
        "-hide_banner"@,
        "-loglevel"@,
        "error"@,
        "-f"@,
        "s16le"@,
        "-ac"@,
        "2"@,
        "-i"@,
        "temp.pcm"@,
    ];
    let shared = seq![
        "-metadata"@,
        "title="@ + m.title@,
        "-metadata"@,
        "comment="@ + m.uri@,
    ];
    let kind_tags = match m.details {
        TrackDetails::Track { album_artists } => seq![
            "-metadata"@,
            "artist="@ + spec_join(m.artists.deep_view(), seq![',', ' ']),
            "-metadata"@,
            "album="@ + m.parent_title@,
            "-metadata"@,
            "album_artist="@ + spec_join(album_artists.deep_view(), seq![',', ' ']),
            "-metadata"@,
            "track="@ + spec_decimal(m.ordinal as nat),
        ],
        TrackDetails::Episode { description } => seq![
            "-metadata"@,
            "show="@ + m.parent_title@,
            "-metadata"@,
            "description="@ + description@,
        ],
    };
    let rate = match input_format {
        Some(f) => if output_format == OutputFormat::Wav {
            Seq::<Seq<char>>::empty()
        } else {
            seq!["-b:a"@, spec_decimal((spec_bitrate(f) * 1000) as nat)]
        },
        None => Seq::<Seq<char>>::empty(),
    };
    common + shared + kind_tags + rate + seq![output_path]
}

fn prefixed(prefix: &str, value: &Vec<char>) -> (r: String)
    ensures
        r@ == prefix@ + value@,
{
    let mut v = chars_of(prefix);
    append_chars(&mut v, value);
    string_of(&v)
}

/// Builds the encoder's argument list for one item.
#[verifier::rlimit(50)]
pub fn encoder_args(
    input_format: Option<AudioEncoding>,
    output_format: OutputFormat,
    output_path: &str,
    meta: &TrackMetadata,
) -> (r: Vec<String>)
    ensures
        r.deep_view() == spec_encoder_args(input_format, output_format, output_path@, *meta),
{
    let mut args: Vec<String> = Vec::new();
    args.push(String::from_str("-y"));
    args.push(String::from_str("-hide_banner"));
    args.push(String::from_str("-loglevel"));
    args.push(String::from_str("error"));
    args.push(String::from_str("-f"));
    args.push(String::from_str("s16le"));
    args.push(String::from_str("-ac"));
    args.push(String::from_str("2"));
    args.push(String::from_str("-i"));
    args.push(String::from_str("temp.pcm"));
    args.push(String::from_str("-metadata"));
    let title = chars_of(meta.title.as_str());
    args.push(prefixed("title=", &title));
    args.push(String::from_str("-metadata"));
    let uri = chars_of(meta.uri.as_str());
    args.push(prefixed("comment=", &uri));
    match &meta.details {
        TrackDetails::Track { album_artists } => {
            args.push(String::from_str("-metadata"));
            let joined = join_artists(&meta.artists);
            args.push(prefixed("artist=", &joined));
            args.push(String::from_str("-metadata"));
            let parent = chars_of(meta.parent_title.as_str());
            args.push(prefixed("album=", &parent));
            args.push(String::from_str("-metadata"));
            let album_joined = join_artists(album_artists);
            args.push(prefixed("album_artist=", &album_joined));
            args.push(String::from_str("-metadata"));
            let ord = u32_decimal(meta.ordinal);
            args.push(prefixed("track=", &ord));
        },
        TrackDetails::Episode { description } => {
            args.push(String::from_str("-metadata"));
            let parent = chars_of(meta.parent_title.as_str());
            args.push(prefixed("show=", &parent));
            args.push(String::from_str("-metadata"));
            let desc = chars_of(description.as_str());
            args.push(prefixed("description=", &desc));
        },
    }
    match input_format {
        Some(f) => {
            if output_format != OutputFormat::Wav {
                args.push(String::from_str("-b:a"));
                let kb = get_bitrate(&f);
                proof {
                    assert(spec_bitrate(f) <= 1411);
                }
                let bits = u32_decimal(kb * 1000);
                args.push(string_of(&bits));
            }
        },
        None => {},
    }
    args.push(String::from_str(output_path));
    proof {
        assert(args.deep_view() =~= spec_encoder_args(
            input_format,
            output_format,
            output_path@,
            *meta,
        ));
    }
    args
}

} // verus!
