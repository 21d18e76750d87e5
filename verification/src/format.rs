//! Audio formats: the output containers a download can be encoded to, the
//! source encodings the remote service can serve, and the policy that picks a
//! source encoding for a configured quality tier.

use vstd::prelude::*;
use crate::text::{chars_of, check_match_at, matches_at, has_char, is_last_occurrence, last_occurrence, lemma_last_occurrence,
    rfind_char, subvec};

verus! {

/// Output container for an encoded download.
#[derive(Clone, Copy, PartialEq, Eq, Structural, Debug)]
pub enum OutputFormat {
    Opus,
    Mp3,
    Ogg,
    Flac,
    Wav,
}

/// One source encoding (codec and bitrate variant) the remote service can
/// serve a track in.
#[derive(Clone, Copy, PartialEq, Eq, Structural, Debug)]
pub enum AudioEncoding {
    OggVorbis96,
    OggVorbis160,
    OggVorbis320,
    Mp3_256,
    Mp3_320,
    Mp3_160,
    Mp3_96,
    Mp3_160Enc,
    Aac24,
    Aac48,
    Flac,
    XheAac24,
    XheAac16,
    XheAac12,
    Flac24Bit,
    Aac160,
    Aac320,
    Mp4_128,
    Other,
}

/// Configured quality tier for the source encoding.
#[derive(Clone, Copy, PartialEq, Eq, Structural, Debug)]
pub enum QualityTier {
    Low,
    Medium,
    High,
}

/// The nominal bitrate of a source encoding, in kilobits per second.
pub open spec fn spec_bitrate(f: AudioEncoding) -> u32 {
    match f {
        AudioEncoding::OggVorbis96 => 96,
        AudioEncoding::OggVorbis160 => 160,
        AudioEncoding::OggVorbis320 => 320,
        AudioEncoding::Mp3_256 => 256,
        AudioEncoding::Mp3_320 => 320,
        AudioEncoding::Mp3_160 => 160,
        AudioEncoding::Mp3_96 => 96,
        AudioEncoding::Mp3_160Enc => 160,
        AudioEncoding::Aac24 => 24,
        AudioEncoding::Aac48 => 48,
        AudioEncoding::Flac => 1411,
        AudioEncoding::XheAac24 => 24,
        AudioEncoding::XheAac16 => 16,
        AudioEncoding::XheAac12 => 12,
        AudioEncoding::Flac24Bit => 1411,
        AudioEncoding::Aac160 => 160,
        AudioEncoding::Aac320 => 320,
        AudioEncoding::Mp4_128 => 128,
        AudioEncoding::Other => 0,
    }
}

/// The nominal bitrate of a source encoding, in kilobits per second.
pub fn get_bitrate(format: &AudioEncoding) -> (r: u32)
    ensures
        r == spec_bitrate(*format),
{
    match format {
        AudioEncoding::OggVorbis96 => 96,
        AudioEncoding::OggVorbis160 => 160,
        AudioEncoding::OggVorbis320 => 320,
        AudioEncoding::Mp3_256 => 256,
        AudioEncoding::Mp3_320 => 320,
        AudioEncoding::Mp3_160 => 160,
        AudioEncoding::Mp3_96 => 96,
        AudioEncoding::Mp3_160Enc => 160,
        AudioEncoding::Aac24 => 24,
        AudioEncoding::Aac48 => 48,
        AudioEncoding::Flac => 1411,
        AudioEncoding::XheAac24 => 24,
        AudioEncoding::XheAac16 => 16,
        AudioEncoding::XheAac12 => 12,
        AudioEncoding::Flac24Bit => 1411,
        AudioEncoding::Aac160 => 160,
        AudioEncoding::Aac320 => 320,
        AudioEncoding::Mp4_128 => 128,
        AudioEncoding::Other => 0,
    }
}

/// The file extension of an output format, as a character sequence.
pub open spec fn spec_extension(f: OutputFormat) -> Seq<char> {
    match f {
        OutputFormat::Opus => seq!['o', 'p', 'u', 's'],
        OutputFormat::Mp3 => seq!['m', 'p', '3'],
        OutputFormat::Ogg => seq!['o', 'g', 'g'],
        OutputFormat::Flac => seq!['f', 'l', 'a', 'c'],
        OutputFormat::Wav => seq!['w', 'a', 'v'],
    }
}

impl OutputFormat {
    /// The file extension used for this output format.
    pub fn extension(&self) -> (r: &'static str)
        ensures
            r@ == spec_extension(*self),
    {
        match self {
            OutputFormat::Opus => {
                proof {
                    reveal_strlit("opus");
                    assert("opus"@ =~= spec_extension(OutputFormat::Opus));
                }
                "opus"
            },
            OutputFormat::Mp3 => {
                proof {
                    reveal_strlit("mp3");
                    assert("mp3"@ =~= spec_extension(OutputFormat::Mp3));
                }
                "mp3"
            },
            OutputFormat::Ogg => {
                proof {
                    reveal_strlit("ogg");
                    assert("ogg"@ =~= spec_extension(OutputFormat::Ogg));
                }
                "ogg"
            },
            OutputFormat::Flac => {
                proof {
                    reveal_strlit("flac");
                    assert("flac"@ =~= spec_extension(OutputFormat::Flac));
                }
                "flac"
            },
            OutputFormat::Wav => {
                proof {
                    reveal_strlit("wav");
                    assert("wav"@ =~= spec_extension(OutputFormat::Wav));
                }
                "wav"
            },
        }
    }

    /// The output format whose extension is exactly `e`, if any.
    pub open spec fn spec_from_extension(e: Seq<char>) -> Option<OutputFormat> {
        if e == spec_extension(OutputFormat::Opus) {
            Some(OutputFormat::Opus)
        } else if e == spec_extension(OutputFormat::Mp3) {
            Some(OutputFormat::Mp3)
        } else if e == spec_extension(OutputFormat::Ogg) {
            Some(OutputFormat::Ogg)
        } else if e == spec_extension(OutputFormat::Flac) {
            Some(OutputFormat::Flac)
        } else if e == spec_extension(OutputFormat::Wav) {
            Some(OutputFormat::Wav)
        } else {
            None
        }
    }

    /// Maps a file extension to the output format it names, if any.
    pub fn from_extension(ext: &str) -> (r: Option<OutputFormat>)
        ensures
            r == Self::spec_from_extension(ext@),
    {
        let v = chars_of(ext);
        Self::from_extension_chars(&v)
    }

    /// Maps a file extension, given as characters, to the output format it
    /// names, if any.
    pub fn from_extension_chars(v: &Vec<char>) -> (r: Option<OutputFormat>)
        ensures
            r == Self::spec_from_extension(v@),
    {
        if ext_matches(v, OutputFormat::Opus) {
            Some(OutputFormat::Opus)
        } else if ext_matches(v, OutputFormat::Mp3) {
            Some(OutputFormat::Mp3)
        } else if ext_matches(v, OutputFormat::Ogg) {
            Some(OutputFormat::Ogg)
        } else if ext_matches(v, OutputFormat::Flac) {
            Some(OutputFormat::Flac)
        } else if ext_matches(v, OutputFormat::Wav) {
            Some(OutputFormat::Wav)
        } else {
            None
        }
    }
}

/// The extension of an output format as an owned character vector.
pub fn extension_chars(f: OutputFormat) -> (r: Vec<char>)
    ensures
        r@ == spec_extension(f),
{
    let mut v: Vec<char> = Vec::new();
    match f {
        OutputFormat::Opus => {
            v.push('o');
            v.push('p');
            v.push('u');
            v.push('s');
        },
        OutputFormat::Mp3 => {
            v.push('m');
            v.push('p');
            v.push('3');
        },
        OutputFormat::Ogg => {
            v.push('o');
            v.push('g');
            v.push('g');
        },
        OutputFormat::Flac => {
            v.push('f');
            v.push('l');
            v.push('a');
            v.push('c');
        },
        OutputFormat::Wav => {
            v.push('w');
            v.push('a');
            v.push('v');
        },
    }
    proof {
        assert(v@ =~= spec_extension(f));
    }
    v
}

fn ext_matches(v: &Vec<char>, f: OutputFormat) -> (r: bool)
    ensures
        r == (v@ == spec_extension(f)),
{
    let pat = extension_chars(f);
    if v.len() != pat.len() {
        proof {
            assert(v@ != spec_extension(f));
        }
        return false;
    }
    let mut i: usize = 0;
    while i < v.len()
        invariant
            0 <= i <= v@.len(),
            v@.len() == pat@.len(),
            pat@ == spec_extension(f),
            forall|j: int| 0 <= j < i ==> v@[j] == pat@[j],
        decreases v@.len() - i,
    {
        if v[i] != pat[i] {
            return false;
        }
        i = i + 1;
    }
    proof {
        assert(v@ =~= spec_extension(f));
    }
    true
}

/// The fixed preference ordering of source encodings for a quality tier:
/// best match for the tier first, then nearby tiers, largest bitrate first
/// within a tier.
pub open spec fn spec_preference(q: QualityTier) -> Seq<AudioEncoding> {
    match q {
        QualityTier::Low => seq![
            AudioEncoding::OggVorbis96,
            AudioEncoding::Mp3_96,
            AudioEncoding::OggVorbis160,
            AudioEncoding::Mp3_160,
            AudioEncoding::Mp3_256,
            AudioEncoding::OggVorbis320,
            AudioEncoding::Mp3_320,
        ],
        QualityTier::Medium => seq![
            AudioEncoding::OggVorbis160,
            AudioEncoding::Mp3_160,
            AudioEncoding::OggVorbis96,
            AudioEncoding::Mp3_96,
            AudioEncoding::Mp3_256,
            AudioEncoding::OggVorbis320,
            AudioEncoding::Mp3_320,
        ],
        QualityTier::High => seq![
            AudioEncoding::OggVorbis320,
            AudioEncoding::Mp3_320,
            AudioEncoding::Mp3_256,
            AudioEncoding::OggVorbis160,
            AudioEncoding::Mp3_160,
            AudioEncoding::OggVorbis96,
            AudioEncoding::Mp3_96,
        ],
    }
}

fn preference(q: QualityTier) -> (r: Vec<AudioEncoding>)
    ensures
        r@ == spec_preference(q),
{
    let mut v: Vec<AudioEncoding> = Vec::new();
    match q {
        QualityTier::Low => {
            v.push(AudioEncoding::OggVorbis96);
            v.push(AudioEncoding::Mp3_96);
            v.push(AudioEncoding::OggVorbis160);
            v.push(AudioEncoding::Mp3_160);
            v.push(AudioEncoding::Mp3_256);
            v.push(AudioEncoding::OggVorbis320);
            v.push(AudioEncoding::Mp3_320);
        },
        QualityTier::Medium => {
            v.push(AudioEncoding::OggVorbis160);
            v.push(AudioEncoding::Mp3_160);
            v.push(AudioEncoding::OggVorbis96);
            v.push(AudioEncoding::Mp3_96);
            v.push(AudioEncoding::Mp3_256);
            v.push(AudioEncoding::OggVorbis320);
            v.push(AudioEncoding::Mp3_320);
        },
        QualityTier::High => {
            v.push(AudioEncoding::OggVorbis320);
            v.push(AudioEncoding::Mp3_320);
            v.push(AudioEncoding::Mp3_256);
            v.push(AudioEncoding::OggVorbis160);
            v.push(AudioEncoding::Mp3_160);
            v.push(AudioEncoding::OggVorbis96);
            v.push(AudioEncoding::Mp3_96);
        },
    }
    proof {
        assert(v@ =~= spec_preference(q));
    }
    v
}

/// The first encoding of `prefs` that occurs in `avail`, if any.
pub open spec fn spec_select(prefs: Seq<AudioEncoding>, avail: Seq<AudioEncoding>) -> Option<
    AudioEncoding,
>
    decreases prefs.len(),
{
    if prefs.len() == 0 {
        None
    } else if avail.contains(prefs[0]) {
        Some(prefs[0])
    } else {
        spec_select(prefs.drop_first(), avail)
    }
}

/// Selection comes up empty exactly when none of the preferred encodings is
/// available.
proof fn lemma_select_none(prefs: Seq<AudioEncoding>, avail: Seq<AudioEncoding>)
    ensures
        (spec_select(prefs, avail) is None) == (forall|f: AudioEncoding|
            prefs.contains(f) ==> !avail.contains(f)),
    decreases prefs.len(),
{
    if prefs.len() == 0 {
    } else {
        lemma_select_none(prefs.drop_first(), avail);
        if !avail.contains(prefs[0]) {
            if spec_select(prefs, avail) is None {
                assert forall|f: AudioEncoding| prefs.contains(f) implies !avail.contains(f) by {
                    let i = choose|i: int| 0 <= i < prefs.len() && prefs[i] == f;
                    if i > 0 {
                        assert(prefs.drop_first()[i - 1] == f);
                    }
                }
            } else {
                let f = choose|f: AudioEncoding|
                    prefs.drop_first().contains(f) && avail.contains(f);
                let i = choose|i: int|
                    0 <= i < prefs.drop_first().len() && prefs.drop_first()[i] == f;
                assert(prefs[i + 1] == f);
            }
        }
    }
}

fn encoding_in(avail: &Vec<AudioEncoding>, x: AudioEncoding) -> (r: bool)
    ensures
        r == avail@.contains(x),
{
    let mut i: usize = 0;
    while i < avail.len()
        invariant
            0 <= i <= avail@.len(),
            forall|j: int| 0 <= j < i ==> avail@[j] != x,
        decreases avail@.len() - i,
    {
        if avail[i] == x {
            return true;
        }
        i = i + 1;
    }
    false
}

/// Picks the source encoding to download: the first entry of the tier's
/// preference ordering that the track is available in, or `None` when the
/// track is available in none of the supported encodings.
pub fn get_input_format(quality: QualityTier, available: &Vec<AudioEncoding>) -> (r: Option<
    AudioEncoding,
>)
    ensures
        r == spec_select(spec_preference(quality), available@),
        r matches Some(f) ==> available@.contains(f) && spec_preference(quality).contains(f),
        (r is None) == (forall|f: AudioEncoding|
            spec_preference(quality).contains(f) ==> !available@.contains(f)),
{
    proof {
        lemma_select_none(spec_preference(quality), available@);
    }
    let prefs = preference(quality);
    proof {
        assert(prefs@.subrange(0, prefs@.len() as int) =~= prefs@);
    }
    let mut i: usize = 0;
    while i < prefs.len()
        invariant
            0 <= i <= prefs@.len(),
            prefs@ == spec_preference(quality),
            spec_select(prefs@, available@) == spec_select(
                prefs@.subrange(i as int, prefs@.len() as int),
                available@,
            ),
            forall|j: int| 0 <= j < i ==> !available@.contains(prefs@[j]),
        decreases prefs@.len() - i,
    {
        let sub = Ghost(prefs@.subrange(i as int, prefs@.len() as int));
        proof {
            assert(sub@[0] == prefs@[i as int]);
        }
        if encoding_in(available, prefs[i]) {
            proof {
                assert(spec_select(sub@, available@) == Some(prefs@[i as int]));
            }
            return Some(prefs[i]);
        }
        proof {
            assert(sub@.drop_first() =~= prefs@.subrange(i + 1, prefs@.len() as int));
        }
        i = i + 1;
    }
    proof {
        assert(prefs@.subrange(prefs@.len() as int, prefs@.len() as int) =~= Seq::<
            AudioEncoding,
        >::empty());
    }
    None
}

/// The part of a file name after its last `.`, or the whole name when it has
/// none.
pub open spec fn spec_last_segment(s: Seq<char>) -> Seq<char> {
    if has_char(s, '.') {
        s.subrange(last_occurrence(s, '.') + 1, s.len() as int)
    } else {
        s
    }
}

/// Reads an output format off a file name or template: the segment after the
/// last `.` (the whole name when it has none) must name a format exactly.
pub fn try_get_format_from_file_name(name: &str) -> (r: Option<OutputFormat>)
    ensures
        r == OutputFormat::spec_from_extension(spec_last_segment(name@)),
{
    let v = chars_of(name);
    match rfind_char(&v, '.') {
        Some(d) => {
            proof {
                assert(has_char(v@, '.'));
                lemma_last_occurrence(v@, '.');
                assert(last_occurrence(v@, '.') == d as int);
            }
            let n = v.len();
            let seg = subvec(&v, d + 1, n);
            OutputFormat::from_extension_chars(&seg)
        },
        None => OutputFormat::from_extension_chars(&v),
    }
}

/// The output format a download uses: the explicitly requested one, else the
/// one the output path's extension names, else the one the template's
/// extension names, else Opus.
pub open spec fn spec_resolve_output_format(
    explicit: Option<OutputFormat>,
    path: Option<Seq<char>>,
    template: Seq<char>,
) -> OutputFormat {
    match explicit {
        Some(f) => f,
        None => {
            let from_path = match path {
                Some(p) => match spec_path_extension(p) {
                    Some(e) => OutputFormat::spec_from_extension(e),
                    None => None,
                },
                None => None,
            };
            match from_path {
                Some(f) => f,
                None => match OutputFormat::spec_from_extension(spec_last_segment(template)) {
                    Some(f) => f,
                    None => OutputFormat::Opus,
                },
            }
        },
    }
}

/// Picks the output format: the explicitly requested one first, then the
/// output path's extension, then the template's, defaulting to Opus.
pub fn resolve_output_format(
    explicit: Option<OutputFormat>,
    path: Option<&str>,
    template: &str,
) -> (r: OutputFormat)
    ensures
        r == spec_resolve_output_format(
            explicit,
            match path {
                Some(p) => Some(p@),
                None => None::<Seq<char>>,
            },
            template@,
        ),
{
    match explicit {
        Some(f) => f,
        None => match try_get_format_from_path(path) {
            Some(f) => f,
            None => match try_get_format_from_file_name(template) {
                Some(f) => f,
                None => OutputFormat::Opus,
            },
        },
    }
}

/// True when `s` ends with `suffix`.
pub open spec fn spec_ends_with(s: Seq<char>, suffix: Seq<char>) -> bool {
    suffix.len() <= s.len() && s.subrange(s.len() - suffix.len(), s.len() as int) == suffix
}

/// True when the template already ends in `.` plus the format's extension,
/// so that appending the extension again would double it.
pub fn template_carries_extension(template: &str, f: OutputFormat) -> (r: bool)
    ensures
        r == spec_ends_with(template@, seq!['.'] + spec_extension(f)),
{
    let v = chars_of(template);
    let mut pat: Vec<char> = Vec::new();
    pat.push('.');
    let e = extension_chars(f);
    let mut k: usize = 0;
    while k < e.len()
        invariant
            0 <= k <= e@.len(),
            e@ == spec_extension(f),
            pat@ =~= seq!['.'] + e@.subrange(0, k as int),
        decreases e@.len() - k,
    {
        pat.push(e[k]);
        proof {
            assert(pat@ =~= seq!['.'] + e@.subrange(0, k + 1));
        }
        k = k + 1;
    }
    proof {
        assert(e@.subrange(0, e@.len() as int) =~= e@);
        assert(pat@ == seq!['.'] + spec_extension(f));
    }
    if pat.len() > v.len() {
        return false;
    }
    let at = v.len() - pat.len();
    let r = check_match_at(&v, at, &pat);
    proof {
        if r {
            assert(v@.subrange(at as int, v@.len() as int) == pat@);
        }
        if spec_ends_with(v@, pat@) {
            assert(matches_at(v@, at as int, pat@));
        }
    }
    r
}

/// The component of a path after its last `/`.
pub open spec fn spec_file_component(s: Seq<char>) -> Seq<char> {
    if has_char(s, '/') {
        s.subrange(last_occurrence(s, '/') + 1, s.len() as int)
    } else {
        s
    }
}

/// The extension of a path: the part of its last component after the last
/// `.`, provided that dot is not the component's first character.
pub open spec fn spec_path_extension(s: Seq<char>) -> Option<Seq<char>> {
    let comp = spec_file_component(s);
    if has_char(comp, '.') && last_occurrence(comp, '.') > 0 {
        Some(comp.subrange(last_occurrence(comp, '.') + 1, comp.len() as int))
    } else {
        None
    }
}

/// Reads an output format off a path's extension, if the path is present and
/// its extension names a format exactly.
pub fn try_get_format_from_path(path: Option<&str>) -> (r: Option<OutputFormat>)
    ensures
        r == match path {
            Some(p) => match spec_path_extension(p@) {
                Some(e) => OutputFormat::spec_from_extension(e),
                None => None,
            },
            None => None,
        },
{
    let p = match path {
        Some(p) => p,
        None => {
            return None;
        },
    };
    let v = chars_of(p);
    let comp = match rfind_char(&v, '/') {
        Some(sl) => {
            proof {
                assert(has_char(v@, '/'));
                lemma_last_occurrence(v@, '/');
                assert(last_occurrence(v@, '/') == sl as int);
            }
            let n = v.len();
            subvec(&v, sl + 1, n)
        },
        None => v,
    };
    match rfind_char(&comp, '.') {
        Some(d) => {
            proof {
                assert(has_char(comp@, '.'));
                lemma_last_occurrence(comp@, '.');
                assert(last_occurrence(comp@, '.') == d as int);
            }
            if d == 0 {
                None
            } else {
                let n = comp.len();
                let seg = subvec(&comp, d + 1, n);
                OutputFormat::from_extension_chars(&seg)
            }
        },
        None => None,
    }
}

} // verus!
