//! Track metadata and filename synthesis: placeholder substitution over a
//! user template, optional feature-tag stripping, optional cleanup filtering,
//! path legalization, and the extension suffix.

use vstd::prelude::*;
use crate::format::{AudioEncoding, OutputFormat, spec_ends_with, spec_extension,
    template_carries_extension};
use crate::resolve::{encode_base62, spec_b62_value, spec_parse_id};
use crate::text::{chars_of, string_of, append_chars, check_match_at, matches_at, contains_seq,
    has_char, last_occurrence, lemma_last_occurrence, rfind_char, subvec, spec_padded2,
    u32_padded2};

verus! {

/// What distinguishes a music track's metadata from a podcast episode's.
pub enum TrackDetails {
    /// A music track: the artists credited on its album.
    Track { album_artists: Vec<String> },
    /// A podcast episode: its description.
    Episode { description: String },
}

/// The metadata snapshot of one item, as the filename synthesizer, the
/// source-format selection and the encoder tagging read it. For an episode,
/// the show's name stands as the single artist and the parent title.
pub struct TrackMetadata {
    /// Display title.
    pub title: String,
    /// All artist names, in order; the first is the primary artist.
    pub artists: Vec<String>,
    /// Name of the parent album or show.
    pub parent_title: String,
    /// Ordinal position within the parent, as the catalog reports it.
    pub ordinal: u32,
    /// The item's source URI, kept in the encoded file's comment tag.
    pub uri: String,
    /// Source encodings the track is available in.
    pub encodings: Vec<AudioEncoding>,
    /// The per-kind remainder: album artists, or an episode's description.
    pub details: TrackDetails,
}

/// Options for filename synthesis, fixed once at startup and passed along.
pub struct NameOptions {
    /// Strip a single trailing feature tag from the title before
    /// substitution.
    pub strip_features: bool,
    /// A pattern whose matches are deleted from the substituted name, when it
    /// compiles.
    pub cleanup_pattern: Option<String>,
}

/// The ASCII lower-casing of one character.
pub open spec fn spec_lower(c: char) -> char {
    if 'A' as int <= c as int && c as int <= 'Z' as int {
        (c as int + 32) as char
    } else {
        c
    }
}

/// The ASCII lower-casing of a character sequence.
pub open spec fn spec_lower_seq(s: Seq<char>) -> Seq<char> {
    s.map_values(|c: char| spec_lower(c))
}

fn lower_char(c: char) -> (r: char)
    ensures
        r == spec_lower(c),
{
    let u = c as u32;
    if u >= 65 && u <= 90 {
        ((u + 32) as u8) as char
    } else {
        c
    }
}

fn lower_chars(v: &Vec<char>) -> (r: Vec<char>)
    ensures
        r@ == spec_lower_seq(v@),
{
    let mut r: Vec<char> = Vec::new();
    let n = v.len();
    for i in 0..n
        invariant
            n == v@.len(),
            r@ =~= spec_lower_seq(v@).subrange(0, i as int),
    {
        r.push(lower_char(v[i]));
        proof {
            assert(r@ =~= spec_lower_seq(v@).subrange(0, i + 1));
        }
    }
    proof {
        assert(r@ =~= spec_lower_seq(v@));
    }
    r
}

/// The characters that are illegal in a file name.
pub open spec fn is_illegal_char(c: char) -> bool {
    c == '/' || c == '\\' || c == ':' || c == '*' || c == '?' || c == '"' || c == '<' || c == '>'
        || c == '|'
}

/// Replacing every illegal character by `_`.
pub open spec fn spec_legalize(s: Seq<char>) -> Seq<char> {
    s.map_values(
        |c: char|
            if is_illegal_char(c) {
                '_'
            } else {
                c
            },
    )
}

fn illegal_char(c: char) -> (r: bool)
    ensures
        r == is_illegal_char(c),
{
    c == '/' || c == '\\' || c == ':' || c == '*' || c == '?' || c == '"' || c == '<' || c == '>'
        || c == '|'
}

fn legalize_chars(v: &Vec<char>) -> (r: Vec<char>)
    ensures
        r@ == spec_legalize(v@),
{
    let mut r: Vec<char> = Vec::new();
    let n = v.len();
    for i in 0..n
        invariant
            n == v@.len(),
            r@ =~= spec_legalize(v@).subrange(0, i as int),
    {
        if illegal_char(v[i]) {
            r.push('_');
        } else {
            r.push(v[i]);
        }
        proof {
            assert(r@ =~= spec_legalize(v@).subrange(0, i + 1));
        }
    }
    proof {
        assert(r@ =~= spec_legalize(v@));
    }
    r
}

/// Replaces every character illegal in a path (on Windows or Linux) by `_`.
pub fn legalize_name(name: &str) -> (r: String)
    ensures
        r@ == spec_legalize(name@),
{
    let v = chars_of(name);
    let l = legalize_chars(&v);
    string_of(&l)
}

/// A string with its trailing spaces removed.
pub open spec fn spec_trim_end(s: Seq<char>) -> Seq<char>
    decreases s.len(),
{
    if s.len() > 0 && s.last() == ' ' {
        spec_trim_end(s.drop_last())
    } else {
        s
    }
}

fn trim_end(v: &Vec<char>, upto: usize) -> (r: Vec<char>)
    requires
        upto <= v@.len(),
    ensures
        r@ == spec_trim_end(v@.subrange(0, upto as int)),
{
    let mut j = upto;
    while j > 0 && v[j - 1] == ' '
        invariant
            0 <= j <= upto <= v@.len(),
            spec_trim_end(v@.subrange(0, upto as int)) == spec_trim_end(v@.subrange(0, j as int)),
        decreases j,
    {
        proof {
            assert(v@.subrange(0, j as int).drop_last() =~= v@.subrange(0, j - 1));
        }
        j = j - 1;
    }
    let r = subvec(v, 0, j);
    proof {
        if j > 0 {
            assert(v@.subrange(0, j as int).last() == v@[j - 1]);
        }
    }
    r
}

/// The three feature markers, lower-cased: what may open a trailing
/// parenthetical that the title strip removes.
pub open spec fn marker_feat() -> Seq<char> {
    seq!['f', 'e', 'a', 't', '.']
}

pub open spec fn marker_ft() -> Seq<char> {
    seq!['f', 't', '.']
}

pub open spec fn marker_with() -> Seq<char> {
    seq!['w', 'i', 't', 'h', ' ']
}

/// True when a feature marker follows the opening parenthesis at `o`,
/// compared case-insensitively.
pub open spec fn spec_marker_at(t: Seq<char>, o: int) -> bool {
    ||| matches_at(spec_lower_seq(t), o + 1, marker_feat())
    ||| matches_at(spec_lower_seq(t), o + 1, marker_ft())
    ||| matches_at(spec_lower_seq(t), o + 1, marker_with())
}

/// Stripping a single trailing feature tag: when the title ends with a
/// parenthetical whose opening parenthesis (the last one in the title) is
/// followed by `feat.`, `ft.` or `with ` (case-insensitive), the
/// parenthetical and the spaces before it are removed; otherwise the title is
/// unchanged.
pub open spec fn spec_strip_feature(t: Seq<char>) -> Seq<char> {
    if t.len() > 0 && t.last() == ')' && has_char(t, '(') && spec_marker_at(
        t,
        last_occurrence(t, '('),
    ) {
        spec_trim_end(t.subrange(0, last_occurrence(t, '(')))
    } else {
        t
    }
}

fn marker_feat_chars() -> (r: Vec<char>)
    ensures
        r@ == marker_feat(),
{
    let mut v: Vec<char> = Vec::new();
    v.push('f');
    v.push('e');
    v.push('a');
    v.push('t');
    v.push('.');
    proof {
        assert(v@ =~= marker_feat());
    }
    v
}

fn marker_ft_chars() -> (r: Vec<char>)
    ensures
        r@ == marker_ft(),
{
    let mut v: Vec<char> = Vec::new();
    v.push('f');
    v.push('t');
    v.push('.');
    proof {
        assert(v@ =~= marker_ft());
    }
    v
}

fn marker_with_chars() -> (r: Vec<char>)
    ensures
        r@ == marker_with(),
{
    let mut v: Vec<char> = Vec::new();
    v.push('w');
    v.push('i');
    v.push('t');
    v.push('h');
    v.push(' ');
    proof {
        assert(v@ =~= marker_with());
    }
    v
}

/// Strips a single trailing feature tag off the title, as
/// `spec_strip_feature` describes.
pub fn strip_feature_tag(title: &Vec<char>) -> (r: Vec<char>)
    ensures
        r@ == spec_strip_feature(title@),
{
    let n = title.len();
    if n == 0 {
        return subvec(title, 0, n);
    }
    if title[n - 1] != ')' {
        return subvec(title, 0, n);
    }
    match rfind_char(title, '(') {
        Some(o) => {
            proof {
                assert(has_char(title@, '('));
                lemma_last_occurrence(title@, '(');
                assert(last_occurrence(title@, '(') == o as int);
            }
            let low = lower_chars(title);
            let is_marker = check_match_at(&low, o + 1, &marker_feat_chars()) || check_match_at(
                &low,
                o + 1,
                &marker_ft_chars(),
            ) || check_match_at(&low, o + 1, &marker_with_chars());
            if is_marker {
                trim_end(title, o)
            } else {
                subvec(title, 0, n)
            }
        },
        None => {
            proof {
                assert(!has_char(title@, '('));
            }
            subvec(title, 0, n)
        },
    }
}

/// Joining parts with a separator between consecutive parts.
pub open spec fn spec_join(parts: Seq<Seq<char>>, sep: Seq<char>) -> Seq<char>
    decreases parts.len(),
{
    if parts.len() == 0 {
        Seq::empty()
    } else if parts.len() == 1 {
        parts[0]
    } else {
        parts[0] + sep + spec_join(parts.drop_first(), sep)
    }
}

proof fn lemma_join_push(parts: Seq<Seq<char>>, sep: Seq<char>, x: Seq<char>)
    ensures
        spec_join(parts.push(x), sep) == if parts.len() == 0 {
            x
        } else {
            spec_join(parts, sep) + sep + x
        },
    decreases parts.len(),
{
    if parts.len() == 0 {
        assert(parts.push(x).len() == 1);
        assert(parts.push(x)[0] == x);
    } else {
        assert(parts.push(x).drop_first() =~= parts.drop_first().push(x));
        assert(parts.push(x)[0] == parts[0]);
        lemma_join_push(parts.drop_first(), sep, x);
        if parts.len() == 1 {
            assert(parts.drop_first().len() == 0);
        } else {
            assert((parts[0] + sep + (spec_join(parts.drop_first(), sep) + sep + x)) =~= (parts[0]
                + sep + spec_join(parts.drop_first(), sep) + sep + x));
        }
    }
}

/// Joins the artist names with `", "`, as the `%A` placeholder shows them.
pub(crate) fn join_artists(artists: &Vec<String>) -> (r: Vec<char>)
    ensures
        r@ == spec_join(artists.deep_view(), seq![',', ' ']),
{
    let ghost sep = seq![',', ' '];
    let mut r: Vec<char> = Vec::new();
    let n = artists.len();
    proof {
        assert(artists.deep_view().len() == n);
        assert(artists.deep_view().subrange(0, 0) =~= Seq::<Seq<char>>::empty());
    }
    let mut i: usize = 0;
    while i < n
        invariant
            0 <= i <= n,
            n == artists@.len(),
            artists.deep_view().len() == n,
            r@ == spec_join(artists.deep_view().subrange(0, i as int), sep),
            sep == seq![',', ' '],
        decreases n - i,
    {
        let ghost pre = artists.deep_view().subrange(0, i as int);
        let ghost cur = artists.deep_view()[i as int];
        let ghost before = r@;
        if i > 0 {
            r.push(',');
            r.push(' ');
        }
        let s: &String = &artists[i];
        let a = chars_of(s.as_str());
        proof {
            assert(a@ == cur);
        }
        append_chars(&mut r, &a);
        proof {
            lemma_join_push(pre, sep, cur);
            assert(artists.deep_view().subrange(0, i + 1) =~= pre.push(cur));
            if i == 0 {
                assert(pre.len() == 0);
                assert(r@ =~= cur);
            } else {
                assert(r@ =~= spec_join(pre, sep) + sep + cur);
            }
        }
        i = i + 1;
    }
    proof {
        assert(artists.deep_view().subrange(0, n as int) =~= artists.deep_view());
    }
    r
}

/// One left-to-right pass over the template replacing the placeholders
/// `%a`, `%A`, `%t` and `%n` with the given texts. Unknown placeholders stay
/// verbatim, and substituted text is never rescanned.
pub open spec fn spec_subst(
    t: Seq<char>,
    a: Seq<char>,
    aa: Seq<char>,
    ti: Seq<char>,
    n: Seq<char>,
) -> Seq<char>
    decreases t.len(),
{
    if t.len() == 0 {
        t
    } else if t.len() >= 2 && t[0] == '%' && (t[1] == 'a' || t[1] == 'A' || t[1] == 't' || t[1]
        == 'n') {
        (if t[1] == 'a' {
            a
        } else if t[1] == 'A' {
            aa
        } else if t[1] == 't' {
            ti
        } else {
            n
        }) + spec_subst(t.subrange(2, t.len() as int), a, aa, ti, n)
    } else {
        seq![t[0]] + spec_subst(t.subrange(1, t.len() as int), a, aa, ti, n)
    }
}

fn subst_chars(t: &Vec<char>, a: &Vec<char>, aa: &Vec<char>, ti: &Vec<char>, n: &Vec<char>) -> (r:
    Vec<char>)
    ensures
        r@ == spec_subst(t@, a@, aa@, ti@, n@),
{
    let mut out: Vec<char> = Vec::new();
    let len = t.len();
    proof {
        assert(t@.subrange(0, len as int) =~= t@);
        assert(Seq::<char>::empty() + spec_subst(t@, a@, aa@, ti@, n@) =~= spec_subst(
            t@,
            a@,
            aa@,
            ti@,
            n@,
        ));
    }
    let mut i: usize = 0;
    while i < len
        invariant
            0 <= i <= len,
            len == t@.len(),
            spec_subst(t@, a@, aa@, ti@, n@) == out@ + spec_subst(
                t@.subrange(i as int, len as int),
                a@,
                aa@,
                ti@,
                n@,
            ),
        decreases len - i,
    {
        let ghost suf = t@.subrange(i as int, len as int);
        let ghost before = out@;
        if t[i] == '%' && i + 1 < len && (t[i + 1] == 'a' || t[i + 1] == 'A' || t[i + 1] == 't'
            || t[i + 1] == 'n') {
            let c = t[i + 1];
            let ghost repl = if c == 'a' {
                a@
            } else if c == 'A' {
                aa@
            } else if c == 't' {
                ti@
            } else {
                n@
            };
            if c == 'a' {
                append_chars(&mut out, a);
            } else if c == 'A' {
                append_chars(&mut out, aa);
            } else if c == 't' {
                append_chars(&mut out, ti);
            } else {
                append_chars(&mut out, n);
            }
            proof {
                assert(suf[0] == '%' && suf[1] == c);
                assert(suf.subrange(2, suf.len() as int) =~= t@.subrange(i + 2, len as int));
                assert(spec_subst(suf, a@, aa@, ti@, n@) == repl + spec_subst(
                    t@.subrange(i + 2, len as int),
                    a@,
                    aa@,
                    ti@,
                    n@,
                ));
                assert(before + (repl + spec_subst(t@.subrange(i + 2, len as int), a@, aa@, ti@, n@))
                    =~= (before + repl) + spec_subst(t@.subrange(i + 2, len as int), a@, aa@, ti@, n@));
            }
            i = i + 2;
        } else {
            out.push(t[i]);
            proof {
                assert(suf[0] == t@[i as int]);
                assert(suf.subrange(1, suf.len() as int) =~= t@.subrange(i + 1, len as int));
                assert(spec_subst(suf, a@, aa@, ti@, n@) == seq![suf[0]] + spec_subst(
                    t@.subrange(i + 1, len as int),
                    a@,
                    aa@,
                    ti@,
                    n@,
                ));
                assert(before + (seq![suf[0]] + spec_subst(t@.subrange(i + 1, len as int), a@, aa@, ti@, n@))
                    =~= (before.push(suf[0])) + spec_subst(t@.subrange(i + 1, len as int), a@, aa@, ti@, n@));
            }
            i = i + 1;
        }
    }
    proof {
        assert(t@.subrange(len as int, len as int) =~= Seq::<char>::empty());
        assert(spec_subst(Seq::<char>::empty(), a@, aa@, ti@, n@) == Seq::<char>::empty());
        assert(out@ + Seq::<char>::empty() =~= out@);
    }
    out
}

/// Whether the cleanup pattern is a valid regular expression.
pub uninterp spec fn regex_valid(pattern: Seq<char>) -> bool;

/// What deleting every match of the cleanup pattern from a text leaves.
pub uninterp spec fn cleanup_of(pattern: Seq<char>, text: Seq<char>) -> Seq<char>;

/// Relies on `regex::Regex::new` and `regex::Regex::replace_all`: compiles
/// `pattern` and deletes every match of it from `text` (replacing each match
/// with the empty string); `None` exactly when the pattern does not compile.
/// Both are functions of their text arguments alone.
#[verifier::external_body]
fn remove_matches(pattern: &str, text: &str) -> (r: Option<String>)
    ensures
        r matches Some(s) ==> s@ == cleanup_of(pattern@, text@),
        r.is_some() == regex_valid(pattern@),
{
    match regex::Regex::new(pattern) {
        Ok(re) => Some(re.replace_all(text, "").into_owned()),
        Err(_) => None,
    }
}

/// Tells whether a cleanup pattern is a valid regular expression, so that an
/// invalid one can be reported once at startup.
pub fn pattern_compiles(pattern: &str) -> (r: bool)
    ensures
        r == regex_valid(pattern@),
{
    remove_matches(pattern, "").is_some()
}

/// The synthesized file name: placeholder substitution over the template
/// (with the title optionally stripped of its feature tag first), then the
/// cleanup filter when its pattern compiles, then path legalization, then the
/// extension suffix.
pub open spec fn spec_file_name(
    template: Seq<char>,
    title: Seq<char>,
    artists: Seq<Seq<char>>,
    number: Option<u32>,
    strip: bool,
    pattern: Option<Seq<char>>,
    ext: Option<Seq<char>>,
) -> Seq<char> {
    let ti = if strip {
        spec_strip_feature(title)
    } else {
        title
    };
    let a = if artists.len() == 0 {
        Seq::<char>::empty()
    } else {
        artists[0]
    };
    let aa = spec_join(artists, seq![',', ' ']);
    let num = spec_padded2(
        (match number {
            Some(k) => k,
            None => 0u32,
        }) as nat,
    );
    let base = spec_subst(template, a, aa, ti, num);
    let cleaned = match pattern {
        Some(p) => if regex_valid(p) {
            cleanup_of(p, base)
        } else {
            base
        },
        None => base,
    };
    let legal = spec_legalize(cleaned);
    match ext {
        Some(e) => legal + seq!['.'] + e,
        None => legal,
    }
}

/// Synthesizes the output file name for a track from the naming template:
/// `%a` is the primary artist (empty when there is none), `%A` all artists
/// joined by `", "`, `%t` the display title, `%n` the track number
/// zero-padded to two digits (`00` when absent); unknown placeholders stay
/// verbatim. The name is then filtered by the cleanup pattern (when one is
/// set and compiles), legalized, and suffixed with `.` and the extension
/// (when one is given).
pub fn get_file_name(
    meta: &TrackMetadata,
    opts: &NameOptions,
    template: &str,
    track_number: Option<u32>,
    extension: Option<&str>,
) -> (r: String)
    ensures
        r@ == spec_file_name(
            template@,
            meta.title@,
            meta.artists.deep_view(),
            track_number,
            opts.strip_features,
            match opts.cleanup_pattern {
                Some(p) => Some(p@),
                None => None::<Seq<char>>,
            },
            match extension {
                Some(e) => Some(e@),
                None => None::<Seq<char>>,
            },
        ),
{
    let t = chars_of(template);
    let title = chars_of(meta.title.as_str());
    let ti = if opts.strip_features {
        strip_feature_tag(&title)
    } else {
        title
    };
    let a: Vec<char> = if meta.artists.len() == 0 {
        Vec::new()
    } else {
        let s: &String = &meta.artists[0];
        let av = chars_of(s.as_str());
        proof {
            assert(av@ == meta.artists.deep_view()[0]);
        }
        av
    };
    let aa = join_artists(&meta.artists);
    let num = u32_padded2(
        match track_number {
            Some(k) => k,
            None => 0,
        },
    );
    let base = subst_chars(&t, &a, &aa, &ti, &num);
    let cleaned: Vec<char> = match &opts.cleanup_pattern {
        Some(p) => {
            let base_s = string_of(&base);
            match remove_matches(p.as_str(), base_s.as_str()) {
                Some(s) => chars_of(s.as_str()),
                None => base,
            }
        },
        None => base,
    };
    let legal = legalize_chars(&cleaned);
    let mut outv = legal;
    match extension {
        Some(e) => {
            outv.push('.');
            let ev = chars_of(e);
            append_chars(&mut outv, &ev);
            proof {
                assert(outv@ =~= spec_legalize(cleaned@) + seq!['.'] + ev@);
            }
        },
        None => {},
    }
    string_of(&outv)
}

proof fn lemma_subst_index_independent(
    t: Seq<char>,
    a: Seq<char>,
    aa: Seq<char>,
    ti: Seq<char>,
    n1: Seq<char>,
    n2: Seq<char>,
)
    requires
        !contains_seq(t, seq!['%', 'n']),
    ensures
        spec_subst(t, a, aa, ti, n1) == spec_subst(t, a, aa, ti, n2),
    decreases t.len(),
{
    let pat = seq!['%', 'n'];
    if t.len() == 0 {
    } else if t.len() >= 2 && t[0] == '%' && (t[1] == 'a' || t[1] == 'A' || t[1] == 't' || t[1]
        == 'n') {
        if t[1] == 'n' {
            assert(t.subrange(0, 2) =~= pat);
            assert(matches_at(t, 0, pat));
            assert(false);
        }
        let suf = t.subrange(2, t.len() as int);
        assert(!contains_seq(suf, pat)) by {
            if contains_seq(suf, pat) {
                let j = choose|j: int| matches_at(suf, j, pat);
                assert(t.subrange(j + 2, j + 4) =~= suf.subrange(j, j + 2));
                assert(matches_at(t, j + 2, pat));
            }
        }
        lemma_subst_index_independent(suf, a, aa, ti, n1, n2);
    } else {
        let suf = t.subrange(1, t.len() as int);
        assert(!contains_seq(suf, pat)) by {
            if contains_seq(suf, pat) {
                let j = choose|j: int| matches_at(suf, j, pat);
                assert(t.subrange(j + 1, j + 3) =~= suf.subrange(j, j + 2));
                assert(matches_at(t, j + 1, pat));
            }
        }
        lemma_subst_index_independent(suf, a, aa, ti, n1, n2);
    }
}

/// A template without the `%n` placeholder yields the same name for every
/// track index: synthesis is index-independent.
pub proof fn lemma_index_independence(
    template: Seq<char>,
    title: Seq<char>,
    artists: Seq<Seq<char>>,
    idx1: Option<u32>,
    idx2: Option<u32>,
    strip: bool,
    pattern: Option<Seq<char>>,
    ext: Option<Seq<char>>,
)
    requires
        !contains_seq(template, seq!['%', 'n']),
    ensures
        spec_file_name(template, title, artists, idx1, strip, pattern, ext) == spec_file_name(
            template,
            title,
            artists,
            idx2,
            strip,
            pattern,
            ext,
        ),
{
    let ti = if strip {
        spec_strip_feature(title)
    } else {
        title
    };
    let a = if artists.len() == 0 {
        Seq::<char>::empty()
    } else {
        artists[0]
    };
    let aa = spec_join(artists, seq![',', ' ']);
    let num1 = spec_padded2(
        (match idx1 {
            Some(k) => k,
            None => 0u32,
        }) as nat,
    );
    let num2 = spec_padded2(
        (match idx2 {
            Some(k) => k,
            None => 0u32,
        }) as nat,
    );
    lemma_subst_index_independent(template, a, aa, ti, num1, num2);
}

/// Every character of the legalized part of a name is legal.
proof fn lemma_legalize_legal(s: Seq<char>)
    ensures
        forall|i: int| 0 <= i < spec_legalize(s).len() ==> !is_illegal_char(#[trigger] spec_legalize(s)[i]),
{
    assert forall|i: int| 0 <= i < spec_legalize(s).len() implies !is_illegal_char(
        spec_legalize(s)[i],
    ) by {
        assert(spec_legalize(s)[i] == if is_illegal_char(s[i]) {
            '_'
        } else {
            s[i]
        });
    }
}

/// The synthesized name contains none of the path-illegal characters,
/// provided the extension handed in contains none (as every
/// `OutputFormat` extension does).
pub proof fn lemma_name_legal(
    template: Seq<char>,
    title: Seq<char>,
    artists: Seq<Seq<char>>,
    number: Option<u32>,
    strip: bool,
    pattern: Option<Seq<char>>,
    ext: Option<Seq<char>>,
)
    requires
        ext matches Some(e) ==> forall|i: int| 0 <= i < e.len() ==> !is_illegal_char(#[trigger] e[i]),
    ensures
        forall|i: int|
            0 <= i < spec_file_name(template, title, artists, number, strip, pattern, ext).len()
                ==> !is_illegal_char(
                #[trigger] spec_file_name(template, title, artists, number, strip, pattern, ext)[i],
            ),
{
    let name = spec_file_name(template, title, artists, number, strip, pattern, ext);
    let ti = if strip {
        spec_strip_feature(title)
    } else {
        title
    };
    let a = if artists.len() == 0 {
        Seq::<char>::empty()
    } else {
        artists[0]
    };
    let aa = spec_join(artists, seq![',', ' ']);
    let num = spec_padded2(
        (match number {
            Some(k) => k,
            None => 0u32,
        }) as nat,
    );
    let base = spec_subst(template, a, aa, ti, num);
    let cleaned = match pattern {
        Some(p) => if regex_valid(p) {
            cleanup_of(p, base)
        } else {
            base
        },
        None => base,
    };
    let legal = spec_legalize(cleaned);
    lemma_legalize_legal(cleaned);
    assert(!is_illegal_char('.'));
    match ext {
        Some(e) => {
            assert(name == legal + seq!['.'] + e);
            assert forall|i: int| 0 <= i < name.len() implies !is_illegal_char(name[i]) by {
                if i < legal.len() {
                    assert(name[i] == legal[i]);
                } else if i == legal.len() {
                    assert(name[i] == '.');
                } else {
                    assert(name[i] == e[i - legal.len() - 1]);
                }
            }
        },
        None => {
            assert(name == legal);
            assert forall|i: int| 0 <= i < name.len() implies !is_illegal_char(name[i]) by {
                assert(name[i] == legal[i]);
            }
        },
    }
}

/// The fixed extension of every output format is made of legal characters,
/// so names synthesized with it fall under `lemma_name_legal`.
pub proof fn lemma_extension_legal(f: crate::format::OutputFormat)
    ensures
        forall|i: int|
            0 <= i < crate::format::spec_extension(f).len() ==> !is_illegal_char(
                #[trigger] crate::format::spec_extension(f)[i],
            ),
{
    assert forall|i: int| 0 <= i < crate::format::spec_extension(f).len() implies !is_illegal_char(
        crate::format::spec_extension(f)[i],
    ) by {
        let e = crate::format::spec_extension(f);
        assert(!is_illegal_char(e[i])) by {
            if i == 0 {
            } else if i == 1 {
            } else if i == 2 {
            } else {
                assert(i == 3);
            }
        }
    }
}

/// A base62 digit is never a path-illegal character.
proof fn lemma_b62_digit_legal(c: char)
    requires
        spec_b62_value(c) >= 0,
    ensures
        !is_illegal_char(c),
{
}

/// The file name of an entry whose display name was frozen: the name
/// overrides template synthesis entirely, but is still legalized before the
/// extension is appended.
pub fn frozen_file_name(name: &str, extension: &str) -> (r: String)
    ensures
        r@ == spec_legalize(name@) + seq!['.'] + extension@,
{
    let v = chars_of(name);
    let mut out = legalize_chars(&v);
    out.push('.');
    let e = chars_of(extension);
    append_chars(&mut out, &e);
    proof {
        assert(out@ =~= spec_legalize(name@) + seq!['.'] + extension@);
    }
    string_of(&out)
}

/// The id-based fallback name used when a track's metadata cannot be
/// fetched: the bare base62 identifier followed by `.` and the extension.
/// The identifier part parses back to the id, and — the digits being
/// letters and numbers — the name up to the extension is already legal.
pub fn fallback_file_name(id: u128, extension: &str) -> (r: String)
    ensures
        r@.len() == 23 + extension@.len(),
        spec_parse_id(r@.subrange(0, 22)) == Some(id),
        r@[22] == '.',
        r@.subrange(23, r@.len() as int) == extension@,
        forall|i: int| 0 <= i < 23 ==> !is_illegal_char(#[trigger] r@[i]),
{
    let mut out = encode_base62(id);
    let ghost idv = out@;
    out.push('.');
    let e = chars_of(extension);
    append_chars(&mut out, &e);
    proof {
        assert(out@.subrange(0, 22) =~= idv);
        assert(out@.subrange(23, out@.len() as int) =~= e@);
        assert forall|i: int| 0 <= i < 23 implies !is_illegal_char(out@[i]) by {
            if i < 22 {
                lemma_b62_digit_legal(out@[i]);
            }
        }
    }
    string_of(&out)
}

/// The output file name of one attempt, under the metadata policy of a
/// failed fetch being non-fatal: with a metadata snapshot, the template is
/// synthesized (the extension left off when the template already ends in
/// it); without one, the name falls back to the bare identifier plus the
/// format's extension, and the download still proceeds.
pub fn resolved_file_name(
    meta: &Option<TrackMetadata>,
    opts: &NameOptions,
    template: &str,
    track_number: Option<u32>,
    id: u128,
    format: OutputFormat,
) -> (r: String)
    ensures
        meta matches Some(m) ==> r@ == spec_file_name(
            template@,
            m.title@,
            m.artists.deep_view(),
            track_number,
            opts.strip_features,
            match opts.cleanup_pattern {
                Some(p) => Some(p@),
                None => None::<Seq<char>>,
            },
            if spec_ends_with(template@, seq!['.'] + spec_extension(format)) {
                None
            } else {
                Some(spec_extension(format))
            },
        ),
        meta is None ==> {
            &&& r@.len() == 23 + spec_extension(format).len()
            &&& spec_parse_id(r@.subrange(0, 22)) == Some(id)
            &&& r@[22] == '.'
            &&& r@.subrange(23, r@.len() as int) == spec_extension(format)
        },
{
    match meta {
        Some(m) => {
            let ext = if template_carries_extension(template, format) {
                None
            } else {
                Some(format.extension())
            };
            get_file_name(m, opts, template, track_number, ext)
        },
        None => fallback_file_name(id, format.extension()),
    }
}

} // verus!
