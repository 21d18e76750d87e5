//! Saved playlists: an ordered track list with a title, written to and read
//! back from a human-editable document.
//!
//! The document has a fixed shape: a `title` line, then a `tracks` list with
//! one entry per line, each either a quoted identifier or an inline object
//! `{ id = "...", name = "..." }` (the name being optional). Strings are
//! quoted, with `"`, `\`, newline, carriage return and tab escaped.
//! Serialization and parsing invert one another exactly.

use vstd::prelude::*;
use crate::text::{chars_of, string_of, matches_at, check_match_at};
use crate::resolve::{CatalogReference, InvalidReference, resolve_reference, spec_resolve};

verus! {

/// One saved entry: a bare identifier, or an object carrying an identifier
/// and an optional frozen display name that overrides template naming.
pub enum SavedTrack {
    Id(String),
    Object { id: String, name: Option<String> },
}

/// The mathematical shape of a saved entry.
pub ghost enum SavedTrackV {
    Id(Seq<char>),
    Object { id: Seq<char>, name: Option<Seq<char>> },
}

impl DeepView for SavedTrack {
    type V = SavedTrackV;

    open spec fn deep_view(&self) -> SavedTrackV {
        self.view()
    }
}

impl View for SavedTrack {
    type V = SavedTrackV;

    open spec fn view(&self) -> SavedTrackV {
        match self {
            SavedTrack::Id(s) => SavedTrackV::Id(s@),
            SavedTrack::Object { id, name } => SavedTrackV::Object {
                id: id@,
                name: match name {
                    Some(n) => Some(n@),
                    None => None,
                },
            },
        }
    }
}

impl SavedTrack {
    /// The catalog reference this entry names; the stored identifier may be
    /// any reference form the resolver accepts.
    pub fn id(&self) -> (r: Result<CatalogReference, InvalidReference>)
        ensures
            match r {
                Ok(cr) => spec_resolve(self.spec_id()) == Ok::<CatalogReference, Seq<char>>(cr),
                Err(e) => spec_resolve(self.spec_id()) == Err::<CatalogReference, Seq<char>>(
                    e.offending@,
                ),
            },
    {
        match self {
            SavedTrack::Id(id) => resolve_reference(id.as_str()),
            SavedTrack::Object { id, .. } => resolve_reference(id.as_str()),
        }
    }

    /// The identifier string stored in this entry.
    pub open spec fn spec_id(&self) -> Seq<char> {
        match self@ {
            SavedTrackV::Id(id) => id,
            SavedTrackV::Object { id, .. } => id,
        }
    }

    /// The frozen display name, when this entry carries one.
    pub fn name(&self) -> (r: Option<&str>)
        ensures
            match self@ {
                SavedTrackV::Id(_) => r is None,
                SavedTrackV::Object { name, .. } => match name {
                    Some(nm) => r matches Some(s) && s@ == nm,
                    None => r is None,
                },
            },
    {
        match self {
            SavedTrack::Id(_) => None,
            SavedTrack::Object { name, .. } => match name {
                Some(n) => Some(n.as_str()),
                None => None,
            },
        }
    }
}

/// A saved playlist: a title and an ordered list of entries.
pub struct SavedPlaylist {
    pub title: String,
    pub tracks: Vec<SavedTrack>,
}

/// The mathematical shape of a saved playlist.
pub ghost struct SavedPlaylistV {
    pub title: Seq<char>,
    pub tracks: Seq<SavedTrackV>,
}

impl View for SavedPlaylist {
    type V = SavedPlaylistV;

    open spec fn view(&self) -> SavedPlaylistV {
        SavedPlaylistV { title: self.title@, tracks: self.tracks.deep_view() }
    }
}

/// The escape sequence a character is written as inside quotes.
pub open spec fn esc_char(c: char) -> Seq<char> {
    if c == '"' {
        seq!['\\', '"']
    } else if c == '\\' {
        seq!['\\', '\\']
    } else if c == '\n' {
        seq!['\\', 'n']
    } else if c == '\r' {
        seq!['\\', 'r']
    } else if c == '\t' {
        seq!['\\', 't']
    } else {
        seq![c]
    }
}

/// The character an escape letter stands for, if it is a known escape.
pub open spec fn unesc_char(c: char) -> Option<char> {
    if c == '"' {
        Some('"')
    } else if c == '\\' {
        Some('\\')
    } else if c == 'n' {
        Some('\n')
    } else if c == 'r' {
        Some('\r')
    } else if c == 't' {
        Some('\t')
    } else {
        None
    }
}

/// A string with every quote-breaking character escaped.
pub open spec fn esc(s: Seq<char>) -> Seq<char>
    decreases s.len(),
{
    if s.len() == 0 {
        Seq::empty()
    } else {
        esc_char(s[0]) + esc(s.drop_first())
    }
}

/// Escaping distributes over concatenation.
proof fn lemma_esc_concat(s1: Seq<char>, s2: Seq<char>)
    ensures
        esc(s1 + s2) == esc(s1) + esc(s2),
    decreases s1.len(),
{
    if s1.len() == 0 {
        assert(s1 + s2 =~= s2);
        assert(esc(s1) + esc(s2) =~= esc(s2));
    } else {
        assert((s1 + s2).drop_first() =~= s1.drop_first() + s2);
        assert((s1 + s2)[0] == s1[0]);
        lemma_esc_concat(s1.drop_first(), s2);
        assert(esc_char(s1[0]) + (esc(s1.drop_first()) + esc(s2)) =~= (esc_char(s1[0]) + esc(
            s1.drop_first(),
        )) + esc(s2));
    }
}

fn esc_push(out: &mut Vec<char>, c: char)
    ensures
        final(out)@ == old(out)@ + esc_char(c),
{
    if c == '"' {
        out.push('\\');
        out.push('"');
    } else if c == '\\' {
        out.push('\\');
        out.push('\\');
    } else if c == '\n' {
        out.push('\\');
        out.push('n');
    } else if c == '\r' {
        out.push('\\');
        out.push('r');
    } else if c == '\t' {
        out.push('\\');
        out.push('t');
    } else {
        out.push(c);
    }
    proof {
        assert(out@ =~= old(out)@ + esc_char(c));
    }
}

/// Appends `"` + the escaped string + `"`.
fn append_quoted(out: &mut Vec<char>, s: &Vec<char>)
    ensures
        final(out)@ == old(out)@ + seq!['"'] + esc(s@) + seq!['"'],
{
    out.push('"');
    let n = s.len();
    let ghost mid = out@;
    let mut i: usize = 0;
    while i < n
        invariant
            0 <= i <= n,
            n == s@.len(),
            out@ == mid + esc(s@.subrange(0, i as int)),
        decreases n - i,
    {
        let ghost pre = s@.subrange(0, i as int);
        esc_push(out, s[i]);
        proof {
            assert(s@.subrange(0, i + 1) =~= pre + seq![s@[i as int]]);
            lemma_esc_concat(pre, seq![s@[i as int]]);
            assert(esc(seq![s@[i as int]]) == esc_char(s@[i as int]) + esc(
                seq![s@[i as int]].drop_first(),
            ));
            assert(seq![s@[i as int]].drop_first() =~= Seq::<char>::empty());
            assert(esc(Seq::<char>::empty()) =~= Seq::<char>::empty());
            assert(esc_char(s@[i as int]) + Seq::<char>::empty() =~= esc_char(s@[i as int]));
            assert(out@ =~= mid + esc(s@.subrange(0, i + 1)));
        }
        i = i + 1;
    }
    proof {
        assert(s@.subrange(0, n as int) =~= s@);
    }
    out.push('"');
    proof {
        assert(out@ =~= old(out)@ + seq!['"'] + esc(s@) + seq!['"']);
    }
}

/// Reads a quoted-string body: the content up to the first unescaped `"`,
/// and what follows that quote. `None` when the quote never closes or an
/// unknown escape appears.
pub open spec fn parse_quoted_body(s: Seq<char>) -> Option<(Seq<char>, Seq<char>)>
    decreases s.len(),
{
    if s.len() == 0 {
        None
    } else if s[0] == '"' {
        Some((Seq::empty(), s.drop_first()))
    } else if s[0] == '\\' {
        if s.len() < 2 {
            None
        } else {
            match unesc_char(s[1]) {
                Some(c) => match parse_quoted_body(s.subrange(2, s.len() as int)) {
                    Some(p) => Some((seq![c] + p.0, p.1)),
                    None => None,
                },
                None => None,
            }
        }
    } else {
        match parse_quoted_body(s.drop_first()) {
            Some(p) => Some((seq![s[0]] + p.0, p.1)),
            None => None,
        }
    }
}

/// Parsing consumes at least the closing quote.
proof fn lemma_parse_quoted_len(s: Seq<char>)
    ensures
        parse_quoted_body(s) matches Some(p) ==> p.1.len() < s.len(),
    decreases s.len(),
{
    if s.len() == 0 {
    } else if s[0] == '"' {
    } else if s[0] == '\\' {
        if s.len() >= 2 {
            lemma_parse_quoted_len(s.subrange(2, s.len() as int));
        }
    } else {
        lemma_parse_quoted_len(s.drop_first());
    }
}

/// Parsing a quoted body undoes escaping: the escaped text, a closing quote
/// and a tail parse back to the text and the tail.
proof fn lemma_parse_quoted_esc(t: Seq<char>, tail: Seq<char>)
    ensures
        parse_quoted_body(esc(t) + seq!['"'] + tail) == Some((t, tail)),
    decreases t.len(),
{
    let s = esc(t) + seq!['"'] + tail;
    if t.len() == 0 {
        assert(esc(t) =~= Seq::<char>::empty());
        assert(s =~= seq!['"'] + tail);
        assert(s[0] == '"');
        assert(s.drop_first() =~= tail);
    } else {
        let c = t[0];
        let rest = t.drop_first();
        lemma_parse_quoted_esc(rest, tail);
        assert(esc(t) == esc_char(c) + esc(rest));
        if c == '"' || c == '\\' || c == '\n' || c == '\r' || c == '\t' {
            assert(esc_char(c).len() == 2);
            assert(esc_char(c)[0] == '\\');
            assert(s[0] == '\\');
            assert(s[1] == esc_char(c)[1]);
            assert(unesc_char(esc_char(c)[1]) == Some(c));
            assert(s.subrange(2, s.len() as int) =~= esc(rest) + seq!['"'] + tail);
            assert(seq![c] + rest =~= t);
        } else {
            assert(esc_char(c) =~= seq![c]);
            assert(s[0] == c);
            assert(c != '"' && c != '\\');
            assert(s.drop_first() =~= esc(rest) + seq!['"'] + tail);
            assert(seq![c] + rest =~= t);
        }
    }
}

/// `title = `, opening the title line.
pub open spec fn lit_title_eq() -> Seq<char> {
    seq!['t', 'i', 't', 'l', 'e', ' ', '=', ' ']
}

/// Newline and `tracks = [` line, between the title and the entries.
pub open spec fn lit_after_title() -> Seq<char> {
    seq!['\n', 't', 'r', 'a', 'c', 'k', 's', ' ', '=', ' ', '[', '\n']
}

/// The indentation of an entry line.
pub open spec fn lit_indent() -> Seq<char> {
    seq![' ', ' ', ' ', ' ']
}

/// Indentation and `{ id = `, opening an object entry.
pub open spec fn lit_obj_open() -> Seq<char> {
    seq![' ', ' ', ' ', ' ', '{', ' ', 'i', 'd', ' ', '=', ' ']
}

/// `, name = `, between an object's identifier and its name.
pub open spec fn lit_name_mid() -> Seq<char> {
    seq![',', ' ', 'n', 'a', 'm', 'e', ' ', '=', ' ']
}

/// ` },` and newline, closing an object entry.
pub open spec fn lit_obj_close() -> Seq<char> {
    seq![' ', '}', ',', '\n']
}

/// `,` and newline, closing a bare entry.
pub open spec fn lit_entry_end() -> Seq<char> {
    seq![',', '\n']
}

/// `]` and newline, closing the entry list.
pub open spec fn lit_end() -> Seq<char> {
    seq![']', '\n']
}

fn push_title_eq(out: &mut Vec<char>)
    ensures
        final(out)@ == old(out)@ + lit_title_eq(),
{
    out.push('t');
    out.push('i');
    out.push('t');
    out.push('l');
    out.push('e');
    out.push(' ');
    out.push('=');
    out.push(' ');
    proof {
        assert(out@ =~= old(out)@ + lit_title_eq());
    }
}

fn push_after_title(out: &mut Vec<char>)
    ensures
        final(out)@ == old(out)@ + lit_after_title(),
{
    out.push('\n');
    out.push('t');
    out.push('r');
    out.push('a');
    out.push('c');
    out.push('k');
    out.push('s');
    out.push(' ');
    out.push('=');
    out.push(' ');
    out.push('[');
    out.push('\n');
    proof {
        assert(out@ =~= old(out)@ + lit_after_title());
    }
}

fn push_indent(out: &mut Vec<char>)
    ensures
        final(out)@ == old(out)@ + lit_indent(),
{
    out.push(' ');
    out.push(' ');
    out.push(' ');
    out.push(' ');
    proof {
        assert(out@ =~= old(out)@ + lit_indent());
    }
}

fn push_obj_open(out: &mut Vec<char>)
    ensures
        final(out)@ == old(out)@ + lit_obj_open(),
{
    out.push(' ');
    out.push(' ');
    out.push(' ');
    out.push(' ');
    out.push('{');
    out.push(' ');
    out.push('i');
    out.push('d');
    out.push(' ');
    out.push('=');
    out.push(' ');
    proof {
        assert(out@ =~= old(out)@ + lit_obj_open());
    }
}

fn push_name_mid(out: &mut Vec<char>)
    ensures
        final(out)@ == old(out)@ + lit_name_mid(),
{
    out.push(',');
    out.push(' ');
    out.push('n');
    out.push('a');
    out.push('m');
    out.push('e');
    out.push(' ');
    out.push('=');
    out.push(' ');
    proof {
        assert(out@ =~= old(out)@ + lit_name_mid());
    }
}

fn push_obj_close(out: &mut Vec<char>)
    ensures
        final(out)@ == old(out)@ + lit_obj_close(),
{
    out.push(' ');
    out.push('}');
    out.push(',');
    out.push('\n');
    proof {
        assert(out@ =~= old(out)@ + lit_obj_close());
    }
}

fn push_entry_end(out: &mut Vec<char>)
    ensures
        final(out)@ == old(out)@ + lit_entry_end(),
{
    out.push(',');
    out.push('\n');
    proof {
        assert(out@ =~= old(out)@ + lit_entry_end());
    }
}

fn push_end(out: &mut Vec<char>)
    ensures
        final(out)@ == old(out)@ + lit_end(),
{
    out.push(']');
    out.push('\n');
    proof {
        assert(out@ =~= old(out)@ + lit_end());
    }
}

/// A quoted, escaped string.
pub open spec fn quoted(s: Seq<char>) -> Seq<char> {
    seq!['"'] + esc(s) + seq!['"']
}

/// The line one entry serializes to.
pub open spec fn entry_line(e: SavedTrackV) -> Seq<char> {
    match e {
        SavedTrackV::Id(id) => lit_indent() + quoted(id) + lit_entry_end(),
        SavedTrackV::Object { id, name: None } => lit_obj_open() + quoted(id) + lit_obj_close(),
        SavedTrackV::Object { id, name: Some(nm) } => lit_obj_open() + quoted(id) + lit_name_mid()
            + quoted(nm) + lit_obj_close(),
    }
}

/// The lines an entry list serializes to.
pub open spec fn entries_text(ts: Seq<SavedTrackV>) -> Seq<char>
    decreases ts.len(),
{
    if ts.len() == 0 {
        Seq::empty()
    } else {
        entry_line(ts[0]) + entries_text(ts.drop_first())
    }
}

/// The whole document a playlist serializes to.
pub open spec fn spec_serialize(p: SavedPlaylistV) -> Seq<char> {
    lit_title_eq() + quoted(p.title) + lit_after_title() + entries_text(p.tracks) + lit_end()
}

/// Serialized entry lists concatenate.
proof fn lemma_entries_text_push(ts: Seq<SavedTrackV>, e: SavedTrackV)
    ensures
        entries_text(ts.push(e)) == entries_text(ts) + entry_line(e),
    decreases ts.len(),
{
    if ts.len() == 0 {
        assert(ts.push(e)[0] == e);
        assert(ts.push(e).drop_first() =~= Seq::<SavedTrackV>::empty());
        assert(entries_text(Seq::<SavedTrackV>::empty()) =~= Seq::<char>::empty());
        assert(entry_line(e) + Seq::<char>::empty() =~= entry_line(e));
        assert(entries_text(ts.push(e)) =~= entry_line(e));
        assert(entries_text(ts) + entry_line(e) =~= entry_line(e));
    } else {
        assert(ts.push(e).drop_first() =~= ts.drop_first().push(e));
        assert(ts.push(e)[0] == ts[0]);
        lemma_entries_text_push(ts.drop_first(), e);
        assert(entry_line(ts[0]) + (entries_text(ts.drop_first()) + entry_line(e)) =~= (entry_line(
            ts[0],
        ) + entries_text(ts.drop_first())) + entry_line(e));
    }
}

impl SavedPlaylist {
    /// Writes the playlist as its document text.
    pub fn serialize(&self) -> (r: String)
        ensures
            r@ == spec_serialize(self@),
    {
        let mut out: Vec<char> = Vec::new();
        push_title_eq(&mut out);
        let tv = chars_of(self.title.as_str());
        append_quoted(&mut out, &tv);
        push_after_title(&mut out);
        proof {
            assert(out@ =~= lit_title_eq() + quoted(self@.title) + lit_after_title());
            assert(self.tracks.deep_view().subrange(0, 0) =~= Seq::<SavedTrackV>::empty());
        }
        let ghost head = out@;
        let n = self.tracks.len();
        let mut i: usize = 0;
        while i < n
            invariant
                0 <= i <= n,
                n == self.tracks@.len(),
                self.tracks.deep_view().len() == n,
                out@ == head + entries_text(self.tracks.deep_view().subrange(0, i as int)),
                head == lit_title_eq() + quoted(self@.title) + lit_after_title(),
            decreases n - i,
        {
            let ghost pre = self.tracks.deep_view().subrange(0, i as int);
            let ghost cur = self.tracks.deep_view()[i as int];
            let ghost before = out@;
            match &self.tracks[i] {
                SavedTrack::Id(id) => {
                    push_indent(&mut out);
                    let idv = chars_of(id.as_str());
                    append_quoted(&mut out, &idv);
                    push_entry_end(&mut out);
                    proof {
                        assert(out@ =~= before + entry_line(cur));
                    }
                },
                SavedTrack::Object { id, name } => {
                    push_obj_open(&mut out);
                    let idv = chars_of(id.as_str());
                    append_quoted(&mut out, &idv);
                    match name {
                        Some(nm) => {
                            push_name_mid(&mut out);
                            let nv = chars_of(nm.as_str());
                            append_quoted(&mut out, &nv);
                            push_obj_close(&mut out);
                        },
                        None => {
                            push_obj_close(&mut out);
                        },
                    }
                    proof {
                        assert(out@ =~= before + entry_line(cur));
                    }
                },
            }
            proof {
                lemma_entries_text_push(pre, cur);
                assert(self.tracks.deep_view().subrange(0, i + 1) =~= pre.push(cur));
                assert(out@ =~= head + entries_text(self.tracks.deep_view().subrange(0, i + 1)));
            }
            i = i + 1;
        }
        proof {
            assert(self.tracks.deep_view().subrange(0, n as int) =~= self.tracks.deep_view());
        }
        push_end(&mut out);
        proof {
            assert(out@ =~= spec_serialize(self@));
        }
        string_of(&out)
    }
}

/// Reads entry lines until the closing `]` line, which must end the text;
/// `None` when the text fits no entry shape.
pub open spec fn spec_parse_entries(s: Seq<char>) -> Option<Seq<SavedTrackV>>
    decreases s.len(),
    via spec_parse_entries_dec
{
    if matches_at(s, 0, lit_end()) && s.len() == 2 {
        Some(Seq::empty())
    } else if matches_at(s, 0, lit_obj_open()) {
        let after = s.subrange(11, s.len() as int);
        if after.len() == 0 || after[0] != '"' {
            None
        } else {
            match parse_quoted_body(after.drop_first()) {
                Some(p) => {
                    if matches_at(p.1, 0, lit_obj_close()) {
                        match spec_parse_entries(p.1.subrange(4, p.1.len() as int)) {
                            Some(es) => Some(
                                seq![SavedTrackV::Object { id: p.0, name: None }] + es,
                            ),
                            None => None,
                        }
                    } else if matches_at(p.1, 0, lit_name_mid()) {
                        let after2 = p.1.subrange(9, p.1.len() as int);
                        if after2.len() == 0 || after2[0] != '"' {
                            None
                        } else {
                            match parse_quoted_body(after2.drop_first()) {
                                Some(q) => {
                                    if matches_at(q.1, 0, lit_obj_close()) {
                                        match spec_parse_entries(
                                            q.1.subrange(4, q.1.len() as int),
                                        ) {
                                            Some(es) => Some(
                                                seq![SavedTrackV::Object { id: p.0, name: Some(q.0) }]
                                                    + es,
                                            ),
                                            None => None,
                                        }
                                    } else {
                                        None
                                    }
                                },
                                None => None,
                            }
                        }
                    } else {
                        None
                    }
                },
                None => None,
            }
        }
    } else if matches_at(s, 0, lit_indent()) && s.len() > 4 && s[4] == '"' {
        match parse_quoted_body(s.subrange(5, s.len() as int)) {
            Some(p) => {
                if matches_at(p.1, 0, lit_entry_end()) {
                    match spec_parse_entries(p.1.subrange(2, p.1.len() as int)) {
                        Some(es) => Some(seq![SavedTrackV::Id(p.0)] + es),
                        None => None,
                    }
                } else {
                    None
                }
            },
            None => None,
        }
    } else {
        None
    }
}

#[via_fn]
proof fn spec_parse_entries_dec(s: Seq<char>) {
    if matches_at(s, 0, lit_end()) && s.len() == 2 {
    } else if matches_at(s, 0, lit_obj_open()) {
        let after = s.subrange(11, s.len() as int);
        if !(after.len() == 0 || after[0] != '"') {
            lemma_parse_quoted_len(after.drop_first());
            match parse_quoted_body(after.drop_first()) {
                Some(p) => {
                    if matches_at(p.1, 0, lit_name_mid()) {
                        let after2 = p.1.subrange(9, p.1.len() as int);
                        if !(after2.len() == 0 || after2[0] != '"') {
                            lemma_parse_quoted_len(after2.drop_first());
                        }
                    }
                },
                None => {},
            }
        }
    } else if matches_at(s, 0, lit_indent()) && s.len() > 4 && s[4] == '"' {
        lemma_parse_quoted_len(s.subrange(5, s.len() as int));
    }
}

/// Reads a whole document: the title line, the `tracks` opener, the entries
/// and the closing line.
pub open spec fn spec_deserialize(s: Seq<char>) -> Option<SavedPlaylistV> {
    if !matches_at(s, 0, lit_title_eq()) {
        None
    } else if s.len() <= 8 || s[8] != '"' {
        None
    } else {
        match parse_quoted_body(s.subrange(9, s.len() as int)) {
            Some(p) => {
                if matches_at(p.1, 0, lit_after_title()) {
                    match spec_parse_entries(p.1.subrange(12, p.1.len() as int)) {
                        Some(es) => Some(SavedPlaylistV { title: p.0, tracks: es }),
                        None => None,
                    }
                } else {
                    None
                }
            },
            None => None,
        }
    }
}

#[verifier::rlimit(100)]
proof fn lemma_entries_roundtrip(ts: Seq<SavedTrackV>)
    ensures
        spec_parse_entries(entries_text(ts) + lit_end()) == Some(ts),
    decreases ts.len(),
{
    let s = entries_text(ts) + lit_end();
    if ts.len() == 0 {
        assert(entries_text(ts) =~= Seq::<char>::empty());
        assert(s =~= lit_end());
        assert(s.subrange(0, 2) =~= lit_end());
        assert(matches_at(s, 0, lit_end()));
        assert(ts =~= Seq::<SavedTrackV>::empty());
    } else {
        let e = ts[0];
        let rest_ts = ts.drop_first();
        lemma_entries_roundtrip(rest_ts);
        let tail = entries_text(rest_ts) + lit_end();
        assert(s =~= entry_line(e) + tail);
        match e {
            SavedTrackV::Id(id) => {
                assert(s[0] == ' ');
                if matches_at(s, 0, lit_end()) {
                    assert(s.subrange(0, 2)[0] == ']');
                    assert(false);
                }
                if matches_at(s, 0, lit_obj_open()) {
                    assert(s.subrange(0, 11)[4] == '{');
                    assert(s[4] == '"');
                    assert(false);
                }
                assert(s.subrange(0, 4) =~= lit_indent());
                assert(matches_at(s, 0, lit_indent()));
                assert(s[4] == '"');
                assert(s.subrange(5, s.len() as int) =~= esc(id) + seq!['"'] + (lit_entry_end()
                    + tail));
                lemma_parse_quoted_esc(id, lit_entry_end() + tail);
                let rest = lit_entry_end() + tail;
                assert(rest.subrange(0, 2) =~= lit_entry_end());
                assert(matches_at(rest, 0, lit_entry_end()));
                assert(rest.subrange(2, rest.len() as int) =~= tail);
                assert(seq![SavedTrackV::Id(id)] + rest_ts =~= ts);
            },
            SavedTrackV::Object { id, name: None } => {
                assert(s[0] == ' ');
                if matches_at(s, 0, lit_end()) {
                    assert(s.subrange(0, 2)[0] == ']');
                    assert(false);
                }
                assert(s.subrange(0, 11) =~= lit_obj_open());
                assert(matches_at(s, 0, lit_obj_open()));
                let after = s.subrange(11, s.len() as int);
                assert(after =~= seq!['"'] + esc(id) + seq!['"'] + (lit_obj_close() + tail));
                assert(after[0] == '"');
                assert(after.drop_first() =~= esc(id) + seq!['"'] + (lit_obj_close() + tail));
                lemma_parse_quoted_esc(id, lit_obj_close() + tail);
                let rest = lit_obj_close() + tail;
                assert(rest.subrange(0, 4) =~= lit_obj_close());
                assert(matches_at(rest, 0, lit_obj_close()));
                assert(rest.subrange(4, rest.len() as int) =~= tail);
                assert(seq![SavedTrackV::Object { id, name: None }] + rest_ts =~= ts);
            },
            SavedTrackV::Object { id, name: Some(nm) } => {
                assert(s[0] == ' ');
                if matches_at(s, 0, lit_end()) {
                    assert(s.subrange(0, 2)[0] == ']');
                    assert(false);
                }
                assert(s.subrange(0, 11) =~= lit_obj_open());
                assert(matches_at(s, 0, lit_obj_open()));
                let after = s.subrange(11, s.len() as int);
                assert(after =~= seq!['"'] + esc(id) + seq!['"'] + (lit_name_mid() + quoted(nm)
                    + lit_obj_close() + tail));
                assert(after[0] == '"');
                assert(after.drop_first() =~= esc(id) + seq!['"'] + (lit_name_mid() + quoted(nm)
                    + lit_obj_close() + tail));
                lemma_parse_quoted_esc(id, lit_name_mid() + quoted(nm) + lit_obj_close() + tail);
                let rest = lit_name_mid() + quoted(nm) + lit_obj_close() + tail;
                assert(rest[0] == ',');
                if matches_at(rest, 0, lit_obj_close()) {
                    assert(rest.subrange(0, 4)[0] == ' ');
                    assert(false);
                }
                assert(rest.subrange(0, 9) =~= lit_name_mid());
                assert(matches_at(rest, 0, lit_name_mid()));
                let after2 = rest.subrange(9, rest.len() as int);
                assert(after2 =~= seq!['"'] + esc(nm) + seq!['"'] + (lit_obj_close() + tail));
                assert(after2[0] == '"');
                assert(after2.drop_first() =~= esc(nm) + seq!['"'] + (lit_obj_close() + tail));
                lemma_parse_quoted_esc(nm, lit_obj_close() + tail);
                let rest2 = lit_obj_close() + tail;
                assert(rest2.subrange(0, 4) =~= lit_obj_close());
                assert(matches_at(rest2, 0, lit_obj_close()));
                assert(rest2.subrange(4, rest2.len() as int) =~= tail);
                assert(seq![SavedTrackV::Object { id, name: Some(nm) }] + rest_ts =~= ts);
            },
        }
    }
}

/// A pattern matches at `i` in `s` exactly when it matches at the start of
/// the suffix of `s` from `i`.
proof fn lemma_matches_shift(s: Seq<char>, i: int, pat: Seq<char>)
    requires
        0 <= i <= s.len(),
    ensures
        matches_at(s, i, pat) == matches_at(s.subrange(i, s.len() as int), 0, pat),
{
    let si = s.subrange(i, s.len() as int);
    if i + pat.len() <= s.len() {
        assert(si.subrange(0, pat.len() as int) =~= s.subrange(i, i + pat.len()));
    }
}

fn unesc_exec(c: char) -> (r: Option<char>)
    ensures
        r == unesc_char(c),
{
    if c == '"' {
        Some('"')
    } else if c == '\\' {
        Some('\\')
    } else if c == 'n' {
        Some('\n')
    } else if c == 'r' {
        Some('\r')
    } else if c == 't' {
        Some('\t')
    } else {
        None
    }
}

/// Reads a quoted-string body beginning at `start` (just after the opening
/// quote): the unescaped content and the position after the closing quote.
fn parse_quoted_exec(v: &Vec<char>, start: usize) -> (r: Option<(Vec<char>, usize)>)
    requires
        start <= v@.len(),
    ensures
        match r {
            Some(p) => {
                &&& start <= p.1 <= v@.len()
                &&& parse_quoted_body(v@.subrange(start as int, v@.len() as int)) == Some(
                    (p.0@, v@.subrange(p.1 as int, v@.len() as int)),
                )
            },
            None => parse_quoted_body(v@.subrange(start as int, v@.len() as int)) is None,
        },
{
    let len = v.len();
    let ghost s0 = v@.subrange(start as int, len as int);
    let mut content: Vec<char> = Vec::new();
    let mut i: usize = start;
    loop
        invariant
            start <= i <= len,
            len == v@.len(),
            s0 == v@.subrange(start as int, len as int),
            ({
                let si = v@.subrange(i as int, len as int);
                match parse_quoted_body(si) {
                    Some(q) => parse_quoted_body(s0) == Some((content@ + q.0, q.1)),
                    None => parse_quoted_body(s0) is None,
                }
            }),
        decreases len - i,
    {
        let ghost si = v@.subrange(i as int, len as int);
        if i == len {
            proof {
                assert(si.len() == 0);
            }
            return None;
        }
        let c = v[i];
        proof {
            assert(si[0] == c);
        }
        if c == '"' {
            proof {
                assert(si.drop_first() =~= v@.subrange(i + 1, len as int));
                assert(content@ + Seq::<char>::empty() =~= content@);
            }
            return Some((content, i + 1));
        } else if c == '\\' {
            if i + 1 == len {
                proof {
                    assert(si.len() < 2);
                }
                return None;
            }
            let e = v[i + 1];
            proof {
                assert(si[1] == e);
            }
            let d = match unesc_exec(e) {
                Some(d) => d,
                None => {
                    return None;
                },
            };
            let ghost oc = content@;
            content.push(d);
            proof {
                assert(si.subrange(2, si.len() as int) =~= v@.subrange(i + 2, len as int));
                match parse_quoted_body(v@.subrange(i + 2, len as int)) {
                    Some(q) => {
                        assert(oc + (seq![d] + q.0) =~= content@ + q.0);
                    },
                    None => {},
                }
            }
            i = i + 2;
        } else {
            let ghost oc = content@;
            content.push(c);
            proof {
                assert(si.drop_first() =~= v@.subrange(i + 1, len as int));
                match parse_quoted_body(v@.subrange(i + 1, len as int)) {
                    Some(q) => {
                        assert(oc + (seq![c] + q.0) =~= content@ + q.0);
                    },
                    None => {},
                }
            }
            i = i + 1;
        }
    }
}

fn end_chars() -> (r: Vec<char>)
    ensures
        r@ == lit_end(),
{
    let mut v: Vec<char> = Vec::new();
    push_end(&mut v);
    proof {
        assert(v@ =~= lit_end());
    }
    v
}

fn obj_open_chars() -> (r: Vec<char>)
    ensures
        r@ == lit_obj_open(),
{
    let mut v: Vec<char> = Vec::new();
    push_obj_open(&mut v);
    proof {
        assert(v@ =~= lit_obj_open());
    }
    v
}

fn name_mid_chars() -> (r: Vec<char>)
    ensures
        r@ == lit_name_mid(),
{
    let mut v: Vec<char> = Vec::new();
    push_name_mid(&mut v);
    proof {
        assert(v@ =~= lit_name_mid());
    }
    v
}

fn obj_close_chars() -> (r: Vec<char>)
    ensures
        r@ == lit_obj_close(),
{
    let mut v: Vec<char> = Vec::new();
    push_obj_close(&mut v);
    proof {
        assert(v@ =~= lit_obj_close());
    }
    v
}

fn indent_chars() -> (r: Vec<char>)
    ensures
        r@ == lit_indent(),
{
    let mut v: Vec<char> = Vec::new();
    push_indent(&mut v);
    proof {
        assert(v@ =~= lit_indent());
    }
    v
}

fn entry_end_chars() -> (r: Vec<char>)
    ensures
        r@ == lit_entry_end(),
{
    let mut v: Vec<char> = Vec::new();
    push_entry_end(&mut v);
    proof {
        assert(v@ =~= lit_entry_end());
    }
    v
}

fn title_eq_chars() -> (r: Vec<char>)
    ensures
        r@ == lit_title_eq(),
{
    let mut v: Vec<char> = Vec::new();
    push_title_eq(&mut v);
    proof {
        assert(v@ =~= lit_title_eq());
    }
    v
}

fn after_title_chars() -> (r: Vec<char>)
    ensures
        r@ == lit_after_title(),
{
    let mut v: Vec<char> = Vec::new();
    push_after_title(&mut v);
    proof {
        assert(v@ =~= lit_after_title());
    }
    v
}

/// Reads entry lines from `start` to the closing `]` line, which must end
/// the text.
#[verifier::rlimit(100)]
fn parse_entries_exec(v: &Vec<char>, start: usize) -> (r: Option<Vec<SavedTrack>>)
    requires
        start <= v@.len(),
    ensures
        match r {
            Some(ts) => spec_parse_entries(v@.subrange(start as int, v@.len() as int)) == Some(
                ts.deep_view(),
            ),
            None => spec_parse_entries(v@.subrange(start as int, v@.len() as int)) is None,
        },
{
    let len = v.len();
    let ghost s0 = v@.subrange(start as int, len as int);
    let end_l = end_chars();
    let objo_l = obj_open_chars();
    let namem_l = name_mid_chars();
    let objc_l = obj_close_chars();
    let ind_l = indent_chars();
    let ee_l = entry_end_chars();
    let mut acc: Vec<SavedTrack> = Vec::new();
    let mut i: usize = start;
    loop
        invariant
            start <= i <= len,
            len == v@.len(),
            s0 == v@.subrange(start as int, len as int),
            end_l@ == lit_end(),
            objo_l@ == lit_obj_open(),
            namem_l@ == lit_name_mid(),
            objc_l@ == lit_obj_close(),
            ind_l@ == lit_indent(),
            ee_l@ == lit_entry_end(),
            ({
                let si = v@.subrange(i as int, len as int);
                match spec_parse_entries(si) {
                    Some(es) => spec_parse_entries(s0) == Some(acc.deep_view() + es),
                    None => spec_parse_entries(s0) is None,
                }
            }),
        decreases len - i,
    {
        let ghost si = v@.subrange(i as int, len as int);
        proof {
            lemma_matches_shift(v@, i as int, lit_end());
            lemma_matches_shift(v@, i as int, lit_obj_open());
            lemma_matches_shift(v@, i as int, lit_indent());
        }
        if check_match_at(v, i, &end_l) && len - i == 2 {
            proof {
                assert(si.len() == 2);
                assert(spec_parse_entries(si) == Some(Seq::<SavedTrackV>::empty()));
                assert(acc.deep_view() + Seq::<SavedTrackV>::empty() =~= acc.deep_view());
            }
            return Some(acc);
        } else if check_match_at(v, i, &objo_l) {
            let a = i + 11;
            proof {
                assert(lit_obj_open().len() == 11);
                assert(a <= len);
                assert(si.subrange(11, si.len() as int) =~= v@.subrange(a as int, len as int));
            }
            if a == len {
                return None;
            }
            if v[a] != '"' {
                proof {
                    assert(si.subrange(11, si.len() as int)[0] == v@[a as int]);
                }
                return None;
            }
            proof {
                assert(si.subrange(11, si.len() as int)[0] == v@[a as int]);
                assert(si.subrange(11, si.len() as int).drop_first() =~= v@.subrange(
                    a + 1,
                    len as int,
                ));
            }
            let (id, next) = match parse_quoted_exec(v, a + 1) {
                Some(p) => p,
                None => {
                    return None;
                },
            };
            proof {
                lemma_matches_shift(v@, next as int, lit_obj_close());
                lemma_matches_shift(v@, next as int, lit_name_mid());
            }
            if check_match_at(v, next, &objc_l) {
                proof {
                    assert(lit_obj_close().len() == 4);
                    assert(v@.subrange(next as int, len as int).subrange(
                        4,
                        len - next,
                    ) =~= v@.subrange(next + 4, len as int));
                }
                let entry = SavedTrack::Object { id: string_of(&id), name: None };
                let ghost ev = SavedTrackV::Object { id: id@, name: None };
                let ghost oacc = acc.deep_view();
                acc.push(entry);
                proof {
                    assert(acc.deep_view() =~= oacc.push(ev));
                    match spec_parse_entries(v@.subrange(next + 4, len as int)) {
                        Some(es) => {
                            assert(spec_parse_entries(si) == Some(seq![ev] + es));
                            assert(oacc + (seq![ev] + es) =~= acc.deep_view() + es);
                        },
                        None => {
                            assert(spec_parse_entries(si) is None);
                        },
                    }
                }
                i = next + 4;
            } else if check_match_at(v, next, &namem_l) {
                let a2 = next + 9;
                proof {
                    assert(lit_name_mid().len() == 9);
                    assert(a2 <= len);
                    assert(v@.subrange(next as int, len as int).subrange(
                        9,
                        len - next,
                    ) =~= v@.subrange(a2 as int, len as int));
                }
                if a2 == len {
                    return None;
                }
                if v[a2] != '"' {
                    proof {
                        assert(v@.subrange(a2 as int, len as int)[0] == v@[a2 as int]);
                    }
                    return None;
                }
                proof {
                    assert(v@.subrange(a2 as int, len as int)[0] == v@[a2 as int]);
                    assert(v@.subrange(a2 as int, len as int).drop_first() =~= v@.subrange(
                        a2 + 1,
                        len as int,
                    ));
                }
                let (nm, next2) = match parse_quoted_exec(v, a2 + 1) {
                    Some(p) => p,
                    None => {
                        return None;
                    },
                };
                proof {
                    lemma_matches_shift(v@, next2 as int, lit_obj_close());
                }
                if check_match_at(v, next2, &objc_l) {
                    proof {
                        assert(lit_obj_close().len() == 4);
                        assert(v@.subrange(next2 as int, len as int).subrange(
                            4,
                            len - next2,
                        ) =~= v@.subrange(next2 + 4, len as int));
                    }
                    let entry = SavedTrack::Object {
                        id: string_of(&id),
                        name: Some(string_of(&nm)),
                    };
                    let ghost ev = SavedTrackV::Object { id: id@, name: Some(nm@) };
                    let ghost oacc = acc.deep_view();
                    acc.push(entry);
                    proof {
                        assert(acc.deep_view() =~= oacc.push(ev));
                        match spec_parse_entries(v@.subrange(next2 + 4, len as int)) {
                            Some(es) => {
                                assert(spec_parse_entries(si) == Some(seq![ev] + es));
                                assert(oacc + (seq![ev] + es) =~= acc.deep_view() + es);
                            },
                            None => {
                                assert(spec_parse_entries(si) is None);
                            },
                        }
                    }
                    i = next2 + 4;
                } else {
                    return None;
                }
            } else {
                return None;
            }
        } else if check_match_at(v, i, &ind_l) && len - i > 4 && v[i + 4] == '"' {
            proof {
                assert(si.len() > 4);
                assert(si[4] == v@[i + 4]);
                assert(si.subrange(5, si.len() as int) =~= v@.subrange(i + 5, len as int));
            }
            let (id, next) = match parse_quoted_exec(v, i + 5) {
                Some(p) => p,
                None => {
                    return None;
                },
            };
            proof {
                lemma_matches_shift(v@, next as int, lit_entry_end());
            }
            if check_match_at(v, next, &ee_l) {
                proof {
                    assert(lit_entry_end().len() == 2);
                    assert(v@.subrange(next as int, len as int).subrange(
                        2,
                        len - next,
                    ) =~= v@.subrange(next + 2, len as int));
                }
                let entry = SavedTrack::Id(string_of(&id));
                let ghost ev = SavedTrackV::Id(id@);
                let ghost oacc = acc.deep_view();
                acc.push(entry);
                proof {
                    assert(acc.deep_view() =~= oacc.push(ev));
                    match spec_parse_entries(v@.subrange(next + 2, len as int)) {
                        Some(es) => {
                            assert(spec_parse_entries(si) == Some(seq![ev] + es));
                            assert(oacc + (seq![ev] + es) =~= acc.deep_view() + es);
                        },
                        None => {
                            assert(spec_parse_entries(si) is None);
                        },
                    }
                }
                i = next + 2;
            } else {
                return None;
            }
        } else {
            proof {
                assert(si[4] == v@[i + 4] || si.len() <= 4);
            }
            return None;
        }
    }
}

impl SavedPlaylist {
    /// Reads a playlist back from its document text; `None` when the text
    /// does not have the document shape.
    pub fn deserialize(text: &str) -> (r: Option<SavedPlaylist>)
        ensures
            match r {
                Some(p) => spec_deserialize(text@) == Some(p@),
                None => spec_deserialize(text@) is None,
            },
    {
        let v = chars_of(text);
        let len = v.len();
        let te = title_eq_chars();
        if !check_match_at(&v, 0, &te) {
            return None;
        }
        proof {
            lemma_matches_shift(v@, 0, lit_title_eq());
            assert(v@.subrange(0, len as int) =~= v@);
            assert(matches_at(v@, 0, lit_title_eq()));
        }
        if len == 8 {
            return None;
        }
        proof {
            assert(lit_title_eq().len() == 8);
            assert(len > 8);
        }
        if v[8] != '"' {
            return None;
        }
        let (title, next) = match parse_quoted_exec(&v, 9) {
            Some(p) => p,
            None => {
                return None;
            },
        };
        let at = after_title_chars();
        proof {
            lemma_matches_shift(v@, next as int, lit_after_title());
        }
        if !check_match_at(&v, next, &at) {
            return None;
        }
        proof {
            assert(lit_after_title().len() == 12);
            assert(v@.subrange(next as int, len as int).subrange(
                12,
                len - next,
            ) =~= v@.subrange(next + 12, len as int));
        }
        let tracks = match parse_entries_exec(&v, next + 12) {
            Some(ts) => ts,
            None => {
                return None;
            },
        };
        let p = SavedPlaylist { title: string_of(&title), tracks };
        Some(p)
    }
}

/// Round trip: parsing a serialized playlist yields the playlist back, for
/// every title and every list of entries.
pub proof fn lemma_snapshot_roundtrip(p: SavedPlaylistV)
    ensures
        spec_deserialize(spec_serialize(p)) == Some(p),
{
    let s = spec_serialize(p);
    assert(s.subrange(0, 8) =~= lit_title_eq());
    assert(matches_at(s, 0, lit_title_eq()));
    assert(s[8] == '"');
    assert(s.subrange(9, s.len() as int) =~= esc(p.title) + seq!['"'] + (lit_after_title()
        + entries_text(p.tracks) + lit_end()));
    lemma_parse_quoted_esc(p.title, lit_after_title() + entries_text(p.tracks) + lit_end());
    let rest = lit_after_title() + entries_text(p.tracks) + lit_end();
    assert(rest.subrange(0, 12) =~= lit_after_title());
    assert(matches_at(rest, 0, lit_after_title()));
    assert(rest.subrange(12, rest.len() as int) =~= entries_text(p.tracks) + lit_end());
    lemma_entries_roundtrip(p.tracks);
}

} // verus!
