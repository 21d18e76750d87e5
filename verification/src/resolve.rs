//! The identifier resolver: turns a user-supplied string (native URI, web
//! share link, or bare identifier) into a catalog reference, and renders a
//! reference back as a native URI.
//!
//! Identifiers are 22-character base62 strings (digits, then lower-case, then
//! upper-case letters) denoting a 128-bit value.

use vstd::prelude::*;
use crate::text::{chars_of, string_of, chars_eq, append_chars, check_match_at, matches_at,
    has_char, is_first_occurrence, first_occurrence, lemma_first_occurrence, find_char, subvec};

verus! {

/// The kind of a catalog item.
#[derive(Clone, Copy, PartialEq, Eq, Structural, Debug)]
pub enum ItemKind {
    Track,
    Album,
    Playlist,
    Episode,
    Show,
}

impl ItemKind {
    /// True for the kinds that expand to a list of tracks.
    pub open spec fn spec_is_composite(self) -> bool {
        match self {
            ItemKind::Album | ItemKind::Playlist | ItemKind::Show => true,
            ItemKind::Track | ItemKind::Episode => false,
        }
    }

    /// True for the kinds that expand to a list of tracks (album, playlist,
    /// show); a track or episode downloads as a single item.
    pub fn is_composite(&self) -> (r: bool)
        ensures
            r == self.spec_is_composite(),
    {
        match self {
            ItemKind::Album | ItemKind::Playlist | ItemKind::Show => true,
            ItemKind::Track | ItemKind::Episode => false,
        }
    }
}

/// A reference to one catalog item: its kind together with its 128-bit
/// identifier.
#[derive(Clone, Copy, PartialEq, Eq, Structural, Debug)]
pub struct CatalogReference {
    pub kind: ItemKind,
    pub id: u128,
}

/// A reference whose identifier portion could not be decoded; carries the
/// offending substring.
#[derive(Clone, Debug, PartialEq, Eq)]
pub struct InvalidReference {
    pub offending: String,
}

/// The token naming a kind inside a URI or share link.
pub open spec fn spec_kind_token(k: ItemKind) -> Seq<char> {
    match k {
        ItemKind::Track => seq!['t', 'r', 'a', 'c', 'k'],
        ItemKind::Album => seq!['a', 'l', 'b', 'u', 'm'],
        ItemKind::Playlist => seq!['p', 'l', 'a', 'y', 'l', 'i', 's', 't'],
        ItemKind::Episode => seq!['e', 'p', 'i', 's', 'o', 'd', 'e'],
        ItemKind::Show => seq!['s', 'h', 'o', 'w'],
    }
}

/// Maps a kind token through the fixed vocabulary; an unrecognized token is
/// the default, `Track`.
pub open spec fn spec_kind_of(tok: Seq<char>) -> ItemKind {
    if tok == spec_kind_token(ItemKind::Album) {
        ItemKind::Album
    } else if tok == spec_kind_token(ItemKind::Playlist) {
        ItemKind::Playlist
    } else if tok == spec_kind_token(ItemKind::Episode) {
        ItemKind::Episode
    } else if tok == spec_kind_token(ItemKind::Show) {
        ItemKind::Show
    } else {
        ItemKind::Track
    }
}

/// The kind token of a kind maps back to that kind.
pub proof fn lemma_kind_token_roundtrip(k: ItemKind)
    ensures
        spec_kind_of(spec_kind_token(k)) == k,
{
    match k {
        ItemKind::Track => {
            assert(spec_kind_token(ItemKind::Track)[0] != spec_kind_token(ItemKind::Album)[0]);
            assert(spec_kind_token(ItemKind::Track).len() != spec_kind_token(
                ItemKind::Playlist,
            ).len());
            assert(spec_kind_token(ItemKind::Track).len() != spec_kind_token(
                ItemKind::Episode,
            ).len());
            assert(spec_kind_token(ItemKind::Track).len() != spec_kind_token(ItemKind::Show).len());
        },
        ItemKind::Album => {
        },
        ItemKind::Playlist => {
            assert(spec_kind_token(ItemKind::Playlist).len() != spec_kind_token(
                ItemKind::Album,
            ).len());
        },
        ItemKind::Episode => {
            assert(spec_kind_token(ItemKind::Episode).len() != spec_kind_token(
                ItemKind::Album,
            ).len());
            assert(spec_kind_token(ItemKind::Episode).len() != spec_kind_token(
                ItemKind::Playlist,
            ).len());
        },
        ItemKind::Show => {
            assert(spec_kind_token(ItemKind::Show).len() != spec_kind_token(ItemKind::Album).len());
            assert(spec_kind_token(ItemKind::Show).len() != spec_kind_token(
                ItemKind::Playlist,
            ).len());
            assert(spec_kind_token(ItemKind::Show).len() != spec_kind_token(
                ItemKind::Episode,
            ).len());
        },
    }
}

fn kind_token_chars(k: ItemKind) -> (r: Vec<char>)
    ensures
        r@ == spec_kind_token(k),
{
    let mut v: Vec<char> = Vec::new();
    match k {
        ItemKind::Track => {
            v.push('t');
            v.push('r');
            v.push('a');
            v.push('c');
            v.push('k');
        },
        ItemKind::Album => {
            v.push('a');
            v.push('l');
            v.push('b');
            v.push('u');
            v.push('m');
        },
        ItemKind::Playlist => {
            v.push('p');
            v.push('l');
            v.push('a');
            v.push('y');
            v.push('l');
            v.push('i');
            v.push('s');
            v.push('t');
        },
        ItemKind::Episode => {
            v.push('e');
            v.push('p');
            v.push('i');
            v.push('s');
            v.push('o');
            v.push('d');
            v.push('e');
        },
        ItemKind::Show => {
            v.push('s');
            v.push('h');
            v.push('o');
            v.push('w');
        },
    }
    proof {
        assert(v@ =~= spec_kind_token(k));
    }
    v
}

fn kind_of_chars(tok: &Vec<char>) -> (r: ItemKind)
    ensures
        r == spec_kind_of(tok@),
{
    if chars_eq(tok, &kind_token_chars(ItemKind::Album)) {
        ItemKind::Album
    } else if chars_eq(tok, &kind_token_chars(ItemKind::Playlist)) {
        ItemKind::Playlist
    } else if chars_eq(tok, &kind_token_chars(ItemKind::Episode)) {
        ItemKind::Episode
    } else if chars_eq(tok, &kind_token_chars(ItemKind::Show)) {
        ItemKind::Show
    } else {
        ItemKind::Track
    }
}

/// Maps a kind token (as written in a share link) to an item kind; an
/// unrecognized token defaults to `Track`.
pub fn parse_item_type(item_type: &str) -> (r: ItemKind)
    ensures
        r == spec_kind_of(item_type@),
{
    let v = chars_of(item_type);
    kind_of_chars(&v)
}

/// The value of one base62 digit (`0`-`9`, then `a`-`z`, then `A`-`Z`), or
/// -1 for any other character.
pub open spec fn spec_b62_value(c: char) -> int {
    if '0' as int <= c as int && c as int <= '9' as int {
        c as int - '0' as int
    } else if 'a' as int <= c as int && c as int <= 'z' as int {
        c as int - 'a' as int + 10
    } else if 'A' as int <= c as int && c as int <= 'Z' as int {
        c as int - 'A' as int + 36
    } else {
        -1
    }
}

/// True when every character of `s` is a base62 digit.
pub open spec fn spec_b62_ok(s: Seq<char>) -> bool {
    forall|i: int| 0 <= i < s.len() ==> spec_b62_value(s[i]) >= 0
}

/// The value denoted by a base62 digit string, most significant digit first.
pub open spec fn spec_b62_decode(s: Seq<char>) -> int
    decreases s.len(),
{
    if s.len() == 0 {
        0
    } else {
        spec_b62_decode(s.drop_last()) * 62 + spec_b62_value(s.last())
    }
}

/// The identifier denoted by a 22-character base62 string, when it is one and
/// its value fits in 128 bits.
pub open spec fn spec_parse_id(s: Seq<char>) -> Option<u128> {
    if s.len() == 22 && spec_b62_ok(s) && spec_b62_decode(s) <= u128::MAX as int {
        Some(spec_b62_decode(s) as u128)
    } else {
        None
    }
}

fn b62_value(c: char) -> (r: i32)
    ensures
        r as int == spec_b62_value(c),
        -1 <= r < 62,
{
    let u = c as u32;
    if u >= 48 && u <= 57 {
        (u - 48) as i32
    } else if u >= 97 && u <= 122 {
        (u - 97) as i32 + 10
    } else if u >= 65 && u <= 90 {
        (u - 65) as i32 + 36
    } else {
        -1
    }
}

fn b62_char(d: u32) -> (r: char)
    requires
        d < 62,
    ensures
        spec_b62_value(r) == d as int,
{
    if d < 10 {
        (48 + d as u8) as char
    } else if d < 36 {
        (97 + (d - 10) as u8) as char
    } else {
        (65 + (d - 36) as u8) as char
    }
}

proof fn lemma_b62_decode_nonneg(s: Seq<char>)
    requires
        spec_b62_ok(s),
    ensures
        spec_b62_decode(s) >= 0,
    decreases s.len(),
{
    if s.len() > 0 {
        assert forall|i: int| 0 <= i < s.drop_last().len() implies spec_b62_value(
            s.drop_last()[i],
        ) >= 0 by {
            assert(s.drop_last()[i] == s[i]);
        }
        lemma_b62_decode_nonneg(s.drop_last());
    }
}

proof fn lemma_b62_ok_subrange(s: Seq<char>, i: int, j: int)
    requires
        spec_b62_ok(s),
        0 <= i <= j <= s.len(),
    ensures
        spec_b62_ok(s.subrange(i, j)),
{
    assert forall|k: int| 0 <= k < j - i implies spec_b62_value(s.subrange(i, j)[k]) >= 0 by {
        assert(s.subrange(i, j)[k] == s[i + k]);
    }
}

/// With valid digits, the value of a longer prefix is at least that of a
/// shorter one.
proof fn lemma_b62_prefix_le(s: Seq<char>, i: int, j: int)
    requires
        0 <= i <= j <= s.len(),
        spec_b62_ok(s),
    ensures
        spec_b62_decode(s.subrange(0, i)) <= spec_b62_decode(s.subrange(0, j)),
    decreases j - i,
{
    if i < j {
        lemma_b62_prefix_le(s, i, j - 1);
        let p = s.subrange(0, j);
        assert(p.drop_last() =~= s.subrange(0, j - 1));
        assert(p.last() == s[j - 1]);
        lemma_b62_ok_subrange(s, 0, j - 1);
        lemma_b62_decode_nonneg(s.subrange(0, j - 1));
    }
}

/// Raising 62 to a power.
pub open spec fn pow62(k: nat) -> int
    decreases k,
{
    if k == 0 {
        1
    } else {
        62 * pow62((k - 1) as nat)
    }
}

proof fn lemma_pow62_pos(k: nat)
    ensures
        pow62(k) >= 1,
    decreases k,
{
    if k > 0 {
        lemma_pow62_pos((k - 1) as nat);
    }
}

proof fn lemma_pow62_22()
    ensures
        pow62(22) > u128::MAX as int,
{
    reveal_with_fuel(pow62, 23);
    assert(pow62(22) == 2707803647802660400290261537185326956544int);
}

/// Splitting a digit string splits its value positionally.
proof fn lemma_b62_decode_concat(s1: Seq<char>, s2: Seq<char>)
    ensures
        spec_b62_decode(s1 + s2) == spec_b62_decode(s1) * pow62(s2.len()) + spec_b62_decode(s2),
    decreases s2.len(),
{
    if s2.len() == 0 {
        assert(s1 + s2 =~= s1);
    } else {
        lemma_b62_decode_concat(s1, s2.drop_last());
        assert((s1 + s2).drop_last() =~= s1 + s2.drop_last());
        assert((s1 + s2).last() == s2.last());
        let d1 = spec_b62_decode(s1);
        let dp = spec_b62_decode(s2.drop_last());
        let pk = pow62((s2.len() - 1) as nat);
        assert((d1 * pk + dp) * 62 == d1 * (62 * pk) + dp * 62) by (nonlinear_arith);
        assert(pow62(s2.len()) == 62 * pk);
    }
}

/// Decodes a 22-character base62 identifier; `None` exactly when the string
/// is not 22 valid digits or its value does not fit in 128 bits.
pub fn parse_base62_id(v: &Vec<char>) -> (r: Option<u128>)
    ensures
        r == spec_parse_id(v@),
{
    if v.len() != 22 {
        return None;
    }
    let mut i: usize = 0;
    while i < 22
        invariant
            0 <= i <= 22,
            v@.len() == 22,
            forall|j: int| 0 <= j < i ==> spec_b62_value(v@[j]) >= 0,
        decreases 22 - i,
    {
        if b62_value(v[i]) < 0 {
            return None;
        }
        i = i + 1;
    }
    assert(spec_b62_ok(v@));
    let mut acc: u128 = 0;
    let mut i: usize = 0;
    while i < 22
        invariant
            0 <= i <= 22,
            v@.len() == 22,
            spec_b62_ok(v@),
            acc as int == spec_b62_decode(v@.subrange(0, i as int)),
        decreases 22 - i,
    {
        let ghost pre = v@.subrange(0, i as int);
        let ghost post = v@.subrange(0, i + 1);
        proof {
            assert(post.drop_last() =~= pre);
            assert(post.last() == v@[i as int]);
        }
        let d = b62_value(v[i]);
        assert(d >= 0);
        let m = match acc.checked_mul(62) {
            Some(m) => m,
            None => {
                proof {
                    lemma_b62_prefix_le(v@, i + 1, 22);
                    assert(v@.subrange(0, 22) =~= v@);
                }
                return None;
            },
        };
        let a = match m.checked_add(d as u128) {
            Some(a) => a,
            None => {
                proof {
                    lemma_b62_prefix_le(v@, i + 1, 22);
                    assert(v@.subrange(0, 22) =~= v@);
                }
                return None;
            },
        };
        acc = a;
        i = i + 1;
    }
    proof {
        assert(v@.subrange(0, 22) =~= v@);
    }
    Some(acc)
}

/// Encodes a 128-bit identifier as its canonical 22-character base62 string.
pub fn encode_base62(n: u128) -> (r: Vec<char>)
    ensures
        r@.len() == 22,
        spec_b62_ok(r@),
        spec_b62_decode(r@) == n as int,
{
    let mut digits: Vec<char> = Vec::new();
    let mut rem: u128 = n;
    let mut k: usize = 0;
    while k < 22
        invariant
            0 <= k <= 22,
            digits@.len() == k,
            spec_b62_ok(digits@),
            n as int == rem as int * pow62(k as nat) + spec_b62_decode(digits@),
            0 <= spec_b62_decode(digits@) < pow62(k as nat),
        decreases 22 - k,
    {
        let ghost od = digits@;
        let ghost orem = rem as int;
        let d = (rem % 62) as u32;
        let c = b62_char(d);
        let new_rem = rem / 62;
        digits.insert(0, c);
        proof {
            assert(digits@ =~= seq![c] + od);
            lemma_b62_decode_concat(seq![c], od);
            assert(seq![c].drop_last() =~= Seq::<char>::empty());
            assert(seq![c].last() == c);
            assert(spec_b62_decode(Seq::<char>::empty()) == 0);
            assert(spec_b62_decode(seq![c]) == d as int);
            assert forall|j: int| 0 <= j < digits@.len() implies spec_b62_value(digits@[j]) >= 0 by {
                if j > 0 {
                    assert(digits@[j] == od[j - 1]);
                }
            }
            let pk = pow62(k as nat);
            assert(orem == (new_rem as int) * 62 + d as int);
            assert(((new_rem as int) * 62 + d as int) * pk == (new_rem as int) * (62 * pk) + (
            d as int) * pk) by (nonlinear_arith);
            assert(pow62((k + 1) as nat) == 62 * pk);
            assert(spec_b62_decode(digits@) == (d as int) * pk + spec_b62_decode(od));
            assert(n as int == (new_rem as int) * pow62((k + 1) as nat) + spec_b62_decode(
                digits@,
            ));
            lemma_pow62_pos(k as nat);
            assert((d as int) * pk <= 61 * pk && (d as int) * pk >= 0) by (nonlinear_arith)
                requires
                    0 <= d as int <= 61,
                    pk >= 1,
            ;
            assert(spec_b62_decode(digits@) < 62 * pk);
        }
        rem = new_rem;
        k = k + 1;
    }
    proof {
        lemma_pow62_22();
        if rem as int >= 1 {
            assert(rem as int * pow62(22) >= pow62(22)) by (nonlinear_arith)
                requires rem as int >= 1 && pow62(22) >= 0;
            assert(false);
        }
    }
    digits
}

/// Every character of a kind token is a base62 digit (a lower-case letter),
/// so in particular none is a `:`.
proof fn lemma_kind_token_b62(k: ItemKind)
    ensures
        forall|j: int|
            0 <= j < spec_kind_token(k).len() ==> spec_b62_value(
                #[trigger] spec_kind_token(k)[j],
            ) >= 0,
{
    assert forall|j: int| 0 <= j < spec_kind_token(k).len() implies spec_b62_value(
        spec_kind_token(k)[j],
    ) >= 0 by {
        let t = spec_kind_token(k);
        assert(spec_b62_value(t[j]) >= 0) by {
            if j == 0 {
            } else if j == 1 {
            } else if j == 2 {
            } else if j == 3 {
            } else if j == 4 {
            } else if j == 5 {
            } else if j == 6 {
            } else {
                assert(j == 7);
            }
        }
    }
}

impl CatalogReference {
    /// Renders the reference as a native URI: the scheme prefix, the kind
    /// token, and the base62 identifier. Resolving the rendered URI yields
    /// the reference back.
    pub fn to_uri(&self) -> (r: String)
        ensures
            spec_resolve(r@) == Ok::<CatalogReference, Seq<char>>(*self),
            r@.subrange(0, 8) == uri_prefix(),
            r@.len() == 31 + spec_kind_token(self.kind).len(),
    {
        let mut v = uri_prefix_chars();
        let ktok = kind_token_chars(self.kind);
        append_chars(&mut v, &ktok);
        v.push(':');
        let idv = encode_base62(self.id);
        append_chars(&mut v, &idv);
        proof {
            let p = uri_prefix();
            let kt = spec_kind_token(self.kind);
            let kl = kt.len() as int;
            let i = idv@;
            assert(v@ =~= p + kt + seq![':'] + i);
            assert(v@.subrange(0, 8) =~= p);
            let rest = v@.subrange(8, v@.len() as int);
            assert(rest =~= kt + seq![':'] + i);
            assert(rest[kl] == ':');
            lemma_kind_token_b62(self.kind);
            assert forall|j: int| 0 <= j < kl implies rest[j] != ':' by {
                assert(rest[j] == kt[j]);
                assert(spec_b62_value(kt[j]) >= 0);
                assert(spec_b62_value(':') == -1);
            }
            assert(is_first_occurrence(rest, ':', kl));
            assert(has_char(rest, ':'));
            lemma_first_occurrence(rest, ':');
            assert(first_occurrence(rest, ':') == kl);
            assert(rest.subrange(0, kl) =~= kt);
            lemma_kind_token_roundtrip(self.kind);
            assert(rest.subrange(kl + 1, rest.len() as int) =~= i);
            assert(spec_parse_id(i) == Some(self.id));
        }
        string_of(&v)
    }
}

/// Word characters, as a share link's tokens are made of: letters, digits and
/// underscore.
pub open spec fn is_word_char(c: char) -> bool {
    ||| '0' as int <= c as int && c as int <= '9' as int
    ||| 'a' as int <= c as int && c as int <= 'z' as int
    ||| 'A' as int <= c as int && c as int <= 'Z' as int
    ||| c == '_'
}

fn word_char(c: char) -> (r: bool)
    ensures
        r == is_word_char(c),
{
    let u = c as u32;
    (u >= 48 && u <= 57) || (u >= 97 && u <= 122) || (u >= 65 && u <= 90) || u == 95
}

/// The position right after the maximal run of word characters starting at
/// `i`.
pub open spec fn word_run_end(s: Seq<char>, i: int) -> int
    decreases s.len() - i,
{
    if i < 0 || i >= s.len() {
        i
    } else if !is_word_char(s[i]) {
        i
    } else {
        word_run_end(s, i + 1)
    }
}

fn word_run_end_exec(v: &Vec<char>, i: usize) -> (r: usize)
    requires
        i <= v@.len(),
    ensures
        r as int == word_run_end(v@, i as int),
        i <= r <= v@.len(),
{
    let mut j = i;
    while j < v.len() && word_char(v[j])
        invariant
            i <= j <= v@.len(),
            word_run_end(v@, i as int) == word_run_end(v@, j as int),
        decreases v@.len() - j,
    {
        j = j + 1;
    }
    j
}

/// The fixed literal that a web share link embeds before its two tokens.
pub open spec fn link_lit() -> Seq<char> {
    seq!['s', 'p', 'o', 't', 'i', 'f', 'y', '.', 'c', 'o', 'm', '/']
}

fn link_lit_chars() -> (r: Vec<char>)
    ensures
        r@ == link_lit(),
{
    let mut v: Vec<char> = Vec::new();
    v.push('s');
    v.push('p');
    v.push('o');
    v.push('t');
    v.push('i');
    v.push('f');
    v.push('y');
    v.push('.');
    v.push('c');
    v.push('o');
    v.push('m');
    v.push('/');
    proof {
        assert(v@ =~= link_lit());
    }
    v
}

/// True when the share-link pattern matches at position `p` of `s`: the
/// literal, a nonempty run of word characters (the kind token), a `/`, and a
/// nonempty run of word characters (the identifier token).
pub open spec fn link_match_at(s: Seq<char>, p: int) -> bool {
    let a = p + 12;
    let e1 = word_run_end(s, a);
    let b = e1 + 1;
    let e2 = word_run_end(s, b);
    &&& matches_at(s, p, link_lit())
    &&& e1 > a
    &&& e1 < s.len()
    &&& s[e1] == '/'
    &&& e2 > b
}

/// The kind token of the share-link match at `p`.
pub open spec fn link_kind_tok(s: Seq<char>, p: int) -> Seq<char> {
    s.subrange(p + 12, word_run_end(s, p + 12))
}

/// The identifier token of the share-link match at `p`.
pub open spec fn link_id_tok(s: Seq<char>, p: int) -> Seq<char> {
    let b = word_run_end(s, p + 12) + 1;
    s.subrange(b, word_run_end(s, b))
}

/// The first position at or after `i` where the share-link pattern matches,
/// or -1 when it matches nowhere.
pub open spec fn find_link(s: Seq<char>, i: int) -> int
    decreases s.len() - i,
{
    if i < 0 || i + 12 > s.len() {
        -1
    } else if link_match_at(s, i) {
        i
    } else {
        find_link(s, i + 1)
    }
}

fn link_match_exec(v: &Vec<char>, p: usize, lit: &Vec<char>) -> (r: bool)
    requires
        p + 12 <= v@.len(),
        lit@ == link_lit(),
    ensures
        r == link_match_at(v@, p as int),
{
    let n = v.len();
    if !check_match_at(v, p, lit) {
        return false;
    }
    let a = p + 12;
    let e1 = word_run_end_exec(v, a);
    if e1 == a {
        return false;
    }
    if e1 == v.len() {
        return false;
    }
    if v[e1] != '/' {
        return false;
    }
    let b = e1 + 1;
    let e2 = word_run_end_exec(v, b);
    e2 > b
}

fn find_link_exec(v: &Vec<char>) -> (r: Option<usize>)
    ensures
        match r {
            Some(p) => find_link(v@, 0) == p as int && link_match_at(v@, p as int),
            None => find_link(v@, 0) == -1,
        },
{
    let n = v.len();
    if n < 12 {
        return None;
    }
    let lit = link_lit_chars();
    let mut p: usize = 0;
    while p <= n - 12
        invariant
            0 <= p <= n - 12 + 1,
            n == v@.len(),
            12 <= n,
            lit@ == link_lit(),
            find_link(v@, 0) == find_link(v@, p as int),
        decreases n - p,
    {
        if link_match_exec(v, p, &lit) {
            return Some(p);
        }
        p = p + 1;
    }
    None
}

/// The scheme prefix of a native URI.
pub open spec fn uri_prefix() -> Seq<char> {
    seq!['s', 'p', 'o', 't', 'i', 'f', 'y', ':']
}

fn uri_prefix_chars() -> (r: Vec<char>)
    ensures
        r@ == uri_prefix(),
{
    let mut v: Vec<char> = Vec::new();
    v.push('s');
    v.push('p');
    v.push('o');
    v.push('t');
    v.push('i');
    v.push('f');
    v.push('y');
    v.push(':');
    proof {
        assert(v@ =~= uri_prefix());
    }
    v
}

/// What resolving a user string yields: a catalog reference, or the substring
/// whose identifier portion could not be decoded.
///
/// The branches are ordered and the first match wins: a native URI
/// (`spotify:` prefix, optional kind token, identifier), a web share link
/// (the first full match of the link pattern), and lastly the whole string
/// taken as a bare identifier with kind `Track`.
pub open spec fn spec_resolve(s: Seq<char>) -> Result<CatalogReference, Seq<char>> {
    if s.len() >= 8 && s.subrange(0, 8) == uri_prefix() {
        let rest = s.subrange(8, s.len() as int);
        if has_char(rest, ':') {
            let k = first_occurrence(rest, ':');
            let kind_tok = rest.subrange(0, k);
            let id_tok = rest.subrange(k + 1, rest.len() as int);
            match spec_parse_id(id_tok) {
                Some(id) => Ok(CatalogReference { kind: spec_kind_of(kind_tok), id }),
                None => Err(id_tok),
            }
        } else {
            match spec_parse_id(rest) {
                Some(id) => Ok(CatalogReference { kind: ItemKind::Track, id }),
                None => Err(rest),
            }
        }
    } else {
        let p = find_link(s, 0);
        if p >= 0 {
            let kind_tok = link_kind_tok(s, p);
            let id_tok = link_id_tok(s, p);
            match spec_parse_id(id_tok) {
                Some(id) => Ok(CatalogReference { kind: spec_kind_of(kind_tok), id }),
                None => Err(id_tok),
            }
        } else {
            match spec_parse_id(s) {
                Some(id) => Ok(CatalogReference { kind: ItemKind::Track, id }),
                None => Err(s),
            }
        }
    }
}

/// Resolves a user-supplied reference: a native URI (`spotify:`-prefixed), a
/// web share link, or a bare identifier, tried in that order with the first
/// matching form winning. Fails exactly when the chosen form's identifier
/// portion is not a valid 22-character base62 identifier, and names that
/// substring.
pub fn resolve_reference(input: &str) -> (r: Result<CatalogReference, InvalidReference>)
    ensures
        match r {
            Ok(cr) => spec_resolve(input@) == Ok::<CatalogReference, Seq<char>>(cr),
            Err(e) => spec_resolve(input@) == Err::<CatalogReference, Seq<char>>(e.offending@),
        },
{
    let v = chars_of(input);
    let prefix = uri_prefix_chars();
    if check_match_at(&v, 0, &prefix) {
        proof {
            assert(v@.subrange(0, 8) == uri_prefix());
        }
        let n = v.len();
        let rest = subvec(&v, 8, n);
        match find_char(&rest, ':') {
            Some(k) => {
                proof {
                    assert(has_char(rest@, ':'));
                    lemma_first_occurrence(rest@, ':');
                    assert(first_occurrence(rest@, ':') == k as int);
                }
                let kind_tok = subvec(&rest, 0, k);
                let m = rest.len();
                let id_tok = subvec(&rest, k + 1, m);
                match parse_base62_id(&id_tok) {
                    Some(id) => Ok(CatalogReference { kind: kind_of_chars(&kind_tok), id }),
                    None => Err(InvalidReference { offending: string_of(&id_tok) }),
                }
            },
            None => {
                match parse_base62_id(&rest) {
                    Some(id) => Ok(CatalogReference { kind: ItemKind::Track, id }),
                    None => Err(InvalidReference { offending: string_of(&rest) }),
                }
            },
        }
    } else {
        match find_link_exec(&v) {
            Some(p) => {
                let n = v.len();
                proof {
                    assert(link_lit().len() == 12);
                    assert(p + 12 <= n);
                }
                let a = p + 12;
                let e1 = word_run_end_exec(&v, a);
                proof {
                    assert(e1 < v@.len());
                }
                let kind_tok = subvec(&v, a, e1);
                let b = e1 + 1;
                let e2 = word_run_end_exec(&v, b);
                let id_tok = subvec(&v, b, e2);
                match parse_base62_id(&id_tok) {
                    Some(id) => Ok(CatalogReference { kind: kind_of_chars(&kind_tok), id }),
                    None => Err(InvalidReference { offending: string_of(&id_tok) }),
                }
            },
            None => {
                match parse_base62_id(&v) {
                    Some(id) => Ok(CatalogReference { kind: ItemKind::Track, id }),
                    None => Err(InvalidReference { offending: string_of(&v) }),
                }
            },
        }
    }
}

} // verus!
