use daytrip::resolve::{encode_base62, parse_base62_id, parse_item_type, resolve_reference,
    CatalogReference, ItemKind};
use daytrip::text::{chars_of, string_of};

const KARMA_ID: u128 = 281363587415969826517075833868007328126;

fn decode(s: &str) -> Option<u128> {
    parse_base62_id(&chars_of(s))
}

#[test]
fn base62_decode_known_value() {
    assert_eq!(decode("6rqhFgbbKwnb9MLmUQDhG6"), Some(KARMA_ID));
    assert_eq!(decode("0000000000000000000000"), Some(0));
    assert_eq!(decode("0000000000000000000001"), Some(1));
}

#[test]
fn base62_decode_rejects_bad_input() {
    // Wrong length.
    assert_eq!(decode("6rqhFgbbKwnb9MLmUQDhG"), None);
    assert_eq!(decode(""), None);
    // A character outside the alphabet.
    assert_eq!(decode("6rqhFgbbKwnb9MLmUQDh-6"), None);
    // 22 valid digits whose value exceeds 128 bits.
    assert_eq!(decode("zzzzzzzzzzzzzzzzzzzzzz"), None);
}

#[test]
fn base62_round_trip() {
    for id in [0u128, 1, 61, 62, KARMA_ID, u128::MAX] {
        let enc = string_of(&encode_base62(id));
        assert_eq!(enc.len(), 22);
        assert_eq!(decode(&enc), Some(id));
    }
    assert_eq!(string_of(&encode_base62(0)), "0000000000000000000000");
    assert_eq!(string_of(&encode_base62(1)), "0000000000000000000001");
}

#[test]
fn resolves_native_uri_with_kind() {
    let r = resolve_reference("spotify:album:6rqhFgbbKwnb9MLmUQDhG6").unwrap();
    assert_eq!(r, CatalogReference { kind: ItemKind::Album, id: KARMA_ID });
    let r = resolve_reference("spotify:episode:6rqhFgbbKwnb9MLmUQDhG6").unwrap();
    assert_eq!(r.kind, ItemKind::Episode);
}

#[test]
fn resolves_native_uri_without_kind_as_track() {
    let r = resolve_reference("spotify:6rqhFgbbKwnb9MLmUQDhG6").unwrap();
    assert_eq!(r, CatalogReference { kind: ItemKind::Track, id: KARMA_ID });
}

#[test]
fn native_uri_with_bad_id_is_invalid() {
    let e = resolve_reference("spotify:track:notbase62!").unwrap_err();
    assert_eq!(e.offending, "notbase62!");
}

#[test]
fn resolves_share_link() {
    let r = resolve_reference("https://open.spotify.com/playlist/6rqhFgbbKwnb9MLmUQDhG6?si=xyz")
        .unwrap();
    assert_eq!(r, CatalogReference { kind: ItemKind::Playlist, id: KARMA_ID });
}

#[test]
fn share_link_unknown_kind_defaults_to_track() {
    let r = resolve_reference("https://open.spotify.com/mystery/6rqhFgbbKwnb9MLmUQDhG6").unwrap();
    assert_eq!(r.kind, ItemKind::Track);
}

#[test]
fn share_link_bad_id_is_invalid() {
    let e = resolve_reference("https://open.spotify.com/track/has_underscore_in_id__").unwrap_err();
    assert_eq!(e.offending, "has_underscore_in_id__");
}

#[test]
fn resolves_bare_id_as_track() {
    let r = resolve_reference("6rqhFgbbKwnb9MLmUQDhG6").unwrap();
    assert_eq!(r, CatalogReference { kind: ItemKind::Track, id: KARMA_ID });
}

#[test]
fn bare_garbage_is_invalid() {
    let e = resolve_reference("not a reference at all").unwrap_err();
    assert_eq!(e.offending, "not a reference at all");
}

#[test]
fn uri_round_trip() {
    for kind in [ItemKind::Track, ItemKind::Album, ItemKind::Playlist, ItemKind::Episode,
        ItemKind::Show] {
        let cr = CatalogReference { kind, id: KARMA_ID };
        let uri = cr.to_uri();
        assert_eq!(resolve_reference(&uri).unwrap(), cr);
    }
    let cr = CatalogReference { kind: ItemKind::Track, id: KARMA_ID };
    assert_eq!(cr.to_uri(), "spotify:track:6rqhFgbbKwnb9MLmUQDhG6");
}

#[test]
fn item_type_vocabulary() {
    assert_eq!(parse_item_type("track"), ItemKind::Track);
    assert_eq!(parse_item_type("album"), ItemKind::Album);
    assert_eq!(parse_item_type("playlist"), ItemKind::Playlist);
    assert_eq!(parse_item_type("episode"), ItemKind::Episode);
    assert_eq!(parse_item_type("show"), ItemKind::Show);
    assert_eq!(parse_item_type("artist"), ItemKind::Track);
    assert_eq!(parse_item_type(""), ItemKind::Track);
}

#[test]
fn composite_kinds() {
    assert!(ItemKind::Album.is_composite());
    assert!(ItemKind::Playlist.is_composite());
    assert!(ItemKind::Show.is_composite());
    assert!(!ItemKind::Track.is_composite());
    assert!(!ItemKind::Episode.is_composite());
}
