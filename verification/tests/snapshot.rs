use daytrip::playlist::{SavedPlaylist, SavedTrack};
use daytrip::resolve::ItemKind;

fn sample() -> SavedPlaylist {
    SavedPlaylist {
        title: "Mix".to_string(),
        tracks: vec![
            SavedTrack::Id("spotify:track:6rqhFgbbKwnb9MLmUQDhG6".to_string()),
            SavedTrack::Object {
                id: "spotify:track:0000000000000000000001".to_string(),
                name: Some("Frozen Name".to_string()),
            },
            SavedTrack::Object {
                id: "spotify:track:0000000000000000000000".to_string(),
                name: None,
            },
        ],
    }
}

fn assert_same(a: &SavedPlaylist, b: &SavedPlaylist) {
    assert_eq!(a.title, b.title);
    assert_eq!(a.tracks.len(), b.tracks.len());
    for (x, y) in a.tracks.iter().zip(b.tracks.iter()) {
        match (x, y) {
            (SavedTrack::Id(i), SavedTrack::Id(j)) => assert_eq!(i, j),
            (
                SavedTrack::Object { id: i, name: n },
                SavedTrack::Object { id: j, name: m },
            ) => {
                assert_eq!(i, j);
                assert_eq!(n, m);
            },
            _ => panic!("entry shapes differ"),
        }
    }
}

#[test]
fn serialize_exact_document() {
    let doc = sample().serialize();
    let expected = "title = \"Mix\"\ntracks = [\n    \"spotify:track:6rqhFgbbKwnb9MLmUQDhG6\",\n    { id = \"spotify:track:0000000000000000000001\", name = \"Frozen Name\" },\n    { id = \"spotify:track:0000000000000000000000\" },\n]\n";
    assert_eq!(doc, expected);
}

#[test]
fn round_trip_plain() {
    let p = sample();
    let q = SavedPlaylist::deserialize(&p.serialize()).unwrap();
    assert_same(&p, &q);
}

#[test]
fn round_trip_awkward_characters() {
    let p = SavedPlaylist {
        title: "A \"quoted\" title \\ with\nnewline\tand\rreturn".to_string(),
        tracks: vec![
            SavedTrack::Id("id with spaces and \"quotes\"".to_string()),
            SavedTrack::Object {
                id: "x\\y".to_string(),
                name: Some("line one\nline two".to_string()),
            },
        ],
    };
    let q = SavedPlaylist::deserialize(&p.serialize()).unwrap();
    assert_same(&p, &q);
}

#[test]
fn round_trip_empty_track_list() {
    let p = SavedPlaylist { title: "Empty".to_string(), tracks: vec![] };
    let doc = p.serialize();
    assert_eq!(doc, "title = \"Empty\"\ntracks = [\n]\n");
    let q = SavedPlaylist::deserialize(&doc).unwrap();
    assert_same(&p, &q);
}

#[test]
fn malformed_documents_are_rejected() {
    assert!(SavedPlaylist::deserialize("").is_none());
    assert!(SavedPlaylist::deserialize("title = \"x\"\n").is_none());
    assert!(SavedPlaylist::deserialize("nonsense").is_none());
    assert!(SavedPlaylist::deserialize("title = \"x\"\ntracks = [\n").is_none());
    assert!(SavedPlaylist::deserialize("title = \"x\"\ntracks = [\n    \"unterminated\n]\n")
        .is_none());
    assert!(SavedPlaylist::deserialize("title = \"x\"\ntracks = [\n]\ntrailing").is_none());
    // An unknown escape is an error.
    assert!(SavedPlaylist::deserialize("title = \"a\\qb\"\ntracks = [\n]\n").is_none());
}

#[test]
fn entry_id_resolves() {
    let t = SavedTrack::Id("spotify:album:6rqhFgbbKwnb9MLmUQDhG6".to_string());
    let r = t.id().unwrap();
    assert_eq!(r.kind, ItemKind::Album);
    let bad = SavedTrack::Id("***".to_string());
    assert!(bad.id().is_err());
}

#[test]
fn entry_name_override() {
    let t = SavedTrack::Id("x".to_string());
    assert_eq!(t.name(), None);
    let t = SavedTrack::Object { id: "x".to_string(), name: None };
    assert_eq!(t.name(), None);
    let t = SavedTrack::Object { id: "x".to_string(), name: Some("Kept".to_string()) };
    assert_eq!(t.name(), Some("Kept"));
}
