use quorium::bootstrap::{
    bootstrap_entries, bootstrap_needed, generate_bootstrap_ids, peers_from_file, peers_to_file,
};
use quorium::error::PeerError;
use quorium::peers::json_store::FileRead;
use quorium::peers::kv_store::KvLoad;
use quorium::peers::order::sort_by_index;
use quorium::peers::resolve::{Backend, Resolve, ResolveAction, ResolveEvent};
use quorium::peers::{fresh_roster, JsonPeerStore, KvPeerStore, PeerId, Uuid};

fn peer(index: usize, value: u128) -> PeerId {
    PeerId { index, uuid: Uuid::from_u128(value) }
}

fn save_target(action: &ResolveAction) -> (Backend, Vec<PeerId>) {
    match action {
        ResolveAction::Save(backend, peers) => (*backend, peers.clone()),
        _ => panic!("expected a save"),
    }
}

fn finished(action: ResolveAction) -> Result<Vec<PeerId>, PeerError> {
    match action {
        ResolveAction::Finish(result) => result,
        _ => panic!("expected the end"),
    }
}

#[test]
fn resolve_prefers_the_bucket_and_mirrors_it_to_the_file() {
    let roster = vec![peer(0, 1), peer(1, 2)];
    let (r, action) = Resolve::start(3);
    assert!(matches!(action, ResolveAction::Load(Backend::Kv)));
    let (r, action) = r.advance(ResolveEvent::Loaded(Ok(roster.clone())));
    assert_eq!(save_target(&action), (Backend::File, roster.clone()));
    let (_, action) = r.advance(ResolveEvent::Saved(Ok(())));
    assert_eq!(finished(action).unwrap(), roster);
}

#[test]
fn resolve_backfills_the_bucket_from_the_file() {
    let roster = vec![peer(0, 7)];
    let (r, _) = Resolve::start(3);
    let (r, action) = r.advance(ResolveEvent::Loaded(Ok(Vec::new())));
    assert!(matches!(action, ResolveAction::Load(Backend::File)));
    let (r, action) = r.advance(ResolveEvent::Loaded(Ok(roster.clone())));
    assert_eq!(save_target(&action), (Backend::Kv, roster.clone()));
    let (_, action) = r.advance(ResolveEvent::Saved(Ok(())));
    assert_eq!(finished(action).unwrap(), roster);
}

#[test]
fn resolve_generates_a_fresh_roster_and_stores_it_in_both() {
    let (r, _) = Resolve::start(3);
    let (r, _) = r.advance(ResolveEvent::Loaded(Ok(Vec::new())));
    let (r, action) = r.advance(ResolveEvent::Loaded(Ok(Vec::new())));
    let (backend, fresh) = save_target(&action);
    assert_eq!(backend, Backend::Kv);
    assert_eq!(fresh.iter().map(|p| p.index).collect::<Vec<_>>(), vec![0, 1, 2]);
    let (r, action) = r.advance(ResolveEvent::Saved(Ok(())));
    assert_eq!(save_target(&action), (Backend::File, fresh.clone()));
    assert!(!r.expects(&ResolveEvent::Loaded(Ok(Vec::new()))));
    let (r, action) = r.advance(ResolveEvent::Saved(Ok(())));
    assert_eq!(finished(action).unwrap(), fresh);
    assert!(!r.expects(&ResolveEvent::Saved(Ok(()))));
}

#[test]
fn resolve_stops_at_the_first_error() {
    let (r, _) = Resolve::start(3);
    let (_, action) = r.advance(ResolveEvent::Loaded(Err(PeerError::InvalidPeerId("x".to_owned()))));
    match finished(action) {
        Err(PeerError::InvalidPeerId(text)) => assert_eq!(text, "x"),
        other => panic!("unexpected {other:?}"),
    }

    let (r, _) = Resolve::start(3);
    let (r, _) = r.advance(ResolveEvent::Loaded(Ok(vec![peer(0, 1)])));
    let (_, action) = r.advance(ResolveEvent::Saved(Err(PeerError::InvalidPeerId("y".to_owned()))));
    assert!(matches!(finished(action), Err(PeerError::InvalidPeerId(_))));
}

#[test]
fn fresh_roster_is_indexed_from_zero() {
    let peers = fresh_roster(4);
    assert_eq!(peers.iter().map(|p| p.index).collect::<Vec<_>>(), vec![0, 1, 2, 3]);
    assert!(fresh_roster(0).is_empty());
}

#[test]
fn sort_by_index_is_stable() {
    let input = vec![peer(2, 1), peer(0, 2), peer(2, 3), peer(1, 4), peer(0, 5)];
    let sorted = sort_by_index(&input);
    assert_eq!(sorted, vec![peer(0, 2), peer(0, 5), peer(1, 4), peer(2, 1), peer(2, 3)]);
}

#[test]
fn kv_records_read_back_sorted() {
    let roster = vec![peer(0, 11), peer(1, 12), peer(2, 13)];
    let mut read = KvLoad::new();
    for p in [&roster[2], &roster[0], &roster[1]] {
        let (key, value) = KvPeerStore::record(p);
        assert_eq!(key, format!("node{}", p.index));
        read.accept(Some(&value)).unwrap();
    }
    read.accept(None).unwrap();
    assert_eq!(read.finish(), roster);
}

#[test]
fn kv_values_that_are_not_peer_ids_are_rejected() {
    let mut read = KvLoad::new();
    match read.accept(Some(b"ok")) {
        Err(PeerError::InvalidPeerId(text)) => assert_eq!(text, "ok"),
        other => panic!("unexpected {other:?}"),
    }
    match read.accept(Some(&[0xff, 0x00])) {
        Err(PeerError::InvalidPeerId(text)) => assert_eq!(text, "b\"\\xff\\0\""),
        other => panic!("unexpected {other:?}"),
    }
    assert!(read.finish().is_empty());
}

#[test]
fn json_file_missing_or_empty_means_no_peers() {
    let store = JsonPeerStore::new("peers.json");
    assert_eq!(store.path(), &std::path::PathBuf::from("peers.json"));
    assert!(matches!(store.contents(FileRead::Missing), Ok(None)));
    assert!(matches!(store.contents(FileRead::Contents(Vec::new())), Ok(None)));
    assert_eq!(store.contents(FileRead::Contents(b"[]".to_vec())).unwrap(), Some(b"[]".to_vec()));
    let failed = std::io::Error::new(std::io::ErrorKind::PermissionDenied, "denied");
    match store.contents(FileRead::Failed(failed)) {
        Err(PeerError::ReadFile { path, .. }) => assert_eq!(path, std::path::PathBuf::from("peers.json")),
        other => panic!("unexpected {other:?}"),
    }
}

#[test]
fn json_file_lists_peer_texts_and_ends_with_a_newline() {
    let roster = vec![peer(0, 0xdc354115_1e98_437f_bfbe_12a34ad0f669), peer(1, 1)];
    let bytes = JsonPeerStore::encode(&roster).unwrap();
    let text = String::from_utf8(bytes.clone()).unwrap();
    assert_eq!(
        text,
        "[\n  \"0-dc354115-1e98-437f-bfbe-12a34ad0f669\",\n  \"1-00000000-0000-0000-0000-000000000001\"\n]\n"
    );
    let listed: Vec<String> = serde_json::from_slice(&bytes).unwrap();
    let parsed: Vec<PeerId> = listed.iter().map(|s| s.parse().unwrap()).collect();
    assert_eq!(parsed, roster);
    assert_eq!(JsonPeerStore::encode(&[]).unwrap(), b"[]\n".to_vec());
}

#[test]
fn bootstrap_entries_name_index_and_id() {
    let ids = vec!["aaa".to_owned(), "bbb".to_owned()];
    let (keys, entries) = bootstrap_entries(&ids);
    assert_eq!(keys, vec!["node0-aaa", "node1-bbb"]);
    assert_eq!(entries, vec!["0-aaa", "1-bbb"]);
}

#[test]
fn bootstrap_generates_three_distinct_ids_whose_entries_are_peer_ids() {
    let ids = generate_bootstrap_ids();
    assert_eq!(ids.len(), 3);
    assert!(ids[0] != ids[1] && ids[1] != ids[2] && ids[0] != ids[2]);
    let (_, entries) = bootstrap_entries(&ids);
    for (i, entry) in entries.iter().enumerate() {
        let p: PeerId = entry.parse().unwrap();
        assert_eq!(p.index, i);
    }
}

#[test]
fn bootstrap_needed_only_when_both_are_empty() {
    let none: Vec<String> = Vec::new();
    let some = vec!["x".to_owned()];
    assert!(bootstrap_needed(&none, &none));
    assert!(!bootstrap_needed(&some, &none));
    assert!(!bootstrap_needed(&none, &some));
}

#[test]
fn bootstrap_file_round_trips() {
    let peers = vec!["0-a".to_owned(), "1-b\"q".to_owned()];
    let bytes = peers_to_file(&peers).unwrap();
    assert_eq!(peers_from_file(&bytes).unwrap(), peers);
    assert!(peers_from_file(b"").unwrap().is_empty());
    assert!(peers_from_file(b"{").is_err());
}

#[test]
fn kv_bucket_keeps_the_last_peer_saved_under_each_index() {
    let saved = vec![peer(2, 1), peer(0, 2), peer(2, 3), peer(1, 4), peer(0, 5)];
    let mut bucket = std::collections::HashMap::new();
    for p in &saved {
        let (key, value) = KvPeerStore::record(p);
        bucket.insert(key, value);
    }
    let mut read = KvLoad::new();
    for value in bucket.values() {
        read.accept(Some(value)).unwrap();
    }
    assert_eq!(read.finish(), vec![peer(0, 5), peer(1, 4), peer(2, 3)]);
}

#[test]
fn json_store_from_path_keeps_the_path() {
    let path = std::path::PathBuf::from("/tmp/roster/peers.json");
    let store = JsonPeerStore::from_path(path.clone());
    assert_eq!(store.path(), &path);
}

#[test]
fn kv_saving_twice_leaves_the_bucket_as_saving_once() {
    let saved = vec![peer(1, 7), peer(0, 8), peer(1, 9)];
    let mut once = std::collections::HashMap::new();
    for p in &saved {
        let (key, value) = KvPeerStore::record(p);
        once.insert(key, value);
    }
    let mut twice = once.clone();
    for p in &saved {
        let (key, value) = KvPeerStore::record(p);
        twice.insert(key, value);
    }
    assert_eq!(twice, once);
    assert_eq!(once.len(), 2);
    assert_eq!(once["node1"], b"1-00000000-0000-0000-0000-000000000009".to_vec());
}
