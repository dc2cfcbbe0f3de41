//! Bootstrapping a cluster's peer list by hand: when neither the bucket nor
//! the file has any peers, three fresh ids are generated, stored in the bucket
//! under `node<i>-<uuid>` and listed in the file as `<i>-<uuid>`.

use vstd::prelude::*;

use crate::peers::json_store::{json_pretty, json_pretty_text, json_strings, json_strings_result};
use crate::peers::node_uuid::{is_random_v4, lemma_hyphenated_parses_back, uuid_hyphenated, Uuid};
use crate::text::{decimal, push_char, push_decimal};

verus! {

/// How many peers a bootstrap generates.
pub const BOOTSTRAP_PEERS: usize = 3;

/// `s` is the hyphenated text of a random (version 4) UUID.
pub open spec fn is_random_uuid_text(s: Seq<char>) -> bool {
    exists|v: u128| s == uuid_hyphenated(v) && is_random_v4(v)
}

/// A fresh random UUID in its hyphenated text form.
pub fn generate_unique_peer_id() -> (r: String)
    ensures
        is_random_uuid_text(r@),
{
    let u = Uuid::new_v4();
    u.to_string()
}

/// `BOOTSTRAP_PEERS` fresh ids, no two of them the same.
pub fn generate_bootstrap_ids() -> (r: Vec<String>)
    ensures
        r@.len() == BOOTSTRAP_PEERS,
        forall|i: int| 0 <= i < r@.len() ==> is_random_uuid_text(#[trigger] r@[i]@),
        forall|i: int, j: int| 0 <= i < r@.len() && 0 <= j < r@.len() && i != j ==> r@[i]@ != r@[j]@,
{
    let mut ids: Vec<String> = Vec::new();
    let mut drawn: Vec<u128> = Vec::new();
    let mut i: usize = 0;
    while i < BOOTSTRAP_PEERS
        invariant
            i <= BOOTSTRAP_PEERS,
            ids@.len() == i,
            drawn@.len() == i,
            forall|j: int| 0 <= j < i ==> is_random_v4(#[trigger] drawn@[j]),
            forall|j: int| 0 <= j < i ==> (#[trigger] ids@[j])@ == uuid_hyphenated(drawn@[j]),
            forall|j: int, k: int| 0 <= j < k < i ==> #[trigger] drawn@[j] != #[trigger] drawn@[k],
        decreases BOOTSTRAP_PEERS - i,
    {
        let u = Uuid::new_v4_avoiding(&drawn);
        proof {
            assert forall|j: int| 0 <= j < i implies drawn@[j] != u.value by {
                assert(drawn@.contains(drawn@[j]));
            }
        }
        ids.push(u.to_string());
        drawn.push(u.value);
        i = i + 1;
    }
    proof {
        assert forall|j: int| 0 <= j < ids@.len() implies is_random_uuid_text(#[trigger] ids@[j]@) by {
            assert(ids@[j]@ == uuid_hyphenated(drawn@[j]) && is_random_v4(drawn@[j]));
        }
        assert forall|j: int, k: int| 0 <= j < ids@.len() && 0 <= k < ids@.len() && j != k implies ids@[j]@
            != ids@[k]@ by {
            lemma_hyphenated_parses_back(drawn@[j]);
            lemma_hyphenated_parses_back(drawn@[k]);
            if j < k {
                assert(drawn@[j] != drawn@[k]);
            } else {
                assert(drawn@[k] != drawn@[j]);
            }
        }
    }
    ids
}

/// The bucket key for the `i`-th bootstrap id: `node<i>-<id>`.
pub open spec fn bootstrap_key(i: int, id: Seq<char>) -> Seq<char> {
    seq!['n', 'o', 'd', 'e'] + decimal(i as nat) + seq!['-'] + id
}

/// The file entry for the `i`-th bootstrap id: `<i>-<id>`.
pub open spec fn bootstrap_entry(i: int, id: Seq<char>) -> Seq<char> {
    decimal(i as nat) + seq!['-'] + id
}

/// The bucket keys and the file entries for the given ids, in order.
pub fn bootstrap_entries(node_ids: &Vec<String>) -> (r: (Vec<String>, Vec<String>))
    ensures
        r.0@.len() == node_ids@.len(),
        r.1@.len() == node_ids@.len(),
        forall|i: int| 0 <= i < node_ids@.len() ==> #[trigger] r.0@[i]@ == bootstrap_key(i, node_ids@[i]@),
        forall|i: int| 0 <= i < node_ids@.len() ==> #[trigger] r.1@[i]@ == bootstrap_entry(i, node_ids@[i]@),
{
    let mut keys: Vec<String> = Vec::new();
    let mut entries: Vec<String> = Vec::new();
    let n = node_ids.len();
    let mut i: usize = 0;
    while i < n
        invariant
            i <= n,
            n == node_ids@.len(),
            keys@.len() == i,
            entries@.len() == i,
            forall|j: int| 0 <= j < i ==> #[trigger] keys@[j]@ == bootstrap_key(j, node_ids@[j]@),
            forall|j: int| 0 <= j < i ==> #[trigger] entries@[j]@ == bootstrap_entry(j, node_ids@[j]@),
        decreases n - i,
    {
        let id = node_ids[i].as_str();
        let mut entry = String::new();
        push_decimal(&mut entry, i);
        push_char(&mut entry, '-');
        entry.append(id);
        let mut key = String::new();
        push_char(&mut key, 'n');
        push_char(&mut key, 'o');
        push_char(&mut key, 'd');
        push_char(&mut key, 'e');
        key.append(entry.as_str());
        proof {
            assert(entry@ =~= bootstrap_entry(i as int, node_ids@[i as int]@));
            assert(key@ =~= bootstrap_key(i as int, node_ids@[i as int]@));
        }
        keys.push(key);
        entries.push(entry);
        i = i + 1;
    }
    (keys, entries)
}

/// A bootstrap is due when neither the bucket nor the file lists any peer.
pub fn bootstrap_needed(kv_peers: &Vec<String>, file_peers: &Vec<String>) -> (r: bool)
    ensures
        r == (kv_peers@.len() == 0 && file_peers@.len() == 0),
{
    kv_peers.len() == 0 && file_peers.len() == 0
}

/// The peer list that the peer file's contents hold, or `None` when they are
/// not a JSON array of strings: empty contents are an empty list.
pub open spec fn file_peers(data: Seq<u8>) -> Option<Seq<Seq<char>>> {
    if data.len() == 0 {
        Some(Seq::empty())
    } else {
        json_strings_result(data)
    }
}

/// Reads the peer file's contents: empty contents are an empty list,
/// anything else must be a JSON array of strings.
pub fn peers_from_file(data: &[u8]) -> (r: Result<Vec<String>, serde_json::Error>)
    ensures
        r is Ok <==> file_peers(data@) is Some,
        r matches Ok(v) ==> Some(v.deep_view()) == file_peers(data@),
        data@.len() == 0 ==> (r matches Ok(v) && v@.len() == 0),
        data@.len() > 0 ==> (r is Ok <==> json_strings_result(data@) is Some),
        data@.len() > 0 ==> (r matches Ok(v) ==> Some(v.deep_view()) == json_strings_result(data@)),
{
    if data.len() == 0 {
        let none: Vec<String> = Vec::new();
        proof {
            assert(none.deep_view() =~= Seq::<Seq<char>>::empty());
        }
        return Ok(none);
    }
    json_strings(data)
}

/// Non-empty contents of the peer file list exactly what serde_json reads
/// from them as a list of strings, a trailing newline or not; only empty
/// contents stand for the empty list without being JSON.
pub proof fn lemma_file_peers_are_json(data: Seq<u8>)
    ensures
        data.len() > 0 ==> file_peers(data) == json_strings_result(data),
        data.len() == 0 ==> file_peers(data) == Some(Seq::<Seq<char>>::empty()),
{
}

/// The peer file's contents for a list of peers: pretty-printed JSON, which
/// reads back as the same list.
pub fn peers_to_file(peers: &Vec<String>) -> (r: Result<Vec<u8>, serde_json::Error>)
    ensures
        r matches Ok(bytes) && bytes@ == json_pretty_text(peers.deep_view()),
        r matches Ok(bytes) && file_peers(bytes@) == Some(peers.deep_view()),
        r matches Ok(bytes) && bytes@.len() > 0 && json_strings_result(bytes@) == Some(peers.deep_view()),
        r matches Ok(bytes) && json_strings_result(bytes@.push(10u8)) == Some(peers.deep_view()),
        r matches Ok(bytes) && file_peers(bytes@.push(10u8)) == Some(peers.deep_view()),
{
    let r = json_pretty(peers);
    proof {
        if let Ok(bytes) = &r {
            assert(bytes@.len() >= 2);
        }
    }
    r
}

} // verus!
