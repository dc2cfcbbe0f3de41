//! The peer roster as persisted to a local `peers.json` file: a pretty-printed
//! JSON array of peer id texts, followed by a newline.

use std::path::PathBuf;

use vstd::prelude::*;
use vstd::std_specs::convert::IntoSpec;
use vstd::utf8::encode_utf8;

use super::{lemma_text_round_trip, peer_id_from_text, PeerId};
use crate::error::PeerError;

verus! {

/// What `serde_json::from_slice::<Vec<String>>` reads from the bytes, or
/// `None` when it fails.
pub uninterp spec fn json_strings_result(bytes: Seq<u8>) -> Option<Seq<Seq<char>>>;

/// Calls `serde_json::from_slice` for a list of strings. Claimed: it succeeds
/// exactly when the name above gives a list, and then returns that list.
#[verifier::external_body]
pub(crate) fn json_strings(bytes: &[u8]) -> (r: Result<Vec<String>, serde_json::Error>)
    ensures
        r is Ok <==> json_strings_result(bytes@) is Some,
        r matches Ok(v) ==> Some(v.deep_view()) == json_strings_result(bytes@),
{
    serde_json::from_slice(bytes)
}

/// A lowercase hexadecimal digit as an ASCII byte.
pub open spec fn hex_byte(d: nat) -> u8 {
    if d < 10 {
        (48 + d) as u8
    } else {
        (87 + d) as u8
    }
}

/// How serde_json writes one byte of a string's UTF-8 inside quotes: `"` and
/// `\` and the controls `\b \t \n \f \r` as two-byte escapes, the other
/// controls below 0x20 as `\u00` and two lowercase hexadecimal digits, any
/// other byte as itself.
pub open spec fn json_escaped_byte(b: u8) -> Seq<u8> {
    if b == 0x22 {
        seq![0x5cu8, 0x22u8]
    } else if b == 0x5c {
        seq![0x5cu8, 0x5cu8]
    } else if b == 0x08 {
        seq![0x5cu8, 0x62u8]
    } else if b == 0x09 {
        seq![0x5cu8, 0x74u8]
    } else if b == 0x0a {
        seq![0x5cu8, 0x6eu8]
    } else if b == 0x0c {
        seq![0x5cu8, 0x66u8]
    } else if b == 0x0d {
        seq![0x5cu8, 0x72u8]
    } else if b < 0x20 {
        seq![0x5cu8, 0x75u8, 0x30u8, 0x30u8, hex_byte((b / 16) as nat), hex_byte((b % 16) as nat)]
    } else {
        seq![b]
    }
}

/// The escaped form of each byte, in order.
pub open spec fn json_escaped(bytes: Seq<u8>) -> Seq<u8>
    decreases bytes.len(),
{
    if bytes.len() == 0 {
        Seq::empty()
    } else {
        json_escaped(bytes.drop_last()) + json_escaped_byte(bytes.last())
    }
}

/// A string as a JSON string literal.
pub open spec fn json_string(s: Seq<char>) -> Seq<u8> {
    seq![0x22u8] + json_escaped(encode_utf8(s)) + seq![0x22u8]
}

/// The items of a pretty-printed JSON array of strings: each on a line of its
/// own, indented by two spaces, with a comma after all but the last.
pub open spec fn json_pretty_items(items: Seq<Seq<char>>) -> Seq<u8>
    decreases items.len(),
{
    if items.len() == 0 {
        Seq::empty()
    } else {
        let separator = if items.len() == 1 { seq![0x0au8] } else { seq![0x2cu8, 0x0au8] };
        json_pretty_items(items.drop_last()) + separator + seq![0x20u8, 0x20u8] + json_string(
            items.last(),
        )
    }
}

/// What `serde_json::to_vec_pretty` writes for a list of strings: `[]` for an
/// empty list, else `[`, the items, a newline and `]`.
pub open spec fn json_pretty_text(items: Seq<Seq<char>>) -> Seq<u8> {
    if items.len() == 0 {
        seq![0x5bu8, 0x5du8]
    } else {
        seq![0x5bu8] + json_pretty_items(items) + seq![0x0au8, 0x5du8]
    }
}

/// Calls `serde_json::to_vec_pretty` on a list of strings. Claimed: the bytes
/// are the pretty-printed array above (serde_json's `PrettyFormatter` with its
/// two-space indent and its escape table); the call succeeds, since strings
/// always serialize and writing into a `Vec` cannot fail; and reading the
/// bytes back with `serde_json::from_slice`, with or without a trailing
/// newline, gives the same strings.
#[verifier::external_body]
pub(crate) fn json_pretty(items: &Vec<String>) -> (r: Result<Vec<u8>, serde_json::Error>)
    ensures
        r is Ok,
        r matches Ok(bytes) ==> bytes@ == json_pretty_text(items.deep_view()),
        r matches Ok(bytes) ==> json_strings_result(bytes@) == Some(items.deep_view()),
        r matches Ok(bytes) ==> json_strings_result(bytes@.push(10u8)) == Some(items.deep_view()),
{
    serde_json::to_vec_pretty(items)
}

/// Clones a path (`PathBuf::clone`). Claimed: the copy is the same path.
#[verifier::external_body]
fn clone_path(path: &PathBuf) -> (r: PathBuf)
    ensures
        r == *path,
{
    path.clone()
}

/// The texts of a roster, in order.
pub open spec fn roster_texts(peers: Seq<PeerId>) -> Seq<Seq<char>> {
    peers.map_values(|p: PeerId| p.rendered())
}

/// The texts of a roster read back, one by one, as its peers: the list that
/// `JsonPeerStore::encode` writes decodes to the roster saved, in order and
/// with any duplicates kept.
pub proof fn lemma_roster_texts_read_back(peers: Seq<PeerId>)
    ensures
        roster_texts(peers).len() == peers.len(),
        forall|i: int|
            0 <= i < peers.len() ==> peer_id_from_text(#[trigger] roster_texts(peers)[i]) == Some(peers[i]),
{
    assert forall|i: int| 0 <= i < peers.len() implies peer_id_from_text(#[trigger] roster_texts(peers)[i])
        == Some(peers[i]) by {
        lemma_text_round_trip(peers[i]);
    }
}

/// What reading the roster file gave.
pub enum FileRead {
    /// The file's bytes.
    Contents(Vec<u8>),
    /// There is no such file.
    Missing,
    /// Reading failed for another reason.
    Failed(std::io::Error),
}

/// Peer roster persisted to a local `peers.json` file.
pub struct JsonPeerStore {
    path: PathBuf,
}

impl JsonPeerStore {
    pub closed spec fn path_value(&self) -> PathBuf {
        self.path
    }

    pub fn new<P: Into<PathBuf>>(path: P) -> (r: JsonPeerStore)
        ensures
            P::obeys_into_spec() ==> r.path_value() == path.into_spec(),
    {
        JsonPeerStore::from_path(path.into())
    }

    /// A store over the file at `path`.
    pub fn from_path(path: PathBuf) -> (r: JsonPeerStore)
        ensures
            r.path_value() == path,
    {
        JsonPeerStore { path }
    }

    pub fn path(&self) -> (r: &PathBuf)
        ensures
            *r == self.path_value(),
    {
        &self.path
    }

    /// Decides what a read of the file means. A missing file, or an empty
    /// one, means "no peers yet" (`Ok(None)`), not a failure; any other read
    /// failure is an error naming the file; otherwise the bytes are the peer
    /// list to parse (`Ok(Some(bytes))`).
    pub fn contents(&self, read: FileRead) -> (r: Result<Option<Vec<u8>>, PeerError>)
        ensures
            match read {
                FileRead::Missing => r matches Ok(None),
                FileRead::Failed(e) => r matches Err(PeerError::ReadFile { path, source }) && path
                    == self.path_value() && source == e,
                FileRead::Contents(bytes) => if bytes@.len() == 0 {
                    r matches Ok(None)
                } else {
                    r matches Ok(Some(b)) && b@ == bytes@
                },
            },
    {
        match read {
            FileRead::Missing => Ok(None),
            FileRead::Failed(source) => Err(PeerError::ReadFile { path: clone_path(&self.path), source }),
            FileRead::Contents(bytes) => {
                if bytes.len() == 0 {
                    Ok(None)
                } else {
                    Ok(Some(bytes))
                }
            },
        }
    }

    /// The file contents for a roster: the pretty-printed JSON array of the
    /// peer id texts, then a newline. Read back as JSON, the contents list
    /// exactly those texts, each of which parses back to its peer.
    pub fn encode(peers: &[PeerId]) -> (r: Result<Vec<u8>, PeerError>)
        ensures
            r matches Ok(bytes) && bytes@ == json_pretty_text(roster_texts(peers@)).push(10u8),
            r matches Ok(bytes) && json_strings_result(bytes@) == Some(roster_texts(peers@)),
    {
        let mut texts: Vec<String> = Vec::new();
        let n = peers.len();
        let mut i: usize = 0;
        while i < n
            invariant
                i <= n,
                n == peers@.len(),
                texts@.len() == i,
                forall|j: int| 0 <= j < i ==> #[trigger] texts@[j]@ == peers@[j].rendered(),
            decreases n - i,
        {
            let text = peers[i].to_string();
            texts.push(text);
            i = i + 1;
        }
        proof {
            assert(texts.deep_view() =~= roster_texts(peers@));
        }
        match json_pretty(&texts) {
            Ok(mut json) => {
                json.push(10u8);
                Ok(json)
            },
            Err(e) => Err(PeerError::Serialize(e)),
        }
    }
}

} // verus!
