//! Peer identities and the roster that names every node of the cluster.

use vstd::prelude::*;

use crate::error::PeerError;
use crate::text::{decimal, decimal_string, parse_decimal, parse_usize, push_char, push_decimal};

pub mod node_uuid;
pub mod order;
pub mod json_store;
pub mod kv_store;
pub mod resolve;

pub use json_store::JsonPeerStore;
pub use kv_store::KvPeerStore;

pub use node_uuid::Uuid;
use node_uuid::{is_random_v4, uuid_hyphenated, uuid_parse_result};

verus! {

/// No character of `s` is a `-`.
pub open spec fn dash_free(s: Seq<char>) -> bool {
    forall|i: int| 0 <= i < s.len() ==> #[trigger] s[i] != '-'
}

/// `i` is the position of the first `-` in `s`.
pub open spec fn is_first_dash(s: Seq<char>, i: int) -> bool {
    0 <= i < s.len() && s[i] == '-' && dash_free(s.subrange(0, i))
}

/// The peer id that a text names: the text up to its first `-` is the index
/// in decimal, the rest is the UUID in any form the `uuid` crate reads.
pub open spec fn peer_id_from_text(s: Seq<char>) -> Option<PeerId> {
    if exists|i: int| is_first_dash(s, i) {
        let i = choose|i: int| is_first_dash(s, i);
        match (parse_usize(s.subrange(0, i)), uuid_parse_result(s.subrange(i + 1, s.len() as int))) {
            (Some(index), Some(value)) => Some(PeerId { index, uuid: Uuid { value } }),
            _ => None,
        }
    } else {
        None
    }
}

/// The key a peer occupies in the key-value bucket: `node<index>`.
pub open spec fn key_text(index: usize) -> Seq<char> {
    seq!['n', 'o', 'd', 'e'] + decimal(index as nat)
}

/// Identity of one MPC node, rendered as `<index>-<uuid>`.
///
/// Parsing at the boundary keeps malformed identities from propagating as
/// unchecked strings.
#[derive(Clone, Copy, Debug, PartialEq, Eq, Hash, Structural)]
pub struct PeerId {
    pub index: usize,
    pub uuid: Uuid,
}

impl PeerId {
    /// The text form `<index>-<uuid>`, with the index in decimal and the UUID
    /// hyphenated in lowercase.
    pub open spec fn rendered(self) -> Seq<char> {
        decimal(self.index as nat) + seq!['-'] + uuid_hyphenated(self.uuid.value)
    }

    /// A peer with the given index and a fresh random UUID.
    pub fn new(index: usize) -> (r: PeerId)
        ensures
            r.index == index,
            is_random_v4(r.uuid.value),
    {
        PeerId { index, uuid: Uuid::new_v4() }
    }

    /// Key this peer occupies in the KV bucket.
    pub fn key(&self) -> (r: String)
        ensures
            r@ == key_text(self.index),
    {
        let mut out = String::new();
        push_char(&mut out, 'n');
        push_char(&mut out, 'o');
        push_char(&mut out, 'd');
        push_char(&mut out, 'e');
        push_decimal(&mut out, self.index);
        proof {
            assert(out@ =~= key_text(self.index));
        }
        out
    }

    /// The text form `<index>-<uuid>`; parsing it gives this peer back.
    pub fn to_string(&self) -> (r: String)
        ensures
            r@ == self.rendered(),
    {
        let mut out = decimal_string(self.index);
        push_char(&mut out, '-');
        self.uuid.push_to(&mut out);
        proof {
            assert(out@ =~= self.rendered());
        }
        out
    }

    /// Parses `<index>-<uuid>`. The UUID itself contains `-`, so only the
    /// first one separates the index.
    pub fn parse(s: &str) -> (r: Result<PeerId, PeerError>)
        ensures
            r is Ok <==> peer_id_from_text(s@) is Some,
            r matches Ok(p) ==> peer_id_from_text(s@) == Some(p),
            r matches Err(e) ==> (e matches PeerError::InvalidPeerId(t) && t@ == s@),
            forall|p: PeerId| #[trigger] p.rendered() == s@ ==> (r matches Ok(q) && q == p),
    {
        let n = s.unicode_len();
        match first_dash(s) {
            None => {
                proof {
                    assert forall|i: int| !is_first_dash(s@, i) by {
                        if is_first_dash(s@, i) {
                            assert(s@[i] == '-');
                        }
                    }
                    assert forall|p: PeerId| #[trigger] p.rendered() != s@ by {
                        lemma_rendered_first_dash(p);
                        if p.rendered() == s@ {
                            assert(s@[decimal(p.index as nat).len() as int] == '-');
                        }
                    }
                }
                Err(PeerError::InvalidPeerId(s.to_owned()))
            },
            Some(pos) => {
                proof {
                    lemma_first_dash_unique(s@, pos as int);
                    assert forall|p: PeerId| #[trigger] p.rendered() == s@ implies
                        decimal(p.index as nat).len() == pos
                        && s@.subrange(0, pos as int) == decimal(p.index as nat)
                        && s@.subrange(pos + 1, n as int) == uuid_hyphenated(p.uuid.value) by {
                        lemma_rendered_first_dash(p);
                        lemma_first_dash_unique(s@, decimal(p.index as nat).len() as int);
                        assert(s@.subrange(0, pos as int) =~= decimal(p.index as nat));
                        assert(s@.subrange(pos + 1, n as int) =~= uuid_hyphenated(p.uuid.value));
                    }
                }
                let head = s.substring_char(0, pos);
                let tail = s.substring_char(pos + 1, n);
                let index = parse_decimal(head);
                let uuid = Uuid::parse(tail);
                proof {
                    assert forall|p: PeerId| #[trigger] p.rendered() == s@ implies
                        index == Some(p.index) && uuid == Some(p.uuid) by {
                        crate::text::lemma_parse_decimal_rendering(p.index);
                    }
                }
                match (index, uuid) {
                    (Some(index), Some(uuid)) => Ok(PeerId { index, uuid }),
                    _ => Err(PeerError::InvalidPeerId(s.to_owned())),
                }
            },
        }
    }
}

/// A roster of `want` peers with indices `0..want`, each with a fresh random
/// UUID of its own: no two peers share one.
pub open spec fn is_fresh_roster(peers: Seq<PeerId>, want: usize) -> bool {
    &&& peers.len() == want
    &&& forall|i: int| 0 <= i < peers.len() ==> (#[trigger] peers[i]).index == i && is_random_v4(peers[i].uuid.value)
    &&& forall|i: int, j: int| 0 <= i < j < peers.len() ==> (#[trigger] peers[i]).uuid != (#[trigger] peers[j]).uuid
}

/// Generates a fresh roster of `want` peers, indexed `0..want`, each with a
/// random UUID drawn for it; the UUIDs are pairwise different.
pub fn fresh_roster(want: usize) -> (r: Vec<PeerId>)
    ensures
        is_fresh_roster(r@, want),
        r@.len() == want,
        forall|i: int| 0 <= i < r@.len() ==> (#[trigger] r@[i]).index == i && is_random_v4(r@[i].uuid.value),
        forall|i: int, j: int| 0 <= i < r@.len() && 0 <= j < r@.len() && i != j ==> r@[i].uuid != r@[j].uuid,
{
    let mut peers: Vec<PeerId> = Vec::new();
    let mut drawn: Vec<u128> = Vec::new();
    let mut i: usize = 0;
    while i < want
        invariant
            i <= want,
            peers@.len() == i,
            drawn@.len() == i,
            forall|j: int| 0 <= j < i ==> (#[trigger] peers@[j]).index == j && is_random_v4(peers@[j].uuid.value),
            forall|j: int| 0 <= j < i ==> #[trigger] drawn@[j] == peers@[j].uuid.value,
            forall|j: int, k: int| 0 <= j < k < i ==> (#[trigger] peers@[j]).uuid != (#[trigger] peers@[k]).uuid,
        decreases want - i,
    {
        let uuid = Uuid::new_v4_avoiding(&drawn);
        proof {
            assert forall|j: int| 0 <= j < i implies peers@[j].uuid != uuid by {
                assert(drawn@.contains(drawn@[j]));
            }
        }
        peers.push(PeerId { index: i, uuid });
        drawn.push(uuid.value);
        i = i + 1;
    }
    peers
}

/// A copy of a roster.
pub fn copy_roster(peers: &Vec<PeerId>) -> (r: Vec<PeerId>)
    ensures
        r@ == peers@,
{
    let mut out: Vec<PeerId> = Vec::new();
    let n = peers.len();
    let mut i: usize = 0;
    while i < n
        invariant
            i <= n,
            n == peers@.len(),
            out@ == peers@.subrange(0, i as int),
        decreases n - i,
    {
        out.push(peers[i]);
        proof {
            assert(out@ =~= peers@.subrange(0, i + 1));
        }
        i = i + 1;
    }
    proof {
        assert(out@ =~= peers@);
    }
    out
}

impl core::str::FromStr for PeerId {
    type Err = PeerError;

    fn from_str(s: &str) -> (r: Result<PeerId, PeerError>)
        ensures
            r is Ok <==> peer_id_from_text(s@) is Some,
            r matches Ok(p) ==> peer_id_from_text(s@) == Some(p),
            r matches Err(e) ==> (e matches PeerError::InvalidPeerId(t) && t@ == s@),
            forall|p: PeerId| #[trigger] p.rendered() == s@ ==> (r matches Ok(q) && q == p),
    {
        PeerId::parse(s)
    }
}

impl From<PeerId> for String {
    fn from(peer: PeerId) -> (r: String)
        ensures
            r@ == peer.rendered(),
    {
        peer.to_string()
    }
}

/// The generic `From` contract is not claimed: no spec function can name the
/// `String` that holds a given text. The impl's own `ensures` says what it
/// gives.
impl vstd::std_specs::convert::FromSpecImpl<PeerId> for String {
    open spec fn obeys_from_spec() -> bool {
        false
    }

    open spec fn from_spec(v: PeerId) -> String {
        vstd::pervasive::arbitrary()
    }
}

/// What converting a string into a peer id gives: the peer id it names, or
/// the string itself as an invalid peer id.
pub open spec fn peer_id_try_from(value: String) -> Result<PeerId, PeerError> {
    match peer_id_from_text(value@) {
        Some(p) => Ok(p),
        None => Err(PeerError::InvalidPeerId(value)),
    }
}

impl TryFrom<String> for PeerId {
    type Error = PeerError;

    fn try_from(value: String) -> (r: Result<PeerId, PeerError>)
        ensures
            r == peer_id_try_from(value),
            forall|p: PeerId| #[trigger] p.rendered() == value@ ==> (r matches Ok(q) && q == p),
    {
        match PeerId::parse(value.as_str()) {
            Ok(peer) => Ok(peer),
            Err(_) => Err(PeerError::InvalidPeerId(value)),
        }
    }
}

impl vstd::std_specs::convert::TryFromSpecImpl<String> for PeerId {
    open spec fn obeys_try_from_spec() -> bool {
        true
    }

    open spec fn try_from_spec(v: String) -> Result<PeerId, PeerError> {
        peer_id_try_from(v)
    }
}

/// The position of the first `-` in `s`, if there is one.
fn first_dash(s: &str) -> (r: Option<usize>)
    ensures
        r matches Some(i) ==> is_first_dash(s@, i as int),
        r is None ==> dash_free(s@),
{
    let n = s.unicode_len();
    let mut i: usize = 0;
    while i < n
        invariant
            i <= n,
            n == s@.len(),
            dash_free(s@.subrange(0, i as int)),
        decreases n - i,
    {
        if s.get_char(i) == '-' {
            return Some(i);
        }
        proof {
            assert forall|j: int| 0 <= j < i + 1 implies #[trigger] s@.subrange(0, i + 1)[j] != '-' by {
                if j < i {
                    assert(s@.subrange(0, i + 1)[j] == s@.subrange(0, i as int)[j]);
                }
            }
        }
        i = i + 1;
    }
    proof {
        assert(s@.subrange(0, i as int) =~= s@);
    }
    None
}

proof fn lemma_first_dash_unique(s: Seq<char>, i: int)
    requires
        is_first_dash(s, i),
    ensures
        forall|j: int| is_first_dash(s, j) ==> j == i,
        (choose|j: int| is_first_dash(s, j)) == i,
{
    assert forall|j: int| is_first_dash(s, j) implies j == i by {
        if j < i {
            assert(s.subrange(0, i)[j] == s[j]);
        } else if j > i {
            assert(s.subrange(0, j)[i] == s[i]);
        }
    }
}

/// The text form of a peer id reads back as that peer id.
pub proof fn lemma_text_round_trip(p: PeerId)
    ensures
        peer_id_from_text(p.rendered()) == Some(p),
{
    let s = p.rendered();
    let d = decimal(p.index as nat);
    lemma_rendered_first_dash(p);
    lemma_first_dash_unique(s, d.len() as int);
    crate::text::lemma_parse_decimal_rendering(p.index);
    node_uuid::lemma_hyphenated_parses_back(p.uuid.value);
    assert(s.subrange(0, d.len() as int) =~= d);
    assert(s.subrange(d.len() as int + 1, s.len() as int) =~= uuid_hyphenated(p.uuid.value));
}

/// Two peer ids with the same text form are the same peer id.
pub proof fn lemma_rendered_injective(p: PeerId, q: PeerId)
    requires
        p.rendered() == q.rendered(),
    ensures
        p == q,
{
    lemma_text_round_trip(p);
    lemma_text_round_trip(q);
}

/// In a rendered peer id the first `-` follows the decimal index.
proof fn lemma_rendered_first_dash(p: PeerId)
    ensures
        is_first_dash(p.rendered(), decimal(p.index as nat).len() as int),
{
    crate::text::lemma_parse_decimal_rendering(p.index);
    let d = decimal(p.index as nat);
    let s = p.rendered();
    assert(s.subrange(0, d.len() as int) =~= d);
    assert forall|i: int| 0 <= i < d.len() implies #[trigger] d[i] != '-' by {
        assert(crate::text::is_digit(d[i]));
    }
}

} // verus!
