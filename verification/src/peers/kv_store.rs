//! The peer roster as held in a NATS JetStream key-value bucket: one key per
//! peer, `node<index>`, whose value is the peer id's text.

use async_nats::jetstream::kv::Store;
use vstd::prelude::*;
use vstd::utf8::{decode_utf8, encode_utf8, valid_utf8};

use super::order::{
    lemma_sorted_small_groups_strict, lemma_sorting_restores_roster, lemma_stable_sort_permutes,
    lemma_strict_groups_small, sort_by_index, stably_sorted, with_index,
};
use super::node_uuid::hex_digit;
use super::{key_text, peer_id_from_text, PeerId};
use crate::error::PeerError;

verus! {

broadcast use vstd::utf8::encode_utf8_decode_utf8, vstd::utf8::encode_utf8_valid_utf8;

#[verifier::external_type_specification]
#[verifier::external_body]
pub struct ExStore(Store);

/// How `bytes::Bytes` shows one byte under `Debug`: the escapes `\n`, `\r`,
/// `\t`, `\\`, `\"` and `\0`, printable ASCII as itself, anything else as
/// `\x` and two lowercase hexadecimal digits.
pub open spec fn byte_debug_text(b: u8) -> Seq<char> {
    if b == 10 {
        seq!['\\', 'n']
    } else if b == 13 {
        seq!['\\', 'r']
    } else if b == 9 {
        seq!['\\', 't']
    } else if b == 92 || b == 34 {
        seq!['\\', b as char]
    } else if b == 0 {
        seq!['\\', '0']
    } else if 0x20 <= b < 0x7f {
        seq![b as char]
    } else {
        seq!['\\', 'x', hex_digit((b / 16) as nat), hex_digit((b % 16) as nat)]
    }
}

/// The escaped form of each byte, in order.
pub open spec fn escaped_bytes(bytes: Seq<u8>) -> Seq<char>
    decreases bytes.len(),
{
    if bytes.len() == 0 {
        Seq::empty()
    } else {
        escaped_bytes(bytes.drop_last()) + byte_debug_text(bytes.last())
    }
}

/// How `bytes::Bytes` shows itself under `Debug`: `b"`, the escaped bytes, `"`.
pub open spec fn bytes_debug_text(bytes: Seq<u8>) -> Seq<char> {
    seq!['b', '"'] + escaped_bytes(bytes) + seq!['"']
}

/// Formats the bytes as `bytes::Bytes` under `{:?}`. Claimed: the text is the
/// form above.
#[verifier::external_body]
fn bytes_debug(bytes: &[u8]) -> (r: String)
    ensures
        r@ == bytes_debug_text(bytes@),
{
    format!("{:?}", bytes::Bytes::copy_from_slice(bytes))
}

/// Calls `std::str::from_utf8`. Claimed: it succeeds exactly on valid UTF-8,
/// and the text is then what the bytes decode to.
#[verifier::external_body]
fn utf8_text(bytes: &[u8]) -> (r: Option<&str>)
    ensures
        r is Some <==> valid_utf8(bytes@),
        r matches Some(s) ==> s@ == decode_utf8(bytes@),
{
    std::str::from_utf8(bytes).ok()
}

/// Peer roster held in a NATS JetStream KV bucket.
pub struct KvPeerStore {
    store: Store,
    bucket: String,
}

impl KvPeerStore {
    pub closed spec fn bucket_name(&self) -> Seq<char> {
        self.bucket@
    }

    pub closed spec fn store_value(&self) -> Store {
        self.store
    }

    /// A roster store over an opened bucket called `bucket`.
    pub fn from_store(store: Store, bucket: &str) -> (r: KvPeerStore)
        ensures
            r.bucket_name() == bucket@,
            r.store_value() == store,
    {
        KvPeerStore { store, bucket: bucket.to_owned() }
    }

    pub fn store(&self) -> (r: &Store)
        ensures
            *r == self.store_value(),
    {
        &self.store
    }

    pub fn bucket(&self) -> (r: &str)
        ensures
            r@ == self.bucket_name(),
    {
        self.bucket.as_str()
    }

    /// The key and value under which `peer` is stored: the key is
    /// `node<index>`, the value is the UTF-8 of the peer id's text, so a round
    /// trip through the bucket gives back what was written.
    pub fn record(peer: &PeerId) -> (r: (String, Vec<u8>))
        ensures
            r.0@ == key_text(peer.index),
            r.1@ == encode_utf8(peer.rendered()),
    {
        let key = peer.key();
        let text = peer.to_string();
        let value = text.as_str().as_bytes_vec();
        (key, value)
    }
}

/// The peers read so far from the bucket while loading it.
pub struct KvLoad {
    peers: Vec<PeerId>,
}

impl KvLoad {
    pub closed spec fn peers(&self) -> Seq<PeerId> {
        self.peers@
    }

    pub fn new() -> (r: KvLoad)
        ensures
            r.peers() == Seq::<PeerId>::empty(),
    {
        KvLoad { peers: Vec::new() }
    }

    /// Takes in the value read for one key. `None` means the key was deleted
    /// between listing and reading it: nothing to record. A value is the peer
    /// id's text in UTF-8; anything else is an invalid peer id, named by the
    /// text, or by the bytes' debug form when they are not UTF-8.
    pub fn accept(&mut self, value: Option<&[u8]>) -> (r: Result<(), PeerError>)
        ensures
            match value {
                None => r is Ok && final(self).peers() == old(self).peers(),
                Some(bytes) => if !valid_utf8(bytes@) {
                    &&& r matches Err(PeerError::InvalidPeerId(t))
                    &&& t@ == bytes_debug_text(bytes@)
                    &&& final(self).peers() == old(self).peers()
                } else {
                    match peer_id_from_text(decode_utf8(bytes@)) {
                        Some(p) => r is Ok && final(self).peers() == old(self).peers().push(p),
                        None => {
                            &&& r matches Err(PeerError::InvalidPeerId(t))
                            &&& t@ == decode_utf8(bytes@)
                            &&& final(self).peers() == old(self).peers()
                        },
                    }
                },
            },
            forall|p: PeerId|
                value matches Some(bytes) && bytes@ == encode_utf8(#[trigger] p.rendered())
                    ==> r is Ok && final(self).peers() == old(self).peers().push(p),
    {
        match value {
            None => Ok(()),
            Some(bytes) => match utf8_text(bytes) {
                None => Err(PeerError::InvalidPeerId(bytes_debug(bytes))),
                Some(text) => match PeerId::parse(text) {
                    Ok(peer) => {
                        self.peers.push(peer);
                        Ok(())
                    },
                    Err(e) => Err(e),
                },
            },
        }
    }

    /// The roster read, ordered by index (peers with the same index in the
    /// order they were read).
    pub fn finish(&self) -> (r: Vec<PeerId>)
        ensures
            stably_sorted(r@, self.peers()),
    {
        sort_by_index(&self.peers)
    }
}

/// What the bucket holds, index by index, after `peers` are saved into an
/// empty bucket one after the other: a put under a key that is already there
/// overwrites it, so each index keeps the last peer saved with it.
pub open spec fn saved_by_index(peers: Seq<PeerId>) -> Map<usize, PeerId>
    decreases peers.len(),
{
    if peers.len() == 0 {
        Map::empty()
    } else {
        saved_by_index(peers.drop_last()).insert(peers.last().index, peers.last())
    }
}

/// What a bucket holding `bucket` holds after `peers` are saved into it one
/// after the other with the keys and values of `KvPeerStore::record`: a put
/// under a key that is already there overwrites it.
pub open spec fn save_into(bucket: Map<Seq<char>, Seq<u8>>, peers: Seq<PeerId>) -> Map<Seq<char>, Seq<u8>>
    decreases peers.len(),
{
    if peers.len() == 0 {
        bucket
    } else {
        save_into(bucket, peers.drop_last()).insert(
            key_text(peers.last().index),
            encode_utf8(peers.last().rendered()),
        )
    }
}

/// What the bucket holds, key by key, after `peers` are saved into an empty
/// bucket.
pub open spec fn bucket_after_save(peers: Seq<PeerId>) -> Map<Seq<char>, Seq<u8>> {
    save_into(Map::empty(), peers)
}

/// Saving a roster leaves every key it does not write as it was, and writes
/// the same keys and values whatever the bucket held before.
pub proof fn lemma_save_into_overlays(bucket: Map<Seq<char>, Seq<u8>>, peers: Seq<PeerId>)
    ensures
        save_into(bucket, peers) == bucket.union_prefer_right(bucket_after_save(peers)),
    decreases peers.len(),
{
    if peers.len() == 0 {
        assert(bucket.union_prefer_right(Map::empty()) =~= bucket);
    } else {
        lemma_save_into_overlays(bucket, peers.drop_last());
        lemma_save_into_overlays(Map::empty(), peers.drop_last());
        assert(Map::<Seq<char>, Seq<u8>>::empty().union_prefer_right(bucket_after_save(peers.drop_last()))
            =~= bucket_after_save(peers.drop_last()));
        assert(save_into(bucket, peers) =~= bucket.union_prefer_right(bucket_after_save(peers)));
    }
}

/// Saving the same roster twice, every put succeeding and nothing else
/// writing the bucket, leaves the bucket as one save does.
pub proof fn lemma_save_twice(bucket: Map<Seq<char>, Seq<u8>>, peers: Seq<PeerId>)
    ensures
        save_into(save_into(bucket, peers), peers) == save_into(bucket, peers),
{
    lemma_save_into_overlays(bucket, peers);
    lemma_save_into_overlays(save_into(bucket, peers), peers);
    let once = bucket_after_save(peers);
    assert(bucket.union_prefer_right(once).union_prefer_right(once) =~= bucket.union_prefer_right(once));
}

/// Different indices have different keys.
pub proof fn lemma_key_text_injective(a: usize, b: usize)
    requires
        key_text(a) == key_text(b),
    ensures
        a == b,
{
    crate::text::lemma_parse_decimal_rendering(a);
    crate::text::lemma_parse_decimal_rendering(b);
    let ta = key_text(a);
    let tb = key_text(b);
    assert(ta.subrange(4, ta.len() as int) =~= crate::text::decimal(a as nat));
    assert(tb.subrange(4, tb.len() as int) =~= crate::text::decimal(b as nat));
}

/// After saving `peers`, the bucket holds a key for each index saved, and no
/// other key; under it, the last peer saved with that index. Its value is
/// that peer's text.
pub proof fn lemma_bucket_after_save(peers: Seq<PeerId>)
    ensures
        forall|k: usize|
            #[trigger] saved_by_index(peers).contains_key(k) <==> exists|j: int|
                0 <= j < peers.len() && peers[j].index == k,
        forall|k: usize|
            #[trigger] saved_by_index(peers).contains_key(k) ==> exists|j: int|
                0 <= j < peers.len() && peers[j] == saved_by_index(peers)[k] && peers[j].index == k
                    && forall|t: int| j < t < peers.len() ==> peers[t].index != k,
        forall|k: usize|
            #[trigger] bucket_after_save(peers).contains_key(key_text(k))
                <==> saved_by_index(peers).contains_key(k),
        forall|k: usize|
            #[trigger] saved_by_index(peers).contains_key(k) ==> bucket_after_save(peers)[key_text(k)]
                == encode_utf8(saved_by_index(peers)[k].rendered()),
        forall|t: Seq<char>|
            #[trigger] bucket_after_save(peers).contains_key(t) ==> exists|k: usize| t == key_text(k),
    decreases peers.len(),
{
    if peers.len() > 0 {
        let p0 = peers.drop_last();
        let y = peers.last();
        lemma_bucket_after_save(p0);
        let m = saved_by_index(peers);
        let m0 = saved_by_index(p0);
        let b = bucket_after_save(peers);
        let b0 = bucket_after_save(p0);
        assert forall|k: usize| #[trigger] m.contains_key(k) <==> exists|j: int|
            0 <= j < peers.len() && peers[j].index == k by {
            if k == y.index {
                assert(peers[peers.len() - 1].index == k);
            } else if m.contains_key(k) {
                let j = choose|j: int| 0 <= j < p0.len() && p0[j].index == k;
                assert(peers[j] == p0[j]);
            } else if exists|j: int| 0 <= j < peers.len() && peers[j].index == k {
                let j = choose|j: int| 0 <= j < peers.len() && peers[j].index == k;
                assert(p0[j] == peers[j]);
            }
        }
        assert forall|k: usize| #[trigger] m.contains_key(k) implies exists|j: int|
            0 <= j < peers.len() && peers[j] == m[k] && peers[j].index == k
                && forall|t: int| j < t < peers.len() ==> peers[t].index != k by {
            if k == y.index {
                assert(peers[peers.len() - 1] == m[k]);
            } else {
                let j = choose|j: int|
                    0 <= j < p0.len() && p0[j] == m0[k] && p0[j].index == k
                        && forall|t: int| j < t < p0.len() ==> p0[t].index != k;
                assert(peers[j] == p0[j]);
                assert forall|t: int| j < t < peers.len() implies peers[t].index != k by {
                    if t < p0.len() {
                        assert(peers[t] == p0[t]);
                    }
                }
            }
        }
        assert forall|k: usize| #[trigger] b.contains_key(key_text(k)) <==> m.contains_key(k) by {
            if key_text(k) == key_text(y.index) {
                lemma_key_text_injective(k, y.index);
            }
        }
        assert forall|k: usize| #[trigger] m.contains_key(k) implies b[key_text(k)] == encode_utf8(
            m[k].rendered(),
        ) by {
            if key_text(k) == key_text(y.index) {
                lemma_key_text_injective(k, y.index);
            }
        }
        assert forall|t: Seq<char>| #[trigger] b.contains_key(t) implies exists|k: usize| t == key_text(k) by {
            if t != key_text(y.index) {
                assert(b0.contains_key(t));
            }
        }
    }
}

/// Sorting the peers read back, one for each index saved and each the last
/// peer saved with its index, gives them in ascending order of index; and
/// the roster saved itself when its indices strictly increase.
proof fn lemma_sorted_reads(peers: Seq<PeerId>, read: Seq<PeerId>, out: Seq<PeerId>)
    requires
        forall|i: int|
            0 <= i < read.len() ==> saved_by_index(peers).contains_key(#[trigger] read[i].index)
                && saved_by_index(peers)[read[i].index] == read[i],
        forall|k: usize|
            #[trigger] saved_by_index(peers).contains_key(k) ==> exists|i: int|
                0 <= i < read.len() && read[i].index == k,
        forall|i: int, j: int| 0 <= i < j < read.len() ==> read[i].index != read[j].index,
        stably_sorted(out, read),
    ensures
        forall|i: int, j: int| 0 <= i < j < out.len() ==> out[i].index < out[j].index,
        forall|i: int|
            0 <= i < out.len() ==> saved_by_index(peers).contains_key(#[trigger] out[i].index)
                && saved_by_index(peers)[out[i].index] == out[i],
        forall|k: usize|
            #[trigger] saved_by_index(peers).contains_key(k) ==> exists|i: int|
                0 <= i < out.len() && out[i].index == k,
        (forall|i: int, j: int| 0 <= i < j < peers.len() ==> peers[i].index < peers[j].index) ==> out
            == peers,
{
    broadcast use vstd::seq_lib::to_multiset_contains, vstd::multiset::group_multiset_axioms;

    let m = saved_by_index(peers);
    lemma_bucket_after_save(peers);
    lemma_stable_sort_permutes(out, read);
    assert forall|k: usize| #[trigger] with_index(out, k).len() <= 1 by {
        lemma_strict_groups_small(read, k);
        assert(with_index(out, k) == with_index(read, k));
    }
    lemma_sorted_small_groups_strict(out);
    assert forall|i: int| 0 <= i < out.len() implies m.contains_key(#[trigger] out[i].index)
        && m[out[i].index] == out[i] by {
        assert(out.contains(out[i]));
        assert(out.to_multiset().count(out[i]) > 0);
        assert(read.contains(out[i]));
        let j = choose|j: int| 0 <= j < read.len() && read[j] == out[i];
        assert(m.contains_key(read[j].index));
    }
    assert forall|k: usize| #[trigger] m.contains_key(k) implies exists|i: int|
        0 <= i < out.len() && out[i].index == k by {
        let i = choose|i: int| 0 <= i < read.len() && read[i].index == k;
        assert(read.contains(read[i]));
        assert(read.to_multiset().count(read[i]) > 0);
        assert(out.contains(read[i]));
    }
    if forall|i: int, j: int| 0 <= i < j < peers.len() ==> peers[i].index < peers[j].index {
        assert forall|i: int, j: int| 0 <= i < j < read.len() implies read[i] != read[j] by {
            assert(read[i].index != read[j].index);
        }
        assert(read.no_duplicates());
        read.lemma_multiset_has_no_duplicates();
        assert(peers.no_duplicates()) by {
            assert forall|i: int, j: int| 0 <= i < peers.len() && 0 <= j < peers.len() && i != j
                implies peers[i] != peers[j] by {
                if i < j {
                    assert(peers[i].index < peers[j].index);
                } else {
                    assert(peers[j].index < peers[i].index);
                }
            }
        }
        peers.lemma_multiset_has_no_duplicates();
        assert forall|x: PeerId| read.to_multiset().count(x) == peers.to_multiset().count(x) by {
            if read.contains(x) {
                let i = choose|i: int| 0 <= i < read.len() && read[i] == x;
                assert(m.contains_key(read[i].index));
                let j = choose|j: int|
                    0 <= j < peers.len() && peers[j] == m[x.index] && peers[j].index == x.index
                        && forall|t: int| j < t < peers.len() ==> peers[t].index != x.index;
                assert(peers.contains(x));
            } else if peers.contains(x) {
                let j = choose|j: int| 0 <= j < peers.len() && peers[j] == x;
                assert(m.contains_key(x.index));
                let j2 = choose|j2: int|
                    0 <= j2 < peers.len() && peers[j2] == m[x.index] && peers[j2].index == x.index
                        && forall|t: int| j2 < t < peers.len() ==> peers[t].index != x.index;
                assert(j2 == j) by {
                    if j2 < j {
                        assert(peers[j2].index < peers[j].index);
                    } else if j < j2 {
                        assert(peers[j].index < peers[j2].index);
                    }
                }
                let i = choose|i: int| 0 <= i < read.len() && read[i].index == x.index;
                assert(read[i] == m[read[i].index]);
                assert(read.contains(x));
            }
        }
        assert(read.to_multiset() =~= peers.to_multiset());
        lemma_sorting_restores_roster(peers, read, out);
    }
}

/// Loading a bucket after a roster was saved into it, empty before, every put
/// succeeding and nothing else writing it. The load lists each key of the
/// bucket once, in whatever order, and reads its value: that is the UTF-8 of
/// the text of the last peer saved with that index, so `KvLoad::accept`
/// takes it in and records that peer (`read[i]` for the `i`-th key listed).
/// Then `KvLoad::finish` gives, in ascending order of index, the last peer
/// saved under each index, and exactly the roster saved when its indices
/// strictly increase.
pub proof fn lemma_load_after_save(
    peers: Seq<PeerId>,
    keys: Seq<Seq<char>>,
    read: Seq<PeerId>,
    out: Seq<PeerId>,
)
    requires
        keys.no_duplicates(),
        keys.to_set() == bucket_after_save(peers).dom(),
        read.len() == keys.len(),
        forall|i: int|
            0 <= i < keys.len() ==> encode_utf8((#[trigger] read[i]).rendered())
                == bucket_after_save(peers)[keys[i]],
        stably_sorted(out, read),
    ensures
        forall|i: int|
            0 <= i < keys.len() ==> valid_utf8(bucket_after_save(peers)[#[trigger] keys[i]])
                && peer_id_from_text(decode_utf8(bucket_after_save(peers)[keys[i]])) == Some(read[i]),
        forall|i: int, j: int| 0 <= i < j < out.len() ==> out[i].index < out[j].index,
        forall|i: int|
            0 <= i < out.len() ==> saved_by_index(peers).contains_key(#[trigger] out[i].index)
                && saved_by_index(peers)[out[i].index] == out[i],
        forall|k: usize|
            #[trigger] saved_by_index(peers).contains_key(k) ==> exists|i: int|
                0 <= i < out.len() && out[i].index == k,
        (forall|i: int, j: int| 0 <= i < j < peers.len() ==> peers[i].index < peers[j].index) ==> out
            == peers,
{
    let m = saved_by_index(peers);
    let b = bucket_after_save(peers);
    lemma_bucket_after_save(peers);
    assert forall|i: int| #![trigger read[i]] #![trigger keys[i]] 0 <= i < keys.len() implies {
        &&& m.contains_key(read[i].index)
        &&& m[read[i].index] == read[i]
        &&& keys[i] == key_text(read[i].index)
        &&& valid_utf8(b[keys[i]])
        &&& peer_id_from_text(decode_utf8(b[keys[i]])) == Some(read[i])
    } by {
        assert(keys.to_set().contains(keys[i]));
        let k = choose|k: usize| keys[i] == key_text(k);
        assert(b.contains_key(key_text(k)));
        assert(m.contains_key(k));
        assert(read[i].rendered() == m[k].rendered()) by {
            assert(decode_utf8(encode_utf8(read[i].rendered())) == read[i].rendered());
            assert(decode_utf8(encode_utf8(m[k].rendered())) == m[k].rendered());
        }
        super::lemma_rendered_injective(read[i], m[k]);
        super::lemma_text_round_trip(read[i]);
    }
    assert forall|k: usize| #[trigger] m.contains_key(k) implies exists|i: int|
        0 <= i < read.len() && read[i].index == k by {
        assert(b.contains_key(key_text(k)));
        assert(keys.to_set().contains(key_text(k)));
        let i = choose|i: int| 0 <= i < keys.len() && keys[i] == key_text(k);
        lemma_key_text_injective(read[i].index, k);
    }
    assert forall|i: int, j: int| 0 <= i < j < read.len() implies read[i].index != read[j].index by {
        if read[i].index == read[j].index {
            assert(keys[i] == keys[j]);
        }
    }
    lemma_sorted_reads(peers, read, out);
}

} // verus!
