//! The packet store: content signatures, packets, and the in-memory index
//! that serves every read.
//!
//! A packet is addressed by the digest of its payload and metadata. The
//! index holds one packet per signature; a later packet with the same
//! signature takes the place of the earlier one. Deleting touches the index
//! alone: the log keeps every record, so replaying it brings a deleted
//! packet back.

use vstd::prelude::*;
use vstd::string::StringSliceAdditionalSpecFns;
use crate::error::StoreError;
use crate::log::{frame, frame_record};
use crate::wave::{decode_with, decoded, encode_with, encoded, lemma_round_trip, WavePoint};

verus! {

/// The BLAKE3 digest of a byte sequence, 32 bytes long.
pub uninterp spec fn blake3_digest(input: Seq<u8>) -> Seq<u8>;

/// Calls `blake3::hash`, the default BLAKE3 hash function, on `input` and
/// hands out the 32 bytes of its result. The digest depends on the input
/// bytes alone.
#[verifier::external_body]
fn blake3_hash(input: &[u8]) -> (digest: [u8; 32])
    ensures
        digest@ == blake3_digest(input@),
{
    blake3::hash(input).into()
}

/// The error of `String::from_utf8`, carried through as it is.
#[verifier::external_type_specification]
#[verifier::external_body]
pub struct ExFromUtf8Error(std::string::FromUtf8Error);

/// `String::from_utf8` succeeds exactly when the bytes are valid UTF-8, and
/// the text is then what they spell.
pub assume_specification[ String::from_utf8 ](vec: Vec<u8>) -> (r: Result<
    String,
    std::string::FromUtf8Error,
>)
    ensures
        r is Ok <==> vstd::utf8::valid_utf8(vec@),
        r matches Ok(s) ==> s@ == vstd::utf8::decode_utf8(vec@),
;

/// The bytes of optional metadata: none counts as empty.
pub open spec fn metadata_bytes(metadata: Option<Seq<u8>>) -> Seq<u8> {
    match metadata {
        Some(m) => m,
        None => Seq::empty(),
    }
}

/// The signature of a payload with its metadata: the digest of the payload
/// followed by the metadata.
pub open spec fn signature_of(data: Seq<u8>, metadata: Option<Seq<u8>>) -> Seq<u8> {
    blake3_digest(data + metadata_bytes(metadata))
}

/// The view of optional bytes.
pub open spec fn optional_view(bytes: Option<Vec<u8>>) -> Option<Seq<u8>> {
    match bytes {
        Some(b) => Some(b@),
        None => None,
    }
}

/// Equal inputs have equal signatures.
pub proof fn lemma_signature_deterministic(
    data1: Seq<u8>,
    metadata1: Option<Seq<u8>>,
    data2: Seq<u8>,
    metadata2: Option<Seq<u8>>,
)
    requires
        data1 == data2,
        metadata1 == metadata2,
    ensures
        signature_of(data1, metadata1) == signature_of(data2, metadata2),
{
}

/// Signs a payload with its metadata.
pub fn sign(data: &[u8], metadata: &Option<Vec<u8>>) -> (signature: [u8; 32])
    ensures
        signature@ == signature_of(data@, optional_view(*metadata)),
{
    let mut input: Vec<u8> = Vec::with_capacity(data.len());
    let mut i: usize = 0;
    while i < data.len()
        invariant
            0 <= i <= data@.len(),
            input@ == data@.subrange(0, i as int),
        decreases data@.len() - i,
    {
        input.push(data[i]);
        assert(input@ =~= data@.subrange(0, i + 1));
        i = i + 1;
    }
    assert(input@ =~= data@);
    match metadata {
        Some(meta) => {
            let mut j: usize = 0;
            while j < meta.len()
                invariant
                    0 <= j <= meta@.len(),
                    input@ == data@ + meta@.subrange(0, j as int),
                decreases meta@.len() - j,
            {
                input.push(meta[j]);
                assert(input@ =~= data@ + meta@.subrange(0, j + 1));
                j = j + 1;
            }
            assert(meta@.subrange(0, meta@.len() as int) =~= meta@);
        },
        None => {
            assert(input@ =~= data@ + Seq::<u8>::empty());
        },
    }
    blake3_hash(input.as_slice())
}

/// Whether two signatures are the same.
pub fn same_signature(a: &[u8; 32], b: &[u8; 32]) -> (same: bool)
    ensures
        same == (a@ == b@),
{
    let mut i: usize = 0;
    while i < 32
        invariant
            0 <= i <= 32,
            forall|j: int| 0 <= j < i ==> a@[j] == b@[j],
        decreases 32 - i,
    {
        if a[i] != b[i] {
            return false;
        }
        i = i + 1;
    }
    assert(a@ =~= b@);
    true
}

/// The unit of storage.
#[derive(Debug, Clone)]
pub struct WavePacket {
    /// Digest of payload and metadata: the address of the packet.
    pub signature: [u8; 32],
    /// The payload as a wave, one point per byte.
    pub waves: Vec<WavePoint>,
    /// Bytes that the caller attached, if any.
    pub metadata: Option<Vec<u8>>,
    /// The base parameter the wave was made with.
    pub frequency: i64,
    /// Seconds since the Unix epoch at creation.
    pub timestamp: u64,
}

/// A packet as a mathematical value.
pub struct PacketModel {
    pub signature: Seq<u8>,
    pub waves: Seq<WavePoint>,
    pub metadata: Option<Seq<u8>>,
    pub frequency: i64,
    pub timestamp: u64,
}

impl View for WavePacket {
    type V = PacketModel;

    open spec fn view(&self) -> PacketModel {
        PacketModel {
            signature: self.signature@,
            waves: self.waves@,
            metadata: optional_view(self.metadata),
            frequency: self.frequency,
            timestamp: self.timestamp,
        }
    }
}

/// The packet that holds `data` and `metadata`, made with base `frequency`
/// at time `timestamp`.
pub open spec fn packet_of(
    data: Seq<u8>,
    metadata: Option<Seq<u8>>,
    frequency: i64,
    timestamp: u64,
) -> PacketModel {
    PacketModel {
        signature: signature_of(data, metadata),
        waves: encoded(data, frequency as int),
        metadata,
        frequency,
        timestamp,
    }
}

/// The signatures of a sequence of packets, in order.
pub open spec fn signatures(entries: Seq<WavePacket>) -> Seq<Seq<u8>> {
    Seq::new(entries.len(), |i: int| entries[i].signature@)
}

/// The index that a sequence of packets with distinct signatures stands for.
pub open spec fn index_model(entries: Seq<WavePacket>) -> Map<Seq<u8>, PacketModel> {
    Map::new(
        |sig: Seq<u8>| signatures(entries).contains(sig),
        |sig: Seq<u8>| entries[signatures(entries).index_of(sig)]@,
    )
}

/// The index after the packets of a replay have been inserted in order:
/// a record that held no packet is passed over, and of two packets with one
/// signature the later stays.
pub open spec fn replayed(
    start: Map<Seq<u8>, PacketModel>,
    packets: Seq<Option<PacketModel>>,
) -> Map<Seq<u8>, PacketModel>
    decreases packets.len(),
{
    if packets.len() == 0 {
        start
    } else {
        let before = replayed(start, packets.drop_last());
        match packets.last() {
            Some(p) => before.insert(p.signature, p),
            None => before,
        }
    }
}

/// Number of records among the first `n` that held a packet.
pub open spec fn packets_among(packets: Seq<Result<WavePacket, StoreError>>, n: int) -> int
    decreases n,
{
    if n <= 0 {
        0
    } else {
        packets_among(packets, n - 1) + if packets[n - 1] is Ok {
            1int
        } else {
            0int
        }
    }
}

/// The models of a sequence of replayed records.
pub open spec fn replay_models(packets: Seq<Result<WavePacket, StoreError>>) -> Seq<
    Option<PacketModel>,
> {
    Seq::new(
        packets.len(),
        |i: int|
            match packets[i] {
                Ok(p) => Some(p@),
                Err(_) => None,
            },
    )
}

/// Storing one more packet is replaying one more record.
pub proof fn lemma_replay_one(start: Map<Seq<u8>, PacketModel>, packet: PacketModel)
    ensures
        replayed(start, seq![Some(packet)]) == start.insert(packet.signature, packet),
{
    let one = seq![Some(packet)];
    assert(one.drop_last() =~= Seq::<Option<PacketModel>>::empty());
    assert(replayed(start, one.drop_last()) == start);
}

/// Replaying two runs of records one after the other is replaying them as
/// one run.
pub proof fn lemma_replay_concat(
    start: Map<Seq<u8>, PacketModel>,
    first: Seq<Option<PacketModel>>,
    second: Seq<Option<PacketModel>>,
)
    ensures
        replayed(replayed(start, first), second) == replayed(start, first + second),
    decreases second.len(),
{
    if second.len() == 0 {
        assert(first + second =~= first);
    } else {
        lemma_replay_concat(start, first, second.drop_last());
        assert((first + second).drop_last() =~= first + second.drop_last());
        assert((first + second).last() == second.last());
    }
}

/// Reopening reconstructs the index. A store that was opened on the records
/// `logged` and has since stored the packets `stored`, each appended to the
/// log, holds the index that replaying the longer log gives.
pub proof fn lemma_reopen_reconstructs(
    logged: Seq<Option<PacketModel>>,
    stored: Seq<Option<PacketModel>>,
)
    ensures
        replayed(replayed(Map::empty(), logged), stored) == replayed(
            Map::empty(),
            logged + stored,
        ),
{
    lemma_replay_concat(Map::empty(), logged, stored);
}

/// Storing the same payload and metadata twice leaves one packet under the
/// signature, the later one: the index is the one that the second store
/// alone would give, and holds no more signatures than after the first.
pub proof fn lemma_store_twice_keeps_later(
    index: Map<Seq<u8>, PacketModel>,
    data: Seq<u8>,
    metadata: Option<Seq<u8>>,
    frequency: i64,
    earlier: u64,
    later: u64,
)
    ensures
        ({
            let sig = signature_of(data, metadata);
            let once = index.insert(sig, packet_of(data, metadata, frequency, earlier));
            let twice = once.insert(sig, packet_of(data, metadata, frequency, later));
            &&& twice == index.insert(sig, packet_of(data, metadata, frequency, later))
            &&& twice.dom() == once.dom()
            &&& twice[sig].timestamp == later
        }),
{
    let sig = signature_of(data, metadata);
    let once = index.insert(sig, packet_of(data, metadata, frequency, earlier));
    let twice = once.insert(sig, packet_of(data, metadata, frequency, later));
    assert(twice =~= index.insert(sig, packet_of(data, metadata, frequency, later)));
    assert(twice.dom() =~= once.dom());
}

/// A packet taken out of the index comes back with the next replay of a log
/// that holds it.
pub proof fn lemma_delete_is_undone_by_replay(
    index: Map<Seq<u8>, PacketModel>,
    packets: Seq<Option<PacketModel>>,
    packet: PacketModel,
)
    requires
        packets.len() > 0,
        packets.last() == Some(packet),
    ensures
        replayed(index.remove(packet.signature), packets).contains_key(packet.signature),
        replayed(index.remove(packet.signature), packets)[packet.signature] == packet,
{
}

/// Where the signature sits among distinct signatures, it sits once.
proof fn lemma_position_unique(entries: Seq<WavePacket>, i: int)
    requires
        signatures(entries).no_duplicates(),
        0 <= i < entries.len(),
    ensures
        signatures(entries).contains(entries[i].signature@),
        signatures(entries).index_of(entries[i].signature@) == i,
        index_model(entries).contains_key(entries[i].signature@),
        index_model(entries)[entries[i].signature@] == entries[i]@,
{
    let sigs = signatures(entries);
    assert(sigs[i] == entries[i].signature@);
    let k = sigs.index_of(entries[i].signature@);
    assert(0 <= k < sigs.len() && sigs[k] == entries[i].signature@);
}

/// A signature that no packet has is not in the index.
proof fn lemma_absent(entries: Seq<WavePacket>, sig: Seq<u8>)
    requires
        forall|j: int| 0 <= j < entries.len() ==> (#[trigger] entries[j]).signature@ != sig,
    ensures
        !signatures(entries).contains(sig),
        !index_model(entries).contains_key(sig),
{
    let sigs = signatures(entries);
    if sigs.contains(sig) {
        let k = choose|k: int| 0 <= k < sigs.len() && sigs[k] == sig;
        assert(entries[k].signature@ == sig);
    }
}

/// Putting a packet in the place of one with the same signature.
proof fn lemma_replace(entries: Seq<WavePacket>, i: int, p: WavePacket)
    requires
        signatures(entries).no_duplicates(),
        0 <= i < entries.len(),
        entries[i].signature@ == p.signature@,
    ensures
        signatures(entries.update(i, p)) == signatures(entries),
        index_model(entries.update(i, p)) == index_model(entries).insert(p.signature@, p@),
{
    let after = entries.update(i, p);
    assert(signatures(after) =~= signatures(entries));
    lemma_position_unique(entries, i);
    assert forall|sig: Seq<u8>| #[trigger]
        index_model(after).contains_key(sig) implies index_model(after)[sig] == index_model(
        entries,
    ).insert(p.signature@, p@)[sig] by {
        let k = signatures(entries).index_of(sig);
        assert(0 <= k < entries.len() && signatures(entries)[k] == sig);
        if sig == p.signature@ {
            assert(k == i);
        } else {
            assert(k != i);
        }
    }
    assert(index_model(after) =~= index_model(entries).insert(p.signature@, p@));
}

/// Adding a packet whose signature is new.
proof fn lemma_append(entries: Seq<WavePacket>, p: WavePacket)
    requires
        signatures(entries).no_duplicates(),
        !signatures(entries).contains(p.signature@),
    ensures
        signatures(entries.push(p)).no_duplicates(),
        index_model(entries.push(p)) == index_model(entries).insert(p.signature@, p@),
{
    let after = entries.push(p);
    let sigs = signatures(entries);
    let sigs2 = signatures(after);
    assert(sigs2 =~= sigs.push(p.signature@));
    assert forall|a: int, b: int| 0 <= a < sigs2.len() && 0 <= b < sigs2.len() && a
        != b implies sigs2[a] != sigs2[b] by {
        if a < sigs.len() {
            assert(sigs[a] == sigs2[a]);
        }
        if b < sigs.len() {
            assert(sigs[b] == sigs2[b]);
        }
    }
    assert forall|sig: Seq<u8>|
        index_model(after).contains_key(sig) <==> index_model(entries).insert(
            p.signature@,
            p@,
        ).contains_key(sig) by {
        if sigs2.contains(sig) {
            let k = choose|k: int| 0 <= k < sigs2.len() && sigs2[k] == sig;
            if k < sigs.len() {
                assert(sigs[k] == sig);
            }
        }
        if sigs.contains(sig) {
            let k = choose|k: int| 0 <= k < sigs.len() && sigs[k] == sig;
            assert(sigs2[k] == sig);
        }
        if sig == p.signature@ {
            assert(sigs2[sigs.len() as int] == sig);
        }
    }
    assert forall|sig: Seq<u8>| #[trigger]
        index_model(after).contains_key(sig) implies index_model(after)[sig] == index_model(
        entries,
    ).insert(p.signature@, p@)[sig] by {
        let k = sigs2.index_of(sig);
        assert(0 <= k < sigs2.len() && sigs2[k] == sig);
        if sig == p.signature@ {
            assert(sigs2[sigs.len() as int] == sig);
            assert(k == sigs.len());
        } else {
            assert(k < sigs.len());
            assert(sigs[k] == sig);
            let k1 = sigs.index_of(sig);
            assert(0 <= k1 < sigs.len() && sigs[k1] == sig);
            assert(sigs2[k1] == sig);
            assert(k1 == k);
        }
    }
    assert(index_model(after) =~= index_model(entries).insert(p.signature@, p@));
}

/// Taking a packet out.
proof fn lemma_remove(entries: Seq<WavePacket>, i: int)
    requires
        signatures(entries).no_duplicates(),
        0 <= i < entries.len(),
    ensures
        signatures(entries.remove(i)).no_duplicates(),
        index_model(entries.remove(i)) == index_model(entries).remove(entries[i].signature@),
{
    let after = entries.remove(i);
    let sigs = signatures(entries);
    let sigs2 = signatures(after);
    let gone = entries[i].signature@;
    assert(sigs2 =~= sigs.remove(i));
    assert forall|a: int, b: int| 0 <= a < sigs2.len() && 0 <= b < sigs2.len() && a
        != b implies sigs2[a] != sigs2[b] by {
        let a1 = if a < i {
            a
        } else {
            a + 1
        };
        let b1 = if b < i {
            b
        } else {
            b + 1
        };
        assert(sigs2[a] == sigs[a1]);
        assert(sigs2[b] == sigs[b1]);
    }
    assert forall|sig: Seq<u8>|
        index_model(after).contains_key(sig) <==> index_model(entries).remove(gone).contains_key(
            sig,
        ) by {
        if sigs2.contains(sig) {
            let k = choose|k: int| 0 <= k < sigs2.len() && sigs2[k] == sig;
            let k1 = if k < i {
                k
            } else {
                k + 1
            };
            assert(sigs[k1] == sig);
            assert(sigs[i] == gone);
        }
        if sigs.contains(sig) && sig != gone {
            let k = choose|k: int| 0 <= k < sigs.len() && sigs[k] == sig;
            assert(sigs[i] == gone);
            let k2 = if k < i {
                k
            } else {
                k - 1
            };
            assert(sigs2[k2] == sig);
        }
    }
    assert forall|sig: Seq<u8>| #[trigger]
        index_model(after).contains_key(sig) implies index_model(after)[sig] == index_model(
        entries,
    ).remove(gone)[sig] by {
        let k = sigs2.index_of(sig);
        assert(0 <= k < sigs2.len() && sigs2[k] == sig);
        let k1 = if k < i {
            k
        } else {
            k + 1
        };
        assert(sigs[k1] == sig);
        let k0 = sigs.index_of(sig);
        assert(0 <= k0 < sigs.len() && sigs[k0] == sig);
        assert(k0 == k1);
        assert(after[k] == entries[k1]);
    }
    assert(index_model(after) =~= index_model(entries).remove(gone));
}

/// The index holds as many packets as there are entries.
proof fn lemma_count(entries: Seq<WavePacket>)
    requires
        signatures(entries).no_duplicates(),
    ensures
        index_model(entries).dom().finite(),
        index_model(entries).dom().len() == entries.len(),
{
    let sigs = signatures(entries);
    sigs.unique_seq_to_set();
    assert(index_model(entries).dom() =~= sigs.to_set());
    vstd::seq_lib::seq_to_set_is_finite(sigs);
}

/// Where the packet with `signature` sits among `entries`, if there is one.
fn position_in(entries: &Vec<WavePacket>, signature: &[u8; 32]) -> (at: Option<usize>)
    ensures
        match at {
            Some(i) => i < entries@.len() && entries@[i as int].signature@ == signature@,
            None => !index_model(entries@).contains_key(signature@) && !signatures(
                entries@,
            ).contains(signature@),
        },
{
    let mut i: usize = 0;
    while i < entries.len()
        invariant
            0 <= i <= entries@.len(),
            forall|j: int| 0 <= j < i ==> (#[trigger] entries@[j]).signature@ != signature@,
        decreases entries@.len() - i,
    {
        if same_signature(&entries[i].signature, signature) {
            return Some(i);
        }
        i = i + 1;
    }
    proof {
        lemma_absent(entries@, signature@);
    }
    None
}

/// Storage statistics.
#[derive(Debug, Clone, Copy)]
pub struct StorageStats {
    /// Number of packets in the index.
    pub packet_count: usize,
    /// Number of bytes of the log.
    pub total_size: u64,
    /// The base parameter of the store.
    pub frequency: i64,
    /// Number of reads served from the index; not tracked, always 0.
    pub cache_hits: usize,
}

/// The store: a base parameter, the index, and the length of the log.
pub struct Mem8Lite {
    frequency: i64,
    cache: Vec<WavePacket>,
    position: u64,
}

impl Mem8Lite {
    /// The base is positive and no signature occurs twice.
    #[verifier::type_invariant]
    spec fn well_formed(self) -> bool {
        &&& self.frequency > 0
        &&& signatures(self.cache@).no_duplicates()
    }

    /// The index: the packet of each signature.
    pub closed spec fn index(&self) -> Map<Seq<u8>, PacketModel> {
        index_model(self.cache@)
    }

    /// The base parameter.
    pub closed spec fn frequency(&self) -> i64 {
        self.frequency
    }

    /// The length of the log in bytes.
    pub closed spec fn position(&self) -> u64 {
        self.position
    }

    /// An empty store with base `frequency`, over an empty log.
    pub fn new(frequency: i64) -> (r: Result<Self, StoreError>)
        ensures
            frequency <= 0 ==> r == Err::<Self, StoreError>(StoreError::InvalidParameter),
            frequency > 0 ==> r is Ok && r->Ok_0.frequency() == frequency
                && r->Ok_0.position() == 0 && r->Ok_0.index() == Map::<
                Seq<u8>,
                PacketModel,
            >::empty(),
    {
        if frequency <= 0 {
            return Err(StoreError::InvalidParameter);
        }
        let store = Mem8Lite { frequency, cache: Vec::new(), position: 0 };
        proof {
            assert(signatures(store.cache@) =~= Seq::<Seq<u8>>::empty());
            assert(store.index() =~= Map::<Seq<u8>, PacketModel>::empty());
        }
        Ok(store)
    }

    /// Where the packet with `signature` sits, if there is one.
    fn find(&self, signature: &[u8; 32]) -> (at: Option<usize>)
        ensures
            match at {
                Some(i) => i < self.cache@.len() && self.cache@[i as int].signature@
                    == signature@,
                None => !self.index().contains_key(signature@) && !signatures(
                    self.cache@,
                ).contains(signature@),
            },
    {
        position_in(&self.cache, signature)
    }

    /// Wave of `data` at the base of the store.
    pub fn encode_to_waves(&self, data: &[u8]) -> (waves: Vec<WavePoint>)
        ensures
            waves@ == encoded(data@, self.frequency() as int),
    {
        proof {
            use_type_invariant(self);
        }
        encode_with(data, self.frequency)
    }

    /// Bytes of `waves` at the base of the store.
    pub fn decode_from_waves(&self, waves: &[WavePoint]) -> (data: Vec<u8>)
        ensures
            data@ == decoded(waves@, self.frequency() as int),
    {
        proof {
            use_type_invariant(self);
        }
        decode_with(waves, self.frequency)
    }

    /// The packet for `data` and `metadata`, created at `timestamp`.
    pub fn make_packet(&self, data: &[u8], metadata: Option<Vec<u8>>, timestamp: u64) -> (packet:
        WavePacket)
        ensures
            packet@ == packet_of(data@, optional_view(metadata), self.frequency(), timestamp),
    {
        let waves = self.encode_to_waves(data);
        let signature = sign(data, &metadata);
        WavePacket { signature, waves, metadata, frequency: self.frequency, timestamp }
    }

    /// Puts `packet` into the index, in the place of any packet with the
    /// same signature.
    pub fn insert(&mut self, packet: WavePacket)
        ensures
            final(self).index() == old(self).index().insert(packet.signature@, packet@),
            final(self).frequency() == old(self).frequency(),
            final(self).position() == old(self).position(),
    {
        proof {
            use_type_invariant(&*self);
        }
        let mut entries: Vec<WavePacket> = Vec::new();
        assert(signatures(entries@) =~= Seq::<Seq<u8>>::empty());
        core::mem::swap(&mut self.cache, &mut entries);
        match position_in(&entries, &packet.signature) {
            Some(i) => {
                proof {
                    lemma_replace(entries@, i as int, packet);
                }
                entries[i] = packet;
            },
            None => {
                proof {
                    lemma_append(entries@, packet);
                }
                entries.push(packet);
            },
        }
        core::mem::swap(&mut self.cache, &mut entries);
    }

    /// Stores `data` with `metadata` in the index under its signature, as
    /// created at `timestamp`. A packet already stored under the signature
    /// is replaced. What is read back under the signature is `data`.
    pub fn store(&mut self, data: &[u8], metadata: Option<Vec<u8>>, timestamp: u64) -> (signature:
        [u8; 32])
        ensures
            signature@ == signature_of(data@, optional_view(metadata)),
            final(self).index() == old(self).index().insert(
                signature@,
                packet_of(data@, optional_view(metadata), old(self).frequency(), timestamp),
            ),
            decoded(final(self).index()[signature@].waves, final(self).frequency() as int)
                == data@,
            final(self).frequency() == old(self).frequency(),
            final(self).position() == old(self).position(),
    {
        let packet = self.make_packet(data, metadata, timestamp);
        let signature = packet.signature;
        proof {
            use_type_invariant(&*self);
            lemma_round_trip(data@, self.frequency);
        }
        self.insert(packet);
        signature
    }

    /// Stores a text.
    pub fn store_string(&mut self, text: &str, timestamp: u64) -> (signature: [u8; 32])
        ensures
            signature@ == signature_of(text.spec_bytes(), None),
            final(self).index() == old(self).index().insert(
                signature@,
                packet_of(text.spec_bytes(), None, old(self).frequency(), timestamp),
            ),
            final(self).frequency() == old(self).frequency(),
            final(self).position() == old(self).position(),
    {
        self.store(text.as_bytes(), None, timestamp)
    }

    /// The payload stored under `signature`.
    pub fn retrieve(&self, signature: &[u8; 32]) -> (r: Result<Vec<u8>, StoreError>)
        ensures
            match r {
                Ok(data) => self.index().contains_key(signature@) && data@ == decoded(
                    self.index()[signature@].waves,
                    self.frequency() as int,
                ),
                Err(e) => e == StoreError::NotFound && !self.index().contains_key(signature@),
            },
    {
        match self.find(signature) {
            Some(i) => {
                proof {
                    use_type_invariant(self);
                    lemma_position_unique(self.cache@, i as int);
                }
                Ok(self.decode_from_waves(self.cache[i].waves.as_slice()))
            },
            None => Err(StoreError::NotFound),
        }
    }

    /// The text stored under `signature`.
    pub fn retrieve_string(&self, signature: &[u8; 32]) -> (r: Result<String, StoreError>)
        ensures
            match r {
                Ok(text) => {
                    let data = decoded(
                        self.index()[signature@].waves,
                        self.frequency() as int,
                    );
                    &&& self.index().contains_key(signature@)
                    &&& vstd::utf8::valid_utf8(data)
                    &&& text@ == vstd::utf8::decode_utf8(data)
                },
                Err(e) => if self.index().contains_key(signature@) {
                    e == StoreError::InvalidText && !vstd::utf8::valid_utf8(
                        decoded(self.index()[signature@].waves, self.frequency() as int),
                    )
                } else {
                    e == StoreError::NotFound
                },
            },
    {
        match self.retrieve(signature) {
            Ok(data) => match String::from_utf8(data) {
                Ok(text) => Ok(text),
                Err(_) => Err(StoreError::InvalidText),
            },
            Err(e) => Err(e),
        }
    }

    /// The metadata stored under `signature`: none for an unknown signature
    /// and for a packet without metadata.
    pub fn get_metadata(&self, signature: &[u8; 32]) -> (r: Option<Vec<u8>>)
        ensures
            optional_view(r) == if self.index().contains_key(signature@) {
                self.index()[signature@].metadata
            } else {
                None
            },
    {
        match self.find(signature) {
            Some(i) => {
                proof {
                    use_type_invariant(self);
                    lemma_position_unique(self.cache@, i as int);
                }
                match &self.cache[i].metadata {
                    Some(m) => {
                        let copy: Vec<u8> = m.clone();
                        assert(copy@ =~= m@);
                        Some(copy)
                    },
                    None => None,
                }
            },
            None => None,
        }
    }

    /// Takes the packet with `signature` out of the index and says whether
    /// there was one. The log is not touched.
    pub fn delete(&mut self, signature: &[u8; 32]) -> (found: bool)
        ensures
            found == old(self).index().contains_key(signature@),
            final(self).index() == old(self).index().remove(signature@),
            final(self).frequency() == old(self).frequency(),
            final(self).position() == old(self).position(),
    {
        proof {
            use_type_invariant(&*self);
        }
        let mut entries: Vec<WavePacket> = Vec::new();
        assert(signatures(entries@) =~= Seq::<Seq<u8>>::empty());
        core::mem::swap(&mut self.cache, &mut entries);
        let found = match position_in(&entries, signature) {
            Some(i) => {
                proof {
                    lemma_remove(entries@, i as int);
                    lemma_position_unique(entries@, i as int);
                }
                entries.remove(i);
                true
            },
            None => {
                assert(index_model(entries@).remove(signature@) =~= index_model(entries@));
                false
            },
        };
        core::mem::swap(&mut self.cache, &mut entries);
        found
    }

    /// Frames `payload`, the serialized form of a packet, as one record, and
    /// counts its bytes to the log. A record that would take the log past
    /// what 64 bits count is refused with `InvalidParameter` and the store
    /// left as it was.
    pub fn persist_packet(&mut self, payload: &[u8]) -> (r: Result<Vec<u8>, StoreError>)
        ensures
            final(self).index() == old(self).index(),
            final(self).frequency() == old(self).frequency(),
            match r {
                Ok(record) => {
                    &&& record@ == frame(payload@)
                    &&& old(self).position() + 8 + payload@.len() <= u64::MAX
                    &&& final(self).position() == old(self).position() + 8 + payload@.len()
                },
                Err(e) => {
                    &&& e == StoreError::InvalidParameter
                    &&& old(self).position() + 8 + payload@.len() > u64::MAX
                    &&& final(self).position() == old(self).position()
                },
            },
    {
        let room: u64 = u64::MAX - self.position;
        if room < 8 || (payload.len() as u64) > room - 8 {
            return Err(StoreError::InvalidParameter);
        }
        let record = frame_record(payload);
        proof {
            use_type_invariant(&*self);
        }
        self.position = self.position + 8 + payload.len() as u64;
        Ok(record)
    }

    /// Rebuilds the index from the records of a replayed log, in order, and
    /// takes `log_len` as the length of the log. A record that held no
    /// packet arrives as an error, `Corrupt` by convention, and is passed
    /// over. Returns the number of packets inserted.
    pub fn load_cache(&mut self, packets: Vec<Result<WavePacket, StoreError>>, log_len: u64) -> (loaded:
        usize)
        ensures
            final(self).index() == replayed(old(self).index(), replay_models(packets@)),
            final(self).frequency() == old(self).frequency(),
            final(self).position() == log_len,
            loaded == packets_among(packets@, packets@.len() as int),
    {
        let ghost start = self.index();
        let ghost given = packets@;
        let ghost all = replay_models(packets@);
        let mut packets = packets;
        let n: usize = packets.len();
        let mut loaded: usize = 0;
        let mut i: usize = 0;
        assert(all.take(0) =~= Seq::<Option<PacketModel>>::empty());
        while i < n
            invariant
                0 <= i <= n,
                n == packets@.len(),
                all.len() == n,
                all == replay_models(given),
                loaded <= i,
                loaded == packets_among(given, i as int),
                given.len() == n,
                forall|j: int| i <= j < n ==> given[j] == #[trigger] packets@[j],
                self.frequency() == old(self).frequency(),
                self.position() == old(self).position(),
                self.index() == replayed(start, all.take(i as int)),
            decreases n - i,
        {
            let mut slot: Result<WavePacket, StoreError> = Err(StoreError::Corrupt);
            let ghost before = packets@;
            core::mem::swap(&mut slot, &mut packets[i]);
            proof {
                assert(all.take(i + 1).drop_last() =~= all.take(i as int));
                assert(all.take(i + 1).last() == all[i as int]);
                assert(slot == before[i as int]);
                assert(given[i as int] == slot);
                assert forall|j: int| i + 1 <= j < n implies given[j] == #[trigger] packets@[j] by {
                    assert(packets@[j] == before[j]);
                }
            }
            match slot {
                Ok(packet) => {
                    self.insert(packet);
                    loaded = loaded + 1;
                },
                Err(_) => {},
            }
            i = i + 1;
        }
        assert(all.take(n as int) =~= all);
        proof {
            use_type_invariant(&*self);
        }
        self.position = log_len;
        loaded
    }

    /// Rebuilds the index as `load_cache` does and returns the number of
    /// packets that it then holds.
    pub fn load_all(&mut self, packets: Vec<Result<WavePacket, StoreError>>, log_len: u64) -> (count:
        usize)
        ensures
            final(self).index() == replayed(old(self).index(), replay_models(packets@)),
            final(self).frequency() == old(self).frequency(),
            final(self).position() == log_len,
            final(self).index().dom().finite(),
            count == final(self).index().dom().len(),
    {
        self.load_cache(packets, log_len);
        proof {
            use_type_invariant(&*self);
            lemma_count(self.cache@);
        }
        self.cache.len()
    }

    /// Statistics of the store.
    pub fn stats(&self) -> (s: StorageStats)
        ensures
            s.packet_count == self.index().dom().len(),
            s.total_size == self.position(),
            s.frequency == self.frequency(),
            s.cache_hits == 0,
    {
        proof {
            use_type_invariant(self);
            lemma_count(self.cache@);
        }
        StorageStats {
            packet_count: self.cache.len(),
            total_size: self.position,
            frequency: self.frequency,
            cache_hits: 0,
        }
    }
}

} // verus!
