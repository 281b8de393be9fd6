use mem8_fs_lite::lite::{same_signature, sign};
use mem8_fs_lite::log::{frame_record, replay_records};
use mem8_fs_lite::wave::WavePoint;
use mem8_fs_lite::{Mem8Lite, StoreError, WavePacket};

type Plain = (Vec<u8>, Vec<(u64, u64, u32)>, Option<Vec<u8>>, i64, u64);

/// One way to lay a packet out in bytes, for the records of these tests.
fn to_bytes(packet: &WavePacket) -> Vec<u8> {
    let plain: Plain = (
        packet.signature.to_vec(),
        packet
            .waves
            .iter()
            .map(|p| ((p.amplitude >> 64) as u64, p.amplitude as u64, p.phase))
            .collect(),
        packet.metadata.clone(),
        packet.frequency,
        packet.timestamp,
    );
    bincode::serialize(&plain).unwrap()
}

fn from_bytes(bytes: &[u8]) -> Option<WavePacket> {
    let plain: Plain = bincode::deserialize(bytes).ok()?;
    let signature: [u8; 32] = plain.0.try_into().ok()?;
    Some(WavePacket {
        signature,
        waves: plain
            .1
            .iter()
            .map(|(hi, lo, phase)| WavePoint {
                amplitude: ((*hi as u128) << 64) | *lo as u128,
                phase: *phase,
            })
            .collect(),
        metadata: plain.2,
        frequency: plain.3,
        timestamp: plain.4,
    })
}

/// Stores and appends the record to `log`, as a file-backed store would.
fn store_logged(
    storage: &mut Mem8Lite,
    log: &mut Vec<u8>,
    data: &[u8],
    metadata: Option<Vec<u8>>,
    timestamp: u64,
) -> [u8; 32] {
    let packet = storage.make_packet(data, metadata, timestamp);
    let record = storage.persist_packet(&to_bytes(&packet)).unwrap();
    log.extend_from_slice(&record);
    let signature = packet.signature;
    storage.insert(packet);
    signature
}

fn open_logged(log: &[u8], frequency: i64) -> Mem8Lite {
    let mut storage = Mem8Lite::new(frequency).unwrap();
    let (records, _) = replay_records(log);
    let packets = records.iter().map(|r| from_bytes(r).ok_or(StoreError::Corrupt)).collect();
    storage.load_cache(packets, log.len() as u64);
    storage
}

#[test]
fn test_store_and_retrieve() {
    let mut storage = Mem8Lite::new(1_618_000).unwrap();

    // Store some data
    let data = b"Hello, waves!";
    let sig = storage.store(data, None, 1_700_000_000);

    // Retrieve it back
    let retrieved = storage.retrieve(&sig).unwrap();
    assert_eq!(retrieved, data);
}

#[test]
fn test_metadata() {
    let mut storage = Mem8Lite::new(2_000_000).unwrap();

    // Store with metadata
    let data = b"Secret message";
    let metadata = b"user:hue,type:secret";
    let sig = storage.store(data, Some(metadata.to_vec()), 1_700_000_000);

    // Retrieve metadata
    let meta = storage.get_metadata(&sig).unwrap();
    assert_eq!(meta, metadata);
}

#[test]
fn test_persistence() {
    let mut log: Vec<u8> = Vec::new();

    let sig = {
        let mut storage = open_logged(&log, 1_000_000);
        let sig = storage.store_string("Persistent waves!", 1_700_000_000);
        // The record of the packet that was stored goes to the log.
        let packet = storage.make_packet("Persistent waves!".as_bytes(), None, 1_700_000_000);
        assert_eq!(packet.signature, sig);
        log.extend_from_slice(&storage.persist_packet(&to_bytes(&packet)).unwrap());
        sig
    };

    // Open storage again
    let storage = open_logged(&log, 1_000_000);
    let retrieved = storage.retrieve_string(&sig).unwrap();
    assert_eq!(retrieved, "Persistent waves!");
}

#[test]
fn signature_is_the_digest_of_payload_then_metadata() {
    let data = b"Hello, waves!";
    let meta = b"user:hue".to_vec();
    let mut joined = data.to_vec();
    joined.extend_from_slice(&meta);
    assert_eq!(sign(data, &Some(meta.clone())), *blake3::hash(&joined).as_bytes());
    assert_eq!(sign(data, &None), *blake3::hash(data).as_bytes());
    assert_eq!(sign(&[], &None), *blake3::hash(&[]).as_bytes());
    // The digest of the empty input, as published.
    assert_eq!(
        sign(&[], &None)[..4],
        [0xaf, 0x13, 0x49, 0xb9]
    );
}

#[test]
fn signature_is_repeatable_and_tells_payloads_apart() {
    let meta = Some(b"m".to_vec());
    assert_eq!(sign(b"abc", &meta), sign(b"abc", &meta));
    assert_ne!(sign(b"abc", &meta), sign(b"abd", &meta));
    assert_ne!(sign(b"abc", &meta), sign(b"abc", &None));
    assert!(same_signature(&sign(b"abc", &None), &sign(b"abc", &None)));
    assert!(!same_signature(&sign(b"abc", &None), &sign(b"abd", &None)));
    let mut other = sign(b"abc", &None);
    other[31] ^= 1;
    assert!(!same_signature(&sign(b"abc", &None), &other));
}

#[test]
fn base_that_is_not_positive_is_an_invalid_parameter() {
    assert!(matches!(Mem8Lite::new(0), Err(StoreError::InvalidParameter)));
    assert!(matches!(Mem8Lite::new(-1_618_000), Err(StoreError::InvalidParameter)));
    assert!(Mem8Lite::new(1).is_ok());
}

#[test]
fn unknown_signature_is_not_found() {
    let mut storage = Mem8Lite::new(1_618_000).unwrap();
    let missing = sign(b"never stored", &None);
    assert_eq!(storage.retrieve(&missing), Err(StoreError::NotFound));
    assert_eq!(storage.retrieve_string(&missing), Err(StoreError::NotFound));
    assert_eq!(storage.get_metadata(&missing), None);
    assert!(!storage.delete(&missing));
    storage.store(b"something else", None, 1);
    assert_eq!(storage.retrieve(&missing), Err(StoreError::NotFound));
}

#[test]
fn packet_without_metadata_has_none() {
    let mut storage = Mem8Lite::new(1_618_000).unwrap();
    let sig = storage.store(b"bare", None, 1);
    assert_eq!(storage.get_metadata(&sig), None);
    let sig = storage.store(b"bare", Some(Vec::new()), 1);
    assert_eq!(storage.get_metadata(&sig), Some(Vec::new()));
}

#[test]
fn storing_twice_keeps_one_packet_with_the_later_time() {
    let mut log = Vec::new();
    let mut storage = Mem8Lite::new(1_618_000).unwrap();
    let meta = Some(b"tag".to_vec());
    let first = store_logged(&mut storage, &mut log, b"same bytes", meta.clone(), 100);
    assert_eq!(storage.stats().packet_count, 1);
    let second = store_logged(&mut storage, &mut log, b"same bytes", meta.clone(), 200);
    assert_eq!(first, second);
    assert_eq!(storage.stats().packet_count, 1);
    assert_eq!(storage.retrieve(&first).unwrap(), b"same bytes");

    // The log holds both records; replay keeps the later one.
    let (records, _) = replay_records(&log);
    assert_eq!(records.len(), 2);
    assert_eq!(from_bytes(&records[0]).unwrap().timestamp, 100);
    assert_eq!(from_bytes(&records[1]).unwrap().timestamp, 200);
    let reopened = open_logged(&log, 1_618_000);
    assert_eq!(reopened.stats().packet_count, 1);

    // Other metadata is another packet.
    store_logged(&mut storage, &mut log, b"same bytes", None, 300);
    assert_eq!(storage.stats().packet_count, 2);
}

#[test]
fn replay_keeps_the_last_packet_of_a_signature() {
    let storage = Mem8Lite::new(1_000_000).unwrap();
    let old = storage.make_packet(b"payload", None, 1);
    let mut new = storage.make_packet(b"payload", None, 2);
    new.metadata = Some(b"later".to_vec());
    let other = storage.make_packet(b"other", None, 3);

    let mut replayed = Mem8Lite::new(1_000_000).unwrap();
    let before = vec![
        Ok(old.clone()),
        Ok(other.clone()),
        Err(StoreError::Corrupt),
        Ok(new.clone()),
    ];
    let loaded = replayed.load_cache(before, 77);
    assert_eq!(loaded, 3);
    let mut counted = Mem8Lite::new(1_000_000).unwrap();
    let again = vec![Ok(old), Ok(other), Err(StoreError::Corrupt), Ok(new)];
    assert_eq!(counted.load_all(again, 77), 2);
    assert_eq!(replayed.stats().packet_count, 2);
    assert_eq!(replayed.stats().total_size, 77);
    assert_eq!(replayed.get_metadata(&sign(b"payload", &None)), Some(b"later".to_vec()));
    assert_eq!(replayed.retrieve(&sign(b"other", &None)).unwrap(), b"other");
}

#[test]
fn reopening_reconstructs_the_index() {
    let mut log = Vec::new();
    let mut storage = open_logged(&log, 1_618_000);
    let items: Vec<(&[u8], Option<Vec<u8>>)> = vec![
        (b"alpha", None),
        (b"beta", Some(b"meta".to_vec())),
        (b"", None),
        (b"alpha", Some(b"again".to_vec())),
        (&[0, 255, 128, 7], None),
    ];
    let mut signatures = Vec::new();
    for (k, (data, meta)) in items.iter().enumerate() {
        signatures.push(store_logged(&mut storage, &mut log, data, meta.clone(), k as u64));
    }
    assert_eq!(storage.stats().total_size, log.len() as u64);

    let reopened = open_logged(&log, 1_618_000);
    assert_eq!(reopened.stats().packet_count, storage.stats().packet_count);
    assert_eq!(reopened.stats().total_size, log.len() as u64);
    for (k, (data, meta)) in items.iter().enumerate() {
        assert_eq!(reopened.retrieve(&signatures[k]).unwrap(), data.to_vec());
        assert_eq!(reopened.get_metadata(&signatures[k]), meta.clone());
        assert_eq!(storage.retrieve(&signatures[k]).unwrap(), data.to_vec());
    }
}

#[test]
fn reopening_after_a_cut_off_write_finds_the_whole_records() {
    let mut log = Vec::new();
    let mut storage = open_logged(&log, 1_618_000);
    let kept = store_logged(&mut storage, &mut log, b"kept", None, 1);
    let whole = log.len();
    let lost = store_logged(&mut storage, &mut log, b"lost in the crash", None, 2);
    log.truncate(log.len() - 5);

    let (records, used) = replay_records(&log);
    assert_eq!(records.len(), 1);
    assert_eq!(used, whole);
    let reopened = open_logged(&log, 1_618_000);
    assert_eq!(reopened.retrieve(&kept).unwrap(), b"kept");
    assert_eq!(reopened.retrieve(&lost), Err(StoreError::NotFound));
}

#[test]
fn record_that_holds_no_packet_is_passed_over() {
    let mut log = Vec::new();
    let mut storage = open_logged(&log, 1_618_000);
    let before = store_logged(&mut storage, &mut log, b"before", None, 1);
    log.extend_from_slice(&frame_record(&[1, 2, 3]));
    let after = store_logged(&mut storage, &mut log, b"after", None, 2);

    let (records, used) = replay_records(&log);
    assert_eq!(records.len(), 3);
    assert_eq!(used, log.len());
    assert!(from_bytes(&records[1]).is_none());
    let reopened = open_logged(&log, 1_618_000);
    assert_eq!(reopened.stats().packet_count, 2);
    assert_eq!(reopened.retrieve(&before).unwrap(), b"before");
    assert_eq!(reopened.retrieve(&after).unwrap(), b"after");
}

#[test]
fn delete_touches_the_index_alone() {
    let mut log = Vec::new();
    let mut storage = open_logged(&log, 1_618_000);
    let gone = store_logged(&mut storage, &mut log, b"to delete", None, 1);
    let stays = store_logged(&mut storage, &mut log, b"to keep", None, 2);
    let size = storage.stats().total_size;

    assert!(storage.delete(&gone));
    assert_eq!(storage.retrieve(&gone), Err(StoreError::NotFound));
    assert_eq!(storage.retrieve(&stays).unwrap(), b"to keep");
    assert_eq!(storage.stats().packet_count, 1);
    assert_eq!(storage.stats().total_size, size);
    assert!(!storage.delete(&gone));

    // The log still holds the record: the packet is back after a replay.
    let reopened = open_logged(&log, 1_618_000);
    assert_eq!(reopened.retrieve(&gone).unwrap(), b"to delete");
}

#[test]
fn persist_counts_the_bytes_of_the_record() {
    let mut storage = Mem8Lite::new(1_618_000).unwrap();
    assert_eq!(storage.stats().total_size, 0);
    let record = storage.persist_packet(&[9, 8, 7]).unwrap();
    assert_eq!(record, vec![0, 0, 0, 0, 0, 0, 0, 3, 9, 8, 7]);
    assert_eq!(storage.stats().total_size, 11);
    storage.persist_packet(&[]).unwrap();
    assert_eq!(storage.stats().total_size, 19);

    storage.load_cache(Vec::new(), u64::MAX - 10);
    assert_eq!(storage.persist_packet(&[1, 2, 3]), Err(StoreError::InvalidParameter));
    assert_eq!(storage.stats().total_size, u64::MAX - 10);
    assert!(storage.persist_packet(&[1, 2]).is_ok());
    assert_eq!(storage.stats().total_size, u64::MAX);
}

#[test]
fn stats_of_a_store() {
    let mut storage = Mem8Lite::new(4_669_000).unwrap();
    storage.store(b"one", None, 1);
    storage.store(b"two", None, 2);
    let stats = storage.stats();
    assert_eq!(stats.packet_count, 2);
    assert_eq!(stats.total_size, 0);
    assert_eq!(stats.frequency, 4_669_000);
    assert_eq!(stats.cache_hits, 0);
}

#[test]
fn packet_holds_wave_signature_base_and_time() {
    let storage = Mem8Lite::new(1_618_000).unwrap();
    let packet = storage.make_packet(&[0, 255], Some(b"m".to_vec()), 1_700_000_000);
    assert_eq!(packet.signature, sign(&[0, 255], &Some(b"m".to_vec())));
    assert_eq!(packet.waves.len(), 2);
    assert_eq!(packet.waves[1].amplitude, 1_618_000 * 255);
    assert_eq!(packet.waves[1].phase, 3_141_592);
    assert_eq!(packet.metadata, Some(b"m".to_vec()));
    assert_eq!(packet.frequency, 1_618_000);
    assert_eq!(packet.timestamp, 1_700_000_000);
    assert_eq!(storage.decode_from_waves(&packet.waves), vec![0, 255]);
    assert_eq!(storage.encode_to_waves(&[0, 255]).len(), 2);
}

#[test]
fn text_round_trip_and_payload_that_is_no_text() {
    let mut storage = Mem8Lite::new(1_618_000).unwrap();
    let sig = storage.store_string("Grüße, wellen! 🌊", 5);
    assert_eq!(sig, sign("Grüße, wellen! 🌊".as_bytes(), &None));
    assert_eq!(storage.retrieve_string(&sig).unwrap(), "Grüße, wellen! 🌊");
    let empty = storage.store_string("", 6);
    assert_eq!(storage.retrieve_string(&empty).unwrap(), "");

    let raw = storage.store(&[0xff, 0xfe, 0x00], None, 7);
    assert_eq!(storage.retrieve(&raw).unwrap(), vec![0xff, 0xfe, 0x00]);
    assert_eq!(storage.retrieve_string(&raw), Err(StoreError::InvalidText));
}

#[test]
fn packets_of_another_base_decode_at_the_base_of_the_store() {
    let writer = Mem8Lite::new(2_000_000).unwrap();
    let packet = writer.make_packet(&[10, 100], None, 1);
    let sig = packet.signature;
    let mut reader = Mem8Lite::new(1_000_000).unwrap();
    reader.insert(packet);
    // Amplitudes are twice as large as this store expects.
    assert_eq!(reader.retrieve(&sig).unwrap(), vec![20, 200]);
}
