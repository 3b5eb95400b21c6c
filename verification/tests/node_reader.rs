use jetstreamer::block_nodes::{GatherStep, NodeWithCid};
use jetstreamer::cid::{cid_from_cbor_link, CborValue, Cid, LinkError, Multihash, DAG_PB, SHA2_256};
use jetstreamer::cursor::{read_uvarint, Cursor, ErrorKind, ReadError};
use jetstreamer::node_reader::{BlockStep, NodeReader};
use jetstreamer::raw_node::{NodeError, RawNode};
use jetstreamer::seek_spacing::{after_claim, seek_hit_step, seek_monotonic_millis, SpacingStep};
use jetstreamer::slot_seek::{
    SeekPhase, SeekStep, SlotLookup, SlotSeek, SlotSeekAction, SlotSeekError, SlotSeekEvent,
};
use jetstreamer::text::{parse_u64, push_decimal};
use jetstreamer::uvarint::UvarintError;

const MAX_SECTION: usize = 1 << 20;

fn uvarint(mut v: u64) -> Vec<u8> {
    let mut out = Vec::new();
    while v >= 0x80 {
        out.push((v & 0x7f) as u8 | 0x80);
        v >>= 7;
    }
    out.push(v as u8);
    out
}

fn block(bytes: &[u8]) -> Vec<u8> {
    let mut out = uvarint(bytes.len() as u64);
    out.extend_from_slice(bytes);
    out
}

fn section(version: u64, codec: u64, hash: u64, digest: &[u8], data: &[u8]) -> Vec<u8> {
    let mut out = uvarint(version);
    out.extend(uvarint(codec));
    out.extend(uvarint(hash));
    out.extend(block(digest));
    out.extend_from_slice(data);
    out
}

fn node(n: u8) -> Vec<u8> {
    section(1, 0x71, SHA2_256, &[n; 32], &vec![n; n as usize])
}

fn archive(header: &[u8], sections: &[Vec<u8>]) -> Vec<u8> {
    let mut out = block(header);
    for s in sections {
        out.extend(block(s));
    }
    out
}

fn cid_v1(codec: u64, code: u64, digest: Vec<u8>) -> Cid {
    Cid { version: 1, codec, hash: Multihash { code, digest } }
}

const EOF: NodeError = NodeError::Read(ReadError::UnexpectedEof);

#[test]
fn integers_are_read_back() {
    for v in [0u64, 1, 127, 128, 300, 16383, 16384, 1 << 62, u64::MAX] {
        let mut bytes = uvarint(v);
        bytes.push(99);
        let len = bytes.len() as u64;
        let mut cursor = Cursor::new(bytes);
        assert_eq!(read_uvarint(&mut cursor), Ok(v));
        assert_eq!(cursor.position(), len - 1);
    }
}

#[test]
fn integers_that_are_padded_are_accepted() {
    let mut cursor = Cursor::new(vec![0x81, 0x80, 0x00]);
    assert_eq!(read_uvarint(&mut cursor), Ok(1));
    assert_eq!(cursor.position(), 3);
}

#[test]
fn integers_beyond_64_bits_are_refused() {
    let mut bytes = vec![0x80u8; 9];
    bytes.push(2);
    let overflow = ReadError::Uvarint(UvarintError::Overflow);
    assert_eq!(read_uvarint(&mut Cursor::new(bytes)), Err(overflow));
    let too_long = ReadError::Uvarint(UvarintError::TooLong);
    assert_eq!(read_uvarint(&mut Cursor::new(vec![0x80u8; 10])), Err(too_long));
    assert_eq!(read_uvarint(&mut Cursor::new(vec![0x80u8; 9])), Err(ReadError::UnexpectedEof));
    assert_eq!((overflow.kind(), overflow.text()), (ErrorKind::InvalidData, "uvarint overflow".to_string()));
    assert_eq!((too_long.kind(), too_long.text()), (ErrorKind::InvalidData, "uvarint too long".to_string()));
}

#[test]
fn nodes_come_in_order() {
    let bytes = archive(&[7; 59], &[node(1), node(2), node(3)]);
    let mut reader = NodeReader::new(Cursor::new(bytes), MAX_SECTION);
    for n in 1..=3u8 {
        let next = reader.next();
        assert_eq!(next.bytes_read, node(n).len() as u64);
        let expected = RawNode::new(cid_v1(0x71, SHA2_256, vec![n; 32]), vec![n; n as usize]);
        assert_eq!(next.result, Ok(expected));
        assert_eq!(reader.get_item_index(), n as u64);
    }
    assert_eq!(reader.header, vec![7; 59]);
    let end = reader.next();
    assert_eq!((end.bytes_read, end.result), (0, Err(EOF)));
    assert!(EOF.is_eof());
    assert_eq!(reader.get_item_index(), 3);
}

#[test]
fn the_header_is_read_once() {
    let mut reader = NodeReader::new(Cursor::new(archive(&[1, 2, 3], &[node(9)])), MAX_SECTION);
    assert!(reader.needs_header());
    assert_eq!(reader.read_raw_header(), Ok(vec![1, 2, 3]));
    assert_eq!(reader.read_raw_header(), Ok(vec![1, 2, 3]));
    assert_eq!(reader.reader.position(), 4);
    assert!(!reader.needs_header());
    assert!(reader.next().result.is_ok());
}

#[test]
fn an_empty_header_is_read_once() {
    let mut reader = NodeReader::new(Cursor::new(vec![0x00, 0x01, 0xAA]), MAX_SECTION);
    assert_eq!(reader.read_raw_header(), Ok(vec![]));
    assert!(!reader.needs_header());
    assert_eq!(reader.read_raw_header(), Ok(vec![]));
    assert_eq!(reader.reader.position(), 1);

    let mut reader = NodeReader::new(Cursor::new(archive(&[], &[node(1), node(2)])), MAX_SECTION);
    for n in 1..=2u8 {
        let expected = RawNode::new(cid_v1(0x71, SHA2_256, vec![n; 32]), vec![n; n as usize]);
        assert_eq!(reader.next().result, Ok(expected));
    }
    assert_eq!(reader.next().result, Err(EOF));
    assert_eq!(reader.get_item_index(), 2);
    let mut search = SlotSeek::new(7);
    assert_eq!(
        reader.seek_to_slot::<()>(&mut search, SlotSeekEvent::Begin),
        SlotSeekAction::Lookup(7)
    );
}

#[test]
fn a_header_that_cannot_be_read_is_not_kept() {
    let mut reader = NodeReader::new(Cursor::new(vec![3, 1, 2]), MAX_SECTION);
    assert_eq!(reader.read_raw_header(), Err(EOF));
    assert!(reader.needs_header());
    assert!(reader.header.is_empty());
    let mut reader = NodeReader::new(Cursor::new(vec![3, 1, 2]), MAX_SECTION);
    assert_eq!(reader.next().result, Err(EOF));
    assert!(reader.needs_header());
    assert!(reader.header.is_empty());
    let mut bytes = uvarint(1025);
    bytes.extend(vec![9; 1025]);
    let mut reader = NodeReader::new(Cursor::new(bytes), MAX_SECTION);
    assert_eq!(reader.read_raw_header(), Err(NodeError::HeaderTooLong));
    assert!(reader.needs_header());
    assert_eq!(reader.reader.position(), 2);
}

#[test]
fn blocks_have_a_limit() {
    let mut reader = NodeReader::new(Cursor::new(uvarint(1025)), MAX_SECTION);
    assert_eq!(reader.read_raw_header(), Err(NodeError::HeaderTooLong));
    let mut reader = NodeReader::new(Cursor::new(archive(&[5; 1024], &[vec![0; 11]])), 10);
    assert_eq!(reader.next().result, Err(NodeError::SectionTooLong));
    assert_eq!(reader.header.len(), 1024);
    assert_eq!(reader.get_item_index(), 0);
    let mut reader = NodeReader::new(Cursor::new(uvarint(12)), 10);
    assert_eq!(reader.next().result, Err(EOF));
}

#[test]
fn blocks_can_be_read_in_pieces() {
    let reader = NodeReader::new((), 300);
    let mut read = reader.start_item();
    assert_eq!(read.want(), 1);
    assert_eq!(read.supply(&[0xac]), BlockStep::More);
    assert_eq!(read.want(), 1);
    assert_eq!(read.supply(&[0x02]), BlockStep::More);
    assert_eq!(read.want(), 300);
    assert_eq!(read.supply(&[1; 300]), BlockStep::Done);
    let mut read = reader.start_item();
    assert_eq!(read.supply(&[0xad]), BlockStep::More);
    assert_eq!(read.supply(&[0x02]), BlockStep::Failed(NodeError::SectionTooLong));
    let mut header = reader.start_header();
    assert_eq!(header.supply(&[0x81]), BlockStep::More);
    assert_eq!(header.supply(&[0x08]), BlockStep::Failed(NodeError::HeaderTooLong));
    let mut reader = reader;
    assert_eq!(reader.finish_header(vec![4, 5]), vec![4, 5]);
    assert_eq!(reader.header, vec![4, 5]);
    assert!(reader.finish_item(node(6)).is_ok());
    assert_eq!(reader.finish_item(Vec::new()), Err(EOF));
    assert_eq!(reader.get_item_index(), 1);
}

fn from_section(bytes: Vec<u8>) -> Result<RawNode, NodeError> {
    RawNode::from_cursor(&mut Cursor::new(bytes))
}

#[test]
fn sections_of_either_version_are_split() {
    let digest = vec![3u8; 32];
    let hash = Multihash { code: SHA2_256, digest: digest.clone() };
    assert_eq!(
        from_section(section(0, 0x55, SHA2_256, &digest, &[1, 2])),
        Ok(RawNode::new(Cid { version: 0, codec: DAG_PB, hash }, vec![1, 2]))
    );
    assert_eq!(
        from_section(section(1, 0x55, 0, &[8, 9], &[])),
        Ok(RawNode::new(cid_v1(0x55, 0, vec![8, 9]), vec![]))
    );
    assert!(from_section(section(1, 0x55, 0x13, &[1; 64], &[5])).is_ok());
}

#[test]
fn sections_that_hold_no_node_are_refused() {
    let long = from_section(section(1, 0x71, SHA2_256, &[0; 65], &[])).unwrap_err();
    assert_eq!(long, NodeError::DigestTooLong { position: 4 });
    assert_eq!(
        from_section(section(0, 0x70, SHA2_256, &[0; 31], &[])),
        Err(NodeError::InvalidCidV0Multihash)
    );
    assert_eq!(
        from_section(section(0, 0x70, 0x13, &[0; 32], &[])),
        Err(NodeError::InvalidCidV0Multihash)
    );
    assert_eq!(
        from_section(section(2, 0x71, SHA2_256, &[0; 32], &[])),
        Err(NodeError::UnknownCidVersion)
    );
    assert_eq!(from_section(vec![1, 0x71, 0x12, 32, 0]), Err(EOF));
    assert_eq!(from_section(vec![]), Err(EOF));
    assert_eq!(
        from_section(vec![0x80; 10]),
        Err(NodeError::Read(ReadError::Uvarint(UvarintError::TooLong)))
    );
}

#[test]
fn node_errors_have_messages() {
    let messages = [
        (EOF, "early eof", Some(ErrorKind::UnexpectedEof)),
        (NodeError::HeaderTooLong, "Header length too long", Some(ErrorKind::Other)),
        (NodeError::SectionTooLong, "Section size too long", Some(ErrorKind::Other)),
        (
            NodeError::DigestTooLong { position: 4 },
            "Digest length too long, position=4",
            Some(ErrorKind::Other),
        ),
        (NodeError::InvalidCidV0Multihash, "CIDv0 requires a Sha-256 multihash", None),
        (NodeError::UnknownCidVersion, "Unknown CID version", Some(ErrorKind::Other)),
        (NodeError::UnknownType, "Unknown type", Some(ErrorKind::Other)),
    ];
    for (error, text, kind) in messages {
        assert_eq!(error.text(), text);
        assert_eq!(error.kind(), kind);
        assert_eq!(error.is_eof(), error == EOF);
    }
    let v0 = multihash::Multihash::<64>::wrap(SHA2_256, &[0; 31]).unwrap();
    assert_eq!(
        NodeError::InvalidCidV0Multihash.text(),
        cid::Cid::new_v0(v0).unwrap_err().to_string()
    );
}

#[test]
fn links_are_read_back() {
    let hash = multihash::Multihash::<64>::wrap(SHA2_256, &[6; 32]).unwrap();
    for expected in [cid::Cid::new_v1(0x71, hash), cid::Cid::new_v0(hash).unwrap()] {
        let mut link = vec![0u8];
        link.extend(expected.to_bytes());
        let found = cid_from_cbor_link(&CborValue::Bytes(link)).unwrap();
        assert_eq!(found.version, u64::from(expected.version()));
        assert_eq!(found.codec, expected.codec());
        assert_eq!(found.hash, Multihash { code: SHA2_256, digest: vec![6; 32] });
    }
}

#[test]
fn other_values_are_no_links() {
    let invalid = "invalid DAG\u{2011}CBOR link encoding";
    for value in [
        CborValue::Other,
        CborValue::Bytes(vec![]),
        CborValue::Bytes(vec![1, 1, 0x71, 0x12, 0]),
    ] {
        let error = cid_from_cbor_link(&value).unwrap_err();
        assert_eq!(error, LinkError::InvalidEncoding);
        assert_eq!(error.text(), invalid);
    }
    let error = cid_from_cbor_link(&CborValue::Bytes(vec![0, 1, 0x71])).unwrap_err();
    let reason = cid::Cid::try_from(vec![1u8, 0x71]).unwrap_err().to_string();
    assert_eq!(error, LinkError::Cid(reason.clone()));
    assert_eq!(error.text(), reason);
}

fn parsed(n: u8) -> Result<NodeWithCid<u8>, NodeError> {
    let raw = from_section(node(n))?;
    let decoded: Result<u8, String> = if raw.data.is_empty() {
        Err("no data".to_string())
    } else {
        Ok(raw.data[0])
    };
    NodeReader::<Cursor>::next_parsed(raw, decoded)
}

fn gather(outcomes: Vec<Result<NodeWithCid<u8>, NodeError>>) -> Result<Vec<u8>, NodeError> {
    let mut nodes = Vec::new();
    for outcome in outcomes {
        let is_block = matches!(&outcome, Ok(n) if n.node >= 100);
        match NodeReader::<Cursor>::read_until_block(&mut nodes, outcome, is_block) {
            GatherStep::More => {}
            GatherStep::Done => break,
            GatherStep::Failed(error) => return Err(error),
        }
    }
    Ok(nodes.iter().map(|n| n.node).collect())
}

#[test]
fn nodes_are_gathered_until_a_block() {
    assert_eq!(gather(vec![parsed(1), parsed(2), parsed(100), parsed(3)]), Ok(vec![1, 2, 100]));
    assert_eq!(gather(vec![parsed(100), parsed(101)]), Ok(vec![100]));
    assert_eq!(gather(vec![parsed(1), Err(EOF), parsed(100)]), Ok(vec![1]));
    assert_eq!(gather(vec![Err(EOF)]), Ok(vec![]));
    assert_eq!(gather(vec![parsed(1), parsed(0), parsed(100)]), Err(NodeError::UnknownType));
    assert_eq!(
        gather(vec![parsed(1), Err(NodeError::SectionTooLong)]),
        Err(NodeError::SectionTooLong)
    );
    assert_eq!(parsed(5).unwrap().cid, cid_v1(0x71, SHA2_256, vec![5; 32]));
    assert_eq!(RawNode::parse::<u8, ()>(Ok(3)), Ok(3));
}

type Index = fn(u64) -> SlotLookup<String>;

fn seek(slot: u64, index: Index) -> (SeekStep<String>, Vec<u64>) {
    let mut search = SlotSeek::new(slot);
    let mut looked_up = vec![search.lookup()];
    loop {
        match search.answer(index(search.lookup())) {
            SeekStep::Lookup(next) => looked_up.push(next),
            step => return (step, looked_up),
        }
    }
}

fn found(slot: u64) -> SlotLookup<String> {
    SlotLookup::Found { offset: slot * 10, length: 7 }
}

#[test]
fn a_present_slot_is_sought_directly() {
    assert_eq!(seek(1_000_000, found), (SeekStep::SeekTo(10_000_000), vec![1_000_000]));
}

#[test]
fn skipped_slots_are_passed_over() {
    let (step, looked_up) =
        seek(500, |s| if s < 503 { SlotLookup::NotFound } else { found(s) });
    assert_eq!(step, SeekStep::SeekTo(5030));
    assert_eq!(looked_up, vec![500, 501, 502, 503]);
}

#[test]
fn a_slot_behind_the_last_one_is_sought_past_it() {
    let (step, looked_up) =
        seek(431_997, |s| if s == 431_990 { found(s) } else { SlotLookup::NotFound });
    assert_eq!(step, SeekStep::SeekTo(4_319_907));
    assert_eq!(looked_up[..4], [431_997, 431_998, 431_999, 431_996]);
    assert_eq!(looked_up.last(), Some(&431_990));
}

#[test]
fn an_empty_epoch_is_an_error() {
    let (step, looked_up) = seek(864_003, |_| SlotLookup::NotFound);
    assert_eq!(step, SeekStep::Fail(SlotSeekError::EpochHasNoIndexedSlots(2)));
    assert_eq!(looked_up.len(), 432_000);
    assert!(looked_up.iter().all(|s| (864_000..1_296_000).contains(s)));
}

#[test]
fn index_failures_surface() {
    let (step, _) = seek(7, |s| {
        if s == 9 {
            SlotLookup::Failed("unreachable".to_string())
        } else {
            SlotLookup::NotFound
        }
    });
    assert_eq!(step, SeekStep::Fail(SlotSeekError::Index("unreachable".to_string())));
}

#[test]
fn a_seek_uses_up_its_permit() {
    let mut reader = NodeReader::new((), MAX_SECTION);
    let mut search = SlotSeek::new(7);
    let found = || SlotSeekEvent::LookedUp(SlotLookup::<()>::Found { offset: 70, length: 7 });
    assert_eq!(
        reader.seek_to_slot::<()>(&mut search, SlotSeekEvent::Begin),
        SlotSeekAction::ReadHeader
    );
    reader.finish_header(vec![1]);
    assert_eq!(
        reader.seek_to_slot::<()>(&mut search, SlotSeekEvent::HeaderRead),
        SlotSeekAction::Lookup(7)
    );
    assert_eq!(reader.seek_to_slot(&mut search, found()), SlotSeekAction::WaitForPermit(70));
    assert_eq!(
        reader.seek_to_slot::<()>(&mut search, SlotSeekEvent::PermitGranted),
        SlotSeekAction::SeekTo(70)
    );
    assert_eq!(search.phase, SeekPhase::Found(70));
    reader.prime_seek_permit();
    let mut search = SlotSeek::new(7);
    assert_eq!(
        reader.seek_to_slot::<()>(&mut search, SlotSeekEvent::Begin),
        SlotSeekAction::Lookup(7)
    );
    assert_eq!(
        reader.seek_to_slot(&mut search, SlotSeekEvent::LookedUp(SlotLookup::<()>::NotFound)),
        SlotSeekAction::Lookup(8)
    );
    assert!(reader.seek_permit_primed);
    assert_eq!(reader.seek_to_slot(&mut search, found()), SlotSeekAction::SeekTo(70));
    assert!(!reader.seek_permit_primed);
    assert!(!reader.take_seek_permit());
    let mut search = SlotSeek::new(7);
    assert_eq!(
        reader.seek_to_slot(&mut search, SlotSeekEvent::LookedUp(SlotLookup::Failed(()))),
        SlotSeekAction::Fail(SlotSeekError::Index(()))
    );
}

#[test]
fn seeks_keep_their_distance() {
    assert_eq!(seek_hit_step(14, 0), SpacingStep::Sleep(1));
    assert_eq!(seek_hit_step(15, 0), SpacingStep::Claim { expected: 0, hit: 15 });
    assert_eq!(seek_hit_step(20, 15), SpacingStep::Sleep(10));
    assert_eq!(seek_hit_step(10, 15), SpacingStep::Sleep(15));
    assert_eq!(after_claim(true), SpacingStep::Proceed);
    assert_eq!(after_claim(false), SpacingStep::Sleep(15));
    assert_eq!(seek_monotonic_millis(u128::MAX), u64::MAX);
    assert_eq!(seek_monotonic_millis(1234), 1234);

    let mut now = 0;
    let mut last = 0;
    let mut hits = Vec::new();
    while hits.len() < 5 {
        match seek_hit_step(now, last) {
            SpacingStep::Sleep(ms) => now += ms,
            SpacingStep::Claim { expected, hit } => {
                assert_eq!(expected, last);
                last = hit;
                hits.push(hit);
            }
            SpacingStep::Proceed => unreachable!(),
        }
    }
    assert_eq!(hits, vec![15, 30, 45, 60, 75]);
}

#[test]
fn numbers_are_printed_and_parsed() {
    for n in [0u64, 7, 10, 999, 1000, u64::MAX] {
        let mut out = "n=".to_string();
        push_decimal(&mut out, n);
        assert_eq!(out, format!("n={n}"));
        assert_eq!(parse_u64(n.to_string().as_bytes()), Some(n));
    }
    for text in ["", "+", "-1", "1 ", "1x", "18446744073709551616", "++1"] {
        assert_eq!(parse_u64(text.as_bytes()), None);
        assert!(text.parse::<u64>().is_err());
    }
    assert_eq!(parse_u64(b"+0012"), Some(12));
}
