use quorium::bootstrap::generate_unique_peer_id;
use quorium::error::PeerError;
use quorium::peers::{PeerId, Uuid};
use quorium::text::{decimal_string, parse_decimal};

#[test]
fn generated_peer_ids_are_distinct_uuids() {
    let a = generate_unique_peer_id();
    let b = generate_unique_peer_id();

    assert_ne!(a, b);
    assert!(a.parse::<uuid::Uuid>().is_ok());
}

#[test]
fn peer_id_round_trips_through_its_string_form() {
    let peer = PeerId::new(2);
    let rendered = peer.to_string();

    assert!(rendered.starts_with("2-"));
    assert_eq!(rendered.parse::<PeerId>().unwrap(), peer);
}

#[test]
fn peer_id_parses_the_format_written_by_the_go_script() {
    let peer: PeerId = "0-dc354115-1e98-437f-bfbe-12a34ad0f669".parse().unwrap();

    assert_eq!(peer.index, 0);
    assert_eq!(peer.uuid.to_string(), "dc354115-1e98-437f-bfbe-12a34ad0f669");
    assert_eq!(peer.key(), "node0");
}

#[test]
fn malformed_peer_ids_are_rejected() {
    for input in ["", "nodeone", "abc-dc354115-1e98-437f-bfbe-12a34ad0f669", "0-nope"] {
        assert!(input.parse::<PeerId>().is_err(), "{input} should not parse");
    }
}

#[test]
fn rejected_peer_id_error_names_the_input() {
    match PeerId::parse("0-nope") {
        Err(PeerError::InvalidPeerId(text)) => assert_eq!(text, "0-nope"),
        other => panic!("unexpected result {other:?}"),
    }
    match PeerId::parse("nodeone") {
        Err(PeerError::InvalidPeerId(text)) => assert_eq!(text, "nodeone"),
        other => panic!("unexpected result {other:?}"),
    }
}

#[test]
fn peer_id_renders_index_and_hyphenated_uuid() {
    let peer = PeerId { index: 17, uuid: Uuid::from_u128(0xdc354115_1e98_437f_bfbe_12a34ad0f669) };
    assert_eq!(peer.to_string(), "17-dc354115-1e98-437f-bfbe-12a34ad0f669");
    assert_eq!(peer.key(), "node17");
}

#[test]
fn peer_id_index_accepts_plus_sign_and_leading_zeros() {
    let a = PeerId::parse("+7-dc354115-1e98-437f-bfbe-12a34ad0f669").unwrap();
    let b = PeerId::parse("007-dc354115-1e98-437f-bfbe-12a34ad0f669").unwrap();
    assert_eq!(a.index, 7);
    assert_eq!(b.index, 7);
    assert_eq!(a, b);
}

#[test]
fn peer_id_index_rejects_overflow_and_bare_sign() {
    assert!(PeerId::parse("99999999999999999999999-dc354115-1e98-437f-bfbe-12a34ad0f669").is_err());
    assert!(PeerId::parse("+-dc354115-1e98-437f-bfbe-12a34ad0f669").is_err());
    assert!(PeerId::parse("-dc354115-1e98-437f-bfbe-12a34ad0f669").is_err());
    let max = format!("{}-dc354115-1e98-437f-bfbe-12a34ad0f669", usize::MAX);
    assert_eq!(PeerId::parse(&max).unwrap().index, usize::MAX);
}

#[test]
fn peer_id_uuid_accepts_the_other_forms_the_uuid_crate_reads() {
    let expected = Uuid::from_u128(0xdc354115_1e98_437f_bfbe_12a34ad0f669);
    for input in [
        "3-dc3541151e98437fbfbe12a34ad0f669",
        "3-DC354115-1E98-437F-BFBE-12A34AD0F669",
        "3-{dc354115-1e98-437f-bfbe-12a34ad0f669}",
        "3-urn:uuid:dc354115-1e98-437f-bfbe-12a34ad0f669",
    ] {
        let peer = PeerId::parse(input).unwrap();
        assert_eq!(peer.index, 3);
        assert_eq!(peer.uuid, expected);
    }
}

#[test]
fn new_peer_ids_are_random_version_4() {
    let a = PeerId::new(5);
    let b = PeerId::new(5);
    assert_eq!(a.index, 5);
    assert_ne!(a.uuid, b.uuid);
    assert_eq!((a.uuid.as_u128() >> 76) & 0xf, 4);
    assert_eq!((a.uuid.as_u128() >> 62) & 0x3, 2);
    let parsed = uuid::Uuid::parse_str(&a.uuid.to_string()).unwrap();
    assert_eq!(parsed.get_version_num(), 4);
}

#[test]
fn decimal_text_matches_std() {
    for n in [0usize, 1, 9, 10, 99, 100, 12345, usize::MAX] {
        assert_eq!(decimal_string(n), n.to_string());
        assert_eq!(parse_decimal(&n.to_string()), Some(n));
    }
    for bad in ["", "+", "-1", "1a", " 1", "1 ", "١"] {
        assert_eq!(parse_decimal(bad), None, "{bad}");
        assert!(bad.parse::<usize>().is_err());
    }
    assert_eq!(parse_decimal("+42"), Some(42));
    assert_eq!(parse_decimal("0042"), Some(42));
}

#[test]
fn peer_id_converts_to_and_from_its_string() {
    let peer = PeerId { index: 4, uuid: Uuid::from_u128(1) };
    let text = String::from(peer);
    assert_eq!(text, "4-00000000-0000-0000-0000-000000000001");
    assert_eq!(PeerId::try_from(text).unwrap(), peer);
    match PeerId::try_from("4-x".to_owned()) {
        Err(PeerError::InvalidPeerId(text)) => assert_eq!(text, "4-x"),
        other => panic!("unexpected {other:?}"),
    }
}

#[test]
fn uuid_reads_every_text_form_of_the_crate() {
    let value = 0x67e55044_10b1_426f_9247_bb680e5fe0c8u128;
    for text in [
        "67e55044-10b1-426f-9247-bb680e5fe0c8",
        "67E55044-10B1-426F-9247-BB680E5FE0C8",
        "67e5504410b1426f9247bb680e5fe0c8",
        "{67e55044-10b1-426f-9247-bb680e5fe0c8}",
        "urn:uuid:67e55044-10b1-426f-9247-bb680e5fe0c8",
        "URN:UUID:67e55044-10b1-426f-9247-bb680e5fe0c8",
    ] {
        assert_eq!(Uuid::parse(text), Some(Uuid::from_u128(value)), "{text}");
    }
    for bad in [
        "",
        "67e55044-10b1-426f-9247-bb680e5fe0c",
        "67e55044+10b1-426f-9247-bb680e5fe0c8",
        "67e55044-10b1-426f-9247-bb680e5fe0cg",
        "(67e55044-10b1-426f-9247-bb680e5fe0c8)",
        "urn:uuix:67e55044-10b1-426f-9247-bb680e5fe0c8",
    ] {
        assert_eq!(Uuid::parse(bad), None, "{bad}");
    }
    assert_eq!(Uuid::from_u128(value).to_string(), "67e55044-10b1-426f-9247-bb680e5fe0c8");
}
