use dawnsearch::wire::{decode_message, encode_message, PeerInfo, UdpMessage};

fn round_trip(m: &UdpMessage) -> UdpMessage {
    let bytes = encode_message(m);
    decode_message(&bytes).expect("canonical bytes decode")
}

#[test]
fn search_round_trip() {
    let m = UdpMessage::Search {
        search_id: 0xDEAD_BEEF_0102_0304,
        distance_limit: Some(77),
        embedding: vec![5u8; 1152],
    };
    match round_trip(&m) {
        UdpMessage::Search { search_id, distance_limit, embedding } => {
            assert_eq!(search_id, 0xDEAD_BEEF_0102_0304);
            assert_eq!(distance_limit, Some(77));
            assert_eq!(embedding, vec![5u8; 1152]);
        },
        _ => panic!("wrong variant"),
    }
}

#[test]
fn search_without_limit_round_trip() {
    let m = UdpMessage::Search { search_id: 1, distance_limit: None, embedding: vec![0u8; 4] };
    match round_trip(&m) {
        UdpMessage::Search { search_id, distance_limit, embedding } => {
            assert_eq!(search_id, 1);
            assert_eq!(distance_limit, None);
            assert_eq!(embedding.len(), 4);
        },
        _ => panic!("wrong variant"),
    }
}

#[test]
fn page_round_trip() {
    let m = UdpMessage::Page {
        search_id: 42,
        page_id: 7,
        distance: 123456789,
        url: String::from("https://example.org/a"),
        title: String::from("A Title"),
        text: String::from("Some text with unicode: déjà vu"),
        instance_id: String::from("abcdefgh12345678"),
    };
    match round_trip(&m) {
        UdpMessage::Page { search_id, page_id, distance, url, title, text, instance_id } => {
            assert_eq!(search_id, 42);
            assert_eq!(page_id, 7);
            assert_eq!(distance, 123456789);
            assert_eq!(url, "https://example.org/a");
            assert_eq!(title, "A Title");
            assert_eq!(text, "Some text with unicode: déjà vu");
            assert_eq!(instance_id, "abcdefgh12345678");
        },
        _ => panic!("wrong variant"),
    }
}

#[test]
fn insert_round_trip() {
    let m = UdpMessage::Insert {
        url_smaz: vec![1, 2, 3],
        title_smaz: vec![],
        text_smaz: vec![255, 0, 128],
    };
    match round_trip(&m) {
        UdpMessage::Insert { url_smaz, title_smaz, text_smaz } => {
            assert_eq!(url_smaz, vec![1, 2, 3]);
            assert_eq!(title_smaz, Vec::<u8>::new());
            assert_eq!(text_smaz, vec![255, 0, 128]);
        },
        _ => panic!("wrong variant"),
    }
}

#[test]
fn announce_round_trip() {
    let m = UdpMessage::Announce {
        instance_id: String::from("node-one"),
        accept_insert: true,
        pages_indexed: 31337,
    };
    match round_trip(&m) {
        UdpMessage::Announce { instance_id, accept_insert, pages_indexed } => {
            assert_eq!(instance_id, "node-one");
            assert!(accept_insert);
            assert_eq!(pages_indexed, 31337);
        },
        _ => panic!("wrong variant"),
    }
}

#[test]
fn peers_round_trip() {
    let peers = vec![
        PeerInfo {
            instance_id: String::from("p1"),
            addr: String::from("10.0.0.1:7231"),
            last_seen: 1000,
            accept_insert: true,
            pages_indexed: 5,
        },
        PeerInfo {
            instance_id: String::from("p2"),
            addr: String::from("10.0.0.2:7231"),
            last_seen: 2000,
            accept_insert: false,
            pages_indexed: 9,
        },
    ];
    let m = UdpMessage::Peers { peers };
    match round_trip(&m) {
        UdpMessage::Peers { peers } => {
            assert_eq!(peers.len(), 2);
            assert_eq!(peers[0].instance_id, "p1");
            assert_eq!(peers[0].addr, "10.0.0.1:7231");
            assert_eq!(peers[0].last_seen, 1000);
            assert!(peers[0].accept_insert);
            assert_eq!(peers[0].pages_indexed, 5);
            assert_eq!(peers[1].instance_id, "p2");
            assert!(!peers[1].accept_insert);
        },
        _ => panic!("wrong variant"),
    }
}

#[test]
fn empty_peer_list_round_trip() {
    let m = UdpMessage::Peers { peers: Vec::new() };
    match round_trip(&m) {
        UdpMessage::Peers { peers } => assert_eq!(peers.len(), 0),
        _ => panic!("wrong variant"),
    }
}

#[test]
fn get_embedding_round_trip() {
    let m = UdpMessage::GetEmbedding { search_id: 9, page_id: 4 };
    match round_trip(&m) {
        UdpMessage::GetEmbedding { search_id, page_id } => {
            assert_eq!(search_id, 9);
            assert_eq!(page_id, 4);
        },
        _ => panic!("wrong variant"),
    }
}

#[test]
fn embedding_round_trip() {
    let m = UdpMessage::Embedding { search_id: 3, embedding: vec![9u8; 1152] };
    match round_trip(&m) {
        UdpMessage::Embedding { search_id, embedding } => {
            assert_eq!(search_id, 3);
            assert_eq!(embedding.len(), 1152);
        },
        _ => panic!("wrong variant"),
    }
}

#[test]
fn garbage_does_not_decode() {
    assert!(decode_message(&vec![]).is_none());
    assert!(decode_message(&vec![0x81]).is_none());
    assert!(decode_message(&vec![0x00, 0x01, 0x02, 0x03, 0x04]).is_none());
    // a valid message with a trailing byte is rejected
    let mut bytes = encode_message(&UdpMessage::GetEmbedding { search_id: 1, page_id: 2 });
    bytes.push(0);
    assert!(decode_message(&bytes).is_none());
    // a truncated message is rejected
    bytes.pop();
    bytes.pop();
    assert!(decode_message(&bytes).is_none());
}
