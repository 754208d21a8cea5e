use dawnsearch::udp::{UdpAction, UdpService};
use dawnsearch::vector::{EM_LEN, I24_MAX};
use dawnsearch::wire::{encode_message, PeerInfo, UdpMessage};

fn basis(hot: usize) -> Vec<u32> {
    let mut v: Vec<u32> = Vec::new();
    for i in 0..EM_LEN {
        if i == hot {
            v.push(I24_MAX);
        } else {
            v.push((I24_MAX - 1) / 2);
        }
    }
    v
}

fn peer(id: &str, addr: &str, last_seen: u64, accept_insert: bool, pages: u64) -> PeerInfo {
    PeerInfo {
        instance_id: String::from(id),
        addr: String::from(addr),
        last_seen,
        accept_insert,
        pages_indexed: pages,
    }
}

fn service() -> UdpService {
    UdpService::new(String::from("abcdefgh12345678"), false)
}

fn give_peers(svc: &mut UdpService, peers: Vec<PeerInfo>) {
    let bytes = encode_message(&UdpMessage::Peers { peers });
    let from = String::from("tracker:7230");
    let actions = svc.handle_packet(&from, &bytes, 0);
    assert_eq!(actions.len(), 0);
}

#[test]
fn insert_is_dropped_unless_enabled() {
    // accept_insert is false on this node
    let mut svc = service();
    let m = UdpMessage::Insert {
        url_smaz: smaz::compress("http://example.org".as_bytes()),
        title_smaz: smaz::compress("a title".as_bytes()),
        text_smaz: smaz::compress("some text".as_bytes()),
    };
    let bytes = encode_message(&m);
    let from = String::from("10.0.0.9:7231");
    let actions = svc.handle_packet(&from, &bytes, 0);
    assert_eq!(actions.len(), 0);
}

#[test]
fn insert_is_delivered_when_enabled() {
    let mut svc = UdpService::new(String::from("abcdefgh12345678"), true);
    let m = UdpMessage::Insert {
        url_smaz: smaz::compress("http://example.org".as_bytes()),
        title_smaz: smaz::compress("a title".as_bytes()),
        text_smaz: smaz::compress("some text".as_bytes()),
    };
    let bytes = encode_message(&m);
    let from = String::from("10.0.0.9:7231");
    let actions = svc.handle_packet(&from, &bytes, 0);
    assert_eq!(actions.len(), 1);
    match &actions[0] {
        UdpAction::DeliverInsert { page } => {
            assert_eq!(page.url, "http://example.org");
            assert_eq!(page.title, "a title");
            assert_eq!(page.text, "some text");
            assert_eq!(page.combined, "a title some text");
        },
        _ => panic!("expected a delivery"),
    }
}

#[test]
fn zero_peers_search_completes_at_once_with_no_contacts() {
    let mut svc = service();
    let actions = svc.start_search(&basis(0), None, 1, 99, 1000);
    assert_eq!(actions.len(), 0);
    // the deadline is `now` itself, so the next instant completes it
    let completions = svc.tick(1001, 0);
    assert_eq!(completions.len(), 1);
    match &completions[0] {
        UdpAction::CompleteSearch { sink, result } => {
            assert_eq!(*sink, 1);
            assert_eq!(result.servers_contacted, 0);
            assert_eq!(result.servers_responded, 0);
            assert_eq!(result.results.len(), 0);
        },
        _ => panic!("expected a completion"),
    }
}

#[test]
fn deadline_completion_collects_only_what_arrived() {
    let mut svc = service();
    give_peers(&mut svc, vec![
        peer("p1", "10.0.0.1:7231", 1000, false, 4),
        peer("p2", "10.0.0.2:7231", 1000, false, 6),
    ]);
    let actions = svc.start_search(&basis(0), Some(100), 5, 77, 1000);
    assert_eq!(actions.len(), 2);  // one datagram per peer
    // only p1 answers, twice
    let reply1 = encode_message(&UdpMessage::Page {
        search_id: 77,
        page_id: 3,
        distance: 50,
        url: String::from("u-remote"),
        title: String::from("t"),
        text: String::from("x"),
        instance_id: String::from("p1"),
    });
    let from = String::from("10.0.0.1:7231");
    assert_eq!(svc.handle_packet(&from, &reply1, 1010).len(), 0);
    let reply2 = encode_message(&UdpMessage::Page {
        search_id: 77,
        page_id: 9,
        distance: 60,
        url: String::from("u-remote-2"),
        title: String::from("t"),
        text: String::from("x"),
        instance_id: String::from("p1"),
    });
    assert_eq!(svc.handle_packet(&from, &reply2, 1020).len(), 0);
    // nothing completes before the deadline
    assert_eq!(svc.tick(1100, 0).len(), 0);
    // after the deadline the caller gets what arrived
    let completions = svc.tick(1201, 0);
    assert_eq!(completions.len(), 1);
    match &completions[0] {
        UdpAction::CompleteSearch { sink, result } => {
            assert_eq!(*sink, 5);
            assert_eq!(result.servers_contacted, 2);
            assert_eq!(result.servers_responded, 1);
            assert_eq!(result.pages_searched, 10);
            assert_eq!(result.results.len(), 2);
            assert_eq!(result.results[0].url, "u-remote");
            assert_eq!(result.results[1].page_id, 9);
        },
        _ => panic!("expected a completion"),
    }
}

#[test]
fn own_search_is_not_answered() {
    let mut svc = service();
    let actions = svc.start_search(&basis(0), None, 1, 123, 0);
    assert_eq!(actions.len(), 0);
    // our own datagram comes back: the loop guard drops it
    let echo = encode_message(&UdpMessage::Search {
        search_id: 123,
        distance_limit: None,
        embedding: dawnsearch::codec::to_i24_bytes(&basis(0)),
    });
    let from = String::from("10.0.0.3:7231");
    assert_eq!(svc.handle_packet(&from, &echo, 1).len(), 0);
}

#[test]
fn foreign_search_triggers_a_local_search() {
    let mut svc = service();
    let m = encode_message(&UdpMessage::Search {
        search_id: 5,
        distance_limit: Some(40),
        embedding: dawnsearch::codec::to_i24_bytes(&basis(2)),
    });
    let from = String::from("10.0.0.4:7231");
    let actions = svc.handle_packet(&from, &m, 1);
    assert_eq!(actions.len(), 1);
    match &actions[0] {
        UdpAction::LocalSearch { search_id, reply_addr, distance_limit, embedding } => {
            assert_eq!(*search_id, 5);
            assert_eq!(reply_addr, "10.0.0.4:7231");
            assert_eq!(*distance_limit, Some(40));
            assert_eq!(embedding.len(), EM_LEN);
        },
        _ => panic!("expected a local search"),
    }
}

#[test]
fn stale_peers_are_pruned_on_tick() {
    let mut svc = service();
    give_peers(&mut svc, vec![
        peer("old", "10.0.0.1:7231", 100, true, 0),
        peer("fresh", "10.0.0.2:7231", 200, true, 0),
    ]);
    // at the boundary last_seen + 300 == now both peers survive
    svc.tick(0, 400);
    assert_eq!(svc.known_peers.len(), 2);
    // one second later the first peer's last_seen + 300 < now
    svc.tick(0, 401);
    assert_eq!(svc.known_peers.len(), 1);
    assert_eq!(svc.known_peers[0].instance_id, "fresh");
    // at 501 the second expires as well
    svc.tick(0, 501);
    assert_eq!(svc.known_peers.len(), 0);
}

#[test]
fn replication_targets_three_distinct_accepting_peers() {
    let mut svc = service();
    give_peers(&mut svc, vec![
        peer("P1", "10.0.0.1:7231", 0, true, 0),
        peer("P2", "10.0.0.2:7231", 0, false, 0),
        peer("P3", "10.0.0.3:7231", 0, true, 0),
        peer("P4", "10.0.0.4:7231", 0, true, 0),
        peer("P5", "10.0.0.5:7231", 0, true, 0),
    ]);
    for rand in 0..8u64 {
        let actions = svc.send_insert(
            &String::from("http://example.org/p"),
            &String::from("title"),
            &String::from("text"),
            rand,
        );
        assert_eq!(actions.len(), 3);
        let mut addrs: Vec<String> = Vec::new();
        for a in &actions {
            match a {
                UdpAction::Send { addr, data } => {
                    assert!(addr != "10.0.0.2:7231");  // P2 never receives one
                    assert!(!addrs.contains(addr));  // targets are distinct
                    assert!(data.len() <= 1472);
                    addrs.push(addr.clone());
                },
                _ => panic!("expected a datagram"),
            }
        }
    }
}

#[test]
fn replication_without_accepting_peers_sends_nothing() {
    let mut svc = service();
    give_peers(&mut svc, vec![peer("P1", "10.0.0.1:7231", 0, false, 0)]);
    let actions = svc.send_insert(
        &String::from("u"),
        &String::from("t"),
        &String::from("x"),
        7,
    );
    assert_eq!(actions.len(), 0);
}

#[test]
fn answer_search_applies_the_distance_limit() {
    let svc = service();
    let mut pages: Vec<dawnsearch::provider::FoundPage> = Vec::new();
    pages.push(dawnsearch::provider::FoundPage {
        id: 1,
        distance: 50,
        url: String::from("u2"),
        title: String::from("t"),
        text: String::from("x"),
    });
    pages.push(dawnsearch::provider::FoundPage {
        id: 2,
        distance: 200,
        url: String::from("u3"),
        title: String::from("t"),
        text: String::from("x"),
    });
    let reply_to = String::from("10.0.0.7:7231");
    // the sender's local worst is 100: the page at 200 is suppressed
    let actions = svc.answer_search(&reply_to, 9, Some(100), &pages);
    assert_eq!(actions.len(), 1);
    match &actions[0] {
        UdpAction::Send { addr, data } => {
            assert_eq!(addr, "10.0.0.7:7231");
            match dawnsearch::wire::decode_message(data).unwrap() {
                UdpMessage::Page { search_id, page_id, distance, url, .. } => {
                    assert_eq!(search_id, 9);
                    assert_eq!(page_id, 1);
                    assert_eq!(distance, 50);
                    assert_eq!(url, "u2");
                },
                _ => panic!("expected a page"),
            }
        },
        _ => panic!("expected a datagram"),
    }
    // without a limit both pages are answered
    assert_eq!(svc.answer_search(&reply_to, 9, None, &pages).len(), 2);
}

#[test]
fn answer_search_truncates_the_text() {
    let svc = service();
    let mut long_text = String::new();
    for _ in 0..60 {
        long_text.push_str("0123456789");
    }
    let pages = vec![dawnsearch::provider::FoundPage {
        id: 1,
        distance: 5,
        url: String::from("u"),
        title: String::from("t"),
        text: long_text,
    }];
    let reply_to = String::from("10.0.0.7:7231");
    let actions = svc.answer_search(&reply_to, 1, None, &pages);
    assert_eq!(actions.len(), 1);
    match &actions[0] {
        UdpAction::Send { addr: _, data } => {
            match dawnsearch::wire::decode_message(data).unwrap() {
                UdpMessage::Page { text, .. } => {
                    assert_eq!(text.len(), 500);
                    assert!(text.as_bytes().iter().all(|b| b.is_ascii_digit()));
                },
                _ => panic!("expected a page"),
            }
        },
        _ => panic!("expected a datagram"),
    }
}

#[test]
fn embedding_fetch_round_trip() {
    let mut svc = service();
    give_peers(&mut svc, vec![peer("p1", "10.0.0.1:7231", 0, true, 0)]);
    let actions = svc.request_embedding(&String::from("p1"), 4, 11, 500);
    assert_eq!(actions.len(), 1);
    // the peer answers with the embedding
    let reply = encode_message(&UdpMessage::Embedding {
        search_id: 500,
        embedding: dawnsearch::codec::to_i24_bytes(&basis(6)),
    });
    let from = String::from("10.0.0.1:7231");
    let actions = svc.handle_packet(&from, &reply, 1);
    assert_eq!(actions.len(), 1);
    match &actions[0] {
        UdpAction::DeliverEmbedding { sink, embedding } => {
            assert_eq!(*sink, 11);
            assert_eq!(embedding[6], I24_MAX);
        },
        _ => panic!("expected a delivery"),
    }
    // a second copy of the reply finds no open request
    assert_eq!(svc.handle_packet(&from, &reply, 2).len(), 0);
}

#[test]
fn announce_goes_to_every_tracker() {
    let svc = service();
    let trackers = vec![String::from("t1:7230"), String::from("t2:7230")];
    let actions = svc.announce(12, &trackers);
    assert_eq!(actions.len(), 2);
    match &actions[0] {
        UdpAction::Send { addr, data } => {
            assert_eq!(addr, "t1:7230");
            match dawnsearch::wire::decode_message(data).unwrap() {
                UdpMessage::Announce { instance_id, accept_insert, pages_indexed } => {
                    assert_eq!(instance_id, "abcdefgh12345678");
                    assert!(!accept_insert);
                    assert_eq!(pages_indexed, 12);
                },
                _ => panic!("expected an announce"),
            }
        },
        _ => panic!("expected a datagram"),
    }
}
