use dawnsearch::provider::{FoundPage, SearchResult};
use dawnsearch::service::merge_results;
use dawnsearch::udp::{NetworkSearchResult, PageFromNetwork};

fn local_page(id: u64, distance: u64, url: &str) -> FoundPage {
    FoundPage {
        id,
        distance,
        url: String::from(url),
        title: String::from("t"),
        text: String::from("x"),
    }
}

fn remote_page(instance: &str, page_id: u64, distance: u64, url: &str) -> PageFromNetwork {
    PageFromNetwork {
        instance_id: String::from(instance),
        page_id,
        distance,
        url: String::from(url),
        title: String::from("t"),
        text: String::from("x"),
    }
}

#[test]
fn fan_out_merge_orders_and_counts() {
    // node A has u1 at distance 100; peer B replies with u2 at 50
    // (u3 at 200 was already suppressed by the distance limit on B)
    let local = SearchResult { pages: vec![local_page(1, 100, "u1")], pages_searched: 1 };
    let remote = NetworkSearchResult {
        results: vec![remote_page("B", 7, 50, "u2")],
        servers_contacted: 1,
        servers_responded: 1,
        pages_searched: 9,
    };
    let merged = merge_results(local, remote);
    assert_eq!(merged.servers_contacted, 1);
    assert_eq!(merged.pages_searched, 10);
    assert_eq!(merged.pages.len(), 2);
    assert_eq!(merged.pages[0].url, "u2");
    assert_eq!(merged.pages[0].distance, 50);
    assert_eq!(merged.pages[0].instance_id, "B");
    assert_eq!(merged.pages[1].url, "u1");
    assert_eq!(merged.pages[1].distance, 100);
    assert_eq!(merged.pages[1].instance_id, "");
}

#[test]
fn merge_keeps_only_the_best_twenty() {
    let mut locals: Vec<FoundPage> = Vec::new();
    for i in 0..15u64 {
        locals.push(local_page(i, 100 + i, "ul"));
    }
    let mut remotes: Vec<PageFromNetwork> = Vec::new();
    for i in 0..15u64 {
        remotes.push(remote_page("B", i, i, "ur"));
    }
    let local = SearchResult { pages: locals, pages_searched: 15 };
    let remote = NetworkSearchResult {
        results: remotes,
        servers_contacted: 1,
        servers_responded: 1,
        pages_searched: 15,
    };
    let merged = merge_results(local, remote);
    assert_eq!(merged.pages.len(), 20);
    // all fifteen remote pages are nearer, then the five best local ones
    for i in 0..15 {
        assert_eq!(merged.pages[i].instance_id, "B");
    }
    for i in 15..20 {
        assert_eq!(merged.pages[i].instance_id, "");
    }
    for i in 1..20 {
        assert!(merged.pages[i - 1].distance <= merged.pages[i].distance);
    }
}

#[test]
fn merge_of_empty_results_is_empty() {
    let local = SearchResult { pages: Vec::new(), pages_searched: 0 };
    let remote = NetworkSearchResult {
        results: Vec::new(),
        servers_contacted: 0,
        servers_responded: 0,
        pages_searched: 0,
    };
    let merged = merge_results(local, remote);
    assert_eq!(merged.pages.len(), 0);
    assert_eq!(merged.pages_searched, 0);
    assert_eq!(merged.servers_contacted, 0);
}
