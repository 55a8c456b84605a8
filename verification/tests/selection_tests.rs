use stest_lib::config::TestServerConfig;
use stest_lib::{
    filter_by_country, filter_by_country_code, filter_ignored, find_best_server_by_ping,
    latency_score, parse_url, pick_closest_servers, rank_by_distance, select_candidates,
    PingOutcome,
};

fn server(id: u64, country: &str, country_code: &str) -> TestServerConfig {
    TestServerConfig {
        url: format!("http://server{}.example.net/speedtest/upload.php", id),
        latitude: 0,
        longitude: 0,
        name: format!("server {}", id),
        country: country.to_string(),
        country_code: country_code.to_string(),
        id,
        url2: String::new(),
        host: format!("server{}.example.net", id),
    }
}

#[test]
fn filter_ignored_removes_exactly_the_listed_ids() {
    let servers = vec![server(1, "France", "FR"), server(2, "Peru", "PE"), server(3, "Japan", "JP")];
    let kept = filter_ignored(&servers, &vec![2]);
    let ids: Vec<u64> = kept.iter().map(|s| s.id).collect();
    assert_eq!(ids, vec![1, 3]);
}

#[test]
fn filter_ignored_without_match_keeps_all_in_order() {
    let servers = vec![server(5, "France", "FR"), server(6, "Peru", "PE")];
    let kept = filter_ignored(&servers, &vec![99]);
    let ids: Vec<u64> = kept.iter().map(|s| s.id).collect();
    assert_eq!(ids, vec![5, 6]);
}

#[test]
fn country_filter_is_case_insensitive_exact_match() {
    let servers = vec![server(1, "France", "FR"), server(2, "Peru", "PE")];
    let kept = filter_by_country(&servers, "FRANCE");
    assert_eq!(kept.len(), 1);
    assert_eq!(kept[0].id, 1);
    // prefix matching is out of scope: no server matches a partial name
    let none = filter_by_country(&servers, "Fran");
    assert_eq!(none.len(), 0);
}

#[test]
fn country_code_filter_is_case_insensitive() {
    let servers = vec![server(1, "France", "FR"), server(2, "Peru", "PE")];
    let kept = filter_by_country_code(&servers, "pe");
    assert_eq!(kept.len(), 1);
    assert_eq!(kept[0].id, 2);
}

#[test]
fn rank_caps_at_max_candidates_and_sorts_by_distance() {
    let distances: Vec<u64> = vec![5, 3, 9, 3];
    let full = rank_by_distance(&distances, 10);
    assert_eq!(full, vec![1, 3, 0, 2]);
    let capped = rank_by_distance(&distances, 2);
    assert_eq!(capped, vec![1, 3]);
    assert!(capped.len() <= 2);
}

#[test]
fn rank_breaks_exact_ties_by_insertion_order() {
    // two servers at the same rounded distance, ranked with room for two:
    // the two nearest come back in catalog order, the far one is excluded
    let distances: Vec<u64> = vec![10, 10, 50];
    let idxs = rank_by_distance(&distances, 2);
    assert_eq!(idxs, vec![0, 1]);
}

#[test]
fn pick_closest_servers_appends_the_nearest_in_rank_order() {
    let servers = vec![server(1, "France", "FR"), server(2, "Peru", "PE"), server(3, "Japan", "JP")];
    let distances: Vec<u64> = vec![50, 10, 10];
    let mut result: Vec<TestServerConfig> = Vec::new();
    pick_closest_servers(&distances, &servers, &mut result);
    let ids: Vec<u64> = result.iter().map(|s| s.id).collect();
    assert_eq!(ids, vec![2, 3, 1]);
}

#[test]
fn latency_score_is_the_mean_of_three_attempts() {
    let attempts = vec![
        PingOutcome::Success(10),
        PingOutcome::Success(20),
        PingOutcome::Success(30),
    ];
    assert_eq!(latency_score(&attempts), 20);
}

#[test]
fn latency_score_of_three_transport_failures_is_the_penalty_itself() {
    let attempts = vec![
        PingOutcome::TransportFailure,
        PingOutcome::TransportFailure,
        PingOutcome::TransportFailure,
    ];
    assert_eq!(latency_score(&attempts), 3_600_000);
}

#[test]
fn latency_score_weighs_bad_status_attempts() {
    let attempts = vec![
        PingOutcome::Success(30),
        PingOutcome::BadStatus,
        PingOutcome::Success(60),
    ];
    assert_eq!(latency_score(&attempts), (30 + 360_000 + 60) / 3);
}

#[test]
fn best_server_is_the_minimum_score_first_seen_on_ties() {
    let servers = vec![server(1, "a", "a"), server(2, "b", "b"), server(3, "c", "c")];
    let scores: Vec<u64> = vec![40, 25, 25];
    let best = find_best_server_by_ping(&servers, &scores);
    assert_eq!(best, Some((1, 25)));
}

#[test]
fn best_server_of_empty_catalog_is_none() {
    let servers: Vec<TestServerConfig> = Vec::new();
    let scores: Vec<u64> = Vec::new();
    assert_eq!(find_best_server_by_ping(&servers, &scores), None);
}

#[test]
fn select_candidates_prefers_country_then_code_then_distance() {
    let servers = vec![server(1, "France", "FR"), server(2, "Peru", "PE"), server(3, "Japan", "JP")];
    let distances: Vec<u64> = vec![30, 20, 10];

    let by_country = select_candidates(
        &servers,
        &Some("peru".to_string()),
        &Some("JP".to_string()),
        &distances,
    );
    assert_eq!(by_country.len(), 1);
    assert_eq!(by_country[0].id, 2);

    let by_code = select_candidates(&servers, &None, &Some("JP".to_string()), &distances);
    assert_eq!(by_code.len(), 1);
    assert_eq!(by_code[0].id, 3);

    let by_distance = select_candidates(&servers, &None, &None, &distances);
    let ids: Vec<u64> = by_distance.iter().map(|s| s.id).collect();
    assert_eq!(ids, vec![3, 2, 1]);
}

#[test]
fn parse_url_extracts_the_host() {
    let host = parse_url("http://server7.example.net:8080/speedtest/upload.php?x=1");
    assert_eq!(host, Some("server7.example.net".to_string()));
}

#[test]
fn parse_url_rejects_text_that_is_no_url() {
    assert_eq!(parse_url("not a url"), None);
    assert_eq!(parse_url("mailto:someone"), None);
}
