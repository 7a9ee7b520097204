use cyberdeckstr::relays::rank_relays;

fn r(url: &str) -> Vec<String> {
    vec!["r".to_string(), url.to_string()]
}

#[test]
fn relays_ranked_by_count_then_first_mention() {
    let events = vec![
        vec![r("wss://a/"), r("wss://b"), vec!["p".into(), "x".into()]],
        vec![r("wss://b//"), r("wss://c"), r("wss://d")],
        vec![r("wss://c"), r("wss://e"), r("wss://f"), vec!["r".into()]],
        vec![r("wss://b")],
    ];
    assert_eq!(rank_relays(&events), vec!["wss://b", "wss://c", "wss://a", "wss://d", "wss://e"]);
}

#[test]
fn fewer_relays_than_the_limit() {
    let events = vec![vec![r("wss://x"), r("wss://y"), r("wss://y")]];
    assert_eq!(rank_relays(&events), vec!["wss://y", "wss://x"]);
}

#[test]
fn no_relay_tags_gives_no_relays() {
    let events = vec![vec![vec!["p".to_string(), "k".to_string()]], vec![]];
    assert!(rank_relays(&events).is_empty());
    assert!(rank_relays(&vec![]).is_empty());
}
