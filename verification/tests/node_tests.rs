use cyberdeckstr::app::BlockDisplayInfo;
use cyberdeckstr::bitcoin::{
    assign_heights, backoff_delay, node_error_status, node_rpc_url, task_error_status, NodePoller,
    BASE_DELAY_SECS, MAX_DELAY_SECS,
};

#[test]
fn backoff_doubles_then_caps() {
    let delays: Vec<u64> = (0..7).map(|f| backoff_delay(5, 60, f)).collect();
    assert_eq!(delays, vec![5, 10, 20, 40, 60, 60, 60]);
    assert_eq!(backoff_delay(5, 60, u32::MAX), 60);
    assert_eq!(backoff_delay(1, 1000, 6), 64);
    assert_eq!(backoff_delay(1, 1000, 9), 512);
    assert_eq!(backoff_delay(1, 1000, 10), 1000);
    assert_eq!(backoff_delay(0, 1000, 20), 0);
    assert_eq!(backoff_delay(u64::MAX, u64::MAX, 3), u64::MAX);
    assert_eq!(backoff_delay(3, u64::MAX, 70), u64::MAX);
}

#[test]
fn poller_resets_after_success() {
    let mut p = NodePoller::new();
    assert_eq!(p.on_failure(), 10);
    assert_eq!(p.on_failure(), 20);
    assert_eq!(p.on_failure(), 40);
    assert_eq!(p.on_failure(), MAX_DELAY_SECS);
    assert_eq!(p.on_failure(), MAX_DELAY_SECS);
    assert_eq!(p.consecutive_failures, 5);
    assert_eq!(p.on_success(), BASE_DELAY_SECS);
    assert_eq!(p.consecutive_failures, 0);
    assert_eq!(p.on_failure(), 10);
}

#[test]
fn poller_failure_count_saturates() {
    let mut p = NodePoller { consecutive_failures: u32::MAX };
    assert_eq!(p.on_failure(), MAX_DELAY_SECS);
    assert_eq!(p.consecutive_failures, u32::MAX);
}

#[test]
fn rpc_url_gets_a_scheme() {
    assert_eq!(node_rpc_url("127.0.0.1:8332".to_string()), "http://127.0.0.1:8332");
    assert_eq!(node_rpc_url("http://node:8332".to_string()), "http://node:8332");
    assert_eq!(node_rpc_url("https://node".to_string()), "https://node");
}

#[test]
fn heights_count_back_from_best() {
    let b = BlockDisplayInfo { height: 0, size: 10, timestamp: 5, tx_count: 2 };
    let mut blocks = vec![b; 6];
    assign_heights(&mut blocks, 850_000);
    let heights: Vec<u64> = blocks.iter().map(|b| b.height).collect();
    assert_eq!(heights, vec![850_000, 849_999, 849_998, 849_997, 849_996, 849_995]);
    assert!(blocks.iter().all(|x| x.size == 10 && x.timestamp == 5 && x.tx_count == 2));
}

#[test]
fn node_status_lines() {
    assert_eq!(node_error_status("connection refused"), "NODE ERROR: connection refused");
    assert_eq!(task_error_status("panicked"), "TASK ERROR: panicked");
}
