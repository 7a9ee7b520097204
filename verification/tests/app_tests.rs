use cyberdeckstr::app::{
    poll_timeout_ms, App, AppMessage, AppState, BlockDisplayInfo, FeeDisplayInfo, KeyAction,
    KeyInput, MempoolDisplayInfo, NodeState,
};
use cyberdeckstr::feed::{EventId, FeedEntryKind, MAX_MESSAGES};

type Msg = AppMessage<Vec<(f64, f64)>>;

fn note(n: u32) -> Msg {
    let mut b = [0u8; 32];
    b[..4].copy_from_slice(&n.to_be_bytes());
    AppMessage::NostrEvent {
        id: EventId(b),
        author: "alice".to_string(),
        kind: FeedEntryKind::TextNote,
        content: format!("note {}", n),
        is_reply: false,
        nip05: None,
    }
}

#[test]
fn new_app_starts_at_login() {
    let app = App::new();
    assert_eq!(app.state, AppState::Login);
    assert_eq!(app.status, "Welcome to CYBERDECKSTR. Enter NPUB.");
    assert!(app.dirty);
    assert_eq!(app.scroll, 0);
    assert!(app.node.is_none());
    assert!(app.system_stats.is_none());
}

#[test]
fn consume_dirty_reports_once() {
    let mut app = App::new();
    assert!(app.consume_dirty());
    assert!(!app.consume_dirty());
    app.mark_dirty();
    assert!(app.consume_dirty());
    assert!(!app.consume_dirty());
}

#[test]
fn connection_messages_move_between_screens() {
    let mut app = App::new();
    app.consume_dirty();
    assert!(app.handle_message(Msg::NostrStatus("JACKING IN...".to_string())).is_none());
    assert_eq!(app.status, "JACKING IN...");
    assert!(app.consume_dirty());
    app.handle_message(Msg::NostrConnected);
    assert_eq!(app.state, AppState::Feed);
    assert_eq!(app.status, "CONNECTED. SIGNAL ACQUIRED.");
    app.input = "npub1abc".to_string();
    app.handle_message(Msg::NostrLoginError("INVALID IDENTITY. RETRY.".to_string()));
    assert_eq!(app.state, AppState::Login);
    assert_eq!(app.status, "INVALID IDENTITY. RETRY.");
    assert!(app.input.is_empty());
}

#[test]
fn price_update_is_handed_back() {
    let mut app = App::new();
    app.consume_dirty();
    let prices = vec![(1.0, 60000.0), (2.0, 61000.5)];
    assert_eq!(app.handle_message(Msg::BtcPriceUpdate(prices.clone())), Some(prices));
    assert!(app.dirty);
}

#[test]
fn blockchain_messages_need_a_node() {
    let mut app = App::new();
    let blocks = vec![BlockDisplayInfo { height: 800000, size: 1_500_000, timestamp: 1700000000, tx_count: 3000 }];
    let mempool = MempoolDisplayInfo { size: 10, usage: 2000, max_mempool: 300_000_000 };
    let fees = FeeDisplayInfo { low: 1000, medium: 5000, high: 12000 };
    app.handle_message(Msg::BlockchainUpdate { blocks: blocks.clone(), mempool, fees });
    assert!(app.node.is_none());
    app.node = Some(NodeState::new());
    assert_eq!(app.node.as_ref().unwrap().status, "CONNECTING TO NODE...");
    app.handle_message(Msg::BlockchainUpdate { blocks: blocks.clone(), mempool, fees });
    let node = app.node.as_ref().unwrap();
    assert_eq!(node.status, "NODE CONNECTED");
    assert_eq!(node.blocks, blocks);
    assert_eq!(node.mempool, mempool);
    assert_eq!(node.fees, fees);
    app.handle_message(Msg::BlockchainStatus("NODE ERROR: refused".to_string()));
    let node = app.node.as_ref().unwrap();
    assert_eq!(node.status, "NODE ERROR: refused");
    assert_eq!(node.blocks, blocks);
}

#[test]
fn node_state_defaults() {
    let node = NodeState::new();
    assert!(node.blocks.is_empty());
    assert_eq!(node.mempool, MempoolDisplayInfo { size: 0, usage: 0, max_mempool: 300_000_000 });
    assert_eq!(node.fees, FeeDisplayInfo { low: 0, medium: 0, high: 0 });
}

#[test]
fn system_stats_are_stored() {
    let mut app = App::new();
    app.handle_message(Msg::SystemStatsUpdate { cpu: 12, gpu: 0, ram: 55, vram: 3, network: "1.5 KB/s".to_string() });
    let s = app.system_stats.as_ref().unwrap();
    assert_eq!((s.cpu, s.gpu, s.ram, s.vram), (12, 0, 55, 3));
    assert_eq!(s.network, "1.5 KB/s");
}

#[test]
fn selection_follows_newest_when_at_bottom() {
    let mut app = App::new();
    for n in 0..5 {
        app.handle_message(note(n));
    }
    assert_eq!(app.feed.entries.len(), 5);
    assert_eq!(app.scroll, 4);
}

#[test]
fn selection_stays_on_older_entry() {
    let mut app = App::new();
    app.state = AppState::Feed;
    for n in 0..5 {
        app.handle_message(note(n));
    }
    app.handle_key(KeyInput::Up);
    app.handle_key(KeyInput::Up);
    assert_eq!(app.scroll, 2);
    app.handle_message(note(5));
    assert_eq!(app.scroll, 2);
    assert_eq!(app.feed.entries[app.scroll].content, "note 2");
}

#[test]
fn selection_moves_back_when_oldest_is_evicted() {
    let mut app = App::new();
    app.state = AppState::Feed;
    for n in 0..MAX_MESSAGES as u32 {
        app.handle_message(note(n));
    }
    app.scroll = 10;
    app.handle_message(note(MAX_MESSAGES as u32));
    assert_eq!(app.feed.entries.len(), MAX_MESSAGES);
    assert_eq!(app.scroll, 9);
    assert_eq!(app.feed.entries[app.scroll].content, "note 10");
}

#[test]
fn duplicate_event_changes_nothing() {
    let mut app = App::new();
    app.handle_message(note(1));
    app.consume_dirty();
    app.handle_message(note(1));
    assert!(!app.dirty);
    assert_eq!(app.feed.entries.len(), 1);
}

#[test]
fn login_keys_edit_input_and_connect() {
    let mut app = App::new();
    assert_eq!(app.handle_key(KeyInput::Char('n')), KeyAction::Continue);
    app.handle_key(KeyInput::Char('p'));
    app.handle_key(KeyInput::Char('x'));
    app.handle_key(KeyInput::Backspace);
    assert_eq!(app.input, "np");
    assert_eq!(app.handle_key(KeyInput::Enter), KeyAction::Connect("np".to_string()));
    assert_eq!(app.state, AppState::Connecting);
    assert_eq!(app.status, "Initializing Uplink...");
    assert_eq!(app.handle_key(KeyInput::Char('q')), KeyAction::Continue);
    assert_eq!(app.handle_key(KeyInput::Esc), KeyAction::Quit);
}

#[test]
fn backspace_on_empty_input_is_harmless() {
    let mut app = App::new();
    app.handle_key(KeyInput::Backspace);
    assert_eq!(app.input, "");
    assert_eq!(app.handle_key(KeyInput::Esc), KeyAction::Quit);
}

#[test]
fn feed_keys_scroll_within_bounds() {
    let mut app = App::new();
    app.state = AppState::Feed;
    app.handle_key(KeyInput::Down);
    app.handle_key(KeyInput::Up);
    assert_eq!(app.scroll, 0);
    for n in 0..3 {
        app.handle_message(note(n));
    }
    assert_eq!(app.scroll, 2);
    app.handle_key(KeyInput::Down);
    assert_eq!(app.scroll, 2);
    app.handle_key(KeyInput::Up);
    app.handle_key(KeyInput::Up);
    app.handle_key(KeyInput::Up);
    assert_eq!(app.scroll, 0);
    app.handle_key(KeyInput::Down);
    assert_eq!(app.scroll, 1);
    assert_eq!(app.handle_key(KeyInput::Char('q')), KeyAction::Quit);
    assert_eq!(app.handle_key(KeyInput::Esc), KeyAction::Quit);
}

#[test]
fn configured_npub_starts_connecting() {
    let mut app = App::new();
    app.connect_with("npub1xyz".to_string());
    assert_eq!(app.input, "npub1xyz");
    assert_eq!(app.state, AppState::Connecting);
    assert_eq!(app.status, "Initializing Uplink...");
}

#[test]
fn wrap_width_follows_terminal_width() {
    let mut app = App::new();
    app.handle_message(note(1));
    app.sync_wrap_width(8);
    assert_eq!(app.feed.cached_wrap_width, 0);
    app.sync_wrap_width(88);
    assert_eq!(app.feed.cached_wrap_width, 80);
    assert_eq!(app.feed.wrapped_content[0], vec!["note 1".to_string()]);
}

#[test]
fn render_turn_needs_time_and_a_change() {
    let mut app = App::new();
    assert!(!app.take_render_turn(10));
    assert!(app.dirty);
    assert!(app.take_render_turn(33));
    assert!(!app.take_render_turn(100));
}

#[test]
fn poll_timeout_slows_down_when_idle() {
    assert_eq!(poll_timeout_ms(0), 50);
    assert_eq!(poll_timeout_ms(5000), 50);
    assert_eq!(poll_timeout_ms(5001), 200);
}
