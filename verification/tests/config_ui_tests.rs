use cyberdeckstr::app::AppState;
use cyberdeckstr::config::Config;
use cyberdeckstr::ui::{block_age_label, compute_layout, header_title, layout_plan, Area, RowSize};

fn cfg(npub: Option<&str>, addr: Option<&str>, user: Option<&str>, pass: Option<&str>) -> Config {
    Config {
        npub: npub.map(String::from),
        node_address: addr.map(String::from),
        node_username: user.map(String::from),
        node_password: pass.map(String::from),
    }
}

#[test]
fn node_needs_all_three_settings() {
    let c = cfg(None, Some("127.0.0.1:8332"), Some("u"), Some("p")).node_credentials().unwrap();
    assert_eq!((c.address.as_str(), c.username.as_str(), c.password.as_str()), ("127.0.0.1:8332", "u", "p"));
    assert!(cfg(None, Some("a"), Some(""), Some("p")).node_credentials().is_none());
    assert!(cfg(None, Some("a"), None, Some("p")).node_credentials().is_none());
}

#[test]
fn login_npub_only_when_given() {
    assert_eq!(cfg(Some("npub1x"), None, None, None).login_npub().as_deref(), Some("npub1x"));
    assert!(cfg(Some(""), None, None, None).login_npub().is_none());
    assert!(cfg(None, None, None, None).login_npub().is_none());
}

#[test]
fn header_titles() {
    assert_eq!(header_title(AppState::Login), "AUTH SEQUENCE");
    assert_eq!(header_title(AppState::Connecting), "ESTABLISHING UPLINK");
    assert_eq!(header_title(AppState::Feed), "DATA STREAM");
}

#[test]
fn block_ages() {
    assert_eq!(block_age_label(1000, 1000), "0s");
    assert_eq!(block_age_label(1059, 1000), "59s");
    assert_eq!(block_age_label(1060, 1000), "1m");
    assert_eq!(block_age_label(4000, 1000), "50m");
    assert_eq!(block_age_label(10, 1000), "0s");
}

#[test]
fn layout_rows_depend_on_node() {
    assert_eq!(layout_plan(false), vec![RowSize::Length(3), RowSize::Length(12), RowSize::Min(0), RowSize::Length(3)]);
    assert_eq!(layout_plan(true).len(), 5);
}

#[test]
fn layout_splits_screen() {
    let area = Area { x: 0, y: 0, width: 80, height: 50 };
    let slots = compute_layout(area, false);
    assert!(slots.blockchain_viz.is_none());
    assert_eq!(slots.header, Area { x: 1, y: 1, width: 78, height: 3 });
    assert_eq!(slots.chart, Area { x: 1, y: 4, width: 78, height: 12 });
    assert_eq!(slots.content, Area { x: 1, y: 16, width: 78, height: 30 });
    assert_eq!(slots.status, Area { x: 1, y: 46, width: 78, height: 3 });
    let with_node = compute_layout(area, true);
    assert_eq!(with_node.blockchain_viz, Some(Area { x: 1, y: 14, width: 78, height: 14 }));
}
