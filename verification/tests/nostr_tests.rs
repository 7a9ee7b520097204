use cyberdeckstr::app::AppMessage;
use cyberdeckstr::feed::{EventId, FeedEntryKind};
use cyberdeckstr::nostr::{
    author_info_from_profile, author_name, connection_error_status, follows_from_contact_list,
    has_reply_tag, login_identity, needs_reconnect, note_message, parse_identity, resolve_authors, uplink_status,
    AuthorDirectory, AuthorInfo, ProfileFields, PubKey,
};

const HEX: &str = "82341f882b6eabcd2ba7f1ef90aad961cf074af15b9ef44a09f9d2a8fbfbe6a2";

fn key(b: u8) -> PubKey {
    PubKey([b; 32])
}

fn tag(v: &[&str]) -> Vec<String> {
    v.iter().map(|s| s.to_string()).collect()
}

#[test]
fn identity_from_hex() {
    let k = parse_identity(HEX).expect("hex key");
    assert_eq!(k.0[0], 0x82);
    assert_eq!(k.0[1], 0x34);
    assert_eq!(k.0[31], 0xa2);
}

#[test]
fn identity_from_npub_matches_hex() {
    let from_hex = parse_identity(HEX).unwrap();
    let npub = nostr_sdk::nips::nip19::ToBech32::to_bech32(&nostr_sdk::PublicKey::from_hex(HEX).unwrap()).unwrap();
    let from_npub = parse_identity(&npub).unwrap();
    assert!(from_hex.same_as(&from_npub));
}

#[test]
fn invalid_identity_is_refused() {
    assert!(parse_identity("npub1notakey").is_none());
    assert!(parse_identity("").is_none());
}

#[test]
fn follows_are_valid_p_tags_then_self() {
    let own = key(9);
    let tags = vec![
        tag(&["p", HEX]),
        tag(&["e", HEX]),
        tag(&["p"]),
        tag(&["p", "garbage"]),
        tag(&["p", HEX, "wss://relay"]),
    ];
    let follows = follows_from_contact_list(&tags, own);
    assert_eq!(follows.len(), 2);
    assert_eq!(follows[0].0[0], 0x82);
    assert!(follows[1].same_as(&own));
    assert_eq!(follows_from_contact_list(&vec![], own).len(), 1);
}

#[test]
fn following_oneself_adds_no_second_copy() {
    let own = parse_identity(HEX).unwrap();
    let follows = follows_from_contact_list(&vec![tag(&["p", HEX]), tag(&["p", "82341F882B6EABCD2BA7F1EF90AAD961CF074AF15B9EF44A09F9D2A8FBFBE6A2"])], own);
    assert_eq!(follows.len(), 1);
    assert!(follows[0].same_as(&own));
}

#[test]
fn reply_detection_uses_e_tags() {
    assert!(has_reply_tag(&vec![tag(&["p", "x"]), tag(&["e", "abc"])]));
    assert!(!has_reply_tag(&vec![tag(&["e"]), tag(&["p", "x"])]));
    assert!(!has_reply_tag(&vec![]));
}

#[test]
fn profile_names_fall_back() {
    let a = author_info_from_profile(ProfileFields {
        display_name: Some("Alice A".into()),
        name: Some("alice".into()),
        nip05: Some("".into()),
    });
    assert_eq!(a.display_name, "Alice A");
    assert!(a.nip05.is_none());
    let b = author_info_from_profile(ProfileFields { display_name: None, name: Some("bob".into()), nip05: Some("bob@x.com".into()) });
    assert_eq!(b.display_name, "bob");
    assert_eq!(b.nip05.as_deref(), Some("bob@x.com"));
    let c = author_info_from_profile(ProfileFields { display_name: None, name: None, nip05: None });
    assert_eq!(c.display_name, "Unknown");
}

#[test]
fn authors_resolve_from_metadata_json() {
    let events = vec![
        (key(1), r#"{"name":"alice","display_name":"Alice A","nip05":"alice@example.com"}"#.to_string()),
        (key(2), "not json".to_string()),
        (key(3), r#"{"name":"carol"}"#.to_string()),
        (key(1), r#"{"name":"alice2"}"#.to_string()),
    ];
    let dir = resolve_authors(&events);
    assert_eq!(dir.records.len(), 3);
    assert_eq!(dir.lookup(&key(1)).unwrap().display_name, "alice2");
    assert!(dir.lookup(&key(1)).unwrap().nip05.is_none());
    assert!(dir.lookup(&key(2)).is_none());
    assert_eq!(dir.lookup(&key(3)).unwrap().display_name, "carol");
}

#[test]
fn later_record_wins() {
    let mut dir = AuthorDirectory::new();
    dir.insert(key(1), AuthorInfo { display_name: "one".into(), nip05: None });
    dir.insert(key(2), AuthorInfo { display_name: "two".into(), nip05: None });
    dir.insert(key(1), AuthorInfo { display_name: "uno".into(), nip05: Some("u@x".into()) });
    assert_eq!(dir.lookup(&key(1)).unwrap().display_name, "uno");
    assert_eq!(dir.lookup(&key(2)).unwrap().display_name, "two");
    assert!(dir.lookup(&key(3)).is_none());
}

#[test]
fn unknown_author_shows_short_key() {
    let k = parse_identity(HEX).unwrap();
    assert_eq!(author_name(None, &k), "82341f88...");
    let info = AuthorInfo { display_name: "jack".into(), nip05: None };
    assert_eq!(author_name(Some(&info), &k), "jack");
}

#[test]
fn note_message_for_text_note() {
    let mut dir = AuthorDirectory::new();
    dir.insert(key(1), AuthorInfo { display_name: "alice".into(), nip05: Some("a@x.io".into()) });
    let id = EventId([7; 32]);
    let msg: AppMessage<()> =
        note_message(&dir, id, 1, &key(1), &vec![tag(&["e", "abc"])], "hi\u{7}\tthere").unwrap();
    match msg {
        AppMessage::NostrEvent { id: rid, author, kind, content, is_reply, nip05 } => {
            assert!(rid.same_as(&id));
            assert_eq!(author, "alice");
            assert_eq!(kind, FeedEntryKind::TextNote);
            assert_eq!(content, "hi\tthere");
            assert!(is_reply);
            assert_eq!(nip05.as_deref(), Some("a@x.io"));
        }
        _ => panic!("expected a note"),
    }
}

#[test]
fn note_message_for_repost() {
    let dir = AuthorDirectory::new();
    let msg: AppMessage<()> =
        note_message(&dir, EventId([1; 32]), 6, &key(0xab), &vec![], "{\"json\":1}").unwrap();
    match msg {
        AppMessage::NostrEvent { author, kind, content, is_reply, nip05, .. } => {
            assert_eq!(author, "abababab...");
            assert_eq!(kind, FeedEntryKind::Repost);
            assert_eq!(content, "(reposted note)");
            assert!(!is_reply);
            assert!(nip05.is_none());
        }
        _ => panic!("expected a note"),
    }
}

#[test]
fn reconnect_after_three_silent_minutes() {
    assert!(!needs_reconnect(0));
    assert!(!needs_reconnect(180));
    assert!(needs_reconnect(181));
}

#[test]
fn nostr_status_lines() {
    assert_eq!(uplink_status(5), "OPTIMIZING UPLINK (5 RELAYS)...");
    assert_eq!(uplink_status(12), "OPTIMIZING UPLINK (12 RELAYS)...");
    assert_eq!(connection_error_status("timeout"), "CONNECTION ERROR: timeout");
}

#[test]
fn other_kinds_are_not_shown() {
    let dir = AuthorDirectory::new();
    for kind in [0u16, 3, 7, 16, 10002] {
        let msg: Option<AppMessage<()>> = note_message(&dir, EventId([2; 32]), kind, &key(1), &vec![], "x");
        assert!(msg.is_none(), "kind {}", kind);
    }
}

#[test]
fn login_identity_refuses_bad_text() {
    match login_identity::<()>("nope") {
        Err(AppMessage::NostrLoginError(m)) => assert_eq!(m, "INVALID IDENTITY. RETRY."),
        _ => panic!("expected a login error"),
    }
    assert!(login_identity::<()>(HEX).is_ok());
}
