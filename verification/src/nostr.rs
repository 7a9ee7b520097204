//! Nostr feed logic: identities, follow lists, author names, feed messages
//! built from events, relay ranking, and connection health.
use nostr_sdk::JsonUtil;
use vstd::prelude::*;

use crate::app::AppMessage;
use crate::feed::{EventId, FeedEntryKind};
use crate::text::{
    clean_content, cleaned, decimal, decimal_string, hex_lower, push_hex, same_text, strings_view,
};

verus! {

/// The 32-byte (x-only) public key of a Nostr author.
#[derive(Clone, Copy, Debug)]
pub struct PubKey(pub [u8; 32]);

impl View for PubKey {
    type V = Seq<u8>;

    open spec fn view(&self) -> Seq<u8> {
        self.0@
    }
}

impl PubKey {
    /// Whether two keys hold the same bytes.
    pub fn same_as(&self, other: &PubKey) -> (r: bool)
        ensures
            r == (self@ == other@),
    {
        let mut i: usize = 0;
        while i < 32
            invariant
                i <= 32,
                self@.len() == 32,
                other@.len() == 32,
                forall|k: int| 0 <= k < i ==> self@[k] == other@[k],
            decreases 32 - i,
        {
            if self.0[i] != other.0[i] {
                return false;
            }
            i = i + 1;
        }
        assert(self@ =~= other@);
        true
    }
}

/// The key that `nostr_sdk::PublicKey::parse` reads from a text (hex, bech32
/// `npub`, or `nostr:` URI), as its 32 bytes; `None` where it fails.
pub uninterp spec fn nostr_key_parse(text: Seq<char>) -> Option<Seq<u8>>;

/// Calls `nostr_sdk::PublicKey::parse` and takes the key's bytes. Its
/// contract says only that the result is what that function reads from the
/// text; the formats it accepts are the crate's.
#[verifier::external_body]
fn parse_public_key(text: &str) -> (r: Option<PubKey>)
    ensures
        match r {
            Some(k) => nostr_key_parse(text@) == Some(k@),
            None => nostr_key_parse(text@) is None,
        },
{
    match nostr_sdk::PublicKey::parse(text) {
        Ok(pk) => Some(PubKey(pk.to_bytes())),
        Err(_) => None,
    }
}

/// Parse the user's identity (an npub, a hex key or a `nostr:` URI).
pub fn parse_identity(npub_str: &str) -> (r: Option<PubKey>)
    ensures
        match r {
            Some(k) => nostr_key_parse(npub_str@) == Some(k@),
            None => nostr_key_parse(npub_str@) is None,
        },
{
    parse_public_key(npub_str)
}

/// The identity to log in with, or the message that sends the user back
/// to the login screen when the text is not a key.
pub fn login_identity<P>(npub_str: &str) -> (r: Result<PubKey, AppMessage<P>>)
    ensures
        match r {
            Ok(k) => nostr_key_parse(npub_str@) == Some(k@),
            Err(AppMessage::NostrLoginError(m)) => {
                &&& nostr_key_parse(npub_str@) is None
                &&& m@ == "INVALID IDENTITY. RETRY."@
            },
            Err(_) => false,
        },
{
    match parse_identity(npub_str) {
        Some(k) => Ok(k),
        None => Err(AppMessage::NostrLoginError("INVALID IDENTITY. RETRY.".to_owned())),
    }
}

/// The view of a tag list: each tag as its sequence of values.
pub open spec fn tags_view(tags: Seq<Vec<String>>) -> Seq<Seq<Seq<char>>> {
    tags.map_values(|t: Vec<String>| strings_view(t@))
}

/// A tag with at least two values whose first value is `name`.
pub open spec fn tag_named(tag: Seq<Seq<char>>, name: Seq<char>) -> bool {
    tag.len() >= 2 && tag[0] == name
}

fn is_tag_named(tag: &Vec<String>, name: &str) -> (r: bool)
    ensures
        r == tag_named(strings_view(tag@), name@),
{
    tag.len() >= 2 && same_text(tag[0].as_str(), name)
}

/// `s` with `k` added at the end, unless it holds `k` already.
pub open spec fn add_key(s: Seq<Seq<u8>>, k: Seq<u8>) -> Seq<Seq<u8>> {
    if s.contains(k) {
        s
    } else {
        s.push(k)
    }
}

/// The keys of a contact list: the value of every `p` tag that parses as a
/// key, each once, in the order of first mention.
pub open spec fn contact_keys(tags: Seq<Seq<Seq<char>>>) -> Seq<Seq<u8>>
    decreases tags.len(),
{
    if tags.len() == 0 {
        Seq::empty()
    } else {
        let t = tags.last();
        let rest = contact_keys(tags.drop_last());
        if tag_named(t, "p"@) && nostr_key_parse(t[1]) is Some {
            add_key(rest, nostr_key_parse(t[1])->0)
        } else {
            rest
        }
    }
}

pub open spec fn keys_view(v: Seq<PubKey>) -> Seq<Seq<u8>> {
    v.map_values(|k: PubKey| k@)
}

proof fn lemma_add_key_distinct(s: Seq<Seq<u8>>, k: Seq<u8>)
    requires
        s.no_duplicates(),
    ensures
        add_key(s, k).no_duplicates(),
        add_key(s, k).contains(k),
        forall|x: Seq<u8>| s.contains(x) ==> #[trigger] add_key(s, k).contains(x),
{
    if !s.contains(k) {
        let t = s.push(k);
        assert(t[s.len() as int] == k);
        assert forall|x: Seq<u8>| s.contains(x) implies #[trigger] t.contains(x) by {
            let i = choose|i: int| 0 <= i < s.len() && s[i] == x;
            assert(t[i] == x);
        }
    }
}

/// The keys of a contact list hold no key twice.
pub proof fn lemma_contact_keys_distinct(tags: Seq<Seq<Seq<char>>>)
    ensures
        contact_keys(tags).no_duplicates(),
    decreases tags.len(),
{
    if tags.len() > 0 {
        lemma_contact_keys_distinct(tags.drop_last());
        let t = tags.last();
        if tag_named(t, "p"@) && nostr_key_parse(t[1]) is Some {
            lemma_add_key_distinct(contact_keys(tags.drop_last()), nostr_key_parse(t[1])->0);
        }
    }
}

/// Every `p` tag with at least two values whose second value reads as a key
/// puts that key among the follows, whatever further values (a relay hint,
/// a petname) it carries; the user's own key is there too.
pub proof fn lemma_every_p_tag_followed(tags: Seq<Seq<Seq<char>>>, own: Seq<u8>, i: int)
    requires
        0 <= i < tags.len(),
        tags[i].len() >= 2,
        tags[i][0] == "p"@,
        nostr_key_parse(tags[i][1]) is Some,
    ensures
        add_key(contact_keys(tags), own).contains(nostr_key_parse(tags[i][1])->0),
        add_key(contact_keys(tags), own).contains(own),
{
    lemma_contact_keys_hold_tag(tags, i);
    lemma_contact_keys_distinct(tags);
    lemma_add_key_distinct(contact_keys(tags), own);
}

proof fn lemma_contact_keys_hold_tag(tags: Seq<Seq<Seq<char>>>, i: int)
    requires
        0 <= i < tags.len(),
        tags[i].len() >= 2,
        tags[i][0] == "p"@,
        nostr_key_parse(tags[i][1]) is Some,
    ensures
        contact_keys(tags).contains(nostr_key_parse(tags[i][1])->0),
    decreases tags.len(),
{
    let p = tags.drop_last();
    lemma_contact_keys_distinct(p);
    if i == tags.len() - 1 {
        lemma_add_key_distinct(contact_keys(p), nostr_key_parse(tags[i][1])->0);
    } else {
        assert(p[i] == tags[i]);
        lemma_contact_keys_hold_tag(p, i);
        let t = tags.last();
        if tag_named(t, "p"@) && nostr_key_parse(t[1]) is Some {
            lemma_add_key_distinct(contact_keys(p), nostr_key_parse(t[1])->0);
        }
    }
}

/// Every followed key is the user's own or is read from the second value
/// of a `p` tag.
pub proof fn lemma_follows_come_from_p_tags(tags: Seq<Seq<Seq<char>>>, own: Seq<u8>, k: Seq<u8>)
    requires
        add_key(contact_keys(tags), own).contains(k),
    ensures
        k == own || exists|i: int|
            0 <= i < tags.len() && tags[i].len() >= 2 && tags[i][0] == "p"@ && #[trigger] nostr_key_parse(
                tags[i][1],
            ) == Some(k),
    decreases tags.len(),
{
    if k != own {
        if !contact_keys(tags).contains(k) {
            let j = choose|j: int| 0 <= j < add_key(contact_keys(tags), own).len() && add_key(contact_keys(tags), own)[j] == k;
            if !contact_keys(tags).contains(own) {
                if j < contact_keys(tags).len() {
                    assert(contact_keys(tags)[j] == k);
                }
            }
        }
        lemma_contact_keys_come_from_tags(tags, k);
    }
}

proof fn lemma_contact_keys_come_from_tags(tags: Seq<Seq<Seq<char>>>, k: Seq<u8>)
    requires
        contact_keys(tags).contains(k),
    ensures
        exists|i: int|
            0 <= i < tags.len() && tags[i].len() >= 2 && tags[i][0] == "p"@ && #[trigger] nostr_key_parse(
                tags[i][1],
            ) == Some(k),
    decreases tags.len(),
{
    let p = tags.drop_last();
    let t = tags.last();
    let n = tags.len() - 1;
    if tag_named(t, "p"@) && nostr_key_parse(t[1]) is Some && k == nostr_key_parse(t[1])->0 {
        assert(tags[n] == t);
    } else {
        if tag_named(t, "p"@) && nostr_key_parse(t[1]) is Some && !contact_keys(p).contains(nostr_key_parse(t[1])->0) {
            let j = choose|j: int| 0 <= j < contact_keys(tags).len() && contact_keys(tags)[j] == k;
            assert(j < contact_keys(p).len());
            assert(contact_keys(p)[j] == k);
        }
        assert(contact_keys(p).contains(k));
        lemma_contact_keys_come_from_tags(p, k);
        let i = choose|i: int|
            0 <= i < p.len() && p[i].len() >= 2 && p[i][0] == "p"@ && #[trigger] nostr_key_parse(p[i][1]) == Some(k);
        assert(tags[i] == p[i]);
    }
}

fn holds_key(v: &Vec<PubKey>, k: &PubKey) -> (r: bool)
    ensures
        r == keys_view(v@).contains(k@),
{
    let mut i: usize = 0;
    while i < v.len()
        invariant
            i <= v.len(),
            forall|j: int| 0 <= j < i ==> keys_view(v@)[j] != k@,
        decreases v.len() - i,
    {
        if v[i].same_as(k) {
            assert(keys_view(v@)[i as int] == k@);
            return true;
        }
        i = i + 1;
    }
    false
}

fn push_new_key(v: &mut Vec<PubKey>, k: PubKey)
    ensures
        keys_view(final(v)@) == add_key(keys_view(old(v)@), k@),
{
    if !holds_key(v, &k) {
        let ghost before = v@;
        v.push(k);
        assert(keys_view(v@) =~= keys_view(before).push(k@));
    }
}

/// The set of followed keys from the tags of a contact list, each key once,
/// with the user's own key added (if not already followed) so that the
/// user's notes show too.
pub fn follows_from_contact_list(tags: &Vec<Vec<String>>, own: PubKey) -> (r: Vec<PubKey>)
    ensures
        keys_view(r@) == add_key(contact_keys(tags_view(tags@)), own@),
        keys_view(r@).no_duplicates(),
        keys_view(r@).contains(own@),
{
    let mut follows: Vec<PubKey> = Vec::new();
    let mut i: usize = 0;
    assert(tags_view(tags@).take(0) == Seq::<Seq<Seq<char>>>::empty());
    assert(keys_view(follows@) == Seq::<Seq<u8>>::empty());
    while i < tags.len()
        invariant
            i <= tags.len(),
            keys_view(follows@) == contact_keys(tags_view(tags@).take(i as int)),
        decreases tags.len() - i,
    {
        let tag = &tags[i];
        assert(tags_view(tags@).take(i + 1).drop_last() == tags_view(tags@).take(i as int));
        assert(tags_view(tags@).take(i + 1).last() == strings_view(tag@));
        if is_tag_named(tag, "p") {
            match parse_public_key(tag[1].as_str()) {
                Some(pk) => {
                    push_new_key(&mut follows, pk);
                },
                None => {},
            }
        }
        i = i + 1;
    }
    assert(tags_view(tags@).take(tags.len() as int) == tags_view(tags@));
    push_new_key(&mut follows, own);
    proof {
        lemma_contact_keys_distinct(tags_view(tags@));
        lemma_add_key_distinct(contact_keys(tags_view(tags@)), own@);
    }
    follows
}

/// Whether a note replies to another event: it has an `e` tag.
pub open spec fn is_reply_tags(tags: Seq<Seq<Seq<char>>>) -> bool {
    exists|i: int| 0 <= i < tags.len() && #[trigger] tag_named(tags[i], "e"@)
}

pub fn has_reply_tag(tags: &Vec<Vec<String>>) -> (r: bool)
    ensures
        r == is_reply_tags(tags_view(tags@)),
{
    let mut i: usize = 0;
    while i < tags.len()
        invariant
            i <= tags.len(),
            forall|k: int| 0 <= k < i ==> !#[trigger] tag_named(tags_view(tags@)[k], "e"@),
        decreases tags.len() - i,
    {
        if is_tag_named(&tags[i], "e") {
            assert(tag_named(tags_view(tags@)[i as int], "e"@));
            return true;
        }
        i = i + 1;
    }
    false
}


// ---------------------------------------------------------------------------
// Authors
// ---------------------------------------------------------------------------

/// The profile fields of a metadata (kind 0) event that the feed uses.
#[derive(Clone, Debug)]
pub struct ProfileFields {
    pub display_name: Option<String>,
    pub name: Option<String>,
    pub nip05: Option<String>,
}

pub open spec fn opt_view(o: Option<String>) -> Option<Seq<char>> {
    match o {
        Some(s) => Some(s@),
        None => None,
    }
}

/// The profile fields as character sequences.
pub open spec fn profile_view(p: ProfileFields) -> (
    Option<Seq<char>>,
    Option<Seq<char>>,
    Option<Seq<char>>,
) {
    (opt_view(p.display_name), opt_view(p.name), opt_view(p.nip05))
}

/// The display name, name and NIP-05 fields that
/// `nostr_sdk::Metadata::from_json` reads from an event's content; `None`
/// where the content is not valid metadata JSON.
pub uninterp spec fn nostr_metadata_fields(json: Seq<char>) -> Option<
    (Option<Seq<char>>, Option<Seq<char>>, Option<Seq<char>>),
>;

/// Calls `nostr_sdk::Metadata::from_json` and keeps three of its fields.
/// Its contract says only that they are what that function reads from the
/// content; the JSON grammar is serde_json's.
#[verifier::external_body]
fn parse_profile(content: &str) -> (r: Option<ProfileFields>)
    ensures
        match r {
            Some(p) => nostr_metadata_fields(content@) == Some(profile_view(p)),
            None => nostr_metadata_fields(content@) is None,
        },
{
    match nostr_sdk::Metadata::from_json(content) {
        Ok(m) => Some(ProfileFields { display_name: m.display_name, name: m.name, nip05: m.nip05 }),
        Err(_) => None,
    }
}

/// Resolved author metadata carried alongside the display name.
#[derive(Clone, Debug)]
pub struct AuthorInfo {
    pub display_name: String,
    pub nip05: Option<String>,
}

/// The name an author is shown by: the display name, else the name, else
/// "Unknown".
pub open spec fn profile_name(p: (Option<Seq<char>>, Option<Seq<char>>, Option<Seq<char>>)) -> Seq<
    char,
> {
    match p.0 {
        Some(d) => d,
        None => match p.1 {
            Some(n) => n,
            None => "Unknown"@,
        },
    }
}

/// The NIP-05 identifier of a profile, when it is present and not empty.
pub open spec fn profile_nip05(p: (Option<Seq<char>>, Option<Seq<char>>, Option<Seq<char>>)) -> Option<
    Seq<char>,
> {
    match p.2 {
        Some(n) => if n.len() > 0 {
            Some(n)
        } else {
            None
        },
        None => None,
    }
}

/// The author information a profile gives.
pub fn author_info_from_profile(p: ProfileFields) -> (r: AuthorInfo)
    ensures
        r.display_name@ == profile_name(profile_view(p)),
        opt_view(r.nip05) == profile_nip05(profile_view(p)),
{
    let display_name = match p.display_name {
        Some(d) => d,
        None => match p.name {
            Some(n) => n,
            None => "Unknown".to_owned(),
        },
    };
    let nip05 = match p.nip05 {
        Some(n) => if n.as_str().is_empty() {
            None
        } else {
            Some(n)
        },
        None => None,
    };
    AuthorInfo { display_name, nip05 }
}

/// Known authors, in the order their metadata came; a later record for the
/// same key replaces an earlier one.
pub struct AuthorDirectory {
    pub records: Vec<(PubKey, AuthorInfo)>,
}

/// The most recent record for `key`.
pub open spec fn find_author(records: Seq<(PubKey, AuthorInfo)>, key: Seq<u8>) -> Option<AuthorInfo>
    decreases records.len(),
{
    if records.len() == 0 {
        None
    } else if records.last().0@ == key {
        Some(records.last().1)
    } else {
        find_author(records.drop_last(), key)
    }
}

impl AuthorDirectory {
    pub fn new() -> (r: AuthorDirectory)
        ensures
            r.records@.len() == 0,
    {
        AuthorDirectory { records: Vec::new() }
    }

    /// The author information recorded for `key`.
    pub open spec fn get(self, key: Seq<u8>) -> Option<AuthorInfo> {
        find_author(self.records@, key)
    }

    /// Record author information for a key.
    pub fn insert(&mut self, key: PubKey, info: AuthorInfo)
        ensures
            final(self).records@ == old(self).records@.push((key, info)),
    {
        self.records.push((key, info));
    }

    /// The author information recorded for `key`, if any.
    pub fn lookup(&self, key: &PubKey) -> (r: Option<&AuthorInfo>)
        ensures
            match r {
                Some(info) => self.get(key@) == Some(*info),
                None => self.get(key@) is None,
            },
    {
        let mut i: usize = self.records.len();
        assert(self.records@.take(i as int) == self.records@);
        while i > 0
            invariant
                i <= self.records@.len(),
                find_author(self.records@, key@) == find_author(self.records@.take(i as int), key@),
            decreases i,
        {
            assert(self.records@.take(i as int).drop_last() == self.records@.take(i - 1));
            assert(self.records@.take(i as int).last() == self.records@[i - 1]);
            if self.records[i - 1].0.same_as(key) {
                return Some(&self.records[i - 1].1);
            }
            i = i - 1;
        }
        None
    }

    /// Reading a key gives back what was last written for it, and writing
    /// one key leaves every other key as it was.
    pub proof fn lemma_get_after_insert(self, key: PubKey, info: AuthorInfo, other: Seq<u8>)
        ensures
            find_author(self.records@.push((key, info)), key@) == Some(info),
            other != key@ ==> find_author(self.records@.push((key, info)), other)
                == find_author(self.records@, other),
    {
        assert(self.records@.push((key, info)).drop_last() == self.records@);
    }
}

impl View for AuthorDirectory {
    type V = Seq<(PubKey, AuthorInfo)>;

    open spec fn view(&self) -> Seq<(PubKey, AuthorInfo)> {
        self.records@
    }
}

/// The records that the metadata events give, in order: one for every event
/// whose content parses as metadata.
pub open spec fn author_records(events: Seq<(PubKey, String)>) -> Seq<(Seq<u8>, Seq<char>, Option<Seq<char>>)>
    decreases events.len(),
{
    if events.len() == 0 {
        Seq::empty()
    } else {
        let (k, c) = events.last();
        let rest = author_records(events.drop_last());
        match nostr_metadata_fields(c@) {
            Some(p) => rest.push((k@, profile_name(p), profile_nip05(p))),
            None => rest,
        }
    }
}

pub open spec fn records_view(r: Seq<(PubKey, AuthorInfo)>) -> Seq<(Seq<u8>, Seq<char>, Option<Seq<char>>)> {
    r.map_values(|e: (PubKey, AuthorInfo)| (e.0@, e.1.display_name@, opt_view(e.1.nip05)))
}

/// Build the author directory from metadata events (author key and content).
pub fn resolve_authors(events: &Vec<(PubKey, String)>) -> (r: AuthorDirectory)
    ensures
        records_view(r.records@) == author_records(events@),
{
    let mut dir = AuthorDirectory::new();
    let mut i: usize = 0;
    assert(events@.take(0) == Seq::<(PubKey, String)>::empty());
    assert(records_view(dir.records@) == Seq::<(Seq<u8>, Seq<char>, Option<Seq<char>>)>::empty());
    while i < events.len()
        invariant
            i <= events.len(),
            records_view(dir.records@) == author_records(events@.take(i as int)),
        decreases events.len() - i,
    {
        assert(events@.take(i + 1).drop_last() == events@.take(i as int));
        assert(events@.take(i + 1).last() == events@[i as int]);
        let key = events[i].0;
        match parse_profile(events[i].1.as_str()) {
            Some(p) => {
                let info = author_info_from_profile(p);
                let ghost before = dir.records@;
                dir.insert(key, info);
                assert(records_view(dir.records@) =~= records_view(before).push(
                    (key@, info.display_name@, opt_view(info.nip05)),
                ));
            },
            None => {},
        }
        i = i + 1;
    }
    assert(events@.take(events.len() as int) == events@);
    dir
}

/// How many bytes of a key the short label shows.
pub const SHORT_KEY_BYTES: usize = 4;

/// The name shown for an author: the resolved display name, else the first
/// eight hex digits of the key followed by "...".
pub open spec fn author_label(info: Option<AuthorInfo>, key: Seq<u8>) -> Seq<char> {
    match info {
        Some(a) => a.display_name@,
        None => hex_lower(key.take(SHORT_KEY_BYTES as int)) + "..."@,
    }
}

pub fn author_name(info: Option<&AuthorInfo>, key: &PubKey) -> (r: String)
    ensures
        r@ == author_label(match info { Some(a) => Some(*a), None => None }, key@),
{
    match info {
        Some(a) => a.display_name.clone(),
        None => {
            let mut s = String::new();
            let short = &key.0[0..SHORT_KEY_BYTES];
            push_hex(&mut s, short);
            s.append("...");
            s
        },
    }
}


// ---------------------------------------------------------------------------
// Events into feed messages
// ---------------------------------------------------------------------------

/// The kind number of a repost (NIP-18).
pub const REPOST_KIND: u16 = 6;

/// The kind number of a text note (NIP-01).
pub const TEXT_NOTE_KIND: u16 = 1;

/// What the feed shows in place of a repost's content.
pub open spec fn repost_placeholder() -> Seq<char> {
    "(reposted note)"@
}

/// The feed entry kind of an event kind number: only text notes and
/// reposts are shown.
pub open spec fn entry_kind(kind_code: u16) -> Option<FeedEntryKind> {
    if kind_code == REPOST_KIND {
        Some(FeedEntryKind::Repost)
    } else if kind_code == TEXT_NOTE_KIND {
        Some(FeedEntryKind::TextNote)
    } else {
        None
    }
}

/// The message that announces an event to the main loop, for text notes
/// and reposts only (`None` for any other kind): the author's resolved
/// name (or short key) and NIP-05, whether it replies (an `e` tag), and the
/// content cleaned of control characters, or a placeholder for a repost.
pub fn note_message<P>(
    authors: &AuthorDirectory,
    id: EventId,
    kind_code: u16,
    author: &PubKey,
    tags: &Vec<Vec<String>>,
    content: &str,
) -> (r: Option<AppMessage<P>>)
    ensures
        entry_kind(kind_code) is None <==> r is None,
        match r {
            None => true,
            Some(AppMessage::NostrEvent { id: rid, author: a, kind, content: c, is_reply, nip05 }) => {
                &&& rid == id
                &&& a@ == author_label(authors.get(author@), author@)
                &&& Some(kind) == entry_kind(kind_code)
                &&& c@ == (if kind_code == REPOST_KIND {
                    repost_placeholder()
                } else {
                    cleaned(content@)
                })
                &&& is_reply == is_reply_tags(tags_view(tags@))
                &&& opt_view(nip05) == match authors.get(author@) {
                    Some(info) => opt_view(info.nip05),
                    None => None,
                }
            },
            _ => false,
        },
{
    // Only text notes and reposts are rendered
    let kind = if kind_code == REPOST_KIND {
        FeedEntryKind::Repost
    } else if kind_code == TEXT_NOTE_KIND {
        FeedEntryKind::TextNote
    } else {
        return None;
    };
    let info = authors.lookup(author);
    let author_name = author_name(info, author);
    let nip05 = match info {
        Some(a) => a.nip05.clone(),
        None => None,
    };
    let is_reply = has_reply_tag(tags);
    let content = if kind_code == REPOST_KIND {
        "(reposted note)".to_owned()
    } else {
        clean_content(content)
    };
    Some(AppMessage::NostrEvent { id, author: author_name, kind, content, is_reply, nip05 })
}

// ---------------------------------------------------------------------------
// Connection health
// ---------------------------------------------------------------------------

/// How often the event loop checks the connection.
pub const HEALTH_CHECK_INTERVAL_SECS: u64 = 120;

/// A connection silent for longer than this is taken as stale.
pub const RECONNECT_TIMEOUT_SECS: u64 = 180;

/// Whether a connection that has been silent for `idle_secs` must be
/// re-established.
pub fn needs_reconnect(idle_secs: u64) -> (r: bool)
    ensures
        r == (idle_secs > RECONNECT_TIMEOUT_SECS),
{
    idle_secs > RECONNECT_TIMEOUT_SECS
}

/// Status line for a connection that failed.
pub fn connection_error_status(detail: &str) -> (r: String)
    ensures
        r@ == "CONNECTION ERROR: "@ + detail@,
{
    let mut r = "CONNECTION ERROR: ".to_owned();
    r.append(detail);
    r
}

/// Status line while relays are being added.
pub fn uplink_status(relays: usize) -> (r: String)
    ensures
        r@ == "OPTIMIZING UPLINK ("@ + decimal(relays as nat) + " RELAYS)..."@,
{
    let mut r = "OPTIMIZING UPLINK (".to_owned();
    let n = decimal_string(relays as u64);
    r.append(n.as_str());
    r.append(" RELAYS)...");
    r
}

} // verus!
