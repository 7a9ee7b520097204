//! Application state, the messages that background tasks send to the main
//! loop, and the decisions the main loop takes on them and on key presses.
use vstd::prelude::*;

use crate::feed::{bounded_push, EventId, FeedEntry, FeedEntryKind, FeedState, MAX_MESSAGES};

verus! {

#[derive(Clone, Copy, Debug, PartialEq, Eq, Structural)]
pub enum AppState {
    Login,
    Connecting,
    Feed,
}

/// Messages sent from background tasks to the main loop. `P` is the BTC
/// price series, which the library hands back untouched (see
/// [`App::handle_message`]).
pub enum AppMessage<P> {
    /// A new Nostr event to display (text note or repost)
    NostrEvent {
        id: EventId,
        author: String,
        kind: FeedEntryKind,
        content: String,
        is_reply: bool,
        nip05: Option<String>,
    },
    /// Status update from the Nostr connection task
    NostrStatus(String),
    /// Nostr connection established: go to the feed
    NostrConnected,
    /// Nostr connection error: back to login
    NostrLoginError(String),
    /// Updated BTC price history
    BtcPriceUpdate(P),
    /// Updated blockchain data from Bitcoin Core
    BlockchainUpdate { blocks: Vec<BlockDisplayInfo>, mempool: MempoolDisplayInfo, fees: FeeDisplayInfo },
    /// Status update from the blockchain poller
    BlockchainStatus(String),
    /// Updated system monitor stats
    SystemStatsUpdate { cpu: u8, gpu: u8, ram: u8, vram: u8, network: String },
}

#[derive(Clone, Copy, Debug, PartialEq, Eq, Structural)]
pub struct BlockDisplayInfo {
    pub height: u64,
    pub size: usize,
    pub timestamp: u64,
    pub tx_count: usize,
}

#[derive(Clone, Copy, Debug, PartialEq, Eq, Structural)]
pub struct MempoolDisplayInfo {
    /// Transaction count
    pub size: usize,
    /// Memory usage in bytes
    pub usage: usize,
    pub max_mempool: usize,
}

impl Default for MempoolDisplayInfo {
    fn default() -> (r: Self)
        ensures
            r == (MempoolDisplayInfo { size: 0, usage: 0, max_mempool: 300_000_000 }),
    {
        MempoolDisplayInfo { size: 0, usage: 0, max_mempool: 300_000_000 }
    }
}

/// Fee estimates for a low, medium and high priority, each as the node
/// reports it: satoshis per 1000 virtual bytes, 0 where the node gave none.
#[derive(Clone, Copy, Debug, PartialEq, Eq, Structural)]
pub struct FeeDisplayInfo {
    pub low: u64,
    pub medium: u64,
    pub high: u64,
}

impl Default for FeeDisplayInfo {
    fn default() -> (r: Self)
        ensures
            r == (FeeDisplayInfo { low: 0, medium: 0, high: 0 }),
    {
        FeeDisplayInfo { low: 0, medium: 0, high: 0 }
    }
}

/// Bitcoin node state (present only when a node is configured).
pub struct NodeState {
    pub status: String,
    pub blocks: Vec<BlockDisplayInfo>,
    pub mempool: MempoolDisplayInfo,
    pub fees: FeeDisplayInfo,
}

impl NodeState {
    pub fn new() -> (r: NodeState)
        ensures
            r.status@ == "CONNECTING TO NODE..."@,
            r.blocks@.len() == 0,
            r.mempool == (MempoolDisplayInfo { size: 0, usage: 0, max_mempool: 300_000_000 }),
            r.fees == (FeeDisplayInfo { low: 0, medium: 0, high: 0 }),
    {
        NodeState {
            status: "CONNECTING TO NODE...".to_owned(),
            blocks: Vec::new(),
            mempool: MempoolDisplayInfo::default(),
            fees: FeeDisplayInfo::default(),
        }
    }
}

#[derive(Clone, Debug)]
pub struct SystemStats {
    pub cpu: u8,
    pub gpu: u8,
    pub ram: u8,
    pub vram: u8,
    pub network: String,
}

/// Top-level state, owned exclusively by the main loop.
pub struct App {
    pub state: AppState,
    /// npub input on the Login screen
    pub input: String,
    pub scroll: usize,
    pub status: String,
    pub dirty: bool,
    pub feed: FeedState,
    pub node: Option<NodeState>,
    pub system_stats: Option<SystemStats>,
}

/// Whether the selection is on the last entry (or the feed is empty).
pub open spec fn at_bottom(scroll: usize, len: nat) -> bool {
    len == 0 || scroll >= len - 1
}

/// The selection after a new entry arrived: it moves back one place when
/// the oldest entry was evicted, and follows the newest entry when it was
/// on the last one.
pub open spec fn scroll_after_add(scroll: usize, old_len: nat, new_len: nat) -> usize {
    let moved = if old_len >= MAX_MESSAGES && scroll > 0 {
        (scroll - 1) as usize
    } else {
        scroll
    };
    if at_bottom(scroll, old_len) && new_len > 0 {
        (new_len - 1) as usize
    } else {
        moved
    }
}

/// The selection points into the feed.
pub open spec fn scroll_in_range(scroll: usize, len: nat) -> bool {
    if len == 0 {
        scroll == 0
    } else {
        scroll < len
    }
}

impl App {
    /// The state's invariant: a well-formed feed and a selection inside it.
    pub open spec fn wf(self) -> bool {
        &&& self.feed.wf()
        &&& scroll_in_range(self.scroll, self.feed.entries@.len())
    }

    pub fn new() -> (r: App)
        ensures
            r.wf(),
            r.state == AppState::Login,
            r.input@.len() == 0,
            r.scroll == 0,
            r.status@ == "Welcome to CYBERDECKSTR. Enter NPUB."@,
            r.dirty,
            r.feed.entries@.len() == 0,
            r.feed.seen_ids@.len() == 0,
            r.feed.wrapped_content@.len() == 0,
            r.feed.last_nostr_data is None,
            r.feed.cached_wrap_width == 0,
            r.node is None,
            r.system_stats is None,
    {
        App {
            state: AppState::Login,
            input: String::new(),
            scroll: 0,
            status: "Welcome to CYBERDECKSTR. Enter NPUB.".to_owned(),
            dirty: true,
            feed: FeedState::new(),
            node: None,
            system_stats: None,
        }
    }

    /// Mark UI as needing redraw.
    pub fn mark_dirty(&mut self)
        ensures
            *final(self) == marked_dirty(*old(self)),
    {
        self.dirty = true;
    }

    /// Check and clear dirty flag.
    pub fn consume_dirty(&mut self) -> (was_dirty: bool)
        ensures
            was_dirty == old(self).dirty,
            *final(self) == dirty_taken(*old(self)),
    {
        let was_dirty = self.dirty;
        self.dirty = false;
        was_dirty
    }

    /// Process a message from a background task. The price series of a
    /// `BtcPriceUpdate` is handed back for the caller's chart state; every
    /// other message gives `None`.
    pub fn handle_message<P>(&mut self, msg: AppMessage<P>) -> (r: Option<P>)
        requires
            old(self).wf(),
        ensures
            final(self).wf(),
            after_message(*old(self), *final(self), msg),
            r == price_payload(msg),
    {
        match msg {
            AppMessage::NostrEvent { id, author, kind, content, is_reply, nip05 } => {
                // Track whether an entry will be evicted, for the selection
                let len = self.feed.entries.len();
                let will_evict = len >= MAX_MESSAGES;
                let was_at_bottom = len == 0 || self.scroll >= len - 1;

                let entry = FeedEntry { id, author, kind, content, is_reply, nip05 };
                if self.feed.add_entry(entry) {
                    if will_evict && self.scroll > 0 {
                        self.scroll = self.scroll - 1;
                    }
                    // Follow the newest entry if the user was on the last one
                    if was_at_bottom && self.feed.entries.len() > 0 {
                        self.scroll = self.feed.entries.len() - 1;
                    }
                    self.dirty = true;
                }
                None
            },
            AppMessage::NostrStatus(status) => {
                self.status = status;
                self.dirty = true;
                None
            },
            AppMessage::NostrConnected => {
                self.state = AppState::Feed;
                self.status = "CONNECTED. SIGNAL ACQUIRED.".to_owned();
                self.dirty = true;
                None
            },
            AppMessage::NostrLoginError(msg) => {
                self.status = msg;
                self.state = AppState::Login;
                self.input = String::new();
                self.dirty = true;
                None
            },
            AppMessage::BtcPriceUpdate(prices) => {
                self.dirty = true;
                Some(prices)
            },
            AppMessage::BlockchainUpdate { blocks, mempool, fees } => {
                if self.node.is_some() {
                    self.node = Some(
                        NodeState { status: "NODE CONNECTED".to_owned(), blocks, mempool, fees },
                    );
                }
                self.dirty = true;
                None
            },
            AppMessage::BlockchainStatus(status) => {
                match self.node.take() {
                    Some(node) => {
                        self.node = Some(NodeState { status, ..node });
                    },
                    None => {},
                }
                self.dirty = true;
                None
            },
            AppMessage::SystemStatsUpdate { cpu, gpu, ram, vram, network } => {
                self.system_stats = Some(SystemStats { cpu, gpu, ram, vram, network });
                self.dirty = true;
                None
            },
        }
    }
}

/// The price series a message carries, if it is a price update.
pub open spec fn price_payload<P>(msg: AppMessage<P>) -> Option<P> {
    match msg {
        AppMessage::BtcPriceUpdate(p) => Some(p),
        _ => None,
    }
}

/// The state after a Nostr event arrived: when its id was seen before,
/// only the de-duplication window changes (the id becomes the most
/// recently used); otherwise the entry joins the feed, the selection is moved as
/// [`scroll_after_add`] says, and the screen is marked for redraw.
pub open spec fn after_nostr_event(a: App, b: App, entry: FeedEntry) -> bool {
    if a.feed.seen().contains(entry.id@) {
        &&& crate::feed::touched(a.feed.seen_ids@, b.feed.seen_ids@, entry.id@)
        &&& b.feed == (FeedState { seen_ids: b.feed.seen_ids, ..a.feed })
        &&& b == (App { feed: b.feed, ..a })
    } else {
        &&& b.feed.entries@ == bounded_push(a.feed.entries@, entry, MAX_MESSAGES as nat)
        &&& crate::feed::remembered_new(
            a.feed.seen_ids@,
            b.feed.seen_ids@,
            a.feed.entry_ids(),
            entry.id,
        )
        &&& b.feed.cached_wrap_width == a.feed.cached_wrap_width
        &&& b.scroll == scroll_after_add(a.scroll, a.feed.entries@.len(), b.feed.entries@.len())
        &&& b == (App { feed: b.feed, scroll: b.scroll, dirty: true, ..a })
    }
}

/// What each message does to the state.
pub open spec fn after_message<P>(a: App, b: App, msg: AppMessage<P>) -> bool {
    match msg {
        AppMessage::NostrEvent { id, author, kind, content, is_reply, nip05 } => after_nostr_event(
            a,
            b,
            FeedEntry { id, author, kind, content, is_reply, nip05 },
        ),
        AppMessage::NostrStatus(status) => b == (App { status, dirty: true, ..a }),
        AppMessage::NostrConnected => {
            &&& b.status@ == "CONNECTED. SIGNAL ACQUIRED."@
            &&& b == (App { state: AppState::Feed, status: b.status, dirty: true, ..a })
        },
        AppMessage::NostrLoginError(m) => {
            &&& b.input@.len() == 0
            &&& b == (App { status: m, state: AppState::Login, input: b.input, dirty: true, ..a })
        },
        AppMessage::BtcPriceUpdate(_) => b == (App { dirty: true, ..a }),
        AppMessage::BlockchainUpdate { blocks, mempool, fees } => {
            &&& match a.node {
                Some(_) => {
                    &&& b.node is Some
                    &&& b.node->0.status@ == "NODE CONNECTED"@
                    &&& b.node->0.blocks == blocks
                    &&& b.node->0.mempool == mempool
                    &&& b.node->0.fees == fees
                },
                None => b.node is None,
            }
            &&& b == (App { node: b.node, dirty: true, ..a })
        },
        AppMessage::BlockchainStatus(status) => {
            &&& match a.node {
                Some(n) => b.node == Some(NodeState { status, ..n }),
                None => b.node is None,
            }
            &&& b == (App { node: b.node, dirty: true, ..a })
        },
        AppMessage::SystemStatsUpdate { cpu, gpu, ram, vram, network } => b == (App {
            system_stats: Some(SystemStats { cpu, gpu, ram, vram, network }),
            dirty: true,
            ..a
        }),
    }
}


// ---------------------------------------------------------------------------
// Key presses and the main loop's timing
// ---------------------------------------------------------------------------

/// A key press, as far as the application tells keys apart.
#[derive(Clone, Copy, Debug, PartialEq, Eq, Structural)]
pub enum KeyInput {
    Enter,
    Char(char),
    Backspace,
    Esc,
    Up,
    Down,
    Other,
}

/// What the main loop does after a key press.
#[derive(Clone, Debug, PartialEq, Eq)]
pub enum KeyAction {
    /// Keep running.
    Continue,
    /// Leave the application.
    Quit,
    /// Start connecting to Nostr with this npub.
    Connect(String),
}

/// Removes the last character of a string (`String::pop`).
#[verifier::external_body]
fn pop_char(s: &mut String) -> (r: Option<char>)
    ensures
        old(s)@.len() == 0 ==> r is None && final(s)@ == old(s)@,
        old(s)@.len() > 0 ==> r == Some(old(s)@.last()) && final(s)@ == old(s)@.drop_last(),
{
    s.pop()
}

/// Status line while a connection is being set up.
pub open spec fn connecting_status() -> Seq<char> {
    "Initializing Uplink..."@
}

/// What a key press does to the state, and what it asks of the main loop.
/// Every key marks the screen for redraw.
pub open spec fn after_key(a: App, b: App, key: KeyInput, r: KeyAction) -> bool {
    let len = a.feed.entries@.len();
    match a.state {
        AppState::Login => match key {
            KeyInput::Enter => {
                &&& r == KeyAction::Connect(a.input)
                &&& b.status@ == connecting_status()
                &&& b == (App { state: AppState::Connecting, status: b.status, dirty: true, ..a })
            },
            KeyInput::Char(c) => {
                &&& r == KeyAction::Continue
                &&& b.input@ == a.input@.push(c)
                &&& b == (App { input: b.input, dirty: true, ..a })
            },
            KeyInput::Backspace => {
                &&& r == KeyAction::Continue
                &&& b.input@ == (if a.input@.len() > 0 {
                    a.input@.drop_last()
                } else {
                    a.input@
                })
                &&& b == (App { input: b.input, dirty: true, ..a })
            },
            KeyInput::Esc => r == KeyAction::Quit && b == (App { dirty: true, ..a }),
            _ => r == KeyAction::Continue && b == (App { dirty: true, ..a }),
        },
        AppState::Connecting => {
            &&& r == (if key == KeyInput::Esc {
                KeyAction::Quit
            } else {
                KeyAction::Continue
            })
            &&& b == (App { dirty: true, ..a })
        },
        AppState::Feed => match key {
            KeyInput::Char('q') | KeyInput::Esc => r == KeyAction::Quit && b == (App {
                dirty: true,
                ..a
            }),
            KeyInput::Down => {
                &&& r == KeyAction::Continue
                &&& b == (App {
                    scroll: if len > 0 && a.scroll < len - 1 {
                        (a.scroll + 1) as usize
                    } else {
                        a.scroll
                    },
                    dirty: true,
                    ..a
                })
            },
            KeyInput::Up => {
                &&& r == KeyAction::Continue
                &&& b == (App {
                    scroll: if a.scroll > 0 {
                        (a.scroll - 1) as usize
                    } else {
                        a.scroll
                    },
                    dirty: true,
                    ..a
                })
            },
            _ => r == KeyAction::Continue && b == (App { dirty: true, ..a }),
        },
    }
}

/// Poll interval while the user or a background task was active recently.
pub const ACTIVE_POLL_MS: u64 = 50;

/// Poll interval once idle.
pub const IDLE_POLL_MS: u64 = 200;

/// Idle after this long without activity.
pub const IDLE_THRESHOLD_MS: u64 = 5000;

/// Least time between two renders (about 30 frames a second).
pub const MIN_RENDER_INTERVAL_MS: u64 = 33;

/// Columns of the terminal that the feed does not use for text.
pub const CONTENT_MARGIN_COLS: u16 = 8;

/// How long to wait for input, after `idle_ms` without activity.
pub fn poll_timeout_ms(idle_ms: u64) -> (r: u64)
    ensures
        r == (if idle_ms > IDLE_THRESHOLD_MS {
            IDLE_POLL_MS
        } else {
            ACTIVE_POLL_MS
        }),
{
    if idle_ms > IDLE_THRESHOLD_MS {
        IDLE_POLL_MS
    } else {
        ACTIVE_POLL_MS
    }
}

/// The wrap width of the feed on a terminal `terminal_width` columns wide.
pub open spec fn content_width(terminal_width: u16) -> usize {
    if terminal_width > CONTENT_MARGIN_COLS {
        (terminal_width - CONTENT_MARGIN_COLS) as usize
    } else {
        0
    }
}

impl App {
    /// Handle a key press.
    pub fn handle_key(&mut self, key: KeyInput) -> (r: KeyAction)
        requires
            old(self).wf(),
        ensures
            final(self).wf(),
            after_key(*old(self), *final(self), key, r),
    {
        self.mark_dirty();
        match self.state {
            AppState::Login => {
                match key {
                    KeyInput::Enter => {
                        let npub = self.input.clone();
                        self.state = AppState::Connecting;
                        self.status = "Initializing Uplink...".to_owned();
                        KeyAction::Connect(npub)
                    },
                    KeyInput::Char(c) => {
                        crate::text::push_char(&mut self.input, c);
                        KeyAction::Continue
                    },
                    KeyInput::Backspace => {
                        pop_char(&mut self.input);
                        KeyAction::Continue
                    },
                    KeyInput::Esc => KeyAction::Quit,
                    _ => KeyAction::Continue,
                }
            },
            AppState::Connecting => {
                if key == KeyInput::Esc {
                    KeyAction::Quit
                } else {
                    KeyAction::Continue
                }
            },
            AppState::Feed => {
                match key {
                    KeyInput::Char('q') | KeyInput::Esc => KeyAction::Quit,
                    KeyInput::Down => {
                        let len = self.feed.entries.len();
                        if len > 0 && self.scroll < len - 1 {
                            self.scroll = self.scroll + 1;
                        }
                        KeyAction::Continue
                    },
                    KeyInput::Up => {
                        if self.scroll > 0 {
                            self.scroll = self.scroll - 1;
                        }
                        KeyAction::Continue
                    },
                    _ => KeyAction::Continue,
                }
            },
        }
    }

    /// Begin connecting with a configured npub: it becomes the input, and
    /// the state moves on to `Connecting`.
    pub fn connect_with(&mut self, npub: String)
        requires
            old(self).wf(),
        ensures
            final(self).wf(),
            final(self).status@ == connecting_status(),
            *final(self) == (App {
                input: npub,
                state: AppState::Connecting,
                status: final(self).status,
                ..*old(self)
            }),
    {
        self.input = npub;
        self.state = AppState::Connecting;
        self.status = "Initializing Uplink...".to_owned();
    }

    /// Rebuild the feed's wrap cache when the terminal's content width
    /// changed and is known.
    pub fn sync_wrap_width(&mut self, terminal_width: u16)
        requires
            old(self).wf(),
        ensures
            final(self).wf(),
            crate::feed::rewrapped(old(self).feed, final(self).feed, content_width(terminal_width)),
            *final(self) == (App { feed: final(self).feed, ..*old(self) }),
    {
        let width: usize = if terminal_width > CONTENT_MARGIN_COLS {
            (terminal_width - CONTENT_MARGIN_COLS) as usize
        } else {
            0
        };
        if width > 0 && width != self.feed.cached_wrap_width {
            self.feed.rewrap(width);
        }
    }

    /// Whether to render now, `since_render_ms` after the last render: only
    /// when the frame budget allows and something changed; the change is
    /// then taken as drawn.
    pub fn take_render_turn(&mut self, since_render_ms: u64) -> (r: bool)
        ensures
            r == (since_render_ms >= MIN_RENDER_INTERVAL_MS && old(self).dirty),
            *final(self) == (App {
                dirty: if since_render_ms >= MIN_RENDER_INTERVAL_MS {
                    false
                } else {
                    old(self).dirty
                },
                ..*old(self)
            }),
    {
        since_render_ms >= MIN_RENDER_INTERVAL_MS && self.consume_dirty()
    }
}


// ---------------------------------------------------------------------------
// Laws
// ---------------------------------------------------------------------------

/// A user on the last entry follows the feed: after a new entry the
/// selection is on the newest one.
pub proof fn lemma_follows_newest(a: App, b: App, entry: FeedEntry)
    requires
        a.wf(),
        after_nostr_event(a, b, entry),
        !a.feed.seen().contains(entry.id@),
        at_bottom(a.scroll, a.feed.entries@.len()),
    ensures
        b.scroll == b.feed.entries@.len() - 1,
        b.feed.entries@[b.scroll as int] == entry,
{
}

/// A user reading older entries keeps the same entry selected when a new
/// one arrives, unless the selected entry is the one evicted.
pub proof fn lemma_selection_stays(a: App, b: App, entry: FeedEntry)
    requires
        a.wf(),
        after_nostr_event(a, b, entry),
        !a.feed.seen().contains(entry.id@),
        !at_bottom(a.scroll, a.feed.entries@.len()),
        !(a.feed.entries@.len() >= MAX_MESSAGES && a.scroll == 0),
    ensures
        b.feed.entries@[b.scroll as int] == a.feed.entries@[a.scroll as int],
{
    let n = a.feed.entries@.len();
    if n >= MAX_MESSAGES {
        assert(b.feed.entries@ == a.feed.entries@.drop_first().push(entry));
        assert(b.scroll == a.scroll - 1);
    } else {
        assert(b.feed.entries@ == a.feed.entries@.push(entry));
    }
}

/// A duplicate event shows nothing new: the entries, their display lines,
/// the selection and the redraw flag stay as they were.
pub proof fn lemma_duplicate_ignored(a: App, b: App, entry: FeedEntry)
    requires
        after_nostr_event(a, b, entry),
        a.feed.seen().contains(entry.id@),
    ensures
        b.feed.entries@ == a.feed.entries@,
        b.feed.wrapped() == a.feed.wrapped(),
        b.scroll == a.scroll,
        b.dirty == a.dirty,
        b.state == a.state && b.status == a.status,
{
}

/// On the login screen every character key, `q` included, is typed into the
/// identity and the application goes on there; Esc is the only key that
/// quits it.
pub proof fn lemma_login_keys_type(a: App, b: App, key: KeyInput, r: KeyAction)
    requires
        a.state == AppState::Login,
        after_key(a, b, key, r),
    ensures
        forall|c: char|
            key == KeyInput::Char(c) ==> r == KeyAction::Continue && b.input@ == a.input@.push(c)
                && b.state == AppState::Login,
        (r == KeyAction::Quit) == (key == KeyInput::Esc),
{
}

/// The state with a redraw requested.
pub open spec fn marked_dirty(a: App) -> App {
    App { dirty: true, ..a }
}

/// The state once a pending redraw was taken.
pub open spec fn dirty_taken(a: App) -> App {
    App { dirty: false, ..a }
}

/// A change is drawn once: after [`App::mark_dirty`], the next
/// [`App::consume_dirty`] reports it, and the one after that reports
/// nothing, leaving the state as it was.
pub proof fn lemma_dirty_taken_once(a: App)
    ensures
        marked_dirty(a).dirty,
        !dirty_taken(marked_dirty(a)).dirty,
        dirty_taken(dirty_taken(marked_dirty(a))) == dirty_taken(marked_dirty(a)),
{
}

} // verus!
