//! The Nostr feed: a bounded, duplicate-free list of entries with a cache of
//! their display lines at the current terminal width.
use std::collections::VecDeque;
use vstd::prelude::*;

use crate::text::{push_char, strings_view, to_chars, wrap_message, wrapped_message};

verus! {

/// Most entries the feed keeps; the oldest goes when a new one comes.
pub const MAX_MESSAGES: usize = 2000;

/// Most event ids remembered for de-duplication; when a new one comes, the
/// least recently used id that no shown entry has is forgotten.
pub const MAX_SEEN_IDS: usize = 5000;

#[derive(Clone, Copy, Debug, PartialEq, Eq, Structural)]
pub enum FeedEntryKind {
    TextNote,
    Repost,
}

/// The 32-byte id of a Nostr event.
#[derive(Clone, Copy, Debug)]
pub struct EventId(pub [u8; 32]);

impl View for EventId {
    type V = Seq<u8>;

    open spec fn view(&self) -> Seq<u8> {
        self.0@
    }
}

impl EventId {
    /// Whether two ids hold the same bytes.
    pub fn same_as(&self, other: &EventId) -> (r: bool)
        ensures
            r == (self@ == other@),
    {
        let mut i: usize = 0;
        while i < 32
            invariant
                i <= 32,
                self@.len() == 32,
                other@.len() == 32,
                forall|k: int| 0 <= k < i ==> self@[k] == other@[k],
            decreases 32 - i,
        {
            if self.0[i] != other.0[i] {
                return false;
            }
            i = i + 1;
        }
        assert(self@ =~= other@);
        true
    }
}

/// A single entry in the Nostr feed with all metadata needed for rich rendering.
#[derive(Clone)]
pub struct FeedEntry {
    pub id: EventId,
    pub author: String,
    pub kind: FeedEntryKind,
    pub content: String,
    pub is_reply: bool,
    pub nip05: Option<String>,
}

/// The domain of a NIP-05 identifier `name@domain`: what follows its first
/// `@`, or the whole text where it has none.
pub open spec fn nip05_domain(n: Seq<char>) -> Seq<char> {
    match n.index_of_first('@') {
        Some(i) => n.skip(i + 1),
        None => n,
    }
}

/// The header line shown above an entry: `↻ ` for a repost, `@` and the
/// author, a `[✓domain]` badge for a NIP-05 verified author, and `(reply)`
/// for a reply.
pub open spec fn header_text(
    kind: FeedEntryKind,
    author: Seq<char>,
    nip05: Option<Seq<char>>,
    is_reply: bool,
) -> Seq<char> {
    let mark = if kind == FeedEntryKind::Repost {
        seq!['↻', ' ']
    } else {
        Seq::<char>::empty()
    };
    let badge = match nip05 {
        Some(n) => seq![' ', '[', '✓'] + nip05_domain(n) + seq![']'],
        None => Seq::<char>::empty(),
    };
    let reply = if is_reply {
        seq![' ', '(', 'r', 'e', 'p', 'l', 'y', ')']
    } else {
        Seq::<char>::empty()
    };
    mark + seq!['@'] + author + badge + reply
}

/// Appends the characters of `v` from place `from` on.
fn append_from(out: &mut String, v: &Vec<char>, from: usize)
    requires
        from <= v@.len(),
    ensures
        final(out)@ == old(out)@ + v@.skip(from as int),
{
    let mut i: usize = from;
    while i < v.len()
        invariant
            from <= i <= v@.len(),
            out@ == old(out)@ + v@.subrange(from as int, i as int),
        decreases v@.len() - i,
    {
        push_char(out, v[i]);
        assert(v@.subrange(from as int, i + 1) == v@.subrange(from as int, i as int).push(v@[i as int]));
        i = i + 1;
    }
    assert(v@.subrange(from as int, v@.len() as int) == v@.skip(from as int));
}

/// Appends the characters of `t`.
fn append_text(out: &mut String, t: &str)
    ensures
        final(out)@ == old(out)@ + t@,
{
    let v = to_chars(t);
    append_from(out, &v, 0);
    assert(v@.skip(0) == v@);
}

/// Where the first `@` stands in `v`, if it holds one.
fn first_at(v: &Vec<char>) -> (r: Option<usize>)
    ensures
        match r {
            Some(i) => i < v.len() && v@.index_of_first('@') == Some(i as int),
            None => v@.index_of_first('@') is None,
        },
{
    proof {
        v@.index_of_first_ensures('@');
    }
    let mut i: usize = 0;
    while i < v.len()
        invariant
            i <= v@.len(),
            forall|k: int| 0 <= k < i ==> v@[k] != '@',
            match v@.index_of_first('@') {
                Some(index) => {
                    &&& 0 <= index < v@.len()
                    &&& v@[index] == '@'
                    &&& forall|j: int| 0 <= j < index < v@.len() ==> v@[j] != '@'
                },
                None => !v@.contains('@'),
            },
        decreases v@.len() - i,
    {
        if v[i] == '@' {
            assert(v@.contains('@'));
            return Some(i);
        }
        i = i + 1;
    }
    None
}

impl FeedEntry {
    /// The header line shown above the entry's content.
    pub fn header_line(&self) -> (r: String)
        ensures
            r@ == header_text(self.kind, self.author@, crate::nostr::opt_view(self.nip05), self.is_reply),
    {
        let mut out = String::new();
        if self.kind == FeedEntryKind::Repost {
            push_char(&mut out, '↻');
            push_char(&mut out, ' ');
        }
        push_char(&mut out, '@');
        append_text(&mut out, self.author.as_str());
        let ghost before_badge = out@;
        match &self.nip05 {
            Some(n) => {
                let v = to_chars(n.as_str());
                push_char(&mut out, ' ');
                push_char(&mut out, '[');
                push_char(&mut out, '✓');
                match first_at(&v) {
                    Some(i) => append_from(&mut out, &v, i + 1),
                    None => append_from(&mut out, &v, 0),
                }
                assert(v@.skip(0) == v@);
                push_char(&mut out, ']');
                assert(out@ == before_badge + (seq![' ', '[', '✓'] + nip05_domain(n@) + seq![']']));
            },
            None => {},
        }
        let ghost before_reply = out@;
        if self.is_reply {
            append_text(&mut out, " (reply)");
            proof {
                reveal_strlit(" (reply)");
            }
            assert(out@ == before_reply + seq![' ', '(', 'r', 'e', 'p', 'l', 'y', ')']);
        }
        let ghost mark = if self.kind == FeedEntryKind::Repost {
            seq!['↻', ' ']
        } else {
            Seq::<char>::empty()
        };
        assert(out@ =~= header_text(self.kind, self.author@, crate::nostr::opt_view(self.nip05), self.is_reply));
        out
    }
}

#[verifier::external_type_specification]
#[verifier::external_body]
pub struct ExInstant(std::time::Instant);

/// `std::time::Instant::now()`. It depends on the clock, so nothing is
/// claimed of the value.
#[verifier::external_body]
fn instant_now() -> std::time::Instant {
    std::time::Instant::now()
}

/// The display lines of an entry's content at a wrap width: the content as
/// one line while the width is not yet known (0), else the wrapped message.
pub open spec fn display_lines(content: Seq<char>, width: usize) -> Seq<Seq<char>> {
    if width == 0 {
        seq![content]
    } else {
        wrapped_message(content, width)
    }
}

/// `s` with `x` appended, its first element dropped first when it already
/// holds `cap` elements.
pub open spec fn bounded_push<T>(s: Seq<T>, x: T, cap: nat) -> Seq<T> {
    if s.len() >= cap {
        s.drop_first().push(x)
    } else {
        s.push(x)
    }
}

/// Whether `j` is the place of the least recently used id in the window `a`
/// that none of the `shown` ids equals: the first such place.
pub open spec fn lru_unshown(a: Seq<EventId>, shown: Seq<Seq<u8>>, j: int) -> bool {
    &&& 0 <= j < a.len()
    &&& !shown.contains(a[j]@)
    &&& forall|i: int| 0 <= i < j ==> shown.contains(#[trigger] a[i]@)
}

/// `b` is the window `a` after the new id `k` joined it, while `shown` are
/// the ids of the entries on show: `k` goes to the back, and a full window
/// first lets go of its least recently used id that no shown entry has.
pub open spec fn remembered_new(
    a: Seq<EventId>,
    b: Seq<EventId>,
    shown: Seq<Seq<u8>>,
    k: EventId,
) -> bool {
    if a.len() >= MAX_SEEN_IDS {
        exists|j: int| #[trigger] lru_unshown(a, shown, j) && b == a.remove(j).push(k)
    } else {
        b == a.push(k)
    }
}

/// Nostr feed state: entries, the de-duplication window, and the text-wrap cache.
pub struct FeedState {
    pub entries: VecDeque<FeedEntry>,
    /// Ids of the events added or seen again most recently, least
    /// recently used first.
    pub seen_ids: VecDeque<EventId>,
    pub last_nostr_data: Option<std::time::Instant>,
    /// Pre-wrapped content lines, kept in sync with `entries`.
    pub wrapped_content: VecDeque<Vec<String>>,
    /// Terminal width the cache was built at. 0 = not yet known.
    pub cached_wrap_width: usize,
}

impl FeedState {
    /// The ids of the entries, oldest first.
    pub open spec fn entry_ids(self) -> Seq<Seq<u8>> {
        self.entries@.map_values(|e: FeedEntry| e.id@)
    }

    /// The remembered ids, oldest first.
    pub open spec fn seen(self) -> Seq<Seq<u8>> {
        self.seen_ids@.map_values(|k: EventId| k@)
    }

    /// The cached display lines, one list per entry.
    pub open spec fn wrapped(self) -> Seq<Seq<Seq<char>>> {
        self.wrapped_content@.map_values(|v: Vec<String>| strings_view(v@))
    }

    /// The feed's invariant: bounded sizes, no id remembered twice, no
    /// event shown twice, the id of every shown entry remembered, and the
    /// cache holds each entry's display lines at the cached width.
    pub open spec fn wf(self) -> bool {
        &&& self.entries@.len() == self.wrapped_content@.len()
        &&& self.entries@.len() <= MAX_MESSAGES
        &&& self.seen_ids@.len() <= MAX_SEEN_IDS
        &&& self.seen().no_duplicates()
        &&& self.entry_ids().no_duplicates()
        &&& forall|i: int|
            0 <= i < self.entries@.len() ==> self.seen().contains(#[trigger] self.entry_ids()[i])
        &&& forall|i: int|
            0 <= i < self.entries@.len() ==> #[trigger] self.wrapped()[i] == display_lines(
                self.entries@[i].content@,
                self.cached_wrap_width,
            )
    }

    pub fn new() -> (r: FeedState)
        ensures
            r.wf(),
            r.entries@.len() == 0,
            r.seen_ids@.len() == 0,
            r.wrapped_content@.len() == 0,
            r.last_nostr_data is None,
            r.cached_wrap_width == 0,
    {
        let r = FeedState {
            entries: VecDeque::with_capacity(MAX_MESSAGES),
            seen_ids: VecDeque::with_capacity(MAX_SEEN_IDS),
            last_nostr_data: None,
            wrapped_content: VecDeque::with_capacity(MAX_MESSAGES),
            cached_wrap_width: 0,
        };
        assert(r.seen() =~= Seq::<Seq<u8>>::empty());
        assert(r.entry_ids() =~= Seq::<Seq<u8>>::empty());
        r
    }

    /// Whether `id` is in the de-duplication window.
    pub fn has_seen(&self, id: &EventId) -> (r: bool)
        ensures
            r == self.seen().contains(id@),
    {
        self.seen_position(id).is_some()
    }

    /// Where `id` stands in the de-duplication window, if it is there.
    pub fn seen_position(&self, id: &EventId) -> (r: Option<usize>)
        ensures
            match r {
                Some(i) => i < self.seen_ids@.len() && self.seen()[i as int] == id@,
                None => !self.seen().contains(id@),
            },
    {
        let mut i: usize = 0;
        while i < self.seen_ids.len()
            invariant
                i <= self.seen_ids@.len(),
                forall|k: int| 0 <= k < i ==> self.seen()[k] != id@,
            decreases self.seen_ids@.len() - i,
        {
            if self.seen_ids[i].same_as(id) {
                assert(self.seen()[i as int] == id@);
                return Some(i);
            }
            i = i + 1;
        }
        None
    }

    /// Whether an entry on show has the id `id`.
    fn shows(&self, id: &EventId) -> (r: bool)
        ensures
            r == self.entry_ids().contains(id@),
    {
        let mut i: usize = 0;
        while i < self.entries.len()
            invariant
                i <= self.entries@.len(),
                forall|k: int| 0 <= k < i ==> self.entry_ids()[k] != id@,
            decreases self.entries@.len() - i,
        {
            if self.entries[i].id.same_as(id) {
                assert(self.entry_ids()[i as int] == id@);
                return true;
            }
            i = i + 1;
        }
        false
    }

    /// The place of the least recently used remembered id that no shown
    /// entry has. A full window always holds one, as it is larger than the
    /// feed.
    fn lru_unshown_position(&self) -> (j: usize)
        requires
            self.wf(),
            self.seen_ids@.len() >= MAX_SEEN_IDS,
        ensures
            lru_unshown(self.seen_ids@, self.entry_ids(), j as int),
    {
        let mut j: usize = 0;
        while j < self.seen_ids.len()
            invariant
                self.wf(),
                self.seen_ids@.len() >= MAX_SEEN_IDS,
                j <= self.seen_ids@.len(),
                forall|i: int| 0 <= i < j ==> self.entry_ids().contains(#[trigger] self.seen_ids@[i]@),
            decreases self.seen_ids@.len() - j,
        {
            if !self.shows(&self.seen_ids[j]) {
                return j;
            }
            j = j + 1;
        }
        proof {
            let s = self.seen();
            let e = self.entry_ids();
            assert forall|x: Seq<u8>| s.to_set().contains(x) implies e.to_set().contains(x) by {
                let i = choose|i: int| 0 <= i < s.len() && s[i] == x;
                assert(self.seen_ids@[i]@ == x);
            }
            s.unique_seq_to_set();
            e.lemma_cardinality_of_set();
            vstd::seq_lib::seq_to_set_is_finite(e);
            vstd::set_lib::lemma_len_subset(s.to_set(), e.to_set());
            assert(false);
        }
        0
    }

    /// Add an entry. Returns `true` if it was new (not a duplicate).
    pub fn add_entry(&mut self, entry: FeedEntry) -> (r: bool)
        requires
            old(self).wf(),
        ensures
            final(self).wf(),
            r == !old(self).seen().contains(entry.id@),
            r ==> !old(self).entry_ids().contains(entry.id@),
            final(self).entry_ids().no_duplicates(),
            !r ==> {
                &&& touched(old(self).seen_ids@, final(self).seen_ids@, entry.id@)
                &&& *final(self) == (FeedState { seen_ids: final(self).seen_ids, ..*old(self) })
            },
            r ==> {
                &&& remembered_new(
                    old(self).seen_ids@,
                    final(self).seen_ids@,
                    old(self).entry_ids(),
                    entry.id,
                )
                &&& final(self).entries@ == bounded_push(
                    old(self).entries@,
                    entry,
                    MAX_MESSAGES as nat,
                )
                &&& final(self).wrapped() == bounded_push(
                    old(self).wrapped(),
                    display_lines(entry.content@, old(self).cached_wrap_width),
                    MAX_MESSAGES as nat,
                )
                &&& final(self).cached_wrap_width == old(self).cached_wrap_width
                &&& final(self).last_nostr_data is Some
            },
    {
        match self.seen_position(&entry.id) {
            Some(i) => {
                // Seen again: the id becomes the most recently used
                let ghost s0 = *self;
                let moved = self.seen_ids.remove(i);
                match moved {
                    Some(k) => {
                        self.seen_ids.push_back(k);
                    },
                    None => {},
                }
                proof {
                    assert(s0.seen_ids@[i as int]@ == entry.id@);
                    assert(touched(s0.seen_ids@, self.seen_ids@, entry.id@));
                    lemma_touch_keeps_distinct(s0.seen_ids@, self.seen_ids@, i as int);
                    assert(self.seen().no_duplicates());
                    assert(self.entries@ == s0.entries@);
                    assert(self.entry_ids() == s0.entry_ids());
                    lemma_seen_again_is_kept_longest(s0, *self, entry.id@);
                    assert forall|k: int| 0 <= k < self.entries@.len() implies self.seen().contains(
                        #[trigger] self.entry_ids()[k],
                    ) by {
                        assert(s0.seen().contains(s0.entry_ids()[k]));
                    }
                    assert(self.wrapped() == s0.wrapped());
                }
                return false;
            },
            None => {},
        }
        let ghost s0 = *self;
        let ghost id = entry.id;
        let ghost e = entry;

        proof {
            if s0.entry_ids().contains(id@) {
                let i = choose|i: int| 0 <= i < s0.entries@.len() && s0.entry_ids()[i] == id@;
                assert(s0.seen().contains(s0.entry_ids()[i]));
            }
        }
        // A full window lets go of its least recently used id without an entry
        if self.seen_ids.len() >= MAX_SEEN_IDS {
            let j = self.lru_unshown_position();
            self.seen_ids.remove(j);
            self.seen_ids.push_back(entry.id);
            assert(lru_unshown(s0.seen_ids@, s0.entry_ids(), j as int));
            assert(self.seen_ids@ == s0.seen_ids@.remove(j as int).push(id));
        } else {
            self.seen_ids.push_back(entry.id);
        }
        assert(remembered_new(s0.seen_ids@, self.seen_ids@, s0.entry_ids(), id));

        // Pre-wrap the content at the current cached width
        let wrapped = if self.cached_wrap_width > 0 {
            wrap_message(entry.content.as_str(), self.cached_wrap_width)
        } else {
            // Width not yet known: the raw content as a single line
            let mut v: Vec<String> = Vec::new();
            v.push(entry.content.clone());
            assert(strings_view(v@) =~= seq![entry.content@]);
            v
        };
        let ghost lines = strings_view(wrapped@);
        assert(lines == display_lines(e.content@, s0.cached_wrap_width));

        // Ring buffer eviction
        if self.entries.len() >= MAX_MESSAGES {
            self.entries.pop_front();
            self.wrapped_content.pop_front();
        }
        self.entries.push_back(entry);
        self.wrapped_content.push_back(wrapped);
        self.last_nostr_data = Some(instant_now());

        proof {
            assert(self.entries@ == bounded_push(s0.entries@, e, MAX_MESSAGES as nat));
            assert(self.wrapped() =~= bounded_push(s0.wrapped(), lines, MAX_MESSAGES as nat));
            lemma_add_keeps_wf(s0, *self, e);
        }
        true
    }
}

impl FeedState {
    /// Re-wrap all entry content at a new terminal width. A width of 0, or
    /// the width the cache already has, leaves the feed as it is.
    pub fn rewrap(&mut self, width: usize)
        requires
            old(self).wf(),
        ensures
            final(self).wf(),
            rewrapped(*old(self), *final(self), width),
    {
        if width == self.cached_wrap_width || width == 0 {
            return;
        }
        self.cached_wrap_width = width;
        self.wrapped_content.clear();
        let n = self.entries.len();
        let mut i: usize = 0;
        while i < n
            invariant
                width > 0,
                self.cached_wrap_width == width,
                n == self.entries@.len(),
                i <= n,
                self.wrapped_content@.len() == i,
                self.entries@ == old(self).entries@,
                self.seen_ids@ == old(self).seen_ids@,
                self.last_nostr_data == old(self).last_nostr_data,
                forall|k: int|
                    0 <= k < i ==> #[trigger] self.wrapped()[k] == display_lines(
                        self.entries@[k].content@,
                        width,
                    ),
            decreases n - i,
        {
            let lines = wrap_message(self.entries[i].content.as_str(), width);
            let ghost before = self.wrapped();
            self.wrapped_content.push_back(lines);
            assert(self.wrapped() =~= before.push(strings_view(lines@)));
            i = i + 1;
        }
    }
}

/// `b` is `a` with the id `k` moved from where it stood to the back: the
/// most recently used place.
pub open spec fn touched(a: Seq<EventId>, b: Seq<EventId>, k: Seq<u8>) -> bool {
    exists|i: int| 0 <= i < a.len() && a[i]@ == k && b == a.remove(i).push(a[i])
}

proof fn lemma_touch_keeps_distinct(a: Seq<EventId>, b: Seq<EventId>, i: int)
    requires
        0 <= i < a.len(),
        b == a.remove(i).push(a[i]),
        a.map_values(|k: EventId| k@).no_duplicates(),
    ensures
        b.map_values(|k: EventId| k@).no_duplicates(),
        b.len() == a.len(),
{
    let av = a.map_values(|k: EventId| k@);
    let bv = b.map_values(|k: EventId| k@);
    // position in `a` of each element of `b`
    assert forall|x: int, y: int| 0 <= x < bv.len() && 0 <= y < bv.len() && x != y implies bv[x]
        != bv[y] by {
        let px = if x == a.len() - 1 { i } else if x < i { x } else { x + 1 };
        let py = if y == a.len() - 1 { i } else if y < i { y } else { y + 1 };
        assert(bv[x] == av[px]);
        assert(bv[y] == av[py]);
    }
}

/// A duplicate moves its id to the back of the window: the window keeps its
/// size, its ids and no duplicates, and the id is now the last to be
/// forgotten.
pub proof fn lemma_seen_again_is_kept_longest(a: FeedState, b: FeedState, k: Seq<u8>)
    requires
        a.wf(),
        touched(a.seen_ids@, b.seen_ids@, k),
    ensures
        b.seen_ids@.len() == a.seen_ids@.len(),
        b.seen().last() == k,
        forall|x: Seq<u8>| a.seen().contains(x) <==> #[trigger] b.seen().contains(x),
{
    let i = choose|i: int| 0 <= i < a.seen_ids@.len() && a.seen_ids@[i]@ == k && b.seen_ids@
        == a.seen_ids@.remove(i).push(a.seen_ids@[i]);
    let n = a.seen_ids@.len();
    assert(b.seen()[n - 1] == k);
    assert forall|x: Seq<u8>| a.seen().contains(x) implies #[trigger] b.seen().contains(x) by {
        let j = choose|j: int| 0 <= j < n && a.seen()[j] == x;
        if j == i {
            assert(b.seen()[n - 1] == x);
        } else if j < i {
            assert(b.seen()[j] == x);
        } else {
            assert(b.seen()[j - 1] == x);
        }
    }
    assert forall|x: Seq<u8>| b.seen().contains(x) implies a.seen().contains(x) by {
        let j = choose|j: int| 0 <= j < n && b.seen()[j] == x;
        if j == n - 1 {
            assert(a.seen()[i] == x);
        } else if j < i {
            assert(a.seen()[j] == x);
        } else {
            assert(a.seen()[j + 1] == x);
        }
    }
}

/// What re-wrapping at `width` does: a width of 0 or the cached width
/// changes nothing; any other width becomes the cached width, with entries
/// and de-duplication window kept (the cache then follows from the
/// invariant).
pub open spec fn rewrapped(a: FeedState, b: FeedState, width: usize) -> bool {
    &&& b.entries@ == a.entries@
    &&& b.seen_ids@ == a.seen_ids@
    &&& b.last_nostr_data == a.last_nostr_data
    &&& b.cached_wrap_width == (if width == 0 {
        a.cached_wrap_width
    } else {
        width
    })
    &&& (width == 0 || width == a.cached_wrap_width ==> b == a)
}

/// Re-wrapping twice at the same width is the same as re-wrapping once.
pub proof fn lemma_rewrap_idempotent(a: FeedState, b: FeedState, c: FeedState, width: usize)
    requires
        rewrapped(a, b, width),
        rewrapped(b, c, width),
    ensures
        c == b,
{
}

/// After a resize, every entry's cached lines are its content wrapped at
/// the new width.
pub proof fn lemma_rewrap_refreshes_cache(a: FeedState, b: FeedState, width: usize, i: int)
    requires
        b.wf(),
        rewrapped(a, b, width),
        width > 0,
        0 <= i < b.entries@.len(),
    ensures
        b.wrapped()[i] == wrapped_message(a.entries@[i].content@, width),
{
}

/// An event that was added is remembered, so adding it again is refused
/// (see [`FeedState::add_entry`]) while it is on show; and it is the newest
/// entry.
pub proof fn lemma_added_is_remembered(a: FeedState, b: FeedState, e: FeedEntry)
    requires
        remembered_new(a.seen_ids@, b.seen_ids@, a.entry_ids(), e.id),
        b.entries@ == bounded_push(a.entries@, e, MAX_MESSAGES as nat),
    ensures
        b.seen().contains(e.id@),
        b.entries@.last() == e,
{
    let k = b.seen_ids@.len() - 1;
    assert(b.seen()[k] == e.id@);
}

/// The feed never shows one event twice, and every shown entry's id stays
/// remembered, so a repeat of it is refused for as long as it is on show.
pub proof fn lemma_shown_are_remembered(f: FeedState, x: Seq<u8>)
    requires
        f.wf(),
        f.entry_ids().contains(x),
    ensures
        f.entry_ids().no_duplicates(),
        f.seen().contains(x),
{
    let i = choose|i: int| 0 <= i < f.entries@.len() && f.entry_ids()[i] == x;
    assert(f.seen().contains(f.entry_ids()[i]));
}

/// The invariant holds after a new entry went into both windows.
proof fn lemma_add_keeps_wf(s0: FeedState, s1: FeedState, e: FeedEntry)
    requires
        s0.wf(),
        !s0.seen().contains(e.id@),
        remembered_new(s0.seen_ids@, s1.seen_ids@, s0.entry_ids(), e.id),
        s1.entries@ == bounded_push(s0.entries@, e, MAX_MESSAGES as nat),
        s1.wrapped() == bounded_push(
            s0.wrapped(),
            display_lines(e.content@, s0.cached_wrap_width),
            MAX_MESSAGES as nat,
        ),
        s1.wrapped_content@.len() == s1.entries@.len(),
        s1.cached_wrap_width == s0.cached_wrap_width,
    ensures
        s1.wf(),
{
    let a = s0.seen_ids@;
    let n = a.len();
    let en = s0.entries@.len();
    let de: int = if en >= MAX_MESSAGES { 1 } else { 0 };
    // the place in `a` that leaves the window (none: `n`)
    let j: int = if n >= MAX_SEEN_IDS {
        choose|j: int| lru_unshown(a, s0.entry_ids(), j) && s1.seen_ids@ == a.remove(j).push(e.id)
    } else {
        n as int
    };
    let base = if n >= MAX_SEEN_IDS { a.remove(j) } else { a };
    assert(s1.seen_ids@ == base.push(e.id));
    assert(base.len() + 1 <= MAX_SEEN_IDS);
    assert forall|p: int| 0 <= p < base.len() implies #[trigger] base[p] == a[if p < j { p } else { p + 1 }] by {}
    // No id remembered twice: the new id was not remembered before
    assert(s1.seen().no_duplicates()) by {
        assert forall|x: int, y: int|
            0 <= x < s1.seen().len() && 0 <= y < s1.seen().len() && x != y implies s1.seen()[x]
            != s1.seen()[y] by {
            if x < base.len() {
                assert(s1.seen()[x] == s0.seen()[if x < j { x } else { x + 1 }]);
            }
            if y < base.len() {
                assert(s1.seen()[y] == s0.seen()[if y < j { y } else { y + 1 }]);
            }
        }
    }
    let m = s1.entries@.len();
    assert forall|i: int| 0 <= i < m - 1 implies #[trigger] s1.entry_ids()[i] == s0.entry_ids()[i + de] by {
        assert(s1.entries@[i] == s0.entries@[i + de]);
    }
    assert(s1.entry_ids()[m - 1] == e.id@);
    // No event shown twice: the new one was not on show, as every shown id
    // is remembered
    assert(s1.entry_ids().no_duplicates()) by {
        assert forall|x: int, y: int|
            0 <= x < m && 0 <= y < m && x != y implies s1.entry_ids()[x] != s1.entry_ids()[y] by {
            if x == m - 1 {
                assert(s0.seen().contains(s0.entry_ids()[y + de]));
            } else if y == m - 1 {
                assert(s0.seen().contains(s0.entry_ids()[x + de]));
            }
        }
    }
    // Every shown id is still remembered: the id let go has no entry
    assert forall|i: int| 0 <= i < m implies s1.seen().contains(#[trigger] s1.entry_ids()[i]) by {
        if i == m - 1 {
            assert(s1.seen()[base.len() as int] == e.id@);
        } else {
            let x = s0.entry_ids()[i + de];
            assert(s0.seen().contains(x));
            let q = choose|q: int| 0 <= q < n && s0.seen()[q] == x;
            assert(s0.entry_ids().contains(x));
            assert(q != j);
            let p = if q < j { q } else { q - 1 };
            assert(s1.seen()[p] == x);
        }
    }
    assert forall|i: int| 0 <= i < m implies #[trigger] s1.wrapped()[i]
        == display_lines(s1.entries@[i].content@, s1.cached_wrap_width) by {
        if i < m - 1 {
            assert(s1.entries@[i] == s0.entries@[i + de]);
            assert(s1.wrapped()[i] == s0.wrapped()[i + de]);
        }
    }
}

} // verus!
