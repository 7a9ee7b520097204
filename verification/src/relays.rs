//! Relay discovery: which relays the followed authors publish to most.
use vstd::prelude::*;

use crate::nostr::{tag_named, tags_view};
use crate::text::{string_from_chars, strings_view, to_chars, trim_end_char, trim_end_matching};

verus! {

/// How many relays are added to the client.
pub const TOP_RELAYS: usize = 5;

/// The relay URLs that the tags of one relay-list event name: the value of
/// every `r` tag, trailing slashes removed, in order.
pub open spec fn tag_urls(tags: Seq<Seq<Seq<char>>>) -> Seq<Seq<char>>
    decreases tags.len(),
{
    if tags.len() == 0 {
        Seq::empty()
    } else {
        let rest = tag_urls(tags.drop_last());
        let t = tags.last();
        if tag_named(t, "r"@) {
            rest.push(trim_end_char(t[1], '/'))
        } else {
            rest
        }
    }
}

/// The relay URLs that a list of relay-list events name, event by event.
pub open spec fn relay_urls(events: Seq<Seq<Seq<Seq<char>>>>) -> Seq<Seq<char>>
    decreases events.len(),
{
    if events.len() == 0 {
        Seq::empty()
    } else {
        relay_urls(events.drop_last()) + tag_urls(events.last())
    }
}

/// How often `u` occurs in `s`.
pub open spec fn count_in(s: Seq<Seq<char>>, u: Seq<char>) -> nat
    decreases s.len(),
{
    if s.len() == 0 {
        0
    } else {
        count_in(s.drop_last(), u) + if s.last() == u {
            1nat
        } else {
            0nat
        }
    }
}

/// Where `u` first occurs in `s` (meaningful when it occurs).
pub open spec fn first_at(s: Seq<Seq<char>>, u: Seq<char>) -> int
    decreases s.len(),
{
    if s.len() == 0 {
        0
    } else if s.drop_last().contains(u) {
        first_at(s.drop_last(), u)
    } else {
        s.len() - 1
    }
}

/// `a` ranks before `b`: named more often, or as often and named first.
pub open spec fn ranks_before(s: Seq<Seq<char>>, a: Seq<char>, b: Seq<char>) -> bool {
    count_in(s, a) > count_in(s, b) || (count_in(s, a) == count_in(s, b) && first_at(s, a)
        < first_at(s, b))
}

/// `r` is the list of the (at most five) relays that rank first among
/// `urls`, best first.
pub open spec fn is_top_relays(urls: Seq<Seq<char>>, r: Seq<Seq<char>>) -> bool {
    &&& r.len() <= TOP_RELAYS
    &&& r.no_duplicates()
    &&& forall|i: int| 0 <= i < r.len() ==> urls.contains(#[trigger] r[i])
    &&& forall|i: int, j: int| 0 <= i < j < r.len() ==> ranks_before(urls, #[trigger] r[i], #[trigger] r[j])
    &&& forall|u: Seq<char>|
        #[trigger] urls.contains(u) && !r.contains(u) ==> r.len() == TOP_RELAYS && forall|i: int|
            0 <= i < r.len() ==> ranks_before(urls, #[trigger] r[i], u)
}

/// Each tag of a relay list counts once for the relay it names when it is an
/// `r` tag with at least two values, whatever further values (a `read` or
/// `write` marker) it carries, and not at all otherwise: one more such tag
/// names its URL (trailing slashes removed) once more.
pub proof fn lemma_each_r_tag_counts_once(tags: Seq<Seq<Seq<char>>>, t: Seq<Seq<char>>, u: Seq<char>)
    ensures
        count_in(tag_urls(tags.push(t)), u) == count_in(tag_urls(tags), u) + if t.len() >= 2 && t[0]
            == "r"@ && trim_end_char(t[1], '/') == u {
            1nat
        } else {
            0nat
        },
{
    assert(tags.push(t).drop_last() =~= tags);
    let p = tag_urls(tags);
    if t.len() >= 2 && t[0] == "r"@ {
        assert(p.push(trim_end_char(t[1], '/')).drop_last() =~= p);
    }
}

/// Every `r` tag with at least two values, in any of the relay lists,
/// names its URL (trailing slashes removed) among the relays that are
/// ranked.
pub proof fn lemma_every_r_tag_named(events: Seq<Seq<Seq<Seq<char>>>>, e: int, i: int)
    requires
        0 <= e < events.len(),
        0 <= i < events[e].len(),
        events[e][i].len() >= 2,
        events[e][i][0] == "r"@,
    ensures
        relay_urls(events).contains(trim_end_char(events[e][i][1], '/')),
    decreases events.len(),
{
    let p = events.drop_last();
    let u = trim_end_char(events[e][i][1], '/');
    if e == events.len() - 1 {
        lemma_tag_urls_hold(events[e], i);
        let j = choose|j: int| 0 <= j < tag_urls(events[e]).len() && tag_urls(events[e])[j] == u;
        assert((relay_urls(p) + tag_urls(events[e]))[relay_urls(p).len() + j] == u);
    } else {
        assert(p[e] == events[e]);
        lemma_every_r_tag_named(p, e, i);
        let j = choose|j: int| 0 <= j < relay_urls(p).len() && relay_urls(p)[j] == u;
        assert((relay_urls(p) + tag_urls(events.last()))[j] == u);
    }
}

proof fn lemma_tag_urls_hold(tags: Seq<Seq<Seq<char>>>, i: int)
    requires
        0 <= i < tags.len(),
        tags[i].len() >= 2,
        tags[i][0] == "r"@,
    ensures
        tag_urls(tags).contains(trim_end_char(tags[i][1], '/')),
    decreases tags.len(),
{
    let p = tags.drop_last();
    let u = trim_end_char(tags[i][1], '/');
    if i == tags.len() - 1 {
        assert(tag_urls(tags).last() == u);
    } else {
        assert(p[i] == tags[i]);
        lemma_tag_urls_hold(p, i);
        let j = choose|j: int| 0 <= j < tag_urls(p).len() && tag_urls(p)[j] == u;
        assert(tag_urls(tags)[j] == u);
    }
}

pub proof fn lemma_count_le_len(s: Seq<Seq<char>>, u: Seq<char>)
    ensures
        count_in(s, u) <= s.len(),
    decreases s.len(),
{
    if s.len() > 0 {
        lemma_count_le_len(s.drop_last(), u);
    }
}

proof fn lemma_first_at_bound(s: Seq<Seq<char>>, u: Seq<char>)
    requires
        s.contains(u),
    ensures
        0 <= first_at(s, u) < s.len(),
        s[first_at(s, u)] == u,
    decreases s.len(),
{
    if s.drop_last().contains(u) {
        lemma_first_at_bound(s.drop_last(), u);
    } else {
        let i = choose|i: int| 0 <= i < s.len() && s[i] == u;
        if i < s.len() - 1 {
            assert(s.drop_last()[i] == u);
        }
    }
}

proof fn lemma_first_at_unique(s: Seq<Seq<char>>, a: Seq<char>, b: Seq<char>)
    requires
        s.contains(a),
        s.contains(b),
        a != b,
    ensures
        first_at(s, a) != first_at(s, b),
{
    lemma_first_at_bound(s, a);
    lemma_first_at_bound(s, b);
}

pub open spec fn chars_view(v: Seq<Vec<char>>) -> Seq<Seq<char>> {
    v.map_values(|w: Vec<char>| w@)
}

fn chars_eq(a: &Vec<char>, b: &Vec<char>) -> (r: bool)
    ensures
        r == (a@ == b@),
{
    if a.len() != b.len() {
        return false;
    }
    let mut i: usize = 0;
    while i < a.len()
        invariant
            i <= a.len(),
            a.len() == b.len(),
            forall|k: int| 0 <= k < i ==> a@[k] == b@[k],
        decreases a.len() - i,
    {
        if a[i] != b[i] {
            return false;
        }
        i = i + 1;
    }
    assert(a@ =~= b@);
    true
}

/// The relay URLs named by a list of relay-list events (each given as its
/// tags).
pub fn relay_url_list(events: &Vec<Vec<Vec<String>>>) -> (r: Vec<Vec<char>>)
    ensures
        chars_view(r@) == relay_urls(events@.map_values(|e: Vec<Vec<String>>| tags_view(e@))),
{
    let ghost evs = events@.map_values(|e: Vec<Vec<String>>| tags_view(e@));
    let mut out: Vec<Vec<char>> = Vec::new();
    let mut i: usize = 0;
    assert(evs.take(0) == Seq::<Seq<Seq<Seq<char>>>>::empty());
    assert(chars_view(out@) == Seq::<Seq<char>>::empty());
    while i < events.len()
        invariant
            i <= events.len(),
            evs == events@.map_values(|e: Vec<Vec<String>>| tags_view(e@)),
            chars_view(out@) == relay_urls(evs.take(i as int)),
        decreases events.len() - i,
    {
        let tags = &events[i];
        let ghost tv = tags_view(tags@);
        let ghost base = chars_view(out@);
        assert(evs.take(i + 1).drop_last() == evs.take(i as int));
        assert(evs.take(i + 1).last() == tv);
        let mut j: usize = 0;
        assert(tv.take(0) == Seq::<Seq<Seq<char>>>::empty());
        assert(base + tag_urls(tv.take(0)) == base);
        while j < tags.len()
            invariant
                j <= tags.len(),
                tv == tags_view(tags@),
                chars_view(out@) == base + tag_urls(tv.take(j as int)),
            decreases tags.len() - j,
        {
            let tag = &tags[j];
            assert(tv.take(j + 1).drop_last() == tv.take(j as int));
            assert(tv.take(j + 1).last() == strings_view(tag@));
            if tag.len() >= 2 && crate::text::same_text(tag[0].as_str(), "r") {
                let value = to_chars(tag[1].as_str());
                let url = trim_end_matching(&value, '/');
                let ghost before = out@;
                out.push(url);
                assert(chars_view(out@) =~= chars_view(before).push(url@));
            }
            j = j + 1;
        }
        assert(tv.take(tags.len() as int) == tv);
        i = i + 1;
    }
    assert(evs.take(events.len() as int) == evs);
    out
}


/// What tallying a list of URLs keeps: each distinct URL once, in the order
/// of first mention, with how often it is named.
pub open spec fn is_tally(s: Seq<Seq<char>>, uniq: Seq<Seq<char>>, counts: Seq<usize>) -> bool {
    &&& uniq.len() == counts.len()
    &&& uniq.no_duplicates()
    &&& forall|j: int| 0 <= j < uniq.len() ==> s.contains(#[trigger] uniq[j])
    &&& forall|u: Seq<char>| #[trigger] s.contains(u) ==> uniq.contains(u)
    &&& forall|j: int| 0 <= j < uniq.len() ==> #[trigger] counts[j] == count_in(s, uniq[j])
    &&& forall|j: int, k: int|
        0 <= j < k < uniq.len() ==> first_at(s, #[trigger] uniq[j]) < first_at(s, #[trigger] uniq[k])
}

proof fn lemma_tally_push(
    s: Seq<Seq<char>>,
    x: Seq<char>,
    uniq: Seq<Seq<char>>,
    counts: Seq<usize>,
    uniq2: Seq<Seq<char>>,
    counts2: Seq<usize>,
)
    requires
        is_tally(s, uniq, counts),
        s.len() < usize::MAX,
        s.contains(x) ==> exists|j: int|
            0 <= j < uniq.len() && uniq[j] == x && uniq2 == uniq && counts2 == counts.update(
                j,
                (counts[j] + 1) as usize,
            ),
        !s.contains(x) ==> uniq2 == uniq.push(x) && counts2 == counts.push(1),
    ensures
        is_tally(s.push(x), uniq2, counts2),
{
    let s2 = s.push(x);
    assert(s2.drop_last() == s);
    assert(s2.last() == x);
    assert forall|u: Seq<char>| #[trigger] s2.contains(u) implies (s.contains(u) || u == x) by {
        let i = choose|i: int| 0 <= i < s2.len() && s2[i] == u;
        if i < s.len() {
            assert(s[i] == u);
        }
    }
    assert forall|u: Seq<char>| s.contains(u) implies #[trigger] s2.contains(u) by {
        let i = choose|i: int| 0 <= i < s.len() && s[i] == u;
        assert(s2[i] == u);
    }
    assert(s2[s.len() as int] == x);
    if s.contains(x) {
        let j = choose|j: int|
            0 <= j < uniq.len() && uniq[j] == x && uniq2 == uniq && counts2 == counts.update(
                j,
                (counts[j] + 1) as usize,
            );
        assert forall|k: int| 0 <= k < uniq2.len() implies #[trigger] counts2[k] == count_in(
            s2,
            uniq2[k],
        ) by {
            assert(uniq2[k] == uniq[k]);
            assert(counts[k] == count_in(s, uniq[k]));
            if k != j {
                assert(uniq[k] != uniq[j]);
                assert(count_in(s2, uniq[k]) == count_in(s, uniq[k]));
                assert(counts2[k] == counts[k]);
            } else {
                lemma_count_le_len(s, x);
                assert(count_in(s2, x) == count_in(s, x) + 1);
                assert(counts2[k] == counts[k] + 1);
            }
        }
        assert forall|a: int, b: int| 0 <= a < b < uniq2.len() implies first_at(
            s2,
            #[trigger] uniq2[a],
        ) < first_at(s2, #[trigger] uniq2[b]) by {
            assert(s.contains(uniq[a]));
            assert(s.contains(uniq[b]));
        }
        assert forall|u: Seq<char>| #[trigger] s2.contains(u) implies uniq2.contains(u) by {
            if u == x {
                assert(uniq2[j] == x);
            } else {
                assert(s.contains(u));
            }
        }
    } else {
        assert forall|k: int| 0 <= k < uniq2.len() implies #[trigger] counts2[k] == count_in(
            s2,
            uniq2[k],
        ) by {
            if k < uniq.len() {
                assert(uniq2[k] == uniq[k]);
                assert(s.contains(uniq[k]));
            } else {
                assert(uniq2[k] == x);
                lemma_count_absent(s, x);
            }
        }
        assert(uniq2.no_duplicates()) by {
            assert forall|a: int, b: int|
                0 <= a < uniq2.len() && 0 <= b < uniq2.len() && a != b implies uniq2[a]
                != uniq2[b] by {
                if a < uniq.len() && b < uniq.len() {
                } else if a < uniq.len() {
                    assert(s.contains(uniq[a]));
                } else if b < uniq.len() {
                    assert(s.contains(uniq[b]));
                }
            }
        }
        assert forall|a: int, b: int| 0 <= a < b < uniq2.len() implies first_at(
            s2,
            #[trigger] uniq2[a],
        ) < first_at(s2, #[trigger] uniq2[b]) by {
            assert(s.contains(uniq[a]));
            lemma_first_at_bound(s, uniq[a]);
            if b < uniq.len() {
                assert(s.contains(uniq[b]));
            } else {
                assert(uniq2[b] == x);
            }
        }
        assert forall|k: int| 0 <= k < uniq2.len() implies s2.contains(#[trigger] uniq2[k]) by {
            if k < uniq.len() {
                assert(s.contains(uniq[k]));
            } else {
                assert(s2[s.len() as int] == uniq2[k]);
            }
        }
        assert forall|u: Seq<char>| #[trigger] s2.contains(u) implies uniq2.contains(u) by {
            if u == x {
                assert(uniq2[uniq.len() as int] == x);
            } else {
                assert(s.contains(u));
                let k = choose|k: int| 0 <= k < uniq.len() && uniq[k] == u;
                assert(uniq2[k] == u);
            }
        }
    }
}

proof fn lemma_count_absent(s: Seq<Seq<char>>, u: Seq<char>)
    requires
        !s.contains(u),
    ensures
        count_in(s, u) == 0,
    decreases s.len(),
{
    if s.len() > 0 {
        assert(s.last() != u) by {
            assert(s[s.len() - 1] == s.last());
        }
        assert forall|i: int| 0 <= i < s.drop_last().len() implies s.drop_last()[i] != u by {
            assert(s[i] == s.drop_last()[i]);
        }
        lemma_count_absent(s.drop_last(), u);
    }
}

/// Each distinct URL once, in the order of first mention, with how often it
/// is named.
pub fn tally(urls: &Vec<Vec<char>>) -> (r: (Vec<Vec<char>>, Vec<usize>))
    ensures
        is_tally(chars_view(urls@), chars_view(r.0@), r.1@),
{
    let ghost s = chars_view(urls@);
    let mut uniq: Vec<Vec<char>> = Vec::new();
    let mut counts: Vec<usize> = Vec::new();
    let mut i: usize = 0;
    assert(s.take(0) =~= Seq::<Seq<char>>::empty());
    assert(chars_view(uniq@) =~= Seq::<Seq<char>>::empty());
    while i < urls.len()
        invariant
            i <= urls.len(),
            s == chars_view(urls@),
            is_tally(s.take(i as int), chars_view(uniq@), counts@),
        decreases urls.len() - i,
    {
        let x = &urls[i];
        let ghost p = s.take(i as int);
        assert(s.take(i + 1) == p.push(x@));
        let mut j: usize = 0;
        while j < uniq.len() && !chars_eq(&uniq[j], x)
            invariant
                j <= uniq.len(),
                forall|k: int| 0 <= k < j ==> chars_view(uniq@)[k] != x@,
            decreases uniq.len() - j,
        {
            j = j + 1;
        }
        let found = j < uniq.len();
        let ghost u0 = chars_view(uniq@);
        let ghost c0 = counts@;
        if found {
            assert(u0[j as int] == x@);
            proof {
                lemma_count_le_len(p.push(x@), x@);
                assert(p.push(x@).drop_last() == p);
            }
            let c = counts[j] + 1;
            counts.set(j, c);
            assert(p.contains(x@));
        } else {
            assert(!p.contains(x@)) by {
                if p.contains(x@) {
                    let k = choose|k: int| 0 <= k < u0.len() && u0[k] == x@;
                }
            }
            uniq.push(x.clone());
            counts.push(1);
            assert(chars_view(uniq@) =~= u0.push(x@));
        }
        proof {
            lemma_tally_push(p, x@, u0, c0, chars_view(uniq@), counts@);
        }
        i = i + 1;
    }
    assert(s.take(urls.len() as int) == s);
    (uniq, counts)
}


/// `a` is ahead of `b` in the selection order: a higher count, or the same
/// count and an earlier first mention.
spec fn ahead(counts: Seq<usize>, a: int, b: int) -> bool {
    counts[a] > counts[b] || (counts[a] == counts[b] && a < b)
}

proof fn lemma_ahead_ranks(s: Seq<Seq<char>>, uniq: Seq<Seq<char>>, counts: Seq<usize>, a: int, b: int)
    requires
        is_tally(s, uniq, counts),
        0 <= a < uniq.len(),
        0 <= b < uniq.len(),
        ahead(counts, a, b),
    ensures
        ranks_before(s, uniq[a], uniq[b]),
{
    assert(counts[a] == count_in(s, uniq[a]));
    assert(counts[b] == count_in(s, uniq[b]));
    if counts[a] == counts[b] {
        assert(first_at(s, uniq[a]) < first_at(s, uniq[b]));
    }
}

/// The positions in `uniq` of the (at most five) best-ranked URLs, best
/// first.
fn select_top(uniq: &Vec<Vec<char>>, counts: &Vec<usize>, Ghost(s): Ghost<Seq<Seq<char>>>) -> (r: Vec<usize>)
    requires
        is_tally(s, chars_view(uniq@), counts@),
    ensures
        r@.len() <= TOP_RELAYS,
        r@.no_duplicates(),
        forall|t: int| 0 <= t < r@.len() ==> #[trigger] r@[t] < uniq@.len(),
        forall|a: int, b: int|
            0 <= a < b < r@.len() ==> ahead(counts@, #[trigger] r@[a] as int, #[trigger] r@[b] as int),
        forall|j: usize|
            j < uniq@.len() && !#[trigger] r@.contains(j) ==> r@.len() == TOP_RELAYS && forall|
                t: int,
            | 0 <= t < r@.len() ==> ahead(counts@, #[trigger] r@[t] as int, j as int),
{
    let n = uniq.len();
    let mut chosen: Vec<bool> = Vec::new();
    while chosen.len() < n
        invariant
            chosen@.len() <= n,
            forall|j: int| 0 <= j < chosen@.len() ==> !#[trigger] chosen@[j],
        decreases n - chosen@.len(),
    {
        chosen.push(false);
    }
    let mut picked: Vec<usize> = Vec::new();
    let mut exhausted = false;
    while picked.len() < TOP_RELAYS && !exhausted
        invariant
            n == uniq@.len(),
            n == counts@.len(),
            chosen@.len() == n,
            picked@.len() <= TOP_RELAYS,
            picked@.no_duplicates(),
            forall|t: int| 0 <= t < picked@.len() ==> #[trigger] picked@[t] < n,
            forall|j: int| 0 <= j < n ==> #[trigger] chosen@[j] == picked@.contains(j as usize),
            forall|a: int, b: int|
                0 <= a < b < picked@.len() ==> ahead(
                    counts@,
                    #[trigger] picked@[a] as int,
                    #[trigger] picked@[b] as int,
                ),
            forall|t: int, j: int|
                #![trigger picked@[t], chosen@[j]]
                0 <= t < picked@.len() && 0 <= j < n && !chosen@[j] ==> ahead(
                    counts@,
                    picked@[t] as int,
                    j,
                ),
            exhausted ==> forall|j: int| 0 <= j < n ==> #[trigger] chosen@[j],
        decreases TOP_RELAYS - picked@.len(), if exhausted { 0int } else { 1int },
    {
        // The best URL not picked yet: highest count, earliest on ties
        let mut best: usize = n;
        let mut j: usize = 0;
        while j < n
            invariant
                j <= n,
                n == uniq@.len(),
                n == counts@.len(),
                chosen@.len() == n,
                best <= n,
                best == n ==> forall|k: int| 0 <= k < j ==> #[trigger] chosen@[k],
                best < n ==> best < j && !chosen@[best as int] && forall|k: int|
                    0 <= k < j && !#[trigger] chosen@[k] && k != best ==> ahead(
                        counts@,
                        best as int,
                        k,
                    ),
            decreases n - j,
        {
            if !chosen[j] && (best == n || counts[j] > counts[best]) {
                best = j;
            }
            j = j + 1;
        }
        if best == n {
            exhausted = true;
        } else {
            let ghost before = picked@;
            let ghost chosen0 = chosen@;
            chosen.set(best, true);
            picked.push(best);
            assert(!before.contains(best)) by {
                assert(!chosen0[best as int]);
            }
            assert forall|k: int| 0 <= k < n implies #[trigger] chosen@[k] == picked@.contains(
                k as usize,
            ) by {
                if k == best as int {
                    assert(picked@[before.len() as int] == best);
                } else {
                    assert(chosen@[k] == chosen0[k]);
                    if before.contains(k as usize) {
                        let t = choose|t: int| 0 <= t < before.len() && before[t] == k as usize;
                        assert(picked@[t] == k as usize);
                    }
                    if picked@.contains(k as usize) {
                        let t = choose|t: int| 0 <= t < picked@.len() && picked@[t] == k as usize;
                        assert(t < before.len());
                        assert(before[t] == k as usize);
                    }
                }
            }
            assert(picked@.no_duplicates()) by {
                assert forall|a: int, b: int|
                    0 <= a < picked@.len() && 0 <= b < picked@.len() && a != b implies picked@[a]
                    != picked@[b] by {
                    if a < before.len() && b < before.len() {
                        assert(before[a] != before[b]);
                    } else if a < before.len() {
                        assert(chosen0[before[a] as int]);
                    } else if b < before.len() {
                        assert(chosen0[before[b] as int]);
                    }
                }
            }
            assert forall|a: int, b: int| 0 <= a < b < picked@.len() implies ahead(
                counts@,
                #[trigger] picked@[a] as int,
                #[trigger] picked@[b] as int,
            ) by {
                if b < before.len() {
                    assert(picked@[a] == before[a]);
                    assert(picked@[b] == before[b]);
                } else {
                    assert(picked@[a] == before[a]);
                    assert(picked@[b] == best);
                }
            }
            assert forall|t: int, k: int|
                #![trigger picked@[t], chosen@[k]]
                0 <= t < picked@.len() && 0 <= k < n && !chosen@[k] implies ahead(
                counts@,
                picked@[t] as int,
                k,
            ) by {
                assert(k != best as int);
                assert(chosen0[k] == chosen@[k]);
                if t < before.len() {
                    assert(picked@[t] == before[t]);
                } else {
                    assert(picked@[t] == best);
                }
            }
        }
    }
    assert forall|j: usize| j < uniq@.len() && !#[trigger] picked@.contains(j) implies picked@.len()
        == TOP_RELAYS && forall|t: int|
        0 <= t < picked@.len() ==> ahead(counts@, #[trigger] picked@[t] as int, j as int) by {
        assert(!chosen@[j as int]);
    }
    picked
}

/// The (at most five) relays that the followed authors name most often,
/// best first; among relays named as often, the one named first goes first.
pub fn rank_relays(events: &Vec<Vec<Vec<String>>>) -> (r: Vec<String>)
    ensures
        is_top_relays(
            relay_urls(events@.map_values(|e: Vec<Vec<String>>| tags_view(e@))),
            strings_view(r@),
        ),
{
    let urls = relay_url_list(events);
    let ghost s = chars_view(urls@);
    let (uniq, counts) = tally(&urls);
    let ghost u = chars_view(uniq@);
    let picked = select_top(&uniq, &counts, Ghost(s));
    let mut out: Vec<String> = Vec::new();
    let mut t: usize = 0;
    while t < picked.len()
        invariant
            t <= picked@.len(),
            u == chars_view(uniq@),
            forall|k: int| 0 <= k < picked@.len() ==> #[trigger] picked@[k] < uniq@.len(),
            out@.len() == t,
            forall|k: int| 0 <= k < t ==> #[trigger] strings_view(out@)[k] == u[picked@[k] as int],
        decreases picked@.len() - t,
    {
        let name = string_from_chars(&uniq[picked[t]]);
        let ghost before = out@;
        out.push(name);
        assert(strings_view(out@) =~= strings_view(before).push(name@));
        t = t + 1;
    }
    proof {
        let r = strings_view(out@);
        assert forall|i: int| 0 <= i < r.len() implies s.contains(#[trigger] r[i]) by {
            assert(r[i] == u[picked@[i] as int]);
        }
        assert forall|i: int, j: int| 0 <= i < j < r.len() implies ranks_before(
            s,
            #[trigger] r[i],
            #[trigger] r[j],
        ) by {
            assert(r[i] == u[picked@[i] as int]);
            assert(r[j] == u[picked@[j] as int]);
            lemma_ahead_ranks(s, u, counts@, picked@[i] as int, picked@[j] as int);
        }
        assert(r.no_duplicates()) by {
            assert forall|i: int, j: int|
                0 <= i < r.len() && 0 <= j < r.len() && i != j implies r[i] != r[j] by {
                assert(r[i] == u[picked@[i] as int]);
                assert(r[j] == u[picked@[j] as int]);
                assert(picked@[i] != picked@[j]);
            }
        }
        assert forall|x: Seq<char>| #[trigger] s.contains(x) && !r.contains(x) implies r.len()
            == TOP_RELAYS && forall|i: int| 0 <= i < r.len() ==> ranks_before(s, #[trigger] r[i], x) by {
            let j = choose|j: int| 0 <= j < u.len() && u[j] == x;
            let ju = j as usize;
            assert(!picked@.contains(ju)) by {
                if picked@.contains(ju) {
                    let t = choose|t: int| 0 <= t < picked@.len() && picked@[t] == ju;
                    assert(r[t] == x);
                }
            }
            assert forall|i: int| 0 <= i < r.len() implies ranks_before(s, #[trigger] r[i], x) by {
                assert(r[i] == u[picked@[i] as int]);
                lemma_ahead_ranks(s, u, counts@, picked@[i] as int, j);
            }
        }
    }
    out
}


/// The top relays are determined by the relay lists: two lists that both
/// meet [`is_top_relays`] for the same URLs are the same list.
pub proof fn lemma_top_relays_unique(urls: Seq<Seq<char>>, r1: Seq<Seq<char>>, r2: Seq<Seq<char>>)
    requires
        is_top_relays(urls, r1),
        is_top_relays(urls, r2),
    ensures
        r1 == r2,
{
    let n = if r1.len() < r2.len() { r1.len() } else { r2.len() };
    assert forall|i: int| 0 <= i < n implies r1[i] == r2[i] by {
        lemma_top_relays_agree_at(urls, r1, r2, i);
    }
    if r1.len() < r2.len() {
        let x = r2[r1.len() as int];
        assert(urls.contains(x));
        if !r1.contains(x) {
            assert(r1.len() == TOP_RELAYS);
        }
        let j = choose|j: int| 0 <= j < r1.len() && r1[j] == x;
        assert(r2[j] == x);
    } else if r2.len() < r1.len() {
        let x = r1[r2.len() as int];
        assert(urls.contains(x));
        if !r2.contains(x) {
            assert(r2.len() == TOP_RELAYS);
        }
        let j = choose|j: int| 0 <= j < r2.len() && r2[j] == x;
        assert(r1[j] == x);
    }
    assert(r1 =~= r2);
}

proof fn lemma_top_relays_agree_at(urls: Seq<Seq<char>>, r1: Seq<Seq<char>>, r2: Seq<Seq<char>>, i: int)
    requires
        is_top_relays(urls, r1),
        is_top_relays(urls, r2),
        0 <= i < r1.len(),
        i < r2.len(),
    ensures
        r1[i] == r2[i],
    decreases i,
{
    let a = r1[i];
    let b = r2[i];
    assert forall|k: int| 0 <= k < i implies r1[k] == r2[k] by {
        lemma_top_relays_agree_at(urls, r1, r2, k);
    }
    if a != b {
        assert(urls.contains(a));
        assert(urls.contains(b));
        // Where `b` stands in r1 (if anywhere), and `a` in r2
        let a_before_b = if r1.contains(b) {
            let j = choose|j: int| 0 <= j < r1.len() && r1[j] == b;
            if j < i {
                assert(r2[j] == b);
                assert(false);
            }
            assert(j != i);
            ranks_before(urls, r1[i], r1[j])
        } else {
            ranks_before(urls, r1[i], b)
        };
        assert(a_before_b);
        if r2.contains(a) {
            let j = choose|j: int| 0 <= j < r2.len() && r2[j] == a;
            if j < i {
                assert(r1[j] == a);
                assert(false);
            }
            assert(j != i);
            assert(ranks_before(urls, r2[i], r2[j]));
        } else {
            assert(ranks_before(urls, r2[i], a));
        }
        assert(ranks_before(urls, b, a));
        assert(false);
    }
}

} // verus!
