//! Character-level text handling: splitting into lines and words, control
//! character filtering, decimal numbers, and wrapping for display.
use vstd::prelude::*;

verus! {

/// The characters of `s`, in order.
pub fn to_chars(s: &str) -> (r: Vec<char>)
    ensures
        r@ == s@,
{
    let mut out: Vec<char> = Vec::new();
    for c in it: s.chars()
        invariant
            out@ == it.seq().take(it.index() as int),
            it.seq() == s@,
    {
        out.push(c);
    }
    out
}

/// Appends one character to a string (`String::push`).
#[verifier::external_body]
pub(crate) fn push_char(s: &mut String, c: char)
    ensures
        final(s)@ == old(s)@.push(c),
{
    s.push(c);
}

/// A string holding exactly the characters of `v`.
pub fn string_from_chars(v: &Vec<char>) -> (r: String)
    ensures
        r@ == v@,
{
    let mut s = String::new();
    let mut i: usize = 0;
    while i < v.len()
        invariant
            i <= v.len(),
            s@ == v@.take(i as int),
        decreases v.len() - i,
    {
        push_char(&mut s, v[i]);
        i = i + 1;
        assert(s@ == v@.take(i as int));
    }
    assert(v@.take(v.len() as int) == v@);
    s
}

/// Whether two strings hold the same characters.
pub fn same_text(a: &str, b: &str) -> (r: bool)
    ensures
        r == (a@ == b@),
{
    let x = to_chars(a);
    let y = to_chars(b);
    if x.len() != y.len() {
        return false;
    }
    let mut i: usize = 0;
    while i < x.len()
        invariant
            i <= x.len(),
            x.len() == y.len(),
            x@ == a@,
            y@ == b@,
            x@.take(i as int) == y@.take(i as int),
        decreases x.len() - i,
    {
        let cx: char = x[i];
        let cy: char = y[i];
        if cx != cy {
            assert(x@[i as int] != y@[i as int]);
            assert(a@[i as int] != b@[i as int]);
            return false;
        }
        i = i + 1;
        assert(x@.take(i as int) == y@.take(i as int)) by {
            assert forall|k: int| 0 <= k < i implies x@.take(i as int)[k] == y@.take(i as int)[k] by {
                if k < i - 1 {
                    assert(x@.take(i - 1)[k] == y@.take(i - 1)[k]);
                }
            }
        }
    }
    assert(x@ == x@.take(x.len() as int));
    assert(y@ == y@.take(y.len() as int));
    true
}

// ---------------------------------------------------------------------------
// Control characters
// ---------------------------------------------------------------------------

/// Unicode general category Cc (`char::is_control`).
pub open spec fn is_control(c: char) -> bool {
    (c as u32) <= 0x1f || (0x7f <= (c as u32) && (c as u32) <= 0x9f)
}

/// A character that survives content cleaning.
pub open spec fn kept_in_content(c: char) -> bool {
    !is_control(c) || c == '\n' || c == '\t'
}

/// `s` without its control characters, newlines and tabs excepted.
pub open spec fn cleaned(s: Seq<char>) -> Seq<char>
    decreases s.len(),
{
    if s.len() == 0 {
        s
    } else if kept_in_content(s.last()) {
        cleaned(s.drop_last()).push(s.last())
    } else {
        cleaned(s.drop_last())
    }
}

/// Cleaning takes out exactly the C0 and C1 control characters
/// (U+0000–U+001F and U+007F–U+009F) other than newline and tab: text
/// without them comes back unchanged, and what comes back holds none of
/// them.
pub proof fn lemma_clean_removes_only_controls(s: Seq<char>)
    ensures
        (forall|i: int|
            0 <= i < s.len() ==> (#[trigger] s[i] as u32) >= 0xa0 || (0x20 <= (s[i] as u32) && (
            s[i] as u32) <= 0x7e) || s[i] == '\n' || s[i] == '\t') ==> cleaned(s) == s,
        forall|i: int|
            0 <= i < cleaned(s).len() ==> (#[trigger] cleaned(s)[i] as u32) >= 0xa0 || (0x20 <= (
            cleaned(s)[i] as u32) && (cleaned(s)[i] as u32) <= 0x7e) || cleaned(s)[i] == '\n'
                || cleaned(s)[i] == '\t',
    decreases s.len(),
{
    if s.len() > 0 {
        let p = s.drop_last();
        lemma_clean_removes_only_controls(p);
        if forall|i: int|
            0 <= i < s.len() ==> (#[trigger] s[i] as u32) >= 0xa0 || (0x20 <= (s[i] as u32) && (
            s[i] as u32) <= 0x7e) || s[i] == '\n' || s[i] == '\t' {
            assert forall|i: int| 0 <= i < p.len() implies (#[trigger] p[i] as u32) >= 0xa0 || (0x20
                <= (p[i] as u32) && (p[i] as u32) <= 0x7e) || p[i] == '\n' || p[i] == '\t' by {
                assert(p[i] == s[i]);
            }
            assert(s.last() == s[s.len() - 1]);
            assert(p.push(s.last()) =~= s);
        }
        let c = cleaned(s);
        if kept_in_content(s.last()) {
            assert forall|i: int| 0 <= i < c.len() implies (#[trigger] c[i] as u32) >= 0xa0 || (0x20
                <= (c[i] as u32) && (c[i] as u32) <= 0x7e) || c[i] == '\n' || c[i] == '\t' by {
                if i < c.len() - 1 {
                    assert(c[i] == cleaned(p)[i]);
                }
            }
        }
    }
}

/// Cleaning works character by character: cleaning a text in two pieces,
/// one after the other, is cleaning the whole.
pub proof fn lemma_clean_concat(s: Seq<char>, t: Seq<char>)
    ensures
        cleaned(s + t) == cleaned(s) + cleaned(t),
    decreases t.len(),
{
    if t.len() == 0 {
        assert(s + t =~= s);
        assert(cleaned(s) + cleaned(t) =~= cleaned(s));
    } else {
        lemma_clean_concat(s, t.drop_last());
        assert((s + t).drop_last() =~= s + t.drop_last());
        assert((s + t).last() == t.last());
        if kept_in_content(t.last()) {
            assert(cleaned(s) + cleaned(t.drop_last()).push(t.last()) =~= (cleaned(s) + cleaned(
                t.drop_last(),
            )).push(t.last()));
        }
    }
}

pub fn is_control_char(c: char) -> (r: bool)
    ensures
        r == is_control(c),
{
    let v = c as u32;
    v <= 0x1f || (0x7f <= v && v <= 0x9f)
}

/// Strip control characters from note content, preserving newlines and tabs.
pub fn clean_content(input: &str) -> (r: String)
    ensures
        r@ == cleaned(input@),
{
    let chars = to_chars(input);
    let mut out = String::new();
    let mut i: usize = 0;
    while i < chars.len()
        invariant
            i <= chars.len(),
            chars@ == input@,
            out@ == cleaned(chars@.take(i as int)),
        decreases chars.len() - i,
    {
        let c = chars[i];
        assert(chars@.take(i + 1).drop_last() == chars@.take(i as int));
        if !is_control_char(c) || c == '\n' || c == '\t' {
            push_char(&mut out, c);
        }
        i = i + 1;
    }
    assert(chars@.take(chars.len() as int) == chars@);
    out
}


// ---------------------------------------------------------------------------
// Lines (`str::lines`)
// ---------------------------------------------------------------------------

/// Position of the first `'\n'` in `s`, or `s.len()` when there is none.
pub open spec fn newline_index(s: Seq<char>) -> nat
    decreases s.len(),
{
    if s.len() == 0 {
        0
    } else if s[0] == '\n' {
        0
    } else {
        1 + newline_index(s.drop_first())
    }
}

/// A line without the `'\r'` of a `"\r\n"` terminator.
pub open spec fn strip_cr(l: Seq<char>) -> Seq<char> {
    if l.len() > 0 && l.last() == '\r' {
        l.drop_last()
    } else {
        l
    }
}

/// The lines of `s` as `str::lines` yields them: split at `"\n"` or
/// `"\r\n"`, terminators dropped, and no empty line after a final terminator.
pub open spec fn lines_of(s: Seq<char>) -> Seq<Seq<char>>
    decreases s.len(),
{
    if s.len() == 0 {
        Seq::empty()
    } else {
        let k = newline_index(s);
        if k >= s.len() {
            seq![s]
        } else {
            seq![strip_cr(s.take(k as int))] + lines_of(s.skip(k + 1 as int))
        }
    }
}

pub open spec fn has_no_newline(s: Seq<char>) -> bool {
    forall|i: int| 0 <= i < s.len() ==> s[i] != '\n'
}

proof fn lemma_newline_index_concat(x: Seq<char>, y: Seq<char>)
    requires
        has_no_newline(x),
    ensures
        newline_index(x + y) == x.len() + newline_index(y),
    decreases x.len(),
{
    if x.len() > 0 {
        assert((x + y).drop_first() == x.drop_first() + y);
        assert((x + y)[0] == x[0]);
        lemma_newline_index_concat(x.drop_first(), y);
    } else {
        assert(x + y == y);
    }
}

proof fn lemma_newline_index_le(s: Seq<char>)
    ensures
        newline_index(s) <= s.len(),
        newline_index(s) < s.len() ==> s[newline_index(s) as int] == '\n',
    decreases s.len(),
{
    if s.len() > 0 && s[0] != '\n' {
        lemma_newline_index_le(s.drop_first());
    }
}

proof fn lemma_lines_of_terminated(cur: Seq<char>, t: Seq<char>)
    requires
        has_no_newline(cur),
    ensures
        lines_of(cur + seq!['\n'] + t) == seq![strip_cr(cur)] + lines_of(t),
{
    let s = cur + seq!['\n'] + t;
    assert(s == cur + (seq!['\n'] + t));
    lemma_newline_index_concat(cur, seq!['\n'] + t);
    assert((seq!['\n'] + t)[0] == '\n');
    assert(newline_index(s) == cur.len());
    assert(s.take(cur.len() as int) == cur);
    assert(s.skip(cur.len() + 1 as int) == t);
}

proof fn lemma_lines_of_unterminated(cur: Seq<char>)
    requires
        has_no_newline(cur),
    ensures
        lines_of(cur) == (if cur.len() == 0 { Seq::<Seq<char>>::empty() } else { seq![cur] }),
{
    lemma_newline_index_concat(cur, Seq::empty());
    assert(cur + Seq::<char>::empty() == cur);
}

/// The view of a vector of strings as a sequence of character sequences.
pub open spec fn strings_view(v: Seq<String>) -> Seq<Seq<char>> {
    v.map_values(|s: String| s@)
}

proof fn lemma_strings_view_push(v: Seq<String>, s: String)
    ensures
        strings_view(v.push(s)) == strings_view(v).push(s@),
{
    assert(strings_view(v.push(s)) =~= strings_view(v).push(s@));
}

/// Split text into lines (`str::lines`).
pub fn split_lines(text: &str) -> (r: Vec<String>)
    ensures
        strings_view(r@) == lines_of(text@),
{
    let chars = to_chars(text);
    let mut out: Vec<String> = Vec::new();
    let mut cur: Vec<char> = Vec::new();
    let mut i: usize = 0;
    proof {
        assert(cur@ + chars@.skip(0) == chars@);
        assert(strings_view(out@) == Seq::<Seq<char>>::empty());
    }
    while i < chars.len()
        invariant
            i <= chars.len(),
            chars@ == text@,
            has_no_newline(cur@),
            lines_of(text@) == strings_view(out@) + lines_of(cur@ + chars@.skip(i as int)),
        decreases chars.len() - i,
    {
        let c = chars[i];
        assert(chars@.skip(i as int) == seq![c] + chars@.skip(i + 1));
        if c == '\n' {
            proof {
                assert(cur@ + chars@.skip(i as int) == cur@ + seq!['\n'] + chars@.skip(i + 1));
                lemma_lines_of_terminated(cur@, chars@.skip(i + 1));
            }
            let n = cur.len();
            if n > 0 && cur[n - 1] == '\r' {
                cur.pop();
            }
            let line = string_from_chars(&cur);
            proof {
                lemma_strings_view_push(out@, line);
            }
            out.push(line);
            cur = Vec::new();
            assert(cur@ + chars@.skip(i + 1) == chars@.skip(i + 1));
            assert(lines_of(text@) == strings_view(out@) + lines_of(cur@ + chars@.skip(i + 1)));
        } else {
            let ghost old_cur = cur@;
            cur.push(c);
            assert(cur@ + chars@.skip(i + 1) == old_cur + chars@.skip(i as int));
        }
        i = i + 1;
    }
    proof {
        assert(cur@ + chars@.skip(i as int) == cur@);
        lemma_lines_of_unterminated(cur@);
    }
    if cur.len() > 0 {
        let line = string_from_chars(&cur);
        proof {
            lemma_strings_view_push(out@, line);
        }
        out.push(line);
    }
    assert(lines_of(text@) == strings_view(out@));
    out
}


// ---------------------------------------------------------------------------
// Whitespace, words and trimming
// ---------------------------------------------------------------------------

/// The Unicode `White_Space` property (`char::is_whitespace`).
pub open spec fn is_space(c: char) -> bool {
    let v = c as u32;
    (0x09 <= v && v <= 0x0d) || v == 0x20 || v == 0x85 || v == 0xa0 || v == 0x1680 || (0x2000
        <= v && v <= 0x200a) || v == 0x2028 || v == 0x2029 || v == 0x202f || v == 0x205f || v
        == 0x3000
}

pub fn is_space_char(c: char) -> (r: bool)
    ensures
        r == is_space(c),
{
    let v = c as u32;
    (0x09 <= v && v <= 0x0d) || v == 0x20 || v == 0x85 || v == 0xa0 || v == 0x1680 || (0x2000
        <= v && v <= 0x200a) || v == 0x2028 || v == 0x2029 || v == 0x202f || v == 0x205f || v
        == 0x3000
}

/// Length of the run of non-whitespace characters that starts `s`.
pub open spec fn word_len(s: Seq<char>) -> nat
    decreases s.len(),
{
    if s.len() == 0 || is_space(s[0]) {
        0
    } else {
        1 + word_len(s.drop_first())
    }
}

/// The words of `s` as `str::split_whitespace` yields them: the maximal
/// runs of non-whitespace characters, in order.
pub open spec fn words_of(s: Seq<char>) -> Seq<Seq<char>>
    decreases s.len(),
{
    if s.len() == 0 {
        Seq::empty()
    } else if is_space(s[0]) {
        words_of(s.drop_first())
    } else {
        let k = word_len(s);
        if k == 0 || k > s.len() {
            Seq::empty()
        } else {
            seq![s.take(k as int)] + words_of(s.skip(k as int))
        }
    }
}

pub open spec fn has_no_space(s: Seq<char>) -> bool {
    forall|i: int| 0 <= i < s.len() ==> !is_space(s[i])
}

proof fn lemma_word_len_concat(x: Seq<char>, y: Seq<char>)
    requires
        has_no_space(x),
    ensures
        word_len(x + y) == x.len() + word_len(y),
    decreases x.len(),
{
    if x.len() > 0 {
        assert((x + y).drop_first() == x.drop_first() + y);
        assert((x + y)[0] == x[0]);
        lemma_word_len_concat(x.drop_first(), y);
    } else {
        assert(x + y == y);
    }
}

proof fn lemma_words_of_space(cur: Seq<char>, c: char, t: Seq<char>)
    requires
        has_no_space(cur),
        is_space(c),
    ensures
        words_of(cur + seq![c] + t) == (if cur.len() == 0 {
            Seq::<Seq<char>>::empty()
        } else {
            seq![cur]
        }) + words_of(t),
{
    let s = cur + seq![c] + t;
    assert(s == cur + (seq![c] + t));
    assert((seq![c] + t)[0] == c);
    assert((seq![c] + t).drop_first() == t);
    lemma_word_len_concat(cur, seq![c] + t);
    if cur.len() == 0 {
        assert(s == seq![c] + t);
        assert(s.drop_first() == t);
    } else {
        assert(s[0] == cur[0]);
        assert(s.take(cur.len() as int) == cur);
        assert(s.skip(cur.len() as int) == seq![c] + t);
        assert(words_of(seq![c] + t) == words_of(t));
    }
}

proof fn lemma_words_of_end(cur: Seq<char>)
    requires
        has_no_space(cur),
    ensures
        words_of(cur) == (if cur.len() == 0 { Seq::<Seq<char>>::empty() } else { seq![cur] }),
{
    lemma_word_len_concat(cur, Seq::empty());
    assert(cur + Seq::<char>::empty() == cur);
    if cur.len() > 0 {
        assert(!is_space(cur[0]));
        assert(cur.take(cur.len() as int) == cur);
        assert(cur.skip(cur.len() as int) == Seq::<char>::empty());
        assert(words_of(Seq::<char>::empty()) == Seq::<Seq<char>>::empty());
        assert(seq![cur] + Seq::<Seq<char>>::empty() == seq![cur]);
    }
}

/// The whitespace-separated words of a character sequence
/// (`str::split_whitespace`).
pub fn split_words(text: &Vec<char>) -> (r: Vec<Vec<char>>)
    ensures
        r@.map_values(|w: Vec<char>| w@) == words_of(text@),
{
    let mut out: Vec<Vec<char>> = Vec::new();
    let mut cur: Vec<char> = Vec::new();
    let mut i: usize = 0;
    proof {
        assert(cur@ + text@.skip(0) == text@);
        assert(out@.map_values(|w: Vec<char>| w@) == Seq::<Seq<char>>::empty());
    }
    while i < text.len()
        invariant
            i <= text.len(),
            has_no_space(cur@),
            words_of(text@) == out@.map_values(|w: Vec<char>| w@) + words_of(
                cur@ + text@.skip(i as int),
            ),
        decreases text.len() - i,
    {
        let c = text[i];
        assert(text@.skip(i as int) == seq![c] + text@.skip(i + 1));
        if is_space_char(c) {
            proof {
                assert(cur@ + text@.skip(i as int) == cur@ + seq![c] + text@.skip(i + 1));
                lemma_words_of_space(cur@, c, text@.skip(i + 1));
            }
            if cur.len() > 0 {
                let ghost before = out@;
                let w = cur;
                out.push(w);
                assert(out@.map_values(|w: Vec<char>| w@) == before.map_values(
                    |w: Vec<char>| w@,
                ).push(w@));
            }
            cur = Vec::new();
            assert(cur@ + text@.skip(i + 1) == text@.skip(i + 1));
        } else {
            let ghost old_cur = cur@;
            cur.push(c);
            assert(cur@ + text@.skip(i + 1) == old_cur + text@.skip(i as int));
        }
        i = i + 1;
    }
    proof {
        assert(cur@ + text@.skip(i as int) == cur@);
        lemma_words_of_end(cur@);
    }
    if cur.len() > 0 {
        let ghost before = out@;
        let w = cur;
        out.push(w);
        assert(out@.map_values(|w: Vec<char>| w@) == before.map_values(|w: Vec<char>| w@).push(
            w@,
        ));
    }
    out
}

/// `s` without leading whitespace (`str::trim_start`).
pub open spec fn trim_start(s: Seq<char>) -> Seq<char>
    decreases s.len(),
{
    if s.len() > 0 && is_space(s[0]) {
        trim_start(s.drop_first())
    } else {
        s
    }
}

/// `s` without trailing whitespace (`str::trim_end`).
pub open spec fn trim_end(s: Seq<char>) -> Seq<char>
    decreases s.len(),
{
    if s.len() > 0 && is_space(s.last()) {
        trim_end(s.drop_last())
    } else {
        s
    }
}

/// `s` without leading and trailing whitespace (`str::trim`).
pub open spec fn trimmed(s: Seq<char>) -> Seq<char> {
    trim_end(trim_start(s))
}

/// Removes leading and trailing whitespace.
pub fn trim_chars(s: &Vec<char>) -> (r: Vec<char>)
    ensures
        r@ == trimmed(s@),
{
    let mut lo: usize = 0;
    assert(s@.skip(0) == s@);
    while lo < s.len() && is_space_char(s[lo])
        invariant
            lo <= s.len(),
            trim_start(s@) == trim_start(s@.skip(lo as int)),
        decreases s.len() - lo,
    {
        assert(s@.skip(lo as int).drop_first() == s@.skip(lo + 1));
        lo = lo + 1;
    }
    let mut hi: usize = s.len();
    assert(s@.skip(lo as int) == s@.subrange(lo as int, hi as int));
    while hi > lo && is_space_char(s[hi - 1])
        invariant
            lo <= hi <= s.len(),
            trimmed(s@) == trim_end(s@.subrange(lo as int, hi as int)),
        decreases hi,
    {
        assert(s@.subrange(lo as int, hi as int).drop_last() == s@.subrange(
            lo as int,
            hi - 1,
        ));
        hi = hi - 1;
    }
    let mut out: Vec<char> = Vec::new();
    let mut k: usize = lo;
    while k < hi
        invariant
            lo <= k <= hi <= s.len(),
            out@ == s@.subrange(lo as int, k as int),
        decreases hi - k,
    {
        out.push(s[k]);
        k = k + 1;
        assert(out@ == s@.subrange(lo as int, k as int));
    }
    out
}

/// `s` without trailing occurrences of `c` (`str::trim_end_matches`).
pub open spec fn trim_end_char(s: Seq<char>, c: char) -> Seq<char>
    decreases s.len(),
{
    if s.len() > 0 && s.last() == c {
        trim_end_char(s.drop_last(), c)
    } else {
        s
    }
}

/// Removes all trailing occurrences of `c`.
pub fn trim_end_matching(s: &Vec<char>, c: char) -> (r: Vec<char>)
    ensures
        r@ == trim_end_char(s@, c),
{
    let mut hi: usize = s.len();
    assert(s@.take(hi as int) == s@);
    while hi > 0 && s[hi - 1] == c
        invariant
            hi <= s.len(),
            trim_end_char(s@, c) == trim_end_char(s@.take(hi as int), c),
        decreases hi,
    {
        assert(s@.take(hi as int).drop_last() == s@.take(hi - 1));
        hi = hi - 1;
    }
    let mut out: Vec<char> = Vec::new();
    let mut k: usize = 0;
    while k < hi
        invariant
            k <= hi <= s.len(),
            out@ == s@.take(k as int),
        decreases hi - k,
    {
        out.push(s[k]);
        k = k + 1;
        assert(out@ == s@.take(k as int));
    }
    out
}

/// Whether `s` begins with `p`.
pub open spec fn starts_with(s: Seq<char>, p: Seq<char>) -> bool {
    p.len() <= s.len() && s.take(p.len() as int) == p
}

pub fn has_prefix(s: &Vec<char>, p: &str) -> (r: bool)
    ensures
        r == starts_with(s@, p@),
{
    let pc = to_chars(p);
    if pc.len() > s.len() {
        return false;
    }
    let mut i: usize = 0;
    while i < pc.len()
        invariant
            i <= pc.len() <= s.len(),
            pc@ == p@,
            s@.take(i as int) == pc@.take(i as int),
        decreases pc.len() - i,
    {
        if s[i] != pc[i] {
            assert(s@.take(pc.len() as int)[i as int] != pc@[i as int]);
            return false;
        }
        i = i + 1;
        assert(s@.take(i as int) == pc@.take(i as int)) by {
            assert forall|k: int| 0 <= k < i implies s@.take(i as int)[k] == pc@.take(
                i as int,
            )[k] by {
                if k < i - 1 {
                    assert(s@.take(i - 1)[k] == pc@.take(i - 1)[k]);
                }
            }
        }
    }
    assert(pc@.take(pc.len() as int) == pc@);
    true
}

/// Whether `s` holds the character `c`.
pub fn has_char(s: &Vec<char>, c: char) -> (r: bool)
    ensures
        r == s@.contains(c),
{
    let mut i: usize = 0;
    while i < s.len()
        invariant
            i <= s.len(),
            forall|k: int| 0 <= k < i ==> s@[k] != c,
        decreases s.len() - i,
    {
        if s[i] == c {
            return true;
        }
        i = i + 1;
    }
    false
}


// ---------------------------------------------------------------------------
// Unsigned decimal numbers (`str::parse::<u64>`, `u64::to_string`)
// ---------------------------------------------------------------------------

pub open spec fn is_digit(c: char) -> bool {
    48 <= (c as u32) && (c as u32) <= 57
}

pub open spec fn digit_value(c: char) -> int {
    (c as u32) - 48
}

pub open spec fn all_digits(d: Seq<char>) -> bool {
    forall|i: int| 0 <= i < d.len() ==> is_digit(d[i])
}

/// The number that a string of decimal digits denotes.
pub open spec fn decimal_value(d: Seq<char>) -> int
    decreases d.len(),
{
    if d.len() == 0 {
        0
    } else {
        decimal_value(d.drop_last()) * 10 + digit_value(d.last())
    }
}

/// The digits of an unsigned number's text: a leading `'+'` is dropped when
/// something follows it.
pub open spec fn unsigned_digits(s: Seq<char>) -> Seq<char> {
    if s.len() > 1 && s[0] == '+' {
        s.drop_first()
    } else {
        s
    }
}

/// What `str::parse` gives for an unsigned integer type whose largest value
/// is `max`: `None` for empty text, a character that is not a digit, or a
/// value above `max`.
pub open spec fn parse_unsigned(s: Seq<char>, max: int) -> Option<int> {
    let d = unsigned_digits(s);
    if d.len() > 0 && all_digits(d) && decimal_value(d) <= max {
        Some(decimal_value(d))
    } else {
        None
    }
}

/// `str::parse::<u64>`.
pub open spec fn parse_u64(s: Seq<char>) -> Option<u64> {
    match parse_unsigned(s, u64::MAX as int) {
        Some(v) => Some(v as u64),
        None => None,
    }
}

/// `str::parse::<u8>`.
pub open spec fn parse_u8(s: Seq<char>) -> Option<u8> {
    match parse_unsigned(s, u8::MAX as int) {
        Some(v) => Some(v as u8),
        None => None,
    }
}

proof fn lemma_decimal_value_prefix(d: Seq<char>, i: int)
    requires
        0 <= i <= d.len(),
        all_digits(d),
    ensures
        0 <= decimal_value(d.take(i)) <= decimal_value(d),
    decreases d.len() - i,
{
    if i < d.len() {
        lemma_decimal_value_prefix(d, i + 1);
        assert(d.take(i + 1).drop_last() == d.take(i));
        assert(is_digit(d[i]));
    } else {
        assert(d.take(i) == d);
        lemma_decimal_value_nonneg(d);
    }
}

proof fn lemma_decimal_value_nonneg(d: Seq<char>)
    requires
        all_digits(d),
    ensures
        decimal_value(d) >= 0,
    decreases d.len(),
{
    if d.len() > 0 {
        assert(is_digit(d[d.len() - 1]));
        lemma_decimal_value_nonneg(d.drop_last());
    }
}

fn parse_bounded(s: &Vec<char>, max: u64) -> (r: Option<u64>)
    ensures
        match r {
            Some(v) => parse_unsigned(s@, max as int) == Some(v as int),
            None => parse_unsigned(s@, max as int) is None,
        },
{
    let start: usize = if s.len() > 1 && s[0] == '+' { 1 } else { 0 };
    let ghost d = unsigned_digits(s@);
    assert(d == s@.skip(start as int));
    if start >= s.len() {
        return None;
    }
    let mut v: u128 = 0;
    let mut i: usize = start;
    assert(d.take(0) == Seq::<char>::empty());
    while i < s.len()
        invariant
            start <= i <= s.len(),
            d == s@.skip(start as int),
            d == unsigned_digits(s@),
            all_digits(d.take(i - start)),
            v as int == decimal_value(d.take(i - start)),
            v <= max,
        decreases s.len() - i,
    {
        let c = s[i];
        let cv = c as u32;
        if cv < 48 || cv > 57 {
            assert(d[i - start] == c);
            return None;
        }
        let nv: u128 = v * 10 + (cv - 48) as u128;
        assert(d.take(i - start + 1).drop_last() == d.take(i - start));
        assert(d.take(i - start + 1).last() == c);
        assert(nv as int == decimal_value(d.take(i - start + 1)));
        assert(all_digits(d.take(i - start + 1))) by {
            assert forall|k: int| 0 <= k < i - start + 1 implies #[trigger] is_digit(
                d.take(i - start + 1)[k],
            ) by {
                if k < i - start {
                    assert(d.take(i - start)[k] == d.take(i - start + 1)[k]);
                }
            }
        }
        if nv > max as u128 {
            proof {
                if all_digits(d) {
                    lemma_decimal_value_prefix(d, i - start + 1);
                }
            }
            return None;
        }
        v = nv;
        i = i + 1;
    }
    assert(d.take(i - start) == d);
    Some(v as u64)
}

/// Parses an unsigned 64-bit decimal number (`str::parse::<u64>`).
pub fn parse_u64_text(s: &Vec<char>) -> (r: Option<u64>)
    ensures
        r == parse_u64(s@),
{
    parse_bounded(s, u64::MAX)
}

/// Parses an unsigned 8-bit decimal number (`str::parse::<u8>`).
pub fn parse_u8_text(s: &Vec<char>) -> (r: Option<u8>)
    ensures
        r == parse_u8(s@),
{
    match parse_bounded(s, 255) {
        Some(v) => Some(v as u8),
        None => None,
    }
}

/// The character of a decimal digit.
pub open spec fn digit_char(d: int) -> char {
    (d + 48) as char
}

/// The decimal text of `n`, as `u64::to_string` writes it.
pub open spec fn decimal(n: nat) -> Seq<char>
    decreases n,
{
    if n < 10 {
        seq![digit_char(n as int)]
    } else {
        decimal(n / 10).push(digit_char((n % 10) as int))
    }
}

fn digit_to_char(d: u64) -> (c: char)
    requires
        d < 10,
    ensures
        c == digit_char(d as int),
{
    let b: u8 = 48u8 + (d as u8);
    b as char
}

/// The decimal text of `n` (`u64::to_string`).
pub fn decimal_string(n: u64) -> (r: String)
    ensures
        r@ == decimal(n as nat),
    decreases n,
{
    if n < 10 {
        let mut s = String::new();
        push_char(&mut s, digit_to_char(n));
        s
    } else {
        let mut s = decimal_string(n / 10);
        push_char(&mut s, digit_to_char(n % 10));
        s
    }
}

/// The character of a lower-case hexadecimal digit.
pub open spec fn hex_digit(v: int) -> char {
    if v < 10 {
        (v + 48) as char
    } else {
        (v + 87) as char
    }
}

/// Lower-case hexadecimal text of a byte sequence, two digits per byte.
pub open spec fn hex_lower(b: Seq<u8>) -> Seq<char>
    decreases b.len(),
{
    if b.len() == 0 {
        Seq::empty()
    } else {
        hex_lower(b.drop_last()).push(hex_digit((b.last() / 16) as int)).push(
            hex_digit((b.last() % 16) as int),
        )
    }
}

fn hex_digit_char(v: u8) -> (c: char)
    requires
        v < 16,
    ensures
        c == hex_digit(v as int),
{
    if v < 10 {
        (48u8 + v) as char
    } else {
        (87u8 + v) as char
    }
}

/// Appends the lower-case hexadecimal text of `bytes` to `out`.
pub fn push_hex(out: &mut String, bytes: &[u8])
    ensures
        final(out)@ == old(out)@ + hex_lower(bytes@),
{
    let mut i: usize = 0;
    assert(bytes@.take(0) == Seq::<u8>::empty());
    assert(old(out)@ + Seq::<char>::empty() == old(out)@);
    while i < bytes.len()
        invariant
            i <= bytes.len(),
            out@ == old(out)@ + hex_lower(bytes@.take(i as int)),
        decreases bytes.len() - i,
    {
        let b = bytes[i];
        push_char(out, hex_digit_char(b / 16));
        push_char(out, hex_digit_char(b % 16));
        assert(bytes@.take(i + 1).drop_last() == bytes@.take(i as int));
        assert(bytes@.take(i + 1).last() == b);
        i = i + 1;
    }
    assert(bytes@.take(bytes.len() as int) == bytes@);
}


// ---------------------------------------------------------------------------
// Wrapping for display
// ---------------------------------------------------------------------------

/// The lines that `textwrap::wrap(text, width)` returns.
pub uninterp spec fn textwrap_lines(text: Seq<char>, width: usize) -> Seq<Seq<char>>;

/// Calls `textwrap::wrap(text, width)` and takes each returned line as an
/// owned string. Its contract says only that the lines are those that the
/// crate computes from the text and the width; how it breaks them is the
/// crate's own algorithm and is not restated here.
#[verifier::external_body]
fn textwrap_wrap(text: &str, width: usize) -> (r: Vec<String>)
    requires
        width > 0,
    ensures
        strings_view(r@) == textwrap_lines(text@, width),
{
    textwrap::wrap(text, width).into_iter().map(|line| line.into_owned()).collect()
}

/// The display lines of one line of a message: an empty line stays one
/// empty line, any other is wrapped.
pub open spec fn wrap_line(l: Seq<char>, width: usize) -> Seq<Seq<char>> {
    if l.len() == 0 {
        seq![Seq::<char>::empty()]
    } else {
        textwrap_lines(l, width)
    }
}

/// The display lines of a sequence of lines, in order.
pub open spec fn wrap_all(ls: Seq<Seq<char>>, width: usize) -> Seq<Seq<char>>
    decreases ls.len(),
{
    if ls.len() == 0 {
        Seq::empty()
    } else {
        wrap_all(ls.drop_last(), width) + wrap_line(ls.last(), width)
    }
}

/// The display lines of a message wrapped at `width` columns.
pub open spec fn wrapped_message(msg: Seq<char>, width: usize) -> Seq<Seq<char>> {
    wrap_all(lines_of(msg), width)
}

/// Wrap a single message string into display lines.
pub fn wrap_message(msg: &str, max_width: usize) -> (r: Vec<String>)
    requires
        max_width > 0,
    ensures
        strings_view(r@) == wrapped_message(msg@, max_width),
{
    let lines = split_lines(msg);
    let ghost ls = lines_of(msg@);
    let mut out: Vec<String> = Vec::new();
    let mut j: usize = 0;
    assert(ls.take(0) == Seq::<Seq<char>>::empty());
    assert(strings_view(out@) == Seq::<Seq<char>>::empty());
    while j < lines.len()
        invariant
            j <= lines.len(),
            max_width > 0,
            strings_view(lines@) == ls,
            ls == lines_of(msg@),
            strings_view(out@) == wrap_all(ls.take(j as int), max_width),
        decreases lines.len() - j,
    {
        let line = lines[j].as_str();
        assert(ls[j as int] == line@);
        assert(ls.take(j + 1).drop_last() == ls.take(j as int));
        assert(ls.take(j + 1).last() == line@);
        let ghost before = strings_view(out@);
        if line.is_empty() {
            let empty = String::new();
            proof {
                lemma_strings_view_push(out@, empty);
            }
            out.push(empty);
        } else {
            let mut pieces = textwrap_wrap(line, max_width);
            let ghost p = strings_view(pieces@);
            let ghost o = out@;
            out.append(&mut pieces);
            assert(strings_view(out@) =~= strings_view(o) + p);
        }
        assert(strings_view(out@) == before + wrap_line(line@, max_width));
        j = j + 1;
    }
    assert(ls.take(lines.len() as int) == ls);
    out
}


// ---------------------------------------------------------------------------
// Laws
// ---------------------------------------------------------------------------

/// Cleaned content holds no control character other than newlines and tabs.
pub proof fn lemma_cleaned_has_no_controls(s: Seq<char>)
    ensures
        forall|i: int| 0 <= i < cleaned(s).len() ==> kept_in_content(#[trigger] cleaned(s)[i]),
    decreases s.len(),
{
    if s.len() > 0 {
        let rest = cleaned(s.drop_last());
        lemma_cleaned_has_no_controls(s.drop_last());
        if kept_in_content(s.last()) {
            assert forall|i: int| 0 <= i < cleaned(s).len() implies kept_in_content(
                #[trigger] cleaned(s)[i],
            ) by {
                if i < rest.len() {
                    assert(cleaned(s)[i] == rest[i]);
                }
            }
        }
    }
}

proof fn lemma_cleaned_identity(s: Seq<char>)
    requires
        forall|i: int| 0 <= i < s.len() ==> kept_in_content(#[trigger] s[i]),
    ensures
        cleaned(s) == s,
    decreases s.len(),
{
    if s.len() > 0 {
        assert(kept_in_content(s[s.len() - 1]));
        lemma_cleaned_identity(s.drop_last());
        assert(s.drop_last().push(s.last()) == s);
    }
}

/// Cleaning clean content changes nothing.
pub proof fn lemma_cleaned_idempotent(s: Seq<char>)
    ensures
        cleaned(cleaned(s)) == cleaned(s),
{
    lemma_cleaned_has_no_controls(s);
    lemma_cleaned_identity(cleaned(s));
}

/// No line holds a line feed.
pub proof fn lemma_lines_have_no_newline(s: Seq<char>)
    ensures
        forall|i: int| 0 <= i < lines_of(s).len() ==> has_no_newline(#[trigger] lines_of(s)[i]),
    decreases s.len(),
{
    if s.len() > 0 {
        let k = newline_index(s);
        lemma_newline_index_no_newline_before(s);
        if k < s.len() {
            lemma_lines_have_no_newline(s.skip(k + 1 as int));
            let first = strip_cr(s.take(k as int));
            assert forall|i: int| 0 <= i < lines_of(s).len() implies has_no_newline(
                #[trigger] lines_of(s)[i],
            ) by {
                if i == 0 {
                    assert(lines_of(s)[0] == first);
                    assert forall|j: int| 0 <= j < first.len() implies first[j] != '\n' by {
                        assert(first[j] == s[j]);
                    }
                } else {
                    assert(lines_of(s)[i] == lines_of(s.skip(k + 1 as int))[i - 1]);
                }
            }
        } else {
            assert(lines_of(s) == seq![s]);
        }
    }
}

proof fn lemma_newline_index_no_newline_before(s: Seq<char>)
    ensures
        newline_index(s) <= s.len(),
        forall|j: int| 0 <= j < newline_index(s) ==> s[j] != '\n',
    decreases s.len(),
{
    if s.len() > 0 && s[0] != '\n' {
        lemma_newline_index_no_newline_before(s.drop_first());
        assert forall|j: int| 0 <= j < newline_index(s) implies s[j] != '\n' by {
            if j > 0 {
                assert(s[j] == s.drop_first()[j - 1]);
            }
        }
    }
}

// ---------------------------------------------------------------------------
// URLs in a line of content
// ---------------------------------------------------------------------------

/// Whether a URL starts at place `i` of `s`: `http://` or `https://` stands
/// there.
pub open spec fn url_starts_at(s: Seq<char>, i: int) -> bool {
    starts_with(s.skip(i), seq!['h', 't', 't', 'p', ':', '/', '/']) || starts_with(
        s.skip(i),
        seq!['h', 't', 't', 'p', 's', ':', '/', '/'],
    )
}

/// Whether the character at place `i` of `s` belongs to a URL: a URL starts
/// at or before it, with no whitespace from there up to it.
pub open spec fn in_url(s: Seq<char>, i: int) -> bool {
    exists|j: int|
        0 <= j <= i && #[trigger] url_starts_at(s, j) && forall|k: int|
            j <= k <= i ==> !is_space(#[trigger] s[k])
}

/// The characters of `s` grouped, in order, into maximal runs of equal
/// marks `m`, each with its mark.
pub open spec fn runs_by_mark(s: Seq<char>, m: Seq<bool>) -> Seq<(Seq<char>, bool)>
    decreases s.len(),
{
    if s.len() == 0 || m.len() < s.len() {
        Seq::empty()
    } else {
        let n = s.len() - 1;
        let prev = runs_by_mark(s.take(n), m.take(n));
        let c = s[n];
        let f = m[n];
        if prev.len() > 0 && prev.last().1 == f {
            prev.update(prev.len() - 1, (prev.last().0.push(c), f))
        } else {
            prev.push((seq![c], f))
        }
    }
}

/// Which characters of `s` belong to a URL.
pub open spec fn url_marks(s: Seq<char>) -> Seq<bool> {
    Seq::new(s.len(), |i: int| in_url(s, i))
}

/// The runs of a line that lie wholly inside URLs or wholly outside them,
/// in order, each with whether it is a URL.
pub open spec fn url_runs_of(s: Seq<char>) -> Seq<(Seq<char>, bool)> {
    runs_by_mark(s, url_marks(s))
}

/// The texts and marks of runs, as plain values.
pub open spec fn runs_view(v: Seq<(String, bool)>) -> Seq<(Seq<char>, bool)> {
    v.map_values(|r: (String, bool)| (r.0@, r.1))
}

/// Whether `p` stands in `s` at place `at`.
fn has_prefix_at(s: &Vec<char>, at: usize, p: &Vec<char>) -> (r: bool)
    requires
        at <= s@.len(),
    ensures
        r == starts_with(s@.skip(at as int), p@),
{
    if p.len() > s.len() - at {
        return false;
    }
    let mut i: usize = 0;
    while i < p.len()
        invariant
            at <= s@.len(),
            i <= p.len() <= s.len() - at,
            forall|k: int| 0 <= k < i ==> s@[at + k] == p@[k],
        decreases p@.len() - i,
    {
        if s[at + i] != p[i] {
            assert(s@.skip(at as int).take(p@.len() as int)[i as int] != p@[i as int]);
            return false;
        }
        i = i + 1;
    }
    assert(s@.skip(at as int).take(p@.len() as int) =~= p@);
    true
}

/// A character belongs to a URL exactly when it is no whitespace and a URL
/// starts at it or the character before it belongs to one.
proof fn lemma_in_url_step(s: Seq<char>, i: int)
    requires
        0 <= i < s.len(),
    ensures
        in_url(s, i) == (!is_space(s[i]) && (url_starts_at(s, i) || (i > 0 && in_url(s, i - 1)))),
{
    if in_url(s, i) {
        let j = choose|j: int|
            0 <= j <= i && #[trigger] url_starts_at(s, j) && forall|k: int|
                j <= k <= i ==> !is_space(#[trigger] s[k]);
        assert(!is_space(s[i]));
        if j < i {
            assert(in_url(s, i - 1));
        }
    }
    if !is_space(s[i]) && url_starts_at(s, i) {
        assert(in_url(s, i));
    }
    if !is_space(s[i]) && i > 0 && in_url(s, i - 1) {
        let j = choose|j: int|
            0 <= j <= i - 1 && #[trigger] url_starts_at(s, j) && forall|k: int|
                j <= k <= i - 1 ==> !is_space(#[trigger] s[k]);
        assert(forall|k: int| j <= k <= i ==> !is_space(#[trigger] s[k]));
        assert(in_url(s, i));
    }
}

/// Whether each character of `s` belongs to a URL.
fn url_mask(s: &Vec<char>) -> (r: Vec<bool>)
    ensures
        r@.len() == s@.len(),
        forall|i: int| 0 <= i < s@.len() ==> r@[i] == in_url(s@, i),
{
    let http = to_chars("http://");
    let https = to_chars("https://");
    proof {
        reveal_strlit("http://");
        reveal_strlit("https://");
        assert(http@ =~= seq!['h', 't', 't', 'p', ':', '/', '/']);
        assert(https@ =~= seq!['h', 't', 't', 'p', 's', ':', '/', '/']);
    }
    let mut out: Vec<bool> = Vec::new();
    let mut active = false;
    let mut i: usize = 0;
    while i < s.len()
        invariant
            i <= s@.len(),
            out@.len() == i,
            http@ == seq!['h', 't', 't', 'p', ':', '/', '/'],
            https@ == seq!['h', 't', 't', 'p', 's', ':', '/', '/'],
            forall|k: int| 0 <= k < i ==> out@[k] == in_url(s@, k),
            i > 0 ==> active == in_url(s@, i - 1),
            i == 0 ==> !active,
        decreases s@.len() - i,
    {
        proof {
            lemma_in_url_step(s@, i as int);
        }
        let f = if is_space_char(s[i]) {
            false
        } else {
            active || has_prefix_at(s, i, &http) || has_prefix_at(s, i, &https)
        };
        out.push(f);
        active = f;
        i = i + 1;
    }
    out
}

/// The runs of `line` that lie inside URLs and outside them, in order, for
/// drawing URLs apart from the rest.
pub fn url_runs(line: &str) -> (r: Vec<(String, bool)>)
    ensures
        runs_view(r@) == url_runs_of(line@),
{
    let s = to_chars(line);
    let mask = url_mask(&s);
    let ghost m = url_marks(s@);
    assert(mask@ =~= m);
    let mut out: Vec<(String, bool)> = Vec::new();
    let mut cur = String::new();
    let mut flag = false;
    let mut i: usize = 0;
    while i < s.len()
        invariant
            s@ == line@,
            mask@ == m,
            m.len() == s@.len(),
            i <= s@.len(),
            i == 0 ==> cur@.len() == 0,
            runs_by_mark(s@.take(i as int), m.take(i as int)) == if i == 0 {
                runs_view(out@)
            } else {
                runs_view(out@).push((cur@, flag))
            },
        decreases s@.len() - i,
    {
        let c = s[i];
        let f = mask[i];
        let ghost t = s@.take(i + 1);
        let ghost tm = m.take(i + 1);
        let ghost prev = runs_by_mark(s@.take(i as int), m.take(i as int));
        proof {
            assert(t.take(i as int) =~= s@.take(i as int));
            assert(tm.take(i as int) =~= m.take(i as int));
            assert(runs_by_mark(t, tm) == if prev.len() > 0 && prev.last().1 == f {
                prev.update(prev.len() - 1, (prev.last().0.push(c), f))
            } else {
                prev.push((seq![c], f))
            });
        }
        if i > 0 && f == flag {
            push_char(&mut cur, c);
            proof {
                assert(runs_view(out@).push((cur@, flag)) =~= prev.update(
                    prev.len() - 1,
                    (prev.last().0.push(c), f),
                ));
            }
        } else {
            if i > 0 {
                let ghost before = runs_view(out@);
                out.push((cur, flag));
                assert(runs_view(out@) =~= before.push((cur@, flag)));
            }
            cur = String::new();
            push_char(&mut cur, c);
            flag = f;
            assert(cur@ =~= seq![c]);
            assert(runs_view(out@).push((cur@, flag)) =~= prev.push((seq![c], f)));
        }
        i = i + 1;
    }
    if i > 0 {
        let ghost before = runs_view(out@);
        out.push((cur, flag));
        assert(runs_view(out@) =~= before.push((cur@, flag)));
    }
    assert(s@.take(s@.len() as int) =~= s@);
    assert(m.take(s@.len() as int) =~= m);
    out
}

} // verus!
