//! Reading the Linux statistics files: CPU times, memory, network byte
//! counters, GPU readings, and the choice of GPU card.
use vstd::prelude::*;

use crate::text::{
    has_char, has_prefix, lines_of, parse_u64, parse_u64_text, parse_u8, parse_u8_text,
    split_lines, split_words, starts_with, strings_view, to_chars, trim_chars, trim_end_char,
    trim_end_matching, trimmed, words_of,
};

verus! {

/// A numeric field of a word list: the parsed word at `i`, 0 when it is
/// missing or not a number.
pub open spec fn field(w: Seq<Seq<char>>, i: int) -> int {
    if 0 <= i < w.len() {
        match parse_u64(w[i]) {
            Some(v) => v as int,
            None => 0,
        }
    } else {
        0
    }
}

/// The aggregate CPU line of `/proc/stat`: it starts with `"cpu "` and has
/// at least five words.
pub open spec fn is_cpu_line(l: Seq<char>) -> bool {
    starts_with(l, "cpu "@) && words_of(l).len() >= 5
}

/// The first aggregate CPU line.
pub open spec fn first_cpu_line(lines: Seq<Seq<char>>) -> Option<Seq<char>>
    decreases lines.len(),
{
    if lines.len() == 0 {
        None
    } else if is_cpu_line(lines[0]) {
        Some(lines[0])
    } else {
        first_cpu_line(lines.drop_first())
    }
}

/// Idle time of a CPU line: idle + iowait.
pub open spec fn cpu_idle(w: Seq<Seq<char>>) -> int {
    field(w, 4) + field(w, 5)
}

/// Total time of a CPU line: user + nice + system + idle + iowait + irq +
/// softirq + steal.
pub open spec fn cpu_total(w: Seq<Seq<char>>) -> int {
    field(w, 1) + field(w, 2) + field(w, 3) + cpu_idle(w) + field(w, 6) + field(w, 7) + field(w, 8)
}

/// What the CPU line of `/proc/stat` gives.
#[derive(Clone, Copy, Debug, PartialEq, Eq, Structural)]
pub enum CpuReading {
    /// Total and idle time since boot, in clock ticks.
    Times { total: u64, idle: u64 },
    /// No aggregate CPU line.
    Missing,
    /// The sum of the counters does not fit in 64 bits.
    Overflow,
}

/// The reading that the text of `/proc/stat` gives.
pub open spec fn cpu_reading(content: Seq<char>) -> CpuReading {
    match first_cpu_line(lines_of(content)) {
        None => CpuReading::Missing,
        Some(l) => {
            let w = words_of(l);
            if cpu_total(w) <= u64::MAX {
                CpuReading::Times { total: cpu_total(w) as u64, idle: cpu_idle(w) as u64 }
            } else {
                CpuReading::Overflow
            }
        },
    }
}

fn field_value(w: &Vec<Vec<char>>, i: usize) -> (r: u64)
    ensures
        r == field(w@.map_values(|x: Vec<char>| x@), i as int),
{
    if i < w.len() {
        assert(w@.map_values(|x: Vec<char>| x@)[i as int] == w@[i as int]@);
        match parse_u64_text(&w[i]) {
            Some(v) => v,
            None => 0,
        }
    } else {
        0
    }
}

/// Total and idle CPU time from the text of `/proc/stat`.
pub fn parse_cpu_stats(content: &str) -> (r: CpuReading)
    ensures
        r == cpu_reading(content@),
{
    let lines = split_lines(content);
    let ghost ls = lines_of(content@);
    let mut j: usize = 0;
    assert(ls.skip(0) == ls);
    while j < lines.len()
        invariant
            j <= lines.len(),
            strings_view(lines@) == ls,
            ls == lines_of(content@),
            first_cpu_line(ls) == first_cpu_line(ls.skip(j as int)),
        decreases lines.len() - j,
    {
        let line = to_chars(lines[j].as_str());
        assert(ls.skip(j as int)[0] == line@);
        assert(ls.skip(j as int).drop_first() == ls.skip(j + 1));
        if has_prefix(&line, "cpu ") {
            let parts = split_words(&line);
            let ghost w = parts@.map_values(|x: Vec<char>| x@);
            assert(w == words_of(line@));
            if parts.len() >= 5 {
                assert(is_cpu_line(line@));
                assert(first_cpu_line(ls) == Some(line@));
                let user = field_value(&parts, 1);
                let nice = field_value(&parts, 2);
                let system = field_value(&parts, 3);
                let idle = field_value(&parts, 4);
                let iowait = field_value(&parts, 5);
                let irq = field_value(&parts, 6);
                let softirq = field_value(&parts, 7);
                let steal = field_value(&parts, 8);
                let sum: u128 = user as u128 + nice as u128 + system as u128 + idle as u128
                    + iowait as u128 + irq as u128 + softirq as u128 + steal as u128;
                assert(sum == cpu_total(w));
                if sum > u64::MAX as u128 {
                    return CpuReading::Overflow;
                }
                let idle_time = idle + iowait;
                let total_time = user + nice + system + idle_time + irq + softirq + steal;
                return CpuReading::Times { total: total_time, idle: idle_time };
            }
        }
        j = j + 1;
    }
    assert(ls.skip(lines.len() as int) == Seq::<Seq<char>>::empty());
    CpuReading::Missing
}

// ---------------------------------------------------------------------------
// /proc/meminfo
// ---------------------------------------------------------------------------

/// The number in the second word of a line, if there is one and it parses.
pub open spec fn second_number(l: Seq<char>) -> Option<u64> {
    if words_of(l).len() >= 2 {
        parse_u64(words_of(l)[1])
    } else {
        None
    }
}

/// Scan of `/proc/meminfo`: a `MemTotal:` line sets the total and a
/// `MemAvailable:` line the available memory (to `None` when its number
/// does not parse); the scan stops as soon as both are known.
pub open spec fn mem_scan(lines: Seq<Seq<char>>, total: Option<u64>, avail: Option<u64>) -> (
    Option<u64>,
    Option<u64>,
)
    decreases lines.len(),
{
    if lines.len() == 0 {
        (total, avail)
    } else {
        let l = lines[0];
        let t = if starts_with(l, "MemTotal:"@) {
            second_number(l)
        } else {
            total
        };
        let a = if !starts_with(l, "MemTotal:"@) && starts_with(l, "MemAvailable:"@) {
            second_number(l)
        } else {
            avail
        };
        if t is Some && a is Some {
            (t, a)
        } else {
            mem_scan(lines.drop_first(), t, a)
        }
    }
}

/// Total and available memory (in kB) from the text of `/proc/meminfo`,
/// when both are found and the total is not zero.
pub open spec fn meminfo(content: Seq<char>) -> Option<(u64, u64)> {
    match mem_scan(lines_of(content), None, None) {
        (Some(t), Some(a)) => if t > 0 {
            Some((t, a))
        } else {
            None
        },
        _ => None,
    }
}

fn second_number_of(line: &Vec<char>) -> (r: Option<u64>)
    ensures
        r == second_number(line@),
{
    let words = split_words(line);
    if words.len() >= 2 {
        assert(words@.map_values(|x: Vec<char>| x@)[1] == words@[1]@);
        parse_u64_text(&words[1])
    } else {
        None
    }
}

/// Total and available memory from the text of `/proc/meminfo`.
pub fn parse_meminfo(content: &str) -> (r: Option<(u64, u64)>)
    ensures
        r == meminfo(content@),
{
    let lines = split_lines(content);
    let ghost ls = lines_of(content@);
    let mut total: Option<u64> = None;
    let mut avail: Option<u64> = None;
    let mut j: usize = 0;
    assert(ls.skip(0) == ls);
    while j < lines.len() && !(total.is_some() && avail.is_some())
        invariant
            j <= lines.len(),
            strings_view(lines@) == ls,
            ls == lines_of(content@),
            total is Some && avail is Some ==> mem_scan(ls, None, None) == (total, avail),
            !(total is Some && avail is Some) ==> mem_scan(ls, None, None) == mem_scan(
                ls.skip(j as int),
                total,
                avail,
            ),
        decreases lines.len() - j,
    {
        let line = to_chars(lines[j].as_str());
        assert(ls.skip(j as int)[0] == line@);
        assert(ls.skip(j as int).drop_first() == ls.skip(j + 1));
        if has_prefix(&line, "MemTotal:") {
            total = second_number_of(&line);
        } else if has_prefix(&line, "MemAvailable:") {
            avail = second_number_of(&line);
        }
        j = j + 1;
    }
    proof {
        if !(total is Some && avail is Some) {
            assert(ls.skip(j as int) == Seq::<Seq<char>>::empty());
        }
    }
    match (total, avail) {
        (Some(t), Some(a)) => if t > 0 {
            Some((t, a))
        } else {
            None
        },
        _ => None,
    }
}


// ---------------------------------------------------------------------------
// /proc/net/dev
// ---------------------------------------------------------------------------

/// Received and sent bytes of an interface line of `/proc/net/dev`: a line
/// of at least ten words whose first word, colons trimmed off its end, names
/// an interface other than the loopback. Counters that do not parse count 0.
pub open spec fn interface_bytes(l: Seq<char>) -> Option<(int, int)> {
    let w = words_of(l);
    if w.len() >= 10 && trim_end_char(w[0], ':') != "lo"@ && trim_end_char(w[0], ':').len() > 0 {
        Some((field(w, 1), field(w, 9)))
    } else {
        None
    }
}

/// Bytes received and sent over all interfaces but the loopback.
pub open spec fn network_total(lines: Seq<Seq<char>>) -> int
    decreases lines.len(),
{
    if lines.len() == 0 {
        0
    } else {
        network_total(lines.drop_last()) + match interface_bytes(lines.last()) {
            Some((rx, tx)) => rx + tx,
            None => 0,
        }
    }
}

proof fn lemma_network_total_nonneg(lines: Seq<Seq<char>>)
    ensures
        network_total(lines) >= 0,
    decreases lines.len(),
{
    if lines.len() > 0 {
        lemma_network_total_nonneg(lines.drop_last());
    }
}

proof fn lemma_network_total_prefix(lines: Seq<Seq<char>>, i: int)
    requires
        0 <= i <= lines.len(),
    ensures
        network_total(lines.take(i)) <= network_total(lines),
    decreases lines.len() - i,
{
    if i < lines.len() {
        lemma_network_total_prefix(lines, i + 1);
        assert(lines.take(i + 1).drop_last() == lines.take(i));
    } else {
        assert(lines.take(i) == lines);
    }
}

/// Total network bytes from the text of `/proc/net/dev`; `None` when the
/// sum does not fit in 64 bits.
pub fn parse_network_bytes(content: &str) -> (r: Option<u64>)
    ensures
        match r {
            Some(t) => t == network_total(lines_of(content@)),
            None => network_total(lines_of(content@)) > u64::MAX,
        },
{
    let lines = split_lines(content);
    let ghost ls = lines_of(content@);
    let mut total: u64 = 0;
    let mut j: usize = 0;
    assert(ls.take(0) == Seq::<Seq<char>>::empty());
    while j < lines.len()
        invariant
            j <= lines.len(),
            strings_view(lines@) == ls,
            ls == lines_of(content@),
            total == network_total(ls.take(j as int)),
        decreases lines.len() - j,
    {
        let line = to_chars(lines[j].as_str());
        assert(ls.take(j + 1).drop_last() == ls.take(j as int));
        assert(ls.take(j + 1).last() == line@);
        let parts = split_words(&line);
        let ghost w = parts@.map_values(|x: Vec<char>| x@);
        assert(w == words_of(line@));
        let mut add: u128 = 0;
        if parts.len() >= 10 {
            assert(w[0] == parts@[0]@);
            let iface = trim_end_matching(&parts[0], ':');
            if iface.len() > 0 && !crate::text::same_text(
                crate::text::string_from_chars(&iface).as_str(),
                "lo",
            ) {
                let rx = field_value(&parts, 1);
                let tx = field_value(&parts, 9);
                add = rx as u128 + tx as u128;
            }
        }
        assert(add == match interface_bytes(line@) {
            Some((rx, tx)) => rx + tx,
            None => 0,
        });
        let next: u128 = total as u128 + add;
        if next > u64::MAX as u128 {
            proof {
                lemma_network_total_prefix(ls, j + 1);
            }
            return None;
        }
        total = next as u64;
        j = j + 1;
    }
    assert(ls.take(lines.len() as int) == ls);
    Some(total)
}

// ---------------------------------------------------------------------------
// GPU (amdgpu sysfs)
// ---------------------------------------------------------------------------

/// Most a percentage reading can show.
pub const PERCENT_MAX: u8 = 100;

/// GPU busy percentage from the text of `gpu_busy_percent`: the trimmed
/// text as an 8-bit number (0 when unreadable or not a number), at most 100.
pub open spec fn busy_percent(text: Option<Seq<char>>) -> u8 {
    let v: u8 = match text {
        Some(t) => match parse_u8(trimmed(t)) {
            Some(v) => v,
            None => 0,
        },
        None => 0,
    };
    if v < PERCENT_MAX {
        v
    } else {
        PERCENT_MAX
    }
}

/// A counter from a sysfs file: the trimmed text as a 64-bit number, 0 when
/// unreadable or not a number.
pub open spec fn counter_value(text: Option<Seq<char>>) -> u64 {
    match text {
        Some(t) => match parse_u64(trimmed(t)) {
            Some(v) => v,
            None => 0,
        },
        None => 0,
    }
}

pub fn gpu_busy_percent(text: Option<&str>) -> (r: u8)
    ensures
        r == busy_percent(match text { Some(t) => Some(t@), None => None }),
{
    let v: u8 = match text {
        Some(t) => {
            let c = to_chars(t);
            let tr = trim_chars(&c);
            match parse_u8_text(&tr) {
                Some(v) => v,
                None => 0,
            }
        },
        None => 0,
    };
    if v < PERCENT_MAX {
        v
    } else {
        PERCENT_MAX
    }
}

pub fn sysfs_counter(text: Option<&str>) -> (r: u64)
    ensures
        r == counter_value(match text { Some(t) => Some(t@), None => None }),
{
    match text {
        Some(t) => {
            let c = to_chars(t);
            let tr = trim_chars(&c);
            match parse_u64_text(&tr) {
                Some(v) => v,
                None => 0,
            }
        },
        None => 0,
    }
}

/// A DRM directory entry of a whole card (`card0`, not a connector such as
/// `card0-DP-1`).
pub open spec fn is_card_name(name: Seq<char>) -> bool {
    starts_with(name, "card"@) && !name.contains('-')
}

pub fn is_drm_card_name(name: &str) -> (r: bool)
    ensures
        r == is_card_name(name@),
{
    let c = to_chars(name);
    has_prefix(&c, "card") && !has_char(&c, '-')
}

/// The card to monitor: the first one with the most VRAM, among cards whose
/// VRAM total could be read; none when every total is 0.
pub fn pick_largest_vram(vram_totals: &Vec<u64>) -> (r: Option<usize>)
    ensures
        match r {
            Some(i) => {
                &&& i < vram_totals@.len()
                &&& vram_totals@[i as int] > 0
                &&& forall|k: int| 0 <= k < vram_totals@.len() ==> vram_totals@[k] <= vram_totals@[i as int]
                &&& forall|k: int| 0 <= k < i ==> vram_totals@[k] < vram_totals@[i as int]
            },
            None => forall|k: int| 0 <= k < vram_totals@.len() ==> vram_totals@[k] == 0,
        },
{
    let mut best: Option<usize> = None;
    let mut max_vram: u64 = 0;
    let mut j: usize = 0;
    while j < vram_totals.len()
        invariant
            j <= vram_totals@.len(),
            forall|k: int| 0 <= k < j ==> vram_totals@[k] <= max_vram,
            match best {
                Some(i) => {
                    &&& i < j
                    &&& vram_totals@[i as int] == max_vram
                    &&& max_vram > 0
                    &&& forall|k: int| 0 <= k < i ==> vram_totals@[k] < max_vram
                },
                None => max_vram == 0,
            },
        decreases vram_totals@.len() - j,
    {
        if vram_totals[j] > max_vram {
            max_vram = vram_totals[j];
            best = Some(j);
        }
        j = j + 1;
    }
    best
}

} // verus!
