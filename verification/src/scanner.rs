//! Local port scanning and process correlation: process directory snapshots,
//! TCP socket enumeration, the throttled UDP cache with its two text parsers,
//! reconciliation into ordered port entries, and local process termination.

use vstd::arithmetic::div_mod::{
    lemma_div_is_ordered, lemma_div_is_ordered_by_denominator, lemma_fundamental_div_mod,
    lemma_hoist_over_denominator, lemma_multiply_divide_lt,
};
use vstd::arithmetic::power2::{lemma2_to64, lemma_pow2_strictly_increases, pow2};
use vstd::bits::{lemma_u64_shl_is_mul, lemma_u64_shr_is_div};
use vstd::multiset::Multiset;
use vstd::prelude::*;

use crate::app::{spec_is_zombie, PortEntry, PortEntryV, Protocol, ZOMBIE_CPU_THRESHOLD};
use crate::text::{
    after_last_colon, lines_of, parse_u16, parse_u32, spec_after_last_colon, spec_contains_seq,
    spec_dec_str, spec_digit_char, spec_find_char, spec_lines, spec_parse_u16, spec_parse_u32,
    spec_split_ws, split_whitespace_of, str_contains, u64_to_string,
};

verus! {

// ---------------------------------------------------------------------------
// Memory formatting
// ---------------------------------------------------------------------------

pub const BYTES_PER_KB: u64 = 1024;

pub const BYTES_PER_MB: u64 = 1024 * 1024;

pub const BYTES_PER_GB: u64 = 1024 * 1024 * 1024;

/// `bytes / unit` scaled to one decimal digit, rounded half-up.
pub open spec fn spec_mag_tenths(bytes: nat, unit: nat) -> nat {
    (bytes * 10 + unit / 2) / unit
}

/// Rendering of `bytes / unit` with exactly one decimal digit.
pub open spec fn spec_mag_str(bytes: nat, unit: nat) -> Seq<char> {
    let t = spec_mag_tenths(bytes, unit);
    spec_dec_str(t / 10) + seq!['.', spec_digit_char(t % 10)]
}

/// The human-readable rendering of a byte count: bytes below 1024 with no
/// decimal, larger values with one half-up-rounded decimal digit in the
/// largest unit not exceeding them (KB, MB, or GB).
pub open spec fn spec_format_memory(bytes: u64) -> Seq<char> {
    if bytes >= BYTES_PER_GB {
        spec_mag_str(bytes as nat, BYTES_PER_GB as nat) + seq![' ', 'G', 'B']
    } else if bytes >= BYTES_PER_MB {
        spec_mag_str(bytes as nat, BYTES_PER_MB as nat) + seq![' ', 'M', 'B']
    } else if bytes >= BYTES_PER_KB {
        spec_mag_str(bytes as nat, BYTES_PER_KB as nat) + seq![' ', 'K', 'B']
    } else {
        spec_dec_str(bytes as nat) + seq![' ', 'B']
    }
}

/// Render `bytes / unit` with one decimal digit, rounding half-up.
fn mag_string(bytes: u64, unit: u64) -> (r: String)
    requires
        1024 <= unit <= BYTES_PER_GB,
        unit % 2 == 0,
    ensures
        r@ == spec_mag_str(bytes as nat, unit as nat),
{
    let q = bytes / unit;
    let rem = bytes % unit;
    proof {
        lemma_fundamental_div_mod(bytes as int, unit as int);
        lemma_div_is_ordered_by_denominator(bytes as int, 1024, unit as int);
        lemma_div_is_ordered(bytes as int, u64::MAX as int, 1024);
        assert(q <= u64::MAX as int / 1024);
        assert(rem * 10 + unit / 2 < 11 * unit) by {
            assert(rem < unit);
        };
        lemma_multiply_divide_lt((rem * 10 + unit / 2) as int, unit as int, 11);
    }
    let frac = (rem * 10 + unit / 2) / unit;
    let t = q * 10 + frac;
    proof {
        lemma_hoist_over_denominator(
            (rem * 10 + unit / 2) as int,
            (q * 10) as int,
            unit as nat,
        );
        assert(rem * 10 + unit / 2 + q * 10 * unit == bytes * 10 + unit / 2) by (nonlinear_arith)
            requires
                bytes == unit * q + rem,
        ;
        assert(t == spec_mag_tenths(bytes as nat, unit as nat));
    }
    let whole = u64_to_string(t / 10);
    let dot = whole.concat(".");
    let r = dot.concat(crate::text::digit_str(t % 10));
    proof {
        reveal_strlit(".");
        assert(r@ =~= spec_mag_str(bytes as nat, unit as nat));
    }
    r
}

/// Format a memory size in human-readable form.
pub fn format_memory(bytes: u64) -> (r: String)
    ensures
        r@ == spec_format_memory(bytes),
{
    if bytes >= BYTES_PER_GB {
        let r = mag_string(bytes, BYTES_PER_GB).concat(" GB");
        proof {
            reveal_strlit(" GB");
            assert(r@ =~= spec_format_memory(bytes));
        }
        r
    } else if bytes >= BYTES_PER_MB {
        let r = mag_string(bytes, BYTES_PER_MB).concat(" MB");
        proof {
            reveal_strlit(" MB");
            assert(r@ =~= spec_format_memory(bytes));
        }
        r
    } else if bytes >= BYTES_PER_KB {
        let r = mag_string(bytes, BYTES_PER_KB).concat(" KB");
        proof {
            reveal_strlit(" KB");
            assert(r@ =~= spec_format_memory(bytes));
        }
        r
    } else {
        let r = u64_to_string(bytes).concat(" B");
        proof {
            reveal_strlit(" B");
            assert(r@ =~= spec_format_memory(bytes));
        }
        r
    }
}

// ---------------------------------------------------------------------------
// UDP cache entries and their parsers
// ---------------------------------------------------------------------------

/// A cached UDP port entry: topology only, no live process statistics.
#[derive(Debug)]
pub struct UdpCacheEntry {
    pub port: u16,
    pub pid: u32,
    pub process_name: String,
}

/// The mathematical shape of a `UdpCacheEntry`.
pub struct UdpRowV {
    pub port: u16,
    pub pid: u32,
    pub process_name: Seq<char>,
}

impl View for UdpCacheEntry {
    type V = UdpRowV;

    open spec fn view(&self) -> UdpRowV {
        UdpRowV { port: self.port, pid: self.pid, process_name: self.process_name@ }
    }
}

pub open spec fn udp_views(s: Seq<UdpCacheEntry>) -> Seq<UdpRowV> {
    s.map_values(|e: UdpCacheEntry| e@)
}

/// One data line of `lsof -i UDP -n -P` output: at least nine
/// whitespace-separated columns, a numeric PID in the second, and a
/// `host:port` name in the last.
pub open spec fn spec_lsof_row(line: Seq<char>) -> Option<UdpRowV> {
    let toks = spec_split_ws(line);
    if toks.len() < 9 {
        None
    } else {
        match spec_parse_u32(toks[1]) {
            None => None,
            Some(pid) => match spec_parse_u16(spec_after_last_colon(toks.last())) {
                None => None,
                Some(port) => Some(UdpRowV { port, pid, process_name: toks[0] }),
            },
        }
    }
}

/// The rows of the lsof output body, deduplicated by `(port, pid)`.
pub open spec fn spec_lsof_rows(lines: Seq<Seq<char>>, seen: Set<(u16, u32)>) -> Seq<UdpRowV>
    decreases lines.len(),
{
    if lines.len() == 0 {
        Seq::empty()
    } else {
        match spec_lsof_row(lines[0]) {
            Some(row) => if seen.contains((row.port, row.pid)) {
                spec_lsof_rows(lines.drop_first(), seen)
            } else {
                seq![row] + spec_lsof_rows(lines.drop_first(), seen.insert((row.port, row.pid)))
            },
            None => spec_lsof_rows(lines.drop_first(), seen),
        }
    }
}

/// What the lsof UDP scan yields: every data line after the header,
/// malformed lines skipped, duplicates by `(port, pid)` dropped.
pub open spec fn spec_parse_udp_lsof(text: Seq<char>) -> Seq<UdpRowV> {
    let ls = spec_lines(text);
    if ls.len() == 0 {
        Seq::empty()
    } else {
        spec_lsof_rows(ls.drop_first(), Set::empty())
    }
}

/// Parse one lsof output line.
fn lsof_row(line: &str) -> (r: Option<UdpCacheEntry>)
    ensures
        match r {
            Some(e) => spec_lsof_row(line@) == Some(e@),
            None => spec_lsof_row(line@) is None,
        },
{
    let toks = split_whitespace_of(line);
    if toks.len() < 9 {
        return None;
    }
    proof {
        assert(toks.deep_view()[1] == toks@[1]@);
        assert(toks.deep_view().last() == toks@[toks@.len() - 1]@);
    }
    let pid = match parse_u32(toks[1].as_str()) {
        Some(p) => p,
        None => {
            return None;
        },
    };
    let last = toks[toks.len() - 1].as_str();
    let port_str = after_last_colon(last);
    let port = match parse_u16(port_str.as_str()) {
        Some(p) => p,
        None => {
            return None;
        },
    };
    let name = toks[0].clone();
    proof {
        assert(toks.deep_view()[0] == toks@[0]@);
    }
    Some(UdpCacheEntry { port, pid, process_name: name })
}

/// Whether a `(port, pid)` pair was already produced.
fn seen_contains(seen: &Vec<(u16, u32)>, port: u16, pid: u32) -> (r: bool)
    ensures
        r == seen@.to_set().contains((port, pid)),
{
    let mut i: usize = 0;
    while i < seen.len()
        invariant
            0 <= i <= seen@.len(),
            forall|k: int| 0 <= k < i ==> seen@[k] != (port, pid),
        decreases seen@.len() - i,
    {
        let (p, q) = seen[i];
        if p == port && q == pid {
            proof {
                assert(seen@.contains((port, pid)));
            }
            return true;
        }
        i = i + 1;
    }
    proof {
        if seen@.contains((port, pid)) {
            let k = choose|k: int| 0 <= k < seen@.len() && seen@[k] == (port, pid);
            assert(false);
        }
    }
    false
}

/// Parse `lsof -i UDP` style output into cache rows, deduplicating by
/// `(port, pid)` and skipping malformed lines.
pub fn parse_udp_lsof(text: &str) -> (r: Vec<UdpCacheEntry>)
    ensures
        udp_views(r@) == spec_parse_udp_lsof(text@),
{
    let lines = lines_of(text);
    let mut r: Vec<UdpCacheEntry> = Vec::new();
    if lines.len() == 0 {
        proof {
            assert(udp_views(r@) =~= spec_parse_udp_lsof(text@));
        }
        return r;
    }
    let mut seen: Vec<(u16, u32)> = Vec::new();
    let ghost body = spec_lines(text@).drop_first();
    let mut i: usize = 1;
    proof {
        assert(body =~= lines.deep_view().skip(1));
        assert(udp_views(r@) =~= Seq::<UdpRowV>::empty());
        assert(body.skip(0) =~= body);
        assert(seen@.to_set() =~= Set::<(u16, u32)>::empty());
    }
    while i < lines.len()
        invariant
            1 <= i <= lines@.len(),
            body == spec_lines(text@).drop_first(),
            body =~= lines.deep_view().skip(1),
            lines.deep_view().len() == lines@.len(),
            spec_parse_udp_lsof(text@) == udp_views(r@) + spec_lsof_rows(
                body.skip(i - 1),
                seen@.to_set(),
            ),
        decreases lines@.len() - i,
    {
        let ghost rest = body.skip(i - 1);
        let ghost seen_set = seen@.to_set();
        proof {
            assert(rest.len() > 0);
            assert(rest[0] == lines.deep_view()[i as int]);
            assert(rest.drop_first() =~= body.skip(i as int));
        }
        match lsof_row(lines[i].as_str()) {
            Some(e) => {
                let dup = seen_contains(&seen, e.port, e.pid);
                if !dup {
                    let ghost old_seen = seen@;
                    seen.push((e.port, e.pid));
                    let ghost old_r = udp_views(r@);
                    r.push(e);
                    proof {
                        assert(udp_views(r@) =~= old_r + seq![e@]);
                        Seq::lemma_to_set_insert_commutes(old_seen, (e.port, e.pid));
                        assert(seen@ =~= old_seen + seq![(e.port, e.pid)]);
                        assert(seen@.to_set() =~= seen_set.insert((e.port, e.pid)));
                        assert(old_r + (seq![e@] + spec_lsof_rows(
                            rest.drop_first(),
                            seen_set.insert((e.port, e.pid)),
                        )) =~= udp_views(r@) + spec_lsof_rows(
                            rest.drop_first(),
                            seen_set.insert((e.port, e.pid)),
                        ));
                    }
                }
            },
            None => {},
        }
        i = i + 1;
    }
    proof {
        assert(body.skip(i - 1) =~= Seq::<Seq<char>>::empty());
        assert(udp_views(r@) + Seq::<UdpRowV>::empty() =~= udp_views(r@));
    }
    r
}

/// `s` split at its first `/`, as `str::split_once('/')` does.
pub open spec fn spec_split_once_slash(s: Seq<char>) -> Option<(Seq<char>, Seq<char>)> {
    let i = spec_find_char(s, '/');
    if i == -1 {
        None
    } else {
        Some((s.take(i), s.skip(i + 1)))
    }
}

/// The row a netstat output line contributes, if any. `Err(())` means the
/// line aborts the whole netstat scan (a `udp` line with under two
/// columns, whose local address cannot even be guessed at).
pub open spec fn spec_netstat_line(line: Seq<char>) -> Result<Option<UdpRowV>, ()> {
    if !spec_contains_seq(line, seq!['u', 'd', 'p']) && !spec_contains_seq(
        line,
        seq!['U', 'D', 'P'],
    ) {
        Ok(None)
    } else {
        let toks = spec_split_ws(line);
        if toks.len() < 2 {
            Err(())
        } else {
            let addr = if toks.len() > 3 {
                toks[3]
            } else {
                toks[1]
            };
            match spec_parse_u16(spec_after_last_colon(addr)) {
                None => Ok(None),
                Some(port) => match spec_split_once_slash(toks.last()) {
                    None => Ok(None),
                    Some((pid_str, prog)) => match spec_parse_u32(pid_str) {
                        None => Ok(None),
                        Some(pid) => Ok(Some(UdpRowV { port, pid, process_name: prog })),
                    },
                },
            }
        }
    }
}

/// The rows of a netstat scan, or `None` if some line aborted it.
pub open spec fn spec_netstat_rows(lines: Seq<Seq<char>>) -> Option<Seq<UdpRowV>>
    decreases lines.len(),
{
    if lines.len() == 0 {
        Some(Seq::empty())
    } else {
        match spec_netstat_line(lines[0]) {
            Err(()) => None,
            Ok(first) => match spec_netstat_rows(lines.drop_first()) {
                None => None,
                Some(rest) => match first {
                    Some(row) => Some(seq![row] + rest),
                    None => Some(rest),
                },
            },
        }
    }
}

/// What the netstat UDP scan yields: `None` when it aborted or found
/// nothing, so that the caller can fall back.
pub open spec fn spec_parse_udp_netstat(text: Seq<char>) -> Option<Seq<UdpRowV>> {
    match spec_netstat_rows(spec_lines(text)) {
        None => None,
        Some(rows) => if rows.len() == 0 {
            None
        } else {
            Some(rows)
        },
    }
}

/// Parse one netstat output line.
fn netstat_line(line: &str) -> (r: Result<Option<UdpCacheEntry>, ()>)
    ensures
        match r {
            Ok(Some(e)) => spec_netstat_line(line@) == Ok::<Option<UdpRowV>, ()>(Some(e@)),
            Ok(None) => spec_netstat_line(line@) == Ok::<Option<UdpRowV>, ()>(None),
            Err(()) => spec_netstat_line(line@) == Err::<Option<UdpRowV>, ()>(()),
        },
{
    let has_udp = str_contains(line, "udp") || str_contains(line, "UDP");
    proof {
        reveal_strlit("udp");
        reveal_strlit("UDP");
        assert("udp"@ =~= seq!['u', 'd', 'p']);
        assert("UDP"@ =~= seq!['U', 'D', 'P']);
    }
    if !has_udp {
        return Ok(None);
    }
    let toks = split_whitespace_of(line);
    if toks.len() < 2 {
        return Err(());
    }
    let addr = if toks.len() > 3 {
        proof {
            assert(toks.deep_view()[3] == toks@[3]@);
        }
        toks[3].as_str()
    } else {
        proof {
            assert(toks.deep_view()[1] == toks@[1]@);
        }
        toks[1].as_str()
    };
    let port_str = after_last_colon(addr);
    let port = match parse_u16(port_str.as_str()) {
        Some(p) => p,
        None => {
            return Ok(None);
        },
    };
    let last = toks[toks.len() - 1].as_str();
    proof {
        assert(toks.deep_view().last() == toks@[toks@.len() - 1]@);
    }
    let n = last.unicode_len();
    match crate::text::find_char(last, '/') {
        None => Ok(None),
        Some(i) => {
            let pid_str = last.substring_char(0, i);
            let prog = last.substring_char(i + 1, n);
            proof {
                assert(pid_str@ =~= last@.take(i as int));
                assert(prog@ =~= last@.skip(i + 1));
            }
            match parse_u32(pid_str) {
                None => Ok(None),
                Some(pid) => Ok(
                    Some(UdpCacheEntry { port, pid, process_name: prog.to_owned() }),
                ),
            }
        },
    }
}

/// Parse netstat-style output into cache rows. Returns `None` when the
/// scan aborted on a hopeless line or produced nothing.
pub fn parse_udp_netstat(text: &str) -> (r: Option<Vec<UdpCacheEntry>>)
    ensures
        match r {
            Some(v) => spec_parse_udp_netstat(text@) == Some(udp_views(v@)),
            None => spec_parse_udp_netstat(text@) is None,
        },
{
    let lines = lines_of(text);
    let ghost all = spec_lines(text@);
    let mut out: Vec<UdpCacheEntry> = Vec::new();
    let mut i: usize = 0;
    proof {
        assert(all =~= lines.deep_view());
        assert(all.skip(0) =~= all);
        assert(udp_views(out@) =~= Seq::<UdpRowV>::empty());
        if spec_netstat_rows(all) is Some {
            assert(udp_views(out@) + spec_netstat_rows(all.skip(0)).unwrap() =~= spec_netstat_rows(
                all,
            ).unwrap());
        }
    }
    while i < lines.len()
        invariant
            0 <= i <= lines@.len(),
            all == spec_lines(text@),
            all =~= lines.deep_view(),
            lines.deep_view().len() == lines@.len(),
            spec_netstat_rows(all) is Some <==> spec_netstat_rows(all.skip(i as int)) is Some,
            spec_netstat_rows(all) is Some ==> spec_netstat_rows(all).unwrap() == udp_views(out@)
                + spec_netstat_rows(all.skip(i as int)).unwrap(),
        decreases lines@.len() - i,
    {
        let ghost rest = all.skip(i as int);
        proof {
            assert(rest.len() > 0);
            assert(rest[0] == lines.deep_view()[i as int]);
            assert(rest.drop_first() =~= all.skip(i + 1));
        }
        match netstat_line(lines[i].as_str()) {
            Err(()) => {
                proof {
                    assert(spec_netstat_rows(rest) is None);
                }
                return None;
            },
            Ok(Some(e)) => {
                let ghost old_out = udp_views(out@);
                out.push(e);
                proof {
                    assert(udp_views(out@) =~= old_out + seq![e@]);
                    if spec_netstat_rows(all) is Some {
                        assert(old_out + (seq![e@] + spec_netstat_rows(rest.drop_first()).unwrap())
                            =~= udp_views(out@) + spec_netstat_rows(rest.drop_first()).unwrap());
                    }
                }
            },
            Ok(None) => {},
        }
        i = i + 1;
    }
    proof {
        assert(all.skip(i as int) =~= Seq::<Seq<char>>::empty());
        if spec_netstat_rows(all) is Some {
            assert(udp_views(out@) + Seq::<UdpRowV>::empty() =~= udp_views(out@));
        }
    }
    if out.len() == 0 {
        None
    } else {
        Some(out)
    }
}

// ---------------------------------------------------------------------------
// The throttled UDP cache
// ---------------------------------------------------------------------------

/// How long cached UDP topology stays fresh, in milliseconds.
pub const UDP_CACHE_DURATION_MS: u64 = 5000;

/// Cached UDP topology with its staleness clock. The underlying scan
/// spawns an external diagnostic command, so it is refreshed only when
/// `needs_refresh` says the cache has gone stale; reads in between serve
/// the previous topology.
pub struct UdpPortCache {
    /// The cached rows.
    pub rows: Vec<UdpCacheEntry>,
    /// When the cache was last refreshed (milliseconds).
    pub last_refresh_ms: u64,
    /// Whether any refresh has happened yet; a fresh cache always wants
    /// an initial refresh.
    pub primed: bool,
}

impl UdpPortCache {
    /// Whether a read at `now_ms` must re-run the underlying scan.
    pub open spec fn spec_needs_refresh(self, now_ms: u64) -> bool {
        !self.primed || now_ms >= self.last_refresh_ms + UDP_CACHE_DURATION_MS
    }

    /// An empty cache that wants an initial refresh.
    pub fn new() -> (r: Self)
        ensures
            !r.primed,
            r.rows@.len() == 0,
    {
        UdpPortCache { rows: Vec::new(), last_refresh_ms: 0, primed: false }
    }

    /// Whether a read at `now_ms` must re-run the underlying scan: never
    /// within `UDP_CACHE_DURATION_MS` of the previous refresh.
    pub fn needs_refresh(&self, now_ms: u64) -> (r: bool)
        ensures
            r == self.spec_needs_refresh(now_ms),
    {
        if !self.primed {
            true
        } else if now_ms >= self.last_refresh_ms {
            now_ms - self.last_refresh_ms >= UDP_CACHE_DURATION_MS
        } else {
            false
        }
    }

    /// The rows a refresh leaves in the cache: the primary (lsof) scan's
    /// output when it ran; else the secondary (netstat) scan's when it
    /// yielded anything; else the previous rows, never cleared on a
    /// failed refresh.
    pub open spec fn spec_refreshed_rows(
        old_rows: Seq<UdpRowV>,
        lsof_output: Option<Seq<char>>,
        netstat_output: Option<Seq<char>>,
    ) -> Seq<UdpRowV> {
        match lsof_output {
            Some(t) => spec_parse_udp_lsof(t),
            None => match netstat_output {
                Some(t) => match spec_parse_udp_netstat(t) {
                    Some(rows) => rows,
                    None => old_rows,
                },
                None => old_rows,
            },
        }
    }

    /// Apply one refresh attempt at `now_ms`. Each argument holds the
    /// captured output of the respective diagnostic command, or `None`
    /// where it could not be run; the secondary is consulted only when
    /// the primary is absent.
    pub fn apply_refresh(
        &mut self,
        now_ms: u64,
        lsof_output: Option<&str>,
        netstat_output: Option<&str>,
    )
        ensures
            final(self).primed,
            final(self).last_refresh_ms == now_ms,
            udp_views(final(self).rows@) == Self::spec_refreshed_rows(
                udp_views(old(self).rows@),
                match lsof_output {
                    Some(t) => Some(t@),
                    None => None,
                },
                match netstat_output {
                    Some(t) => Some(t@),
                    None => None,
                },
            ),
    {
        match lsof_output {
            Some(t) => {
                self.rows = parse_udp_lsof(t);
            },
            None => {
                match netstat_output {
                    Some(t) => {
                        match parse_udp_netstat(t) {
                            Some(rows) => {
                                self.rows = rows;
                            },
                            None => {},
                        }
                    },
                    None => {},
                }
            },
        }
        self.last_refresh_ms = now_ms;
        self.primed = true;
    }
}

// ---------------------------------------------------------------------------
// Process directory snapshots
// ---------------------------------------------------------------------------

/// Per-process statistics as the platform reports them: the CPU reading is
/// carried as the raw bit pattern of its 32-bit float, decoded by verified
/// code.
pub struct ProcessRaw {
    pub name: String,
    pub cpu_bits: u32,
    pub memory: u64,
    pub has_parent: bool,
}

/// Per-process statistics joined against port entries.
#[derive(Debug)]
pub struct ProcessInfo {
    pub name: String,
    /// CPU usage in hundredths of a percent.
    pub cpu_usage: u32,
    pub memory: u64,
    pub has_parent: bool,
}

/// The mathematical shape of a `ProcessInfo`.
pub struct ProcessInfoV {
    pub name: Seq<char>,
    pub cpu_usage: u32,
    pub memory: u64,
    pub has_parent: bool,
}

impl View for ProcessInfo {
    type V = ProcessInfoV;

    open spec fn view(&self) -> ProcessInfoV {
        ProcessInfoV {
            name: self.name@,
            cpu_usage: self.cpu_usage,
            memory: self.memory,
            has_parent: self.has_parent,
        }
    }
}

pub open spec fn dir_view(d: Seq<(u32, ProcessInfo)>) -> Seq<(u32, ProcessInfoV)> {
    d.map_values(|p: (u32, ProcessInfo)| (p.0, p.1@))
}

/// The number of hundredths of a percent in an IEEE 754 single-precision
/// CPU percentage, truncated, saturating at `u32::MAX`. A negative or NaN
/// reading (neither of which exceeds the zombie threshold under float
/// comparison) maps to 0; an infinite one saturates.
pub open spec fn spec_cpu_centi(bits: u32) -> u32 {
    let exponent = (bits >> 23u32) & 0xff;
    let fraction = (bits & 0x7f_ffff) as nat;
    if bits >= 0x8000_0000 {
        0u32
    } else if exponent == 0xff {
        if fraction != 0 {
            0u32
        } else {
            u32::MAX
        }
    } else {
        let significand: nat = if exponent == 0 {
            fraction
        } else {
            fraction + 0x80_0000
        };
        let scaled: nat = significand * 100;
        let value: nat = if exponent >= 150 {
            scaled * pow2((exponent - 150) as nat)
        } else {
            scaled / pow2((150 - exponent) as nat)
        };
        if value > u32::MAX {
            u32::MAX
        } else {
            value as u32
        }
    }
}

/// Decode a CPU percentage from its 32-bit float encoding into hundredths
/// of a percent.
pub fn cpu_centi_of_bits(bits: u32) -> (r: u32)
    ensures
        r == spec_cpu_centi(bits),
{
    let exponent = (bits >> 23u32) & 0xff;
    let fraction = (bits & 0x7f_ffff) as u64;
    if bits >= 0x8000_0000 {
        return 0u32;
    }
    if exponent == 0xff {
        if fraction != 0 {
            return 0u32;
        }
        return u32::MAX;
    }
    proof {
        assert((bits & 0x7f_ffff) < 0x80_0000 && ((bits >> 23u32) & 0xff) < 0x100) by (bit_vector);
    }
    let significand: u64 = if exponent == 0 {
        fraction
    } else {
        fraction + 0x80_0000
    };
    let scaled: u64 = significand * 100;
    proof {
        assert(scaled < 0x1_0000_0000u64);
        lemma2_to64();
    }
    if exponent >= 150 {
        let sh = exponent - 150;
        let ghost value = (scaled as nat) * pow2(sh as nat);
        if sh >= 32 {
            proof {
                lemma_pow2_strictly_increases(31, sh as nat);
                assert(scaled >= 0x80_0000 * 100);
                assert(value > u32::MAX) by (nonlinear_arith)
                    requires
                        value == (scaled as nat) * pow2(sh as nat),
                        scaled >= 0x80_0000 * 100,
                        pow2(sh as nat) > pow2(31),
                        pow2(31) == 0x8000_0000,
                ;
            }
            u32::MAX
        } else {
            proof {
                lemma_pow2_strictly_increases(sh as nat, 32);
                assert(value <= u64::MAX) by (nonlinear_arith)
                    requires
                        value == (scaled as nat) * pow2(sh as nat),
                        scaled <= 0xffff_ffffu64,
                        pow2(sh as nat) <= 0xffff_ffff,
                ;
                lemma_u64_shl_is_mul(scaled, sh as u64);
            }
            let v = scaled << (sh as u64);
            if v > u32::MAX as u64 {
                u32::MAX
            } else {
                v as u32
            }
        }
    } else {
        let sh = 150 - exponent;
        let ghost value = (scaled as nat) / pow2(sh as nat);
        if sh >= 64 {
            proof {
                lemma_pow2_strictly_increases(32, sh as nat);
                assert(scaled < pow2(sh as nat));
                assert(value == 0) by {
                    vstd::arithmetic::div_mod::lemma_basic_div(
                        scaled as int,
                        pow2(sh as nat) as int,
                    );
                }
            }
            0u32
        } else {
            proof {
                lemma_u64_shr_is_div(scaled, sh as u64);
            }
            let v = scaled >> (sh as u64);
            proof {
                vstd::arithmetic::power2::lemma_pow2_pos(sh as nat);
                vstd::arithmetic::div_mod::lemma_div_nonincreasing(
                    scaled as int,
                    pow2(sh as nat) as int,
                );
            }
            if v > u32::MAX as u64 {
                u32::MAX
            } else {
                v as u32
            }
        }
    }
}

/// The directory entry a raw snapshot row becomes.
pub open spec fn spec_directory_entry(p: (u32, ProcessRaw)) -> (u32, ProcessInfoV) {
    (
        p.0,
        ProcessInfoV {
            name: p.1.name@,
            cpu_usage: spec_cpu_centi(p.1.cpu_bits),
            memory: p.1.memory,
            has_parent: p.1.has_parent,
        },
    )
}

/// Decode a raw process snapshot into the directory shape.
pub fn build_directory(raw: Vec<(u32, ProcessRaw)>) -> (r: Vec<(u32, ProcessInfo)>)
    ensures
        dir_view(r@) == raw@.map_values(|p: (u32, ProcessRaw)| spec_directory_entry(p)),
{
    let mut r: Vec<(u32, ProcessInfo)> = Vec::new();
    let mut i: usize = 0;
    let ghost target = raw@.map_values(|p: (u32, ProcessRaw)| spec_directory_entry(p));
    while i < raw.len()
        invariant
            0 <= i <= raw@.len(),
            target == raw@.map_values(|p: (u32, ProcessRaw)| spec_directory_entry(p)),
            dir_view(r@) =~= target.take(i as int),
        decreases raw@.len() - i,
    {
        let p = &raw[i];
        let info = ProcessInfo {
            name: p.1.name.clone(),
            cpu_usage: cpu_centi_of_bits(p.1.cpu_bits),
            memory: p.1.memory,
            has_parent: p.1.has_parent,
        };
        let ghost old_r = r@;
        r.push((p.0, info));
        proof {
            assert(*p == raw@[i as int]);
            assert(info@ == spec_directory_entry(raw@[i as int]).1);
            assert(target[i as int] == spec_directory_entry(raw@[i as int]));
            assert(r@ == old_r.push((p.0, info)));
            assert(dir_view(old_r).len() == old_r.len());
            assert(old_r.len() == i);
            assert forall|k: int| 0 <= k < r@.len() implies dir_view(r@)[k] == target.take(
                i + 1,
            )[k] by {
                assert(dir_view(r@)[k] == (r@[k].0, r@[k].1@));
                if k < i {
                    assert(r@[k] == old_r[k]);
                    assert(dir_view(old_r)[k] == (old_r[k].0, old_r[k].1@));
                    assert(dir_view(old_r)[k] == target.take(i as int)[k]);
                } else {
                    assert(r@[k] == (p.0, info));
                }
            }
            assert(dir_view(r@) =~= target.take(i + 1));
        }
        i = i + 1;
    }
    proof {
        assert(target.take(i as int) =~= target);
    }
    r
}

/// First directory entry with the given process id, if any.
pub open spec fn spec_dir_lookup(d: Seq<(u32, ProcessInfoV)>, pid: u32) -> Option<ProcessInfoV>
    decreases d.len(),
{
    if d.len() == 0 {
        None
    } else if d[0].0 == pid {
        Some(d[0].1)
    } else {
        spec_dir_lookup(d.drop_first(), pid)
    }
}

proof fn lemma_dir_lookup_at(d: Seq<(u32, ProcessInfoV)>, pid: u32, i: int)
    requires
        0 <= i < d.len(),
        d[i].0 == pid,
        forall|k: int| 0 <= k < i ==> d[k].0 != pid,
    ensures
        spec_dir_lookup(d, pid) == Some(d[i].1),
    decreases i,
{
    if i == 0 {
    } else {
        let t = d.drop_first();
        assert(forall|k: int| 0 <= k < i - 1 ==> t[k] == d[k + 1] && t[k].0 != pid);
        assert(t[i - 1] == d[i]);
        lemma_dir_lookup_at(t, pid, i - 1);
    }
}

proof fn lemma_dir_lookup_none(d: Seq<(u32, ProcessInfoV)>, pid: u32)
    requires
        forall|k: int| 0 <= k < d.len() ==> d[k].0 != pid,
    ensures
        spec_dir_lookup(d, pid) is None,
    decreases d.len(),
{
    if d.len() > 0 {
        let t = d.drop_first();
        assert(forall|k: int| 0 <= k < t.len() ==> t[k] == d[k + 1] && t[k].0 != pid);
        lemma_dir_lookup_none(t, pid);
    }
}

/// Index of the first directory entry for `pid`, if any.
fn lookup_process(directory: &Vec<(u32, ProcessInfo)>, pid: u32) -> (r: Option<usize>)
    ensures
        match r {
            Some(i) => i < directory@.len() && spec_dir_lookup(dir_view(directory@), pid) == Some(
                directory@[i as int].1@,
            ),
            None => spec_dir_lookup(dir_view(directory@), pid) is None,
        },
{
    let mut i: usize = 0;
    while i < directory.len()
        invariant
            0 <= i <= directory@.len(),
            forall|k: int| 0 <= k < i ==> directory@[k].0 != pid,
        decreases directory@.len() - i,
    {
        if directory[i].0 == pid {
            proof {
                assert(dir_view(directory@)[i as int] == (
                    directory@[i as int].0,
                    directory@[i as int].1@,
                ));
                assert(forall|k: int|
                    0 <= k < i ==> dir_view(directory@)[k].0 == directory@[k].0);
                lemma_dir_lookup_at(dir_view(directory@), pid, i as int);
            }
            return Some(i);
        }
        i = i + 1;
    }
    proof {
        assert(forall|k: int|
            0 <= k < directory@.len() ==> dir_view(directory@)[k].0 == directory@[k].0);
        lemma_dir_lookup_none(dir_view(directory@), pid);
    }
    None
}

// ---------------------------------------------------------------------------
// TCP socket rows
// ---------------------------------------------------------------------------

/// One socket as the platform enumeration reports it, reduced to plain
/// values.
#[derive(Debug)]
pub struct SocketRow {
    pub port: u16,
    pub pid: u32,
    pub process_name: String,
    pub is_tcp: bool,
    pub listening: bool,
}

/// The mathematical shape of a `SocketRow`.
pub struct SocketRowV {
    pub port: u16,
    pub pid: u32,
    pub process_name: Seq<char>,
    pub is_tcp: bool,
    pub listening: bool,
}

impl View for SocketRow {
    type V = SocketRowV;

    open spec fn view(&self) -> SocketRowV {
        SocketRowV {
            port: self.port,
            pid: self.pid,
            process_name: self.process_name@,
            is_tcp: self.is_tcp,
            listening: self.listening,
        }
    }
}

pub open spec fn socket_views(s: Seq<SocketRow>) -> Seq<SocketRowV> {
    s.map_values(|e: SocketRow| e@)
}

pub open spec fn entry_views(s: Seq<PortEntry>) -> Seq<PortEntryV> {
    s.map_values(|e: PortEntry| e@)
}

// ---------------------------------------------------------------------------
// Reconciliation
// ---------------------------------------------------------------------------

/// The entry a listening TCP socket row becomes: process statistics joined
/// by pid, defaults where the process is gone, zombie rule applied.
pub open spec fn spec_entry_from_tcp(
    row: SocketRowV,
    dir: Seq<(u32, ProcessInfoV)>,
) -> PortEntryV {
    let joined = spec_dir_lookup(dir, row.pid);
    let name = match joined {
        Some(p) => p.name,
        None => row.process_name,
    };
    let cpu = match joined {
        Some(p) => p.cpu_usage,
        None => 0,
    };
    let mem = match joined {
        Some(p) => p.memory,
        None => 0,
    };
    let has_parent = match joined {
        Some(p) => p.has_parent,
        None => true,
    };
    PortEntryV {
        port: row.port,
        protocol: Protocol::Tcp,
        pid: row.pid,
        process_name: name,
        cpu_usage: cpu,
        memory_usage: mem,
        memory_display: spec_format_memory(mem),
        has_parent,
        is_zombie: spec_is_zombie(cpu, has_parent),
    }
}

/// The entry a cached UDP row becomes: the cached name, fresh statistics
/// joined by pid, defaults where the process is gone.
pub open spec fn spec_entry_from_udp(row: UdpRowV, dir: Seq<(u32, ProcessInfoV)>) -> PortEntryV {
    let joined = spec_dir_lookup(dir, row.pid);
    let cpu = match joined {
        Some(p) => p.cpu_usage,
        None => 0,
    };
    let mem = match joined {
        Some(p) => p.memory,
        None => 0,
    };
    let has_parent = match joined {
        Some(p) => p.has_parent,
        None => true,
    };
    PortEntryV {
        port: row.port,
        protocol: Protocol::Udp,
        pid: row.pid,
        process_name: row.process_name,
        cpu_usage: cpu,
        memory_usage: mem,
        memory_display: spec_format_memory(mem),
        has_parent,
        is_zombie: spec_is_zombie(cpu, has_parent),
    }
}

/// The mapper a TCP socket row passes through: only listening TCP sockets
/// contribute an entry.
pub open spec fn tcp_mapper(dir: Seq<(u32, ProcessInfoV)>) -> spec_fn(SocketRowV) -> Option<
    PortEntryV,
> {
    |row: SocketRowV|
        if row.is_tcp && row.listening {
            Some(spec_entry_from_tcp(row, dir))
        } else {
            None
        }
}

/// The unsorted reconciliation baseline: entries from listening TCP
/// sockets, then entries from the cached UDP topology.
pub open spec fn spec_baseline(
    tcp: Seq<SocketRowV>,
    udp: Seq<UdpRowV>,
    dir: Seq<(u32, ProcessInfoV)>,
) -> Seq<PortEntryV> {
    tcp.filter_map(tcp_mapper(dir)) + udp.map_values(|row: UdpRowV| spec_entry_from_udp(row, dir))
}

/// The composite ordering of the reconciled list: ascending port, TCP
/// before UDP on the same port, higher memory use first among those.
pub open spec fn spec_proto_rank(p: Protocol) -> int {
    match p {
        Protocol::Tcp => 0,
        Protocol::Udp => 1,
    }
}

pub open spec fn spec_entry_le(a: PortEntryV, b: PortEntryV) -> bool {
    a.port < b.port || (a.port == b.port && spec_proto_rank(a.protocol) < spec_proto_rank(
        b.protocol,
    )) || (a.port == b.port && a.protocol == b.protocol && a.memory_usage >= b.memory_usage)
}

pub proof fn lemma_entry_le_total(a: PortEntryV, b: PortEntryV)
    ensures
        spec_entry_le(a, b) || spec_entry_le(b, a),
{
}

pub proof fn lemma_entry_le_trans(a: PortEntryV, b: PortEntryV, c: PortEntryV)
    requires
        spec_entry_le(a, b),
        spec_entry_le(b, c),
    ensures
        spec_entry_le(a, c),
{
}

fn entry_le(a: &PortEntry, b: &PortEntry) -> (r: bool)
    ensures
        r == spec_entry_le(a@, b@),
{
    if a.port != b.port {
        a.port < b.port
    } else {
        let ra: u8 = match a.protocol {
            Protocol::Tcp => 0,
            Protocol::Udp => 1,
        };
        let rb: u8 = match b.protocol {
            Protocol::Tcp => 0,
            Protocol::Udp => 1,
        };
        if ra != rb {
            ra < rb
        } else {
            a.memory_usage >= b.memory_usage
        }
    }
}

/// Index of a least element of `v` under the composite ordering.
fn min_entry_index(v: &Vec<PortEntry>) -> (m: usize)
    requires
        v@.len() > 0,
    ensures
        m < v@.len(),
        forall|k: int| 0 <= k < v@.len() ==> spec_entry_le(v@[m as int]@, v@[k]@),
{
    let mut m: usize = 0;
    let mut k: usize = 1;
    while k < v.len()
        invariant
            0 <= m < k <= v@.len(),
            forall|j: int| 0 <= j < k ==> spec_entry_le(v@[m as int]@, v@[j]@),
        decreases v@.len() - k,
    {
        if !entry_le(&v[m], &v[k]) {
            proof {
                lemma_entry_le_total(v@[m as int]@, v@[k as int]@);
                assert forall|j: int| 0 <= j < k + 1 implies spec_entry_le(
                    v@[k as int]@,
                    v@[j]@,
                ) by {
                    if j < k {
                        lemma_entry_le_trans(v@[k as int]@, v@[m as int]@, v@[j]@);
                    }
                }
            }
            m = k;
        }
        k = k + 1;
    }
    m
}

/// Sort entries by the composite key: ascending port, TCP before UDP,
/// higher memory first. The result holds exactly the input entries.
pub fn sort_port_entries(input: Vec<PortEntry>) -> (r: Vec<PortEntry>)
    ensures
        r@.to_multiset() == input@.to_multiset(),
        forall|i: int, j: int|
            0 <= i < j < r@.len() ==> spec_entry_le(#[trigger] r@[i]@, #[trigger] r@[j]@),
{
    broadcast use vstd::seq_lib::group_to_multiset_ensures;
    broadcast use vstd::multiset::group_multiset_axioms;

    let mut rest = input;
    let mut out: Vec<PortEntry> = Vec::new();
    proof {
        assert(out@.to_multiset().add(rest@.to_multiset()) =~= rest@.to_multiset());
    }
    while rest.len() > 0
        invariant
            out@.to_multiset().add(rest@.to_multiset()) == input@.to_multiset(),
            forall|i: int, j: int|
                0 <= i < j < out@.len() ==> spec_entry_le(#[trigger] out@[i]@, #[trigger] out@[j]@),
            forall|i: int, j: int|
                0 <= i < out@.len() && 0 <= j < rest@.len() ==> spec_entry_le(
                    #[trigger] out@[i]@,
                    #[trigger] rest@[j]@,
                ),
        decreases rest@.len(),
    {
        let m = min_entry_index(&rest);
        let ghost old_rest = rest@;
        let ghost old_out = out@;
        let x = rest.remove(m);
        out.push(x);
        proof {
            assert(out@ =~= old_out.push(x));
            assert(rest@ =~= old_rest.remove(m as int));
            vstd::seq_lib::to_multiset_remove(old_rest, m as int);
            vstd::seq_lib::to_multiset_build(old_out, x);
            assert(out@.to_multiset() =~= old_out.to_multiset().insert(x));
            assert(out@.to_multiset().add(rest@.to_multiset()) =~= old_out.to_multiset().add(
                old_rest.to_multiset(),
            )) by {
                assert(old_rest.to_multiset().count(x) > 0) by {
                    assert(old_rest[m as int] == x);
                    assert(old_rest.contains(x));
                    vstd::seq_lib::to_multiset_contains(old_rest, x);
                }
            };
            assert forall|i: int, j: int|
                0 <= i < out@.len() && 0 <= j < rest@.len() implies spec_entry_le(
                #[trigger] out@[i]@,
                #[trigger] rest@[j]@,
            ) by {
                let orig_j: int = if j < m {
                    j
                } else {
                    j + 1
                };
                assert(rest@[j] == old_rest[orig_j]);
                if i < old_out.len() {
                    assert(out@[i] == old_out[i]);
                } else {
                    assert(out@[i] == x);
                }
            }
        }
    }
    proof {
        assert(rest@.to_multiset() =~= Multiset::<PortEntry>::empty());
        assert(out@.to_multiset().add(Multiset::<PortEntry>::empty()) =~= out@.to_multiset());
    }
    out
}

/// If two sequences hold the same elements, their images under a map hold
/// the same elements.
pub proof fn lemma_map_values_to_multiset_eq<A, B>(s1: Seq<A>, s2: Seq<A>, f: spec_fn(A) -> B)
    requires
        s1.to_multiset() == s2.to_multiset(),
    ensures
        s1.map_values(f).to_multiset() == s2.map_values(f).to_multiset(),
    decreases s1.len(),
{
    broadcast use vstd::seq_lib::group_to_multiset_ensures;
    broadcast use vstd::multiset::group_multiset_axioms;

    if s1.len() == 0 {
        vstd::seq_lib::to_multiset_len(s1);
        vstd::seq_lib::to_multiset_len(s2);
        assert(s2.len() == 0);
        assert(s1.map_values(f) =~= Seq::<B>::empty());
        assert(s2.map_values(f) =~= Seq::<B>::empty());
    } else {
        let a = s1.last();
        let i1 = s1.len() - 1;
        vstd::seq_lib::to_multiset_contains(s1, a);
        vstd::seq_lib::to_multiset_contains(s2, a);
        assert(s1.to_multiset().count(a) > 0) by {
            assert(s1.contains(a));
        }
        assert(s2.contains(a)) by {
            assert(s2.to_multiset().count(a) > 0);
        }
        let j = choose|j: int| 0 <= j < s2.len() && s2[j] == a;
        let s1r = s1.remove(i1);
        let s2r = s2.remove(j);
        vstd::seq_lib::to_multiset_remove(s1, i1);
        vstd::seq_lib::to_multiset_remove(s2, j);
        assert(s1r.to_multiset() == s1.to_multiset().remove(a));
        assert(s2r.to_multiset() == s2.to_multiset().remove(a));
        lemma_map_values_to_multiset_eq(s1r, s2r, f);
        let m1 = s1.map_values(f);
        let m2 = s2.map_values(f);
        assert(s1r.map_values(f) =~= m1.remove(i1));
        assert(s2r.map_values(f) =~= m2.remove(j));
        vstd::seq_lib::to_multiset_remove(m1, i1);
        vstd::seq_lib::to_multiset_remove(m2, j);
        assert(m1.remove(i1).to_multiset() == m1.to_multiset().remove(m1[i1]));
        assert(m2.remove(j).to_multiset() == m2.to_multiset().remove(m2[j]));
        assert(m1[i1] == f(a));
        assert(m2[j] == f(a));
        vstd::seq_lib::to_multiset_contains(m1, f(a));
        vstd::seq_lib::to_multiset_contains(m2, f(a));
        assert(m1.to_multiset().count(f(a)) > 0) by {
            assert(m1.contains(f(a))) by {
                assert(m1[i1] == f(a));
            }
        }
        assert(m2.to_multiset().count(f(a)) > 0) by {
            assert(m2.contains(f(a))) by {
                assert(m2[j] == f(a));
            }
        }
        assert(m1.to_multiset() =~= m2.to_multiset()) by {
            assert(m1.to_multiset().remove(f(a)) == m2.to_multiset().remove(f(a)));
            assert(forall|x: B|
                m1.to_multiset().count(x) == m2.to_multiset().count(x)) by {
                assert forall|x: B| true implies m1.to_multiset().count(x) == m2.to_multiset()
                    .count(x) by {
                    assert(m1.to_multiset().remove(f(a)).count(x) == m2.to_multiset().remove(
                        f(a),
                    ).count(x));
                }
            }
        }
    }
}

/// Build one entry from a listening TCP socket row.
fn make_tcp_entry(row: &SocketRow, directory: &Vec<(u32, ProcessInfo)>) -> (e: PortEntry)
    ensures
        e@ == spec_entry_from_tcp(row@, dir_view(directory@)),
{
    let (name, cpu, mem, has_parent): (String, u32, u64, bool) = match lookup_process(
        directory,
        row.pid,
    ) {
        Some(i) => {
            let p = &directory[i].1;
            (p.name.clone(), p.cpu_usage, p.memory, p.has_parent)
        },
        None => (row.process_name.clone(), 0, 0, true),
    };
    let display = format_memory(mem);
    let is_zombie = cpu > ZOMBIE_CPU_THRESHOLD && !has_parent;
    PortEntry {
        port: row.port,
        protocol: Protocol::Tcp,
        pid: row.pid,
        process_name: name,
        cpu_usage: cpu,
        memory_usage: mem,
        memory_display: display,
        has_parent,
        is_zombie,
    }
}

/// Build one entry from a cached UDP row with fresh statistics.
fn make_udp_entry(row: &UdpCacheEntry, directory: &Vec<(u32, ProcessInfo)>) -> (e: PortEntry)
    ensures
        e@ == spec_entry_from_udp(row@, dir_view(directory@)),
{
    let (cpu, mem, has_parent): (u32, u64, bool) = match lookup_process(directory, row.pid) {
        Some(i) => {
            let p = &directory[i].1;
            (p.cpu_usage, p.memory, p.has_parent)
        },
        None => (0, 0, true),
    };
    let display = format_memory(mem);
    let is_zombie = cpu > ZOMBIE_CPU_THRESHOLD && !has_parent;
    PortEntry {
        port: row.port,
        protocol: Protocol::Udp,
        pid: row.pid,
        process_name: row.process_name.clone(),
        cpu_usage: cpu,
        memory_usage: mem,
        memory_display: display,
        has_parent,
        is_zombie,
    }
}

/// Merge TCP socket rows and cached UDP topology with the process
/// directory into one ordered, zombie-classified entry list.
pub fn reconcile(
    tcp_rows: &Vec<SocketRow>,
    udp_rows: &Vec<UdpCacheEntry>,
    directory: &Vec<(u32, ProcessInfo)>,
) -> (r: Vec<PortEntry>)
    ensures
        entry_views(r@).to_multiset() == spec_baseline(
            socket_views(tcp_rows@),
            udp_views(udp_rows@),
            dir_view(directory@),
        ).to_multiset(),
        forall|i: int, j: int|
            0 <= i < j < r@.len() ==> spec_entry_le(#[trigger] r@[i]@, #[trigger] r@[j]@),
        forall|i: int|
            0 <= i < r@.len() ==> (#[trigger] r@[i]@).is_zombie == spec_is_zombie(
                r@[i]@.cpu_usage,
                r@[i]@.has_parent,
            ),
{
    broadcast use vstd::seq_lib::group_to_multiset_ensures;

    let ghost dirv = dir_view(directory@);
    let ghost tcpv = socket_views(tcp_rows@);
    let ghost udpv = udp_views(udp_rows@);
    let mut entries: Vec<PortEntry> = Vec::new();
    let mut i: usize = 0;
    proof {
        assert(entry_views(entries@) =~= tcpv.take(0).filter_map(tcp_mapper(dirv)));
    }
    while i < tcp_rows.len()
        invariant
            0 <= i <= tcp_rows@.len(),
            dirv == dir_view(directory@),
            tcpv == socket_views(tcp_rows@),
            tcpv.len() == tcp_rows@.len(),
            entry_views(entries@) == tcpv.take(i as int).filter_map(tcp_mapper(dirv)),
        decreases tcp_rows@.len() - i,
    {
        proof {
            tcpv.lemma_filter_map_take_succ(tcp_mapper(dirv), i as int);
            assert(tcpv[i as int] == tcp_rows@[i as int]@);
        }
        let row = &tcp_rows[i];
        if row.is_tcp && row.listening {
            let ghost old_entries = entry_views(entries@);
            let e = make_tcp_entry(row, directory);
            entries.push(e);
            proof {
                assert(entry_views(entries@) =~= old_entries + seq![e@]);
            }
        } else {
            proof {
                assert(entry_views(entries@) + Seq::<PortEntryV>::empty() =~= entry_views(
                    entries@,
                ));
            }
        }
        i = i + 1;
    }
    proof {
        assert(tcpv.take(tcpv.len() as int) =~= tcpv);
    }
    let ghost tcp_base = tcpv.filter_map(tcp_mapper(dirv));
    let mut j: usize = 0;
    proof {
        assert(udpv.take(0).map_values(|row: UdpRowV| spec_entry_from_udp(row, dirv)) =~= Seq::<
            PortEntryV,
        >::empty());
        assert(entry_views(entries@) + Seq::<PortEntryV>::empty() =~= entry_views(entries@));
    }
    while j < udp_rows.len()
        invariant
            0 <= j <= udp_rows@.len(),
            dirv == dir_view(directory@),
            udpv == udp_views(udp_rows@),
            udpv.len() == udp_rows@.len(),
            tcp_base == tcpv.filter_map(tcp_mapper(dirv)),
            tcpv == socket_views(tcp_rows@),
            entry_views(entries@) == tcp_base + udpv.take(j as int).map_values(
                |row: UdpRowV| spec_entry_from_udp(row, dirv),
            ),
        decreases udp_rows@.len() - j,
    {
        let ghost old_entries = entry_views(entries@);
        let e = make_udp_entry(&udp_rows[j], directory);
        entries.push(e);
        proof {
            assert(udpv[j as int] == udp_rows@[j as int]@);
            assert(entry_views(entries@) =~= old_entries + seq![e@]);
            assert(udpv.take(j + 1).map_values(|row: UdpRowV| spec_entry_from_udp(row, dirv))
                =~= udpv.take(j as int).map_values(|row: UdpRowV| spec_entry_from_udp(row, dirv))
                + seq![e@]);
            assert(entry_views(entries@) =~= tcp_base + udpv.take(j + 1).map_values(
                |row: UdpRowV| spec_entry_from_udp(row, dirv),
            ));
        }
        j = j + 1;
    }
    proof {
        assert(udpv.take(udpv.len() as int) =~= udpv);
        assert(entry_views(entries@) == spec_baseline(tcpv, udpv, dirv));
    }
    let ghost pre_sort = entries@;
    let ghost base = entry_views(entries@);
    let ghost tcp_base_g = tcp_base;
    let r = sort_port_entries(entries);
    proof {
        lemma_map_values_to_multiset_eq(r@, pre_sort, |e: PortEntry| e@);
        assert(entry_views(r@).to_multiset() == base.to_multiset());
        assert forall|i: int|
            0 <= i < r@.len() implies (#[trigger] r@[i]@).is_zombie == spec_is_zombie(
            r@[i]@.cpu_usage,
            r@[i]@.has_parent,
        ) by {
            let e = r@[i]@;
            assert(entry_views(r@)[i] == e);
            assert(entry_views(r@).contains(e));
            vstd::seq_lib::to_multiset_contains(entry_views(r@), e);
            vstd::seq_lib::to_multiset_contains(base, e);
            assert(entry_views(r@).to_multiset().count(e) > 0);
            assert(base.to_multiset().count(e) > 0);
            assert(base.contains(e));
            let k = choose|k: int| 0 <= k < base.len() && base[k] == e;
            if k < tcp_base_g.len() {
                assert(tcp_base_g[k] == e);
                assert(tcp_base_g.contains(e));
                tcpv.lemma_filter_map_contains(tcp_mapper(dirv), e);
                let t = choose|t: SocketRowV|
                    #[trigger] tcpv.contains(t) && tcp_mapper(dirv)(t) == Some(e);
                assert(e == spec_entry_from_tcp(t, dirv));
            } else {
                let u = udpv.map_values(|row: UdpRowV| spec_entry_from_udp(row, dirv));
                assert(base[k] == u[k - tcp_base_g.len()]);
                assert(e == spec_entry_from_udp(udpv[k - tcp_base_g.len()], dirv));
            }
        }
    }
    r
}

// ---------------------------------------------------------------------------
// Platform wrappers
// ---------------------------------------------------------------------------

#[verifier::external_type_specification]
#[verifier::external_body]
pub struct ExSystem(sysinfo::System);

/// Relies on `sysinfo::System::new`: a fresh handle holding no process
/// information until it is refreshed.
#[verifier::external_body]
fn new_system() -> sysinfo::System {
    sysinfo::System::new()
}

/// Relies on `sysinfo::System::refresh_processes_specifics` with a refresh
/// kind of CPU and memory only: refreshes every process's CPU and memory
/// readings and drops processes that have exited.
#[verifier::external_body]
fn refresh_cpu_mem(sys: &mut sysinfo::System) {
    sys.refresh_processes_specifics(
        sysinfo::ProcessesToUpdate::All,
        true,
        sysinfo::ProcessRefreshKind::nothing().with_cpu().with_memory(),
    );
}

/// Relies on `sysinfo::System::refresh_processes_specifics` over a single
/// pid: refreshes that process's record and drops it if it has exited.
#[verifier::external_body]
fn refresh_one_pid(sys: &mut sysinfo::System, pid: u32) {
    sys.refresh_processes_specifics(
        sysinfo::ProcessesToUpdate::Some(&[sysinfo::Pid::from_u32(pid)]),
        true,
        sysinfo::ProcessRefreshKind::nothing(),
    );
}

/// Relies on `sysinfo::System::processes` and the per-process accessors
/// `name`, `cpu_usage` (taken as its raw float bits), `memory` and
/// `parent`: one row of plain values per known process.
#[verifier::external_body]
fn snapshot_processes(sys: &sysinfo::System) -> (r: Vec<(u32, ProcessRaw)>) {
    sys.processes().iter().map(
        |(pid, proc)| (
            pid.as_u32(),
            ProcessRaw {
                name: proc.name().to_string_lossy().into_owned(),
                cpu_bits: proc.cpu_usage().to_bits(),
                memory: proc.memory(),
                has_parent: proc.parent().is_some(),
            },
        ),
    ).collect()
}

/// Relies on `sysinfo::System::process`, `Process::name` and
/// `Process::kill`: `None` when no such process is known, otherwise the
/// process name and whether the termination signal was delivered.
#[verifier::external_body]
fn kill_by_pid(sys: &sysinfo::System, pid: u32) -> (r: Option<(String, bool)>) {
    sys.process(sysinfo::Pid::from_u32(pid)).map(
        |proc| (proc.name().to_string_lossy().into_owned(), proc.kill()),
    )
}

/// Relies on `sysinfo::System::process`: whether the pid is currently
/// known to the handle.
#[verifier::external_body]
fn process_known(sys: &sysinfo::System, pid: u32) -> (r: bool) {
    sys.process(sysinfo::Pid::from_u32(pid)).is_some()
}

/// Relies on `listeners::get_all` and the public fields of
/// `listeners::Listener`: one plain-value row per socket the platform
/// reports, `None` when the enumeration itself fails.
#[verifier::external_body]
fn all_socket_rows() -> (r: Option<Vec<SocketRow>>) {
    match listeners::get_all() {
        Ok(ls) => Some(
            ls.into_iter().map(
                |l| SocketRow {
                    port: l.socket.port(),
                    pid: l.process.pid,
                    process_name: l.process.name,
                    is_tcp: matches!(l.protocol, listeners::Protocol::TCP),
                    listening: matches!(l.state, listeners::SocketState::Listen),
                },
            ).collect(),
        ),
        Err(_) => None,
    }
}

// ---------------------------------------------------------------------------
// The scanner
// ---------------------------------------------------------------------------

/// Scanner responsible for gathering port and process information.
pub struct Scanner {
    /// Platform process-information handle.
    system: sysinfo::System,
    /// The most recent process directory snapshot.
    directory: Vec<(u32, ProcessInfo)>,
    /// Cached UDP topology.
    udp_cache: UdpPortCache,
}

impl Scanner {
    /// The current UDP cache, as contracts speak of it.
    pub closed spec fn spec_udp_cache(&self) -> UdpPortCache {
        self.udp_cache
    }

    /// The current directory snapshot, as contracts speak of it.
    pub closed spec fn spec_directory(&self) -> Seq<(u32, ProcessInfo)> {
        self.directory@
    }

    /// Create a new scanner with a populated process directory and an
    /// unprimed UDP cache, so that the first read asks for a refresh.
    pub fn new() -> (r: Scanner)
        ensures
            !r.spec_udp_cache().primed,
            r.spec_udp_cache().rows@.len() == 0,
    {
        let mut system = new_system();
        refresh_cpu_mem(&mut system);
        let directory = build_directory(snapshot_processes(&system));
        Scanner { system, directory, udp_cache: UdpPortCache::new() }
    }

    /// Number of processes in the current directory snapshot.
    pub fn directory_len(&self) -> (r: usize)
        ensures
            r == self.spec_directory().len(),
    {
        self.directory.len()
    }

    /// The cached UDP topology rows.
    pub fn udp_rows(&self) -> (r: &Vec<UdpCacheEntry>)
        ensures
            r@ == self.spec_udp_cache().rows@,
    {
        &self.udp_cache.rows
    }

    /// Whether a scan at `now_ms` would re-run the expensive UDP
    /// enumeration.
    pub fn udp_refresh_due(&self, now_ms: u64) -> (r: bool)
        ensures
            r == self.spec_udp_cache().spec_needs_refresh(now_ms),
    {
        self.udp_cache.needs_refresh(now_ms)
    }

    /// Feed the captured output of the UDP diagnostic commands into the
    /// cache. The caller runs them only when `udp_refresh_due` says so.
    pub fn refresh_udp(
        &mut self,
        now_ms: u64,
        lsof_output: Option<&str>,
        netstat_output: Option<&str>,
    )
        ensures
            final(self).spec_udp_cache().primed,
            final(self).spec_udp_cache().last_refresh_ms == now_ms,
            udp_views(final(self).spec_udp_cache().rows@) == UdpPortCache::spec_refreshed_rows(
                udp_views(old(self).spec_udp_cache().rows@),
                match lsof_output {
                    Some(t) => Some(t@),
                    None => None,
                },
                match netstat_output {
                    Some(t) => Some(t@),
                    None => None,
                },
            ),
            final(self).spec_directory() == old(self).spec_directory(),
    {
        self.udp_cache.apply_refresh(now_ms, lsof_output, netstat_output);
    }

    /// One reconciliation pass: refresh the process directory, enumerate
    /// listening TCP sockets, join both them and the cached UDP topology
    /// against the directory, sort by the composite key and classify
    /// zombies. The UDP cache is not touched.
    pub fn scan(&mut self) -> (r: Vec<PortEntry>)
        ensures
            forall|i: int, j: int|
                0 <= i < j < r@.len() ==> spec_entry_le(#[trigger] r@[i]@, #[trigger] r@[j]@),
            forall|i: int|
                0 <= i < r@.len() ==> (#[trigger] r@[i]@).is_zombie == spec_is_zombie(
                    r@[i]@.cpu_usage,
                    r@[i]@.has_parent,
                ),
            final(self).spec_udp_cache() == old(self).spec_udp_cache(),
            exists|tcp: Seq<SocketRowV>|
                entry_views(r@).to_multiset() == spec_baseline(
                    tcp,
                    udp_views(final(self).spec_udp_cache().rows@),
                    dir_view(final(self).spec_directory()),
                ).to_multiset(),
    {
        refresh_cpu_mem(&mut self.system);
        self.directory = build_directory(snapshot_processes(&self.system));
        let tcp_rows = match all_socket_rows() {
            Some(rows) => rows,
            None => Vec::new(),
        };
        let r = reconcile(&tcp_rows, &self.udp_cache.rows, &self.directory);
        proof {
            let tcp = socket_views(tcp_rows@);
            assert(entry_views(r@).to_multiset() == spec_baseline(
                tcp,
                udp_views(self.spec_udp_cache().rows@),
                dir_view(self.spec_directory()),
            ).to_multiset());
        }
        r
    }

    /// Kill a process by pid; a thin wrapper over the standalone
    /// `kill_process`.
    pub fn kill_process(&mut self, pid: u32) -> (r: Result<(), KillError>)
        ensures
            match r {
                Ok(()) => true,
                Err(e) => e.spec_pid() == pid,
            },
    {
        kill_process(pid)
    }
}

impl Default for Scanner {
    fn default() -> (r: Scanner)
        ensures
            !r.spec_udp_cache().primed,
            r.spec_udp_cache().rows@.len() == 0,
    {
        Scanner::new()
    }
}

// ---------------------------------------------------------------------------
// Local process termination
// ---------------------------------------------------------------------------

/// Why a local kill failed.
#[derive(Debug)]
pub enum KillError {
    /// No process with this pid was found; it may have already exited.
    NotFound { pid: u32 },
    /// The termination signal was refused, typically for lack of
    /// privilege.
    PermissionDenied { pid: u32, name: String },
}

impl KillError {
    pub open spec fn spec_pid(&self) -> u32 {
        match self {
            KillError::NotFound { pid } => *pid,
            KillError::PermissionDenied { pid, name: _ } => *pid,
        }
    }

    /// The human-readable message carried to the caller.
    pub open spec fn spec_message(&self) -> Seq<char> {
        match self {
            KillError::NotFound { pid } => "Process with PID "@ + spec_dec_str(*pid as nat)
                + " not found. It may have already exited."@,
            KillError::PermissionDenied { pid, name } => "Failed to kill process "@ + name@
                + " (PID: "@ + spec_dec_str(*pid as nat)
                + "). Permission denied - try running with sudo."@,
        }
    }

    /// Render the failure for display.
    pub fn message(&self) -> (r: String)
        ensures
            r@ == self.spec_message(),
    {
        match self {
            KillError::NotFound { pid } => {
                let r = String::from_str("Process with PID ").concat(
                    u64_to_string(*pid as u64).as_str(),
                ).concat(" not found. It may have already exited.");
                proof {
                    assert(r@ =~= self.spec_message());
                }
                r
            },
            KillError::PermissionDenied { pid, name } => {
                let r = String::from_str("Failed to kill process ").concat(name.as_str()).concat(
                    " (PID: ",
                ).concat(u64_to_string(*pid as u64).as_str()).concat(
                    "). Permission denied - try running with sudo.",
                );
                proof {
                    assert(r@ =~= self.spec_message());
                }
                r
            },
        }
    }
}

/// The typed outcome of one termination attempt: no process found, a
/// refused signal, or success.
pub fn interpret_kill_outcome(pid: u32, outcome: Option<(String, bool)>) -> (r: Result<
    (),
    KillError,
>)
    ensures
        r == (match outcome {
            None => Err::<(), KillError>(KillError::NotFound { pid }),
            Some((name, false)) => Err::<(), KillError>(
                KillError::PermissionDenied { pid, name },
            ),
            Some((name, true)) => Ok::<(), KillError>(()),
        }),
{
    match outcome {
        None => Err(KillError::NotFound { pid }),
        Some((name, delivered)) => {
            if delivered {
                Ok(())
            } else {
                Err(KillError::PermissionDenied { pid, name })
            }
        },
    }
}

/// Kill a process by pid: refresh its record, fail with a not-found error
/// when it is gone, a permission error when the signal is refused, and
/// succeed otherwise.
pub fn kill_process(pid: u32) -> (r: Result<(), KillError>)
    ensures
        match r {
            Ok(()) => true,
            Err(e) => e.spec_pid() == pid,
        },
{
    let mut system = new_system();
    refresh_one_pid(&mut system, pid);
    let outcome = kill_by_pid(&system, pid);
    interpret_kill_outcome(pid, outcome)
}

/// How long a cooperating process is given to exit after the graceful
/// signal, before the forced kill, in milliseconds.
pub const FORCE_KILL_GRACE_MS: u64 = 100;

/// First phase of a forced kill: send the graceful termination signal.
/// On success the caller waits `FORCE_KILL_GRACE_MS`, then asks
/// `force_kill_still_running` whether to escalate.
pub fn force_kill_begin(pid: u32) -> (r: Result<sysinfo::System, KillError>)
    ensures
        r matches Err(e) ==> e.spec_pid() == pid,
{
    let mut system = new_system();
    refresh_one_pid(&mut system, pid);
    let outcome = kill_by_pid(&system, pid);
    match interpret_kill_outcome(pid, outcome) {
        Ok(()) => Ok(system),
        Err(e) => Err(e),
    }
}

/// Second phase of a forced kill: after the grace period, whether the
/// process still exists and so needs the hard kill.
pub fn force_kill_still_running(system: &mut sysinfo::System, pid: u32) -> (r: bool) {
    refresh_one_pid(system, pid);
    process_known(system, pid)
}

} // verus!
