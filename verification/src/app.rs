//! Core data model: port entries, protocols, zombie classification, and the
//! presentation-facing application state.

use vstd::multiset::Multiset;
use vstd::prelude::*;

use crate::text::{spec_contains_seq, spec_dec_str, str_contains, u64_to_string};

verus! {

/// CPU threshold for zombie detection, in hundredths of a percent (40%).
///
/// CPU load is carried as an integer number of hundredths of a percent
/// throughout the library, so the strict `> 40%` comparison is exact.
pub const ZOMBIE_CPU_THRESHOLD: u32 = 4000;

/// Network protocol type.
#[derive(Debug, Clone, Copy, PartialEq, Eq, Structural)]
pub enum Protocol {
    Tcp,
    Udp,
}

impl Protocol {
    /// The display form: `TCP` or `UDP`.
    pub fn display(&self) -> (r: String)
        ensures
            *self == Protocol::Tcp ==> r@ == "TCP"@,
            *self == Protocol::Udp ==> r@ == "UDP"@,
    {
        match self {
            Protocol::Tcp => String::from_str("TCP"),
            Protocol::Udp => String::from_str("UDP"),
        }
    }
}

/// Whether a process with the given CPU load (hundredths of a percent) and
/// parent visibility counts as a zombie: high CPU and no visible parent.
pub open spec fn spec_is_zombie(cpu_usage: u32, has_parent: bool) -> bool {
    cpu_usage > ZOMBIE_CPU_THRESHOLD && !has_parent
}

/// A single port entry with associated process information.
#[derive(Debug, Clone)]
pub struct PortEntry {
    /// The local port number.
    pub port: u16,
    /// Protocol (TCP or UDP).
    pub protocol: Protocol,
    /// Process ID.
    pub pid: u32,
    /// Process name.
    pub process_name: String,
    /// CPU usage in hundredths of a percent (may exceed 10000 on
    /// multi-core systems).
    pub cpu_usage: u32,
    /// Memory usage in bytes.
    pub memory_usage: u64,
    /// Memory usage formatted as a human-readable string.
    pub memory_display: String,
    /// Whether the owning process has a visible parent.
    pub has_parent: bool,
    /// Whether this entry is flagged as a "zombie" (high CPU + orphaned).
    pub is_zombie: bool,
}

/// The mathematical shape of a `PortEntry`: strings abstracted to their
/// character sequences.
pub struct PortEntryV {
    pub port: u16,
    pub protocol: Protocol,
    pub pid: u32,
    pub process_name: Seq<char>,
    pub cpu_usage: u32,
    pub memory_usage: u64,
    pub memory_display: Seq<char>,
    pub has_parent: bool,
    pub is_zombie: bool,
}

impl View for PortEntry {
    type V = PortEntryV;

    open spec fn view(&self) -> PortEntryV {
        PortEntryV {
            port: self.port,
            protocol: self.protocol,
            pid: self.pid,
            process_name: self.process_name@,
            cpu_usage: self.cpu_usage,
            memory_usage: self.memory_usage,
            memory_display: self.memory_display@,
            has_parent: self.has_parent,
            is_zombie: self.is_zombie,
        }
    }
}

/// The topology of an entry: the part that identifies the binding,
/// independent of process statistics.
pub open spec fn spec_topo(e: PortEntryV) -> (u16, Protocol, u32) {
    (e.port, e.protocol, e.pid)
}

impl PortEntry {
    /// Recompute the zombie flag: CPU above the threshold and no visible
    /// parent. This is the only path by which the flag becomes true.
    pub fn detect_zombie(&mut self)
        ensures
            final(self).is_zombie == spec_is_zombie(old(self).cpu_usage, old(self).has_parent),
            final(self).port == old(self).port,
            final(self).protocol == old(self).protocol,
            final(self).pid == old(self).pid,
            final(self).process_name == old(self).process_name,
            final(self).cpu_usage == old(self).cpu_usage,
            final(self).memory_usage == old(self).memory_usage,
            final(self).memory_display == old(self).memory_display,
            final(self).has_parent == old(self).has_parent,
    {
        self.is_zombie = self.cpu_usage > ZOMBIE_CPU_THRESHOLD && !self.has_parent;
    }
}

/// Status message kinds for the footer.
#[derive(Debug, Clone)]
pub enum StatusMessage {
    /// Normal informational message.
    Info(String),
    /// Success message (e.g. process killed).
    Success(String),
    /// Error message (e.g. permission denied).
    Error(String),
}

/// Column to sort by.
#[derive(Debug, Clone, Copy, PartialEq, Eq, Structural)]
pub enum SortColumn {
    Port,
    Protocol,
    Pid,
    ProcessName,
    CpuUsage,
    MemoryUsage,
}

impl Default for SortColumn {
    fn default() -> (r: Self)
        ensures
            r == SortColumn::Port,
    {
        SortColumn::Port
    }
}

impl SortColumn {
    /// Cycle to the next sort column.
    pub fn next(self) -> (r: Self)
        ensures
            r == (match self {
                SortColumn::Port => SortColumn::Protocol,
                SortColumn::Protocol => SortColumn::Pid,
                SortColumn::Pid => SortColumn::ProcessName,
                SortColumn::ProcessName => SortColumn::CpuUsage,
                SortColumn::CpuUsage => SortColumn::MemoryUsage,
                SortColumn::MemoryUsage => SortColumn::Port,
            }),
    {
        match self {
            SortColumn::Port => SortColumn::Protocol,
            SortColumn::Protocol => SortColumn::Pid,
            SortColumn::Pid => SortColumn::ProcessName,
            SortColumn::ProcessName => SortColumn::CpuUsage,
            SortColumn::CpuUsage => SortColumn::MemoryUsage,
            SortColumn::MemoryUsage => SortColumn::Port,
        }
    }
}

/// Sort order.
#[derive(Debug, Clone, Copy, PartialEq, Eq, Structural)]
pub enum SortOrder {
    Ascending,
    Descending,
}

impl Default for SortOrder {
    fn default() -> (r: Self)
        ensures
            r == SortOrder::Ascending,
    {
        SortOrder::Ascending
    }
}

impl SortOrder {
    /// Toggle between ascending and descending.
    pub fn toggle(self) -> (r: Self)
        ensures
            r == (match self {
                SortOrder::Ascending => SortOrder::Descending,
                SortOrder::Descending => SortOrder::Ascending,
            }),
    {
        match self {
            SortOrder::Ascending => SortOrder::Descending,
            SortOrder::Descending => SortOrder::Ascending,
        }
    }
}

// ---------------------------------------------------------------------------
// Case folding and regular expressions
// ---------------------------------------------------------------------------

/// What `str::to_lowercase` returns for a given character sequence.
pub uninterp spec fn lower_of(s: Seq<char>) -> Seq<char>;

/// Relies on `str::to_lowercase`: the result depends on the characters
/// alone.
#[verifier::external_body]
fn to_lowercase_of(s: &str) -> (r: String)
    ensures
        r@ == lower_of(s@),
{
    s.to_lowercase()
}

#[verifier::external_type_specification]
#[verifier::external_body]
pub struct ExRegex(regex::Regex);

/// Relies on `regex::Regex::new`: a compiled pattern when the text is a
/// valid pattern, `None` when it is not.
#[verifier::external_body]
fn regex_new(pattern: &str) -> (r: Option<regex::Regex>) {
    regex::Regex::new(pattern).ok()
}

/// Relies on `regex::Regex::is_match`: whether the compiled pattern
/// matches somewhere in the text.
#[verifier::external_body]
fn regex_is_match(re: &regex::Regex, text: &str) -> (r: bool) {
    re.is_match(text)
}

/// Relies on `String::push`: appends exactly the one character.
#[verifier::external_body]
fn push_char(s: &mut String, c: char)
    ensures
        final(s)@ == old(s)@.push(c),
{
    s.push(c);
}

/// Relies on `String::pop`: removes the last character, if any.
#[verifier::external_body]
fn pop_char(s: &mut String)
    ensures
        final(s)@ == (if old(s)@.len() == 0 {
            old(s)@
        } else {
            old(s)@.drop_last()
        }),
{
    s.pop();
}

// ---------------------------------------------------------------------------
// Column ordering
// ---------------------------------------------------------------------------

/// Lexicographic order on character sequences by code point, the order
/// `str` comparison uses.
pub open spec fn spec_lex_le(a: Seq<char>, b: Seq<char>) -> bool
    decreases a.len(),
{
    if a.len() == 0 {
        true
    } else if b.len() == 0 {
        false
    } else if (a[0] as u32) < (b[0] as u32) {
        true
    } else if (a[0] as u32) > (b[0] as u32) {
        false
    } else {
        spec_lex_le(a.drop_first(), b.drop_first())
    }
}

pub proof fn lemma_lex_le_total(a: Seq<char>, b: Seq<char>)
    ensures
        spec_lex_le(a, b) || spec_lex_le(b, a),
    decreases a.len(),
{
    if a.len() > 0 && b.len() > 0 && (a[0] as u32) == (b[0] as u32) {
        lemma_lex_le_total(a.drop_first(), b.drop_first());
    }
}

pub proof fn lemma_lex_le_trans(a: Seq<char>, b: Seq<char>, c: Seq<char>)
    requires
        spec_lex_le(a, b),
        spec_lex_le(b, c),
    ensures
        spec_lex_le(a, c),
    decreases a.len(),
{
    if a.len() > 0 && b.len() > 0 && c.len() > 0 && (a[0] as u32) == (b[0] as u32) && (b[0]
        as u32) == (c[0] as u32) {
        lemma_lex_le_trans(a.drop_first(), b.drop_first(), c.drop_first());
    }
}

/// Compare two strings lexicographically by code point.
fn str_lex_le(a: &str, b: &str) -> (r: bool)
    ensures
        r == spec_lex_le(a@, b@),
{
    let na = a.unicode_len();
    let nb = b.unicode_len();
    let mut i: usize = 0;
    proof {
        assert(a@.skip(0) =~= a@);
        assert(b@.skip(0) =~= b@);
    }
    while i < na && i < nb
        invariant
            na == a@.len(),
            nb == b@.len(),
            0 <= i <= na,
            0 <= i <= nb,
            spec_lex_le(a@, b@) == spec_lex_le(a@.skip(i as int), b@.skip(i as int)),
        decreases na - i,
    {
        let ca = a.get_char(i);
        let cb = b.get_char(i);
        proof {
            assert(a@.skip(i as int)[0] == a@[i as int]);
            assert(b@.skip(i as int)[0] == b@[i as int]);
            assert(a@.skip(i as int).drop_first() =~= a@.skip(i + 1));
            assert(b@.skip(i as int).drop_first() =~= b@.skip(i + 1));
        }
        if (ca as u32) < (cb as u32) {
            return true;
        }
        if (ca as u32) > (cb as u32) {
            return false;
        }
        i = i + 1;
    }
    proof {
        if i >= na {
            assert(a@.skip(i as int).len() == 0);
        } else {
            assert(b@.skip(i as int).len() == 0);
            assert(a@.skip(i as int).len() > 0);
        }
    }
    i >= na
}

/// The per-column key order: whether `a` sorts at or before `b` under
/// the given column, ascending.
pub open spec fn spec_col_key_le(column: SortColumn, a: PortEntryV, b: PortEntryV) -> bool {
    match column {
        SortColumn::Port => a.port <= b.port,
        SortColumn::Protocol => !(a.protocol == Protocol::Udp && b.protocol == Protocol::Tcp),
        SortColumn::Pid => a.pid <= b.pid,
        SortColumn::ProcessName => spec_lex_le(lower_of(a.process_name), lower_of(b.process_name)),
        SortColumn::CpuUsage => a.cpu_usage <= b.cpu_usage,
        SortColumn::MemoryUsage => a.memory_usage <= b.memory_usage,
    }
}

/// The order `update_entries` leaves the list in: the chosen column's
/// key order, reversed when descending.
pub open spec fn spec_col_le(
    column: SortColumn,
    order: SortOrder,
    a: PortEntryV,
    b: PortEntryV,
) -> bool {
    match order {
        SortOrder::Ascending => spec_col_key_le(column, a, b),
        SortOrder::Descending => spec_col_key_le(column, b, a),
    }
}

pub proof fn lemma_col_le_total(column: SortColumn, order: SortOrder, a: PortEntryV, b: PortEntryV)
    ensures
        spec_col_le(column, order, a, b) || spec_col_le(column, order, b, a),
{
    if column == SortColumn::ProcessName {
        lemma_lex_le_total(lower_of(a.process_name), lower_of(b.process_name));
    }
}

pub proof fn lemma_col_le_trans(
    column: SortColumn,
    order: SortOrder,
    a: PortEntryV,
    b: PortEntryV,
    c: PortEntryV,
)
    requires
        spec_col_le(column, order, a, b),
        spec_col_le(column, order, b, c),
    ensures
        spec_col_le(column, order, a, c),
{
    if column == SortColumn::ProcessName {
        match order {
            SortOrder::Ascending => {
                lemma_lex_le_trans(
                    lower_of(a.process_name),
                    lower_of(b.process_name),
                    lower_of(c.process_name),
                );
            },
            SortOrder::Descending => {
                lemma_lex_le_trans(
                    lower_of(c.process_name),
                    lower_of(b.process_name),
                    lower_of(a.process_name),
                );
            },
        }
    }
}

/// Compare two entries under the given column and order.
fn col_le(column: SortColumn, order: SortOrder, a: &PortEntry, b: &PortEntry) -> (r: bool)
    ensures
        r == spec_col_le(column, order, a@, b@),
{
    let (x, y): (&PortEntry, &PortEntry) = match order {
        SortOrder::Ascending => (a, b),
        SortOrder::Descending => (b, a),
    };
    match column {
        SortColumn::Port => x.port <= y.port,
        SortColumn::Protocol => !(matches!(x.protocol, Protocol::Udp) && matches!(
            y.protocol,
            Protocol::Tcp,
        )),
        SortColumn::Pid => x.pid <= y.pid,
        SortColumn::ProcessName => {
            let xl = to_lowercase_of(x.process_name.as_str());
            let yl = to_lowercase_of(y.process_name.as_str());
            str_lex_le(xl.as_str(), yl.as_str())
        },
        SortColumn::CpuUsage => x.cpu_usage <= y.cpu_usage,
        SortColumn::MemoryUsage => x.memory_usage <= y.memory_usage,
    }
}

/// Index of the earliest least element of `v` under the column order.
fn min_index_by(v: &Vec<PortEntry>, column: SortColumn, order: SortOrder) -> (m: usize)
    requires
        v@.len() > 0,
    ensures
        m < v@.len(),
        forall|k: int| 0 <= k < v@.len() ==> spec_col_le(column, order, v@[m as int]@, v@[k]@),
{
    let mut m: usize = 0;
    let mut k: usize = 1;
    proof {
        lemma_col_le_total(column, order, v@[0]@, v@[0]@);
    }
    while k < v.len()
        invariant
            0 <= m < k <= v@.len(),
            forall|j: int| 0 <= j < k ==> spec_col_le(column, order, v@[m as int]@, v@[j]@),
        decreases v@.len() - k,
    {
        if !col_le(column, order, &v[m], &v[k]) {
            proof {
                lemma_col_le_total(column, order, v@[m as int]@, v@[k as int]@);
                assert forall|j: int| 0 <= j < k + 1 implies spec_col_le(
                    column,
                    order,
                    v@[k as int]@,
                    v@[j]@,
                ) by {
                    if j < k {
                        lemma_col_le_trans(column, order, v@[k as int]@, v@[m as int]@, v@[j]@);
                    } else {
                        lemma_col_le_total(column, order, v@[k as int]@, v@[k as int]@);
                    }
                }
            }
            m = k;
        } else {
            proof {
                lemma_col_le_total(column, order, v@[k as int]@, v@[k as int]@);
            }
        }
        k = k + 1;
    }
    m
}

/// Sort entries by one column in one order. The result holds exactly the
/// input entries; picking the earliest minimum keeps equal keys in their
/// original relative order.
fn sort_entries_by(input: Vec<PortEntry>, column: SortColumn, order: SortOrder) -> (r: Vec<
    PortEntry,
>)
    ensures
        r@.to_multiset() == input@.to_multiset(),
        forall|i: int, j: int|
            0 <= i < j < r@.len() ==> spec_col_le(
                column,
                order,
                #[trigger] r@[i]@,
                #[trigger] r@[j]@,
            ),
{
    broadcast use vstd::seq_lib::group_to_multiset_ensures;
    broadcast use vstd::multiset::group_multiset_axioms;

    let mut rest = input;
    let mut out: Vec<PortEntry> = Vec::new();
    proof {
        assert(out@.to_multiset().add(rest@.to_multiset()) =~= rest@.to_multiset());
    }
    while rest.len() > 0
        invariant
            out@.to_multiset().add(rest@.to_multiset()) == input@.to_multiset(),
            forall|i: int, j: int|
                0 <= i < j < out@.len() ==> spec_col_le(
                    column,
                    order,
                    #[trigger] out@[i]@,
                    #[trigger] out@[j]@,
                ),
            forall|i: int, j: int|
                0 <= i < out@.len() && 0 <= j < rest@.len() ==> spec_col_le(
                    column,
                    order,
                    #[trigger] out@[i]@,
                    #[trigger] rest@[j]@,
                ),
        decreases rest@.len(),
    {
        let m = min_index_by(&rest, column, order);
        let ghost old_rest = rest@;
        let ghost old_out = out@;
        let x = rest.remove(m);
        out.push(x);
        proof {
            assert(out@ =~= old_out.push(x));
            assert(rest@ =~= old_rest.remove(m as int));
            vstd::seq_lib::to_multiset_remove(old_rest, m as int);
            vstd::seq_lib::to_multiset_build(old_out, x);
            assert(out@.to_multiset() =~= old_out.to_multiset().insert(x));
            assert(out@.to_multiset().add(rest@.to_multiset()) =~= old_out.to_multiset().add(
                old_rest.to_multiset(),
            )) by {
                assert(old_rest.to_multiset().count(x) > 0) by {
                    assert(old_rest[m as int] == x);
                    assert(old_rest.contains(x));
                    vstd::seq_lib::to_multiset_contains(old_rest, x);
                }
            };
            assert forall|i: int, j: int|
                0 <= i < out@.len() && 0 <= j < rest@.len() implies spec_col_le(
                column,
                order,
                #[trigger] out@[i]@,
                #[trigger] rest@[j]@,
            ) by {
                let orig_j: int = if j < m {
                    j
                } else {
                    j + 1
                };
                assert(rest@[j] == old_rest[orig_j]);
                if i < old_out.len() {
                    assert(out@[i] == old_out[i]);
                } else {
                    assert(out@[i] == x);
                }
            }
        }
    }
    proof {
        assert(rest@.to_multiset() =~= Multiset::<PortEntry>::empty());
        assert(out@.to_multiset().add(Multiset::<PortEntry>::empty()) =~= out@.to_multiset());
    }
    out
}

// ---------------------------------------------------------------------------
// Filtering
// ---------------------------------------------------------------------------

/// Whether an entry matches a (lowercased) plain-text filter: the needle
/// occurs in the lowercased process name, the port's digits, or the
/// pid's digits.
pub open spec fn spec_plain_match(e: PortEntryV, needle: Seq<char>) -> bool {
    spec_contains_seq(lower_of(e.process_name), needle) || spec_contains_seq(
        spec_dec_str(e.port as nat),
        needle,
    ) || spec_contains_seq(spec_dec_str(e.pid as nat), needle)
}

/// The mapper one entry passes through under a plain-text filter.
pub open spec fn plain_filter_mapper(needle: Seq<char>) -> spec_fn(PortEntryV) -> Option<
    PortEntryV,
> {
    |e: PortEntryV|
        if spec_plain_match(e, needle) {
            Some(e)
        } else {
            None
        }
}

/// What a plain-text filter keeps is contained in what it was given.
proof fn lemma_plain_filter_subset(s: Seq<PortEntryV>, needle: Seq<char>)
    ensures
        s.filter_map(plain_filter_mapper(needle)).to_multiset().subset_of(s.to_multiset()),
    decreases s.len(),
{
    broadcast use vstd::seq_lib::group_to_multiset_ensures;
    broadcast use vstd::multiset::group_multiset_axioms;

    let f = plain_filter_mapper(needle);
    if s.len() == 0 {
        assert(s.filter_map(f).to_multiset() =~= s.to_multiset());
    } else {
        let rest = s.drop_last();
        let last = s.last();
        lemma_plain_filter_subset(rest, needle);
        assert(s =~= rest.push(last));
        vstd::seq_lib::to_multiset_build(rest, last);
        match f(last) {
            Some(b) => {
                assert(s.filter_map(f) == rest.filter_map(f) + seq![b]);
                assert(s.filter_map(f) =~= rest.filter_map(f).push(b));
                vstd::seq_lib::to_multiset_build(rest.filter_map(f), b);
                assert(b == last);
            },
            None => {
                assert(s.filter_map(f) == rest.filter_map(f));
            },
        }
    }
}

/// Whether one entry matches the plain-text filter.
fn plain_match(e: &PortEntry, needle: &str) -> (r: bool)
    ensures
        r == spec_plain_match(e@, needle@),
{
    let name_lower = to_lowercase_of(e.process_name.as_str());
    if str_contains(name_lower.as_str(), needle) {
        return true;
    }
    let port_str = u64_to_string(e.port as u64);
    if str_contains(port_str.as_str(), needle) {
        return true;
    }
    let pid_str = u64_to_string(e.pid as u64);
    str_contains(pid_str.as_str(), needle)
}

// ---------------------------------------------------------------------------
// Application state
// ---------------------------------------------------------------------------

/// How long a status message stays before the footer reverts to the
/// standing hint, in milliseconds.
pub const STATUS_DURATION_MS: u64 = 5000;

/// Poll cadence for responsive input, in milliseconds.
pub const POLL_RATE_MS: u64 = 50;

/// Default scan interval for refreshing port data, in seconds.
pub const DEFAULT_SCAN_INTERVAL: u64 = 2;

/// Main application state. Time-dependent behaviour takes the current
/// time in milliseconds as a parameter, so the clock is the caller's.
pub struct App {
    /// List of port entries currently displayed.
    pub entries: Vec<PortEntry>,
    /// Currently selected index in the table.
    pub selected_index: usize,
    /// Status message to display in the footer.
    pub status_message: StatusMessage,
    /// When the status message was set (milliseconds).
    pub status_timestamp_ms: u64,
    /// How long status messages are displayed (milliseconds).
    pub status_duration_ms: u64,
    /// Whether the application should quit.
    pub should_quit: bool,
    /// Current sort column.
    pub sort_column: SortColumn,
    /// Current sort order.
    pub sort_order: SortOrder,
    /// Filter string for process names, ports and pids.
    pub filter: String,
    /// Whether filter input mode is active.
    pub filter_mode: bool,
    /// Whether to show the help popup.
    pub show_help: bool,
    /// Compiled pattern for filtering (`None` when the filter is plain
    /// text or an invalid pattern).
    pub compiled_regex: Option<regex::Regex>,
    /// Whether the current filter is being treated as a pattern.
    pub filter_is_regex: bool,
    /// Remote host being monitored (`None` for the local machine).
    pub remote_host: Option<String>,
}

/// The fields of the application state that `update_entries` and the
/// status setters leave untouched.
pub open spec fn spec_same_controls(a: App, b: App) -> bool {
    a.should_quit == b.should_quit && a.sort_column == b.sort_column && a.sort_order
        == b.sort_order && a.filter == b.filter && a.filter_mode == b.filter_mode && a.show_help
        == b.show_help && a.filter_is_regex == b.filter_is_regex && a.remote_host == b.remote_host
}

impl App {
    /// Create a new application state with default settings, stamped with
    /// the current time.
    pub fn new(now_ms: u64) -> (r: App)
        ensures
            r.entries@.len() == 0,
            r.selected_index == 0,
            r.status_message matches StatusMessage::Info(m) && m@ == "Ready"@,
            r.status_timestamp_ms == now_ms,
            r.status_duration_ms == STATUS_DURATION_MS,
            !r.should_quit,
            r.sort_column == SortColumn::Port,
            r.sort_order == SortOrder::Ascending,
            r.filter@.len() == 0,
            !r.filter_mode,
            !r.show_help,
            r.compiled_regex is None,
            !r.filter_is_regex,
            r.remote_host is None,
    {
        App {
            entries: Vec::new(),
            selected_index: 0,
            status_message: StatusMessage::Info(String::from_str("Ready")),
            status_timestamp_ms: now_ms,
            status_duration_ms: STATUS_DURATION_MS,
            should_quit: false,
            sort_column: SortColumn::Port,
            sort_order: SortOrder::Ascending,
            filter: String::new(),
            filter_mode: false,
            show_help: false,
            compiled_regex: None,
            filter_is_regex: false,
            remote_host: None,
        }
    }

    /// Set the remote host being monitored.
    pub fn set_remote_host(&mut self, host: Option<String>)
        ensures
            final(self).remote_host == host,
            final(self).entries == old(self).entries,
    {
        self.remote_host = host;
    }

    /// Toggle the help popup.
    pub fn toggle_help(&mut self)
        ensures
            final(self).show_help == !old(self).show_help,
            final(self).entries == old(self).entries,
    {
        self.show_help = !self.show_help;
    }

    /// Replace the entry list: apply the current filter, sort by the
    /// current column and order, and clamp the selection into range.
    /// With no filter every entry is kept; a plain-text filter keeps
    /// exactly the entries it matches; a compiled pattern keeps a
    /// sub-collection decided by the pattern.
    pub fn update_entries(&mut self, entries: Vec<PortEntry>)
        ensures
            old(self).filter@.len() == 0 ==> crate::scanner::entry_views(
                final(self).entries@,
            ).to_multiset() == crate::scanner::entry_views(entries@).to_multiset(),
            old(self).filter@.len() > 0 && old(self).compiled_regex is None
                ==> crate::scanner::entry_views(final(self).entries@).to_multiset()
                == crate::scanner::entry_views(entries@).filter_map(
                plain_filter_mapper(lower_of(old(self).filter@)),
            ).to_multiset(),
            crate::scanner::entry_views(final(self).entries@).to_multiset().subset_of(
                crate::scanner::entry_views(entries@).to_multiset(),
            ),
            forall|i: int, j: int|
                0 <= i < j < final(self).entries@.len() ==> spec_col_le(
                    old(self).sort_column,
                    old(self).sort_order,
                    #[trigger] final(self).entries@[i]@,
                    #[trigger] final(self).entries@[j]@,
                ),
            final(self).entries@.len() > 0 && old(self).selected_index >= final(self).entries@.len()
                ==> final(self).selected_index == final(self).entries@.len() - 1,
            final(self).entries@.len() == 0 || old(self).selected_index < final(self).entries@.len()
                ==> final(self).selected_index == old(self).selected_index,
            spec_same_controls(*final(self), *old(self)),
            final(self).status_message == old(self).status_message,
            final(self).status_timestamp_ms == old(self).status_timestamp_ms,
            final(self).status_duration_ms == old(self).status_duration_ms,
            final(self).compiled_regex == old(self).compiled_regex,
    {
        broadcast use vstd::seq_lib::group_to_multiset_ensures;
        broadcast use vstd::multiset::group_multiset_axioms;

        let ghost input_views = crate::scanner::entry_views(entries@);
        let filtered: Vec<PortEntry> = if self.filter.as_str().unicode_len() == 0 {
            entries
        } else {
            let ghost fl = lower_of(self.filter@);
            match &self.compiled_regex {
                Some(re) => {
                    // pattern filtering: keep what the pattern matches
                    let mut kept: Vec<PortEntry> = Vec::new();
                    let mut i: usize = 0;
                    proof {
                        assert(crate::scanner::entry_views(kept@) =~= Seq::<PortEntryV>::empty());
                        vstd::seq_lib::to_multiset_len(
                            crate::scanner::entry_views(kept@),
                        );
                    }
                    while i < entries.len()
                        invariant
                            0 <= i <= entries@.len(),
                            input_views == crate::scanner::entry_views(entries@),
                            input_views.len() == entries@.len(),
                            crate::scanner::entry_views(kept@).to_multiset().subset_of(
                                input_views.take(i as int).to_multiset(),
                            ),
                        decreases entries@.len() - i,
                    {
                        let e = &entries[i];
                        let matched = regex_is_match(re, e.process_name.as_str())
                            || regex_is_match(re, u64_to_string(e.port as u64).as_str())
                            || regex_is_match(re, u64_to_string(e.pid as u64).as_str());
                        proof {
                            vstd::seq_lib::to_multiset_build(
                                input_views.take(i as int),
                                input_views[i as int],
                            );
                            assert(input_views.take(i + 1) =~= input_views.take(i as int).push(
                                input_views[i as int],
                            ));
                        }
                        if matched {
                            let ghost old_kept = crate::scanner::entry_views(kept@);
                            kept.push(e.clone_entry());
                            proof {
                                assert(crate::scanner::entry_views(kept@) =~= old_kept.push(
                                    entries@[i as int]@,
                                ));
                                vstd::seq_lib::to_multiset_build(old_kept, entries@[i as int]@);
                                assert(input_views[i as int] == entries@[i as int]@);
                            }
                        }
                        i = i + 1;
                    }
                    proof {
                        assert(input_views.take(i as int) =~= input_views);
                    }
                    kept
                },
                None => {
                    // plain-text filtering: exact
                    let needle = to_lowercase_of(self.filter.as_str());
                    let mut kept: Vec<PortEntry> = Vec::new();
                    let mut i: usize = 0;
                    proof {
                        assert(crate::scanner::entry_views(kept@) =~= input_views.take(
                            0,
                        ).filter_map(plain_filter_mapper(fl)));
                    }
                    while i < entries.len()
                        invariant
                            0 <= i <= entries@.len(),
                            input_views == crate::scanner::entry_views(entries@),
                            input_views.len() == entries@.len(),
                            needle@ == fl,
                            crate::scanner::entry_views(kept@) == input_views.take(
                                i as int,
                            ).filter_map(plain_filter_mapper(fl)),
                        decreases entries@.len() - i,
                    {
                        proof {
                            input_views.lemma_filter_map_take_succ(
                                plain_filter_mapper(fl),
                                i as int,
                            );
                            assert(input_views[i as int] == entries@[i as int]@);
                        }
                        let e = &entries[i];
                        if plain_match(e, needle.as_str()) {
                            let ghost old_kept = crate::scanner::entry_views(kept@);
                            kept.push(e.clone_entry());
                            proof {
                                assert(crate::scanner::entry_views(kept@) =~= old_kept + seq![
                                    entries@[i as int]@,
                                ]);
                            }
                        } else {
                            proof {
                                assert(crate::scanner::entry_views(kept@) + Seq::<
                                    PortEntryV,
                                >::empty() =~= crate::scanner::entry_views(kept@));
                            }
                        }
                        i = i + 1;
                    }
                    proof {
                        assert(input_views.take(i as int) =~= input_views);
                        lemma_plain_filter_subset(input_views, fl);
                    }
                    kept
                },
            }
        };
        let ghost pre_sort = filtered@;
        let sorted = sort_entries_by(filtered, self.sort_column, self.sort_order);
        proof {
            crate::scanner::lemma_map_values_to_multiset_eq(
                sorted@,
                pre_sort,
                |e: PortEntry| e@,
            );
        }
        self.entries = sorted;
        if self.entries.len() > 0 && self.selected_index >= self.entries.len() {
            self.selected_index = self.entries.len() - 1;
        }
    }

    /// Try to compile the current filter as a case-insensitive pattern;
    /// an invalid pattern falls back to literal matching.
    fn try_compile_filter_regex(&mut self)
        ensures
            final(self).filter == old(self).filter,
            final(self).entries == old(self).entries,
            final(self).filter_is_regex == final(self).compiled_regex is Some,
            old(self).filter@.len() == 0 ==> final(self).compiled_regex is None,
            final(self).selected_index == old(self).selected_index,
            final(self).status_message == old(self).status_message,
            final(self).status_timestamp_ms == old(self).status_timestamp_ms,
            final(self).status_duration_ms == old(self).status_duration_ms,
            final(self).should_quit == old(self).should_quit,
            final(self).sort_column == old(self).sort_column,
            final(self).sort_order == old(self).sort_order,
            final(self).filter_mode == old(self).filter_mode,
            final(self).show_help == old(self).show_help,
            final(self).remote_host == old(self).remote_host,
    {
        if self.filter.as_str().unicode_len() == 0 {
            self.compiled_regex = None;
            self.filter_is_regex = false;
            return ;
        }
        let pattern = String::from_str("(?i)").concat(self.filter.as_str());
        match regex_new(pattern.as_str()) {
            Some(re) => {
                self.compiled_regex = Some(re);
                self.filter_is_regex = true;
            },
            None => {
                self.compiled_regex = None;
                self.filter_is_regex = false;
            },
        }
    }
}

/// The `Debug` rendering of a sort column.
pub open spec fn spec_column_debug(c: SortColumn) -> Seq<char> {
    match c {
        SortColumn::Port => "Port"@,
        SortColumn::Protocol => "Protocol"@,
        SortColumn::Pid => "Pid"@,
        SortColumn::ProcessName => "ProcessName"@,
        SortColumn::CpuUsage => "CpuUsage"@,
        SortColumn::MemoryUsage => "MemoryUsage"@,
    }
}

/// The short label of a sort column in the status line.
pub open spec fn spec_column_label(c: SortColumn) -> Seq<char> {
    match c {
        SortColumn::Port => "Port"@,
        SortColumn::Protocol => "Protocol"@,
        SortColumn::Pid => "PID"@,
        SortColumn::ProcessName => "Name"@,
        SortColumn::CpuUsage => "CPU"@,
        SortColumn::MemoryUsage => "Memory"@,
    }
}

impl App {
    /// Set an info status message.
    pub fn set_info(&mut self, message: String, now_ms: u64)
        ensures
            final(self).status_message matches StatusMessage::Info(m) && m@ == message@,
            final(self).status_timestamp_ms == now_ms,
            final(self).entries == old(self).entries,
            final(self).selected_index == old(self).selected_index,
            final(self).status_duration_ms == old(self).status_duration_ms,
            spec_same_controls(*final(self), *old(self)),
            final(self).compiled_regex == old(self).compiled_regex,
    {
        self.status_message = StatusMessage::Info(message);
        self.status_timestamp_ms = now_ms;
    }

    /// Set a success status message.
    pub fn set_success(&mut self, message: String, now_ms: u64)
        ensures
            final(self).status_message matches StatusMessage::Success(m) && m@ == message@,
            final(self).status_timestamp_ms == now_ms,
            final(self).entries == old(self).entries,
            final(self).selected_index == old(self).selected_index,
            final(self).status_duration_ms == old(self).status_duration_ms,
            spec_same_controls(*final(self), *old(self)),
            final(self).compiled_regex == old(self).compiled_regex,
    {
        self.status_message = StatusMessage::Success(message);
        self.status_timestamp_ms = now_ms;
    }

    /// Set an error status message.
    pub fn set_error(&mut self, message: String, now_ms: u64)
        ensures
            final(self).status_message matches StatusMessage::Error(m) && m@ == message@,
            final(self).status_timestamp_ms == now_ms,
            final(self).entries == old(self).entries,
            final(self).selected_index == old(self).selected_index,
            final(self).status_duration_ms == old(self).status_duration_ms,
            spec_same_controls(*final(self), *old(self)),
            final(self).compiled_regex == old(self).compiled_regex,
    {
        self.status_message = StatusMessage::Error(message);
        self.status_timestamp_ms = now_ms;
    }

    /// Revert an expired status message to the standing hint.
    pub fn maybe_clear_status(&mut self, now_ms: u64)
        ensures
            now_ms > old(self).status_timestamp_ms + old(self).status_duration_ms ==> (final(self).status_message matches StatusMessage::Info(m) && m@
                == "Press \u{2191}/\u{2193} to navigate, Enter to kill, q to quit"@),
            now_ms <= old(self).status_timestamp_ms + old(self).status_duration_ms ==> final(self).status_message == old(self).status_message,
            final(self).status_timestamp_ms == old(self).status_timestamp_ms,
            final(self).entries == old(self).entries,
            final(self).selected_index == old(self).selected_index,
            final(self).status_duration_ms == old(self).status_duration_ms,
            spec_same_controls(*final(self), *old(self)),
    {
        let expired = now_ms >= self.status_timestamp_ms && now_ms - self.status_timestamp_ms
            > self.status_duration_ms;
        if expired {
            self.status_message = StatusMessage::Info(
                String::from_str("Press \u{2191}/\u{2193} to navigate, Enter to kill, q to quit"),
            );
        }
    }

    /// Cycle to the next sort column.
    pub fn cycle_sort_column(&mut self, now_ms: u64)
        ensures
            final(self).sort_column == old(self).sort_column.spec_next(),
            final(self).sort_order == old(self).sort_order,
            final(self).entries == old(self).entries,
            final(self).status_message matches StatusMessage::Info(m) && m@ == "Sorting by: "@
                + spec_column_debug(final(self).sort_column),
    {
        self.sort_column = self.sort_column.next();
        let label = match self.sort_column {
            SortColumn::Port => "Port",
            SortColumn::Protocol => "Protocol",
            SortColumn::Pid => "Pid",
            SortColumn::ProcessName => "ProcessName",
            SortColumn::CpuUsage => "CpuUsage",
            SortColumn::MemoryUsage => "MemoryUsage",
        };
        let message = String::from_str("Sorting by: ").concat(label);
        proof {
            assert(message@ =~= "Sorting by: "@ + spec_column_debug(self.sort_column));
        }
        self.set_info(message, now_ms);
    }

    /// Toggle the sort order.
    pub fn toggle_sort_order(&mut self, now_ms: u64)
        ensures
            final(self).sort_order == old(self).sort_order.spec_toggle(),
            final(self).sort_column == old(self).sort_column,
            final(self).entries == old(self).entries,
            final(self).status_message matches StatusMessage::Info(m) && m@ == (match final(self).sort_order {
                SortOrder::Ascending => "Sort order: Ascending"@,
                SortOrder::Descending => "Sort order: Descending"@,
            }),
    {
        self.sort_order = self.sort_order.toggle();
        let message = match self.sort_order {
            SortOrder::Ascending => String::from_str("Sort order: Ascending"),
            SortOrder::Descending => String::from_str("Sort order: Descending"),
        };
        self.set_info(message, now_ms);
    }

    /// Sort by a specific column: picking the current column again
    /// toggles the order, picking another selects it ascending.
    pub fn sort_by_column(&mut self, column: SortColumn, now_ms: u64)
        ensures
            old(self).sort_column == column ==> final(self).sort_order == old(self).sort_order.spec_toggle() && final(self).sort_column == column,
            old(self).sort_column != column ==> final(self).sort_order == SortOrder::Ascending
                && final(self).sort_column == column,
            final(self).entries == old(self).entries,
            final(self).status_message matches StatusMessage::Info(m) && m@ == "Sort: "@
                + spec_column_label(column) + (match final(self).sort_order {
                SortOrder::Ascending => seq!['\u{2191}'],
                SortOrder::Descending => seq!['\u{2193}'],
            }),
    {
        if self.sort_column == column {
            self.sort_order = self.sort_order.toggle();
        } else {
            self.sort_column = column;
            self.sort_order = SortOrder::Ascending;
        }
        let arrow = match self.sort_order {
            SortOrder::Ascending => "\u{2191}",
            SortOrder::Descending => "\u{2193}",
        };
        let label = match column {
            SortColumn::Port => "Port",
            SortColumn::Protocol => "Protocol",
            SortColumn::Pid => "PID",
            SortColumn::ProcessName => "Name",
            SortColumn::CpuUsage => "CPU",
            SortColumn::MemoryUsage => "Memory",
        };
        let message = String::from_str("Sort: ").concat(label).concat(arrow);
        proof {
            reveal_strlit("\u{2191}");
            reveal_strlit("\u{2193}");
            assert(message@ =~= "Sort: "@ + spec_column_label(column) + (match self.sort_order {
                SortOrder::Ascending => seq!['\u{2191}'],
                SortOrder::Descending => seq!['\u{2193}'],
            }));
        }
        self.set_info(message, now_ms);
    }

    /// Enter filter input mode.
    pub fn enter_filter_mode(&mut self, now_ms: u64)
        ensures
            final(self).filter_mode,
            final(self).filter == old(self).filter,
            final(self).entries == old(self).entries,
            final(self).status_message matches StatusMessage::Info(m) && m@
                == "Filter: Type to search, Enter to confirm, Esc to cancel"@,
    {
        self.filter_mode = true;
        self.set_info(
            String::from_str("Filter: Type to search, Enter to confirm, Esc to cancel"),
            now_ms,
        );
    }

    /// Leave filter input mode, compiling the filter as a pattern when it
    /// is one.
    pub fn exit_filter_mode(&mut self, now_ms: u64)
        ensures
            !final(self).filter_mode,
            final(self).filter == old(self).filter,
            final(self).entries == old(self).entries,
            final(self).filter_is_regex == final(self).compiled_regex is Some,
            old(self).filter@.len() == 0 ==> final(self).compiled_regex is None && (final(self).status_message matches StatusMessage::Info(m) && m@ == "Filter cleared"@),
            old(self).filter@.len() > 0 && final(self).filter_is_regex ==> (final(self).status_message matches StatusMessage::Info(m) && m@ == "Regex filter: "@ + old(self).filter@),
            old(self).filter@.len() > 0 && !final(self).filter_is_regex ==> (final(self).status_message matches StatusMessage::Info(m) && m@ == "Filter: "@ + old(self).filter@),
    {
        self.filter_mode = false;
        self.try_compile_filter_regex();
        if self.filter.as_str().unicode_len() == 0 {
            self.set_info(String::from_str("Filter cleared"), now_ms);
        } else if self.filter_is_regex {
            let message = String::from_str("Regex filter: ").concat(self.filter.as_str());
            proof {
                assert(message@ =~= "Regex filter: "@ + self.filter@);
            }
            self.set_info(message, now_ms);
        } else {
            let message = String::from_str("Filter: ").concat(self.filter.as_str());
            proof {
                assert(message@ =~= "Filter: "@ + self.filter@);
            }
            self.set_info(message, now_ms);
        }
    }

    /// Clear the filter and leave filter mode.
    pub fn clear_filter(&mut self, now_ms: u64)
        ensures
            final(self).filter@.len() == 0,
            !final(self).filter_mode,
            !final(self).filter_is_regex,
            final(self).compiled_regex is None,
            final(self).entries == old(self).entries,
            final(self).status_message matches StatusMessage::Info(m) && m@ == "Filter cleared"@,
    {
        self.filter = String::new();
        self.compiled_regex = None;
        self.filter_is_regex = false;
        self.filter_mode = false;
        self.set_info(String::from_str("Filter cleared"), now_ms);
    }

    /// Add a character to the filter.
    pub fn filter_push(&mut self, c: char)
        ensures
            final(self).filter@ == old(self).filter@.push(c),
            final(self).entries == old(self).entries,
    {
        push_char(&mut self.filter, c);
    }

    /// Remove the last character from the filter.
    pub fn filter_pop(&mut self)
        ensures
            final(self).filter@ == (if old(self).filter@.len() == 0 {
                old(self).filter@
            } else {
                old(self).filter@.drop_last()
            }),
            final(self).entries == old(self).entries,
    {
        pop_char(&mut self.filter);
    }

    /// Move the selection up, wrapping to the bottom.
    pub fn select_previous(&mut self)
        ensures
            final(self).entries == old(self).entries,
            old(self).entries@.len() == 0 ==> final(self).selected_index == old(self).selected_index,
            old(self).entries@.len() > 0 && old(self).selected_index > 0 ==> final(self).selected_index == old(self).selected_index - 1,
            old(self).entries@.len() > 0 && old(self).selected_index == 0 ==> final(self).selected_index == old(self).entries@.len() - 1,
    {
        if self.entries.len() == 0 {
            return ;
        }
        if self.selected_index > 0 {
            self.selected_index = self.selected_index - 1;
        } else {
            self.selected_index = self.entries.len() - 1;
        }
    }

    /// Move the selection down, wrapping to the top.
    pub fn select_next(&mut self)
        ensures
            final(self).entries == old(self).entries,
            old(self).entries@.len() == 0 ==> final(self).selected_index == old(self).selected_index,
            old(self).entries@.len() > 0 && old(self).selected_index < old(self).entries@.len() - 1
                ==> final(self).selected_index == old(self).selected_index + 1,
            old(self).entries@.len() > 0 && old(self).selected_index >= old(self).entries@.len() - 1
                ==> final(self).selected_index == 0,
    {
        if self.entries.len() == 0 {
            return ;
        }
        if self.selected_index < self.entries.len() - 1 {
            self.selected_index = self.selected_index + 1;
        } else {
            self.selected_index = 0;
        }
    }

    /// The currently selected entry, if the selection is in range.
    pub fn selected_entry(&self) -> (r: Option<&PortEntry>)
        ensures
            match r {
                Some(e) => self.selected_index < self.entries@.len() && *e == self.entries@[
                    self.selected_index as int
                ],
                None => self.selected_index >= self.entries@.len(),
            },
    {
        if self.selected_index < self.entries.len() {
            Some(&self.entries[self.selected_index])
        } else {
            None
        }
    }

    /// Request application quit.
    pub fn quit(&mut self)
        ensures
            final(self).should_quit,
            final(self).entries == old(self).entries,
    {
        self.should_quit = true;
    }
}

impl Default for App {
    /// A fresh application state stamped with time zero; callers with a
    /// clock use `App::new`.
    fn default() -> (r: App)
        ensures
            r.entries@.len() == 0,
            r.selected_index == 0,
            !r.should_quit,
            r.sort_column == SortColumn::Port,
            r.sort_order == SortOrder::Ascending,
            r.filter@.len() == 0,
            !r.filter_mode,
            !r.show_help,
            r.status_duration_ms == STATUS_DURATION_MS,
    {
        App::new(0)
    }
}

impl SortColumn {
    /// The successor in the cycling order, as a value.
    pub open spec fn spec_next(self) -> SortColumn {
        match self {
            SortColumn::Port => SortColumn::Protocol,
            SortColumn::Protocol => SortColumn::Pid,
            SortColumn::Pid => SortColumn::ProcessName,
            SortColumn::ProcessName => SortColumn::CpuUsage,
            SortColumn::CpuUsage => SortColumn::MemoryUsage,
            SortColumn::MemoryUsage => SortColumn::Port,
        }
    }
}

impl SortOrder {
    /// The opposite order, as a value.
    pub open spec fn spec_toggle(self) -> SortOrder {
        match self {
            SortOrder::Ascending => SortOrder::Descending,
            SortOrder::Descending => SortOrder::Ascending,
        }
    }
}

impl PortEntry {
    /// A field-for-field copy.
    pub fn clone_entry(&self) -> (r: PortEntry)
        ensures
            r@ == self@,
    {
        PortEntry {
            port: self.port,
            protocol: self.protocol,
            pid: self.pid,
            process_name: self.process_name.clone(),
            cpu_usage: self.cpu_usage,
            memory_usage: self.memory_usage,
            memory_display: self.memory_display.clone(),
            has_parent: self.has_parent,
            is_zombie: self.is_zombie,
        }
    }
}

} // verus!
