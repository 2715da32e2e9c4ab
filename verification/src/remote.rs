//! Remote scanning over an authenticated command channel: host
//! specification parsing, remote OS dispatch, the three diagnostic-output
//! parsers, and remote process termination.

use std::io::Read;

use vstd::prelude::*;

use crate::app::{PortEntry, PortEntryV, Protocol};
use crate::scanner::entry_views;
use crate::text::{
    digit_run_len, find_char, find_sub, lines_of, parse_u16, parse_u32, rfind_char, rfind_sub,
    spec_contains_seq, spec_dec_str, spec_digit_run_len, spec_find_char, spec_find_sub,
    spec_is_blank, spec_lines, spec_parse_u16, spec_parse_u32, spec_rfind_char, spec_rfind_sub,
    spec_split_ws, split_whitespace_of, str_contains, str_eq, trim_of, u64_to_string,
};

verus! {

// ---------------------------------------------------------------------------
// Host specification parsing
// ---------------------------------------------------------------------------

/// Why a host specification failed to parse.
#[derive(Debug, Clone, Copy, PartialEq, Eq, Structural)]
pub enum HostParseError {
    /// The host part is empty or blank.
    EmptyHost,
    /// The part after the last colon is not a valid port number.
    InvalidPort,
}

impl HostParseError {
    pub open spec fn spec_message(&self) -> Seq<char> {
        match self {
            HostParseError::EmptyHost => "Host cannot be empty"@,
            HostParseError::InvalidPort => "Invalid port number"@,
        }
    }

    /// Render the failure for display.
    pub fn message(&self) -> (r: String)
        ensures
            r@ == self.spec_message(),
    {
        match self {
            HostParseError::EmptyHost => String::from_str("Host cannot be empty"),
            HostParseError::InvalidPort => String::from_str("Invalid port number"),
        }
    }
}

/// Remote host connection configuration.
#[derive(Debug)]
pub struct RemoteConfig {
    /// Username for the connection.
    pub username: String,
    /// Hostname or IP address.
    pub host: String,
    /// Remote shell port (default 22).
    pub port: u16,
    /// Path to a private key (`None` means: try an agent, then default
    /// key locations).
    pub key_path: Option<String>,
}

/// The mathematical shape of a `RemoteConfig`.
pub struct RemoteConfigV {
    pub username: Seq<char>,
    pub host: Seq<char>,
    pub port: u16,
    pub key_path: Option<Seq<char>>,
}

impl View for RemoteConfig {
    type V = RemoteConfigV;

    open spec fn view(&self) -> RemoteConfigV {
        RemoteConfigV {
            username: self.username@,
            host: self.host@,
            port: self.port,
            key_path: match self.key_path {
                Some(ref k) => Some(k@),
                None => None,
            },
        }
    }
}

/// What parsing `[user@]host[:port]` yields: the text after the last
/// colon (if any) must be a port number, the text before the first `@`
/// (if any) is the username, a missing username falls back to the given
/// default, and an empty host is rejected.
pub open spec fn spec_parse_host(s: Seq<char>, default_username: Seq<char>) -> Result<
    RemoteConfigV,
    HostParseError,
> {
    if spec_is_blank(s) {
        Err(HostParseError::EmptyHost)
    } else {
        let colon = spec_rfind_char(s, ':');
        let port_res: Result<(Seq<char>, u16), HostParseError> = if colon >= 0 {
            match spec_parse_u16(s.subrange(colon + 1, s.len() as int)) {
                Some(p) => Ok((s.take(colon), p)),
                None => Err(HostParseError::InvalidPort),
            }
        } else {
            Ok((s, 22))
        };
        match port_res {
            Err(e) => Err(e),
            Ok((user_host, port)) => {
                let at = spec_find_char(user_host, '@');
                if at >= 0 {
                    let host = user_host.subrange(at + 1, user_host.len() as int);
                    if host.len() == 0 {
                        Err(HostParseError::EmptyHost)
                    } else {
                        Ok(
                            RemoteConfigV {
                                username: user_host.take(at),
                                host,
                                port,
                                key_path: None,
                            },
                        )
                    }
                } else {
                    if user_host.len() == 0 {
                        Err(HostParseError::EmptyHost)
                    } else {
                        Ok(
                            RemoteConfigV {
                                username: default_username,
                                host: user_host,
                                port,
                                key_path: None,
                            },
                        )
                    }
                }
            },
        }
    }
}

impl RemoteConfig {
    /// Parse a host string like `user@host:port`, `user@host` or `host`.
    /// A specification without a username takes `default_username`, which
    /// the caller determines from the environment.
    pub fn parse(host_str: &str, default_username: &str) -> (r: Result<
        RemoteConfig,
        HostParseError,
    >)
        ensures
            match r {
                Ok(c) => spec_parse_host(host_str@, default_username@) == Ok::<
                    RemoteConfigV,
                    HostParseError,
                >(c@),
                Err(e) => spec_parse_host(host_str@, default_username@) == Err::<
                    RemoteConfigV,
                    HostParseError,
                >(e),
            },
    {
        let n = host_str.unicode_len();
        if crate::text::is_blank(host_str) {
            return Err(HostParseError::EmptyHost);
        }
        let (user_host, port): (&str, u16) = match rfind_char(host_str, ':') {
            Some(colon) => {
                let port_str = host_str.substring_char(colon + 1, n);
                proof {
                    assert(port_str@ =~= host_str@.subrange(colon + 1, n as int));
                }
                match parse_u16(port_str) {
                    Some(p) => {
                        let before = host_str.substring_char(0, colon);
                        proof {
                            assert(before@ =~= host_str@.take(colon as int));
                        }
                        (before, p)
                    },
                    None => {
                        return Err(HostParseError::InvalidPort);
                    },
                }
            },
            None => (host_str, 22u16),
        };
        let uh_len = user_host.unicode_len();
        match find_char(user_host, '@') {
            Some(at) => {
                let host = user_host.substring_char(at + 1, uh_len);
                proof {
                    assert(host@ =~= user_host@.subrange(at + 1, user_host@.len() as int));
                }
                if host.unicode_len() == 0 {
                    Err(HostParseError::EmptyHost)
                } else {
                    let username = user_host.substring_char(0, at);
                    proof {
                        assert(username@ =~= user_host@.take(at as int));
                    }
                    Ok(
                        RemoteConfig {
                            username: username.to_owned(),
                            host: host.to_owned(),
                            port,
                            key_path: None,
                        },
                    )
                }
            },
            None => {
                if uh_len == 0 {
                    Err(HostParseError::EmptyHost)
                } else {
                    Ok(
                        RemoteConfig {
                            username: default_username.to_owned(),
                            host: user_host.to_owned(),
                            port,
                            key_path: None,
                        },
                    )
                }
            },
        }
    }

    /// Set the private key path.
    pub fn with_key(self, key_path: String) -> (r: Self)
        ensures
            r.username == self.username,
            r.host == self.host,
            r.port == self.port,
            r@.key_path == Some(key_path@),
    {
        RemoteConfig { key_path: Some(key_path), ..self }
    }

    /// The display form `user@host:port`.
    pub open spec fn spec_display(c: RemoteConfigV) -> Seq<char> {
        c.username + seq!['@'] + c.host + seq![':'] + spec_dec_str(c.port as nat)
    }

    /// Render `user@host:port` for the UI.
    pub fn display(&self) -> (r: String)
        ensures
            r@ == Self::spec_display(self@),
    {
        let r = self.username.clone().concat("@").concat(self.host.as_str()).concat(":").concat(
            u64_to_string(self.port as u64).as_str(),
        );
        proof {
            reveal_strlit("@");
            reveal_strlit(":");
            assert("@"@ =~= seq!['@']);
            assert(":"@ =~= seq![':']);
            assert(r@ =~= Self::spec_display(self@));
        }
        r
    }
}

// ---------------------------------------------------------------------------
// Remote operation errors
// ---------------------------------------------------------------------------

/// Why a remote operation failed.
#[derive(Debug)]
pub enum RemoteError {
    /// An operation was attempted before a session was attached.
    NotConnected,
    /// A remote command round trip failed.
    ExecFailed,
    /// The remote kill reported that no such process exists.
    ProcessNotFound { pid: u32 },
    /// The remote kill was refused for lack of privilege.
    PermissionDenied,
}

impl RemoteError {
    pub open spec fn spec_message(&self) -> Seq<char> {
        match self {
            RemoteError::NotConnected => "Not connected to remote host"@,
            RemoteError::ExecFailed => "Failed to execute command"@,
            RemoteError::ProcessNotFound { pid } => "Process "@ + spec_dec_str(*pid as nat)
                + " not found"@,
            RemoteError::PermissionDenied =>
                "Permission denied. Try running with sudo on remote host."@,
        }
    }

    /// Render the failure for display.
    pub fn message(&self) -> (r: String)
        ensures
            r@ == self.spec_message(),
    {
        match self {
            RemoteError::NotConnected => String::from_str("Not connected to remote host"),
            RemoteError::ExecFailed => String::from_str("Failed to execute command"),
            RemoteError::ProcessNotFound { pid } => {
                let r = String::from_str("Process ").concat(
                    u64_to_string(*pid as u64).as_str(),
                ).concat(" not found");
                proof {
                    assert(r@ =~= self.spec_message());
                }
                r
            },
            RemoteError::PermissionDenied => String::from_str(
                "Permission denied. Try running with sudo on remote host.",
            ),
        }
    }
}

// ---------------------------------------------------------------------------
// Address and line parsing
// ---------------------------------------------------------------------------

/// The port of an address like `*:8080`, `0.0.0.0:8080` or `[::]:8080`:
/// the text after the last `]:` where there is one, else after the last
/// `:`, read as a port number.
pub open spec fn spec_extract_port(addr: Seq<char>) -> Option<u16> {
    if spec_contains_seq(addr, seq![']', ':']) {
        spec_parse_u16(
            addr.subrange(spec_rfind_sub(addr, seq![']', ':']) + 2, addr.len() as int),
        )
    } else if spec_rfind_char(addr, ':') >= 0 {
        spec_parse_u16(addr.subrange(spec_rfind_char(addr, ':') + 1, addr.len() as int))
    } else {
        None
    }
}

/// Extract a port from an address column.
pub fn extract_port(addr: &str) -> (r: Option<u16>)
    ensures
        r == spec_extract_port(addr@),
{
    let n = addr.unicode_len();
    proof {
        reveal_strlit("]:");
        assert("]:"@ =~= seq![']', ':']);
    }
    match rfind_sub(addr, "]:") {
        Some(i) => {
            let tail = addr.substring_char(i + 2, n);
            proof {
                assert(tail@ =~= addr@.subrange(i + 2, n as int));
                assert(addr@.subrange(i as int, i + 2) =~= seq![']', ':']);
                assert(spec_contains_seq(addr@, seq![']', ':']));
            }
            parse_u16(tail)
        },
        None => {
            proof {
                if spec_contains_seq(addr@, seq![']', ':']) {
                    let k = choose|k: int|
                        0 <= k && k + 2 <= addr@.len() && #[trigger] addr@.subrange(k, k + 2)
                            == seq![']', ':'];
                    assert(addr@.subrange(k, k + ("]:"@).len() as int) == "]:"@);
                    assert(false);
                }
            }
            match rfind_char(addr, ':') {
                Some(i) => {
                    let tail = addr.substring_char(i + 1, n);
                    proof {
                        assert(tail@ =~= addr@.subrange(i + 1, n as int));
                    }
                    parse_u16(tail)
                },
                None => None,
            }
        },
    }
}

/// The pid and process name in an `ss` users column of the form
/// `users:(("name",pid=1234,fd=5))`: the quoted name after `(("`, and the
/// digits after `pid=`; `0` or `unknown` where either is missing.
pub open spec fn spec_parse_ss_users(users: Seq<char>) -> (u32, Seq<char>) {
    let start = spec_find_sub(users, seq!['(', '(', '"']);
    if start >= 0 {
        let rest = users.skip(start + 3);
        let quote = spec_find_char(rest, '"');
        if quote >= 0 {
            let name = rest.take(quote);
            let pid_start = spec_find_sub(rest, seq!['p', 'i', 'd', '=']);
            if pid_start >= 0 {
                let pid_rest = rest.skip(pid_start + 4);
                let digits = spec_digit_run_len(pid_rest);
                if digits == pid_rest.len() {
                    (0u32, name)
                } else {
                    match spec_parse_u32(pid_rest.take(digits as int)) {
                        Some(pid) => (pid, name),
                        None => (0u32, name),
                    }
                }
            } else {
                (0u32, name)
            }
        } else {
            (0u32, "unknown"@)
        }
    } else {
        (0u32, "unknown"@)
    }
}

/// Parse the users column of `ss` output.
pub fn parse_ss_users(users: &str) -> (r: (u32, String))
    ensures
        r.0 == spec_parse_ss_users(users@).0,
        r.1@ == spec_parse_ss_users(users@).1,
{
    let n = users.unicode_len();
    proof {
        reveal_strlit("((\"");
        assert("((\""@ =~= seq!['(', '(', '"']);
        reveal_strlit("pid=");
        assert("pid="@ =~= seq!['p', 'i', 'd', '=']);
        reveal_strlit("unknown");
    }
    match find_sub(users, "((\"") {
        Some(start) => {
            let rest = users.substring_char(start + 3, n);
            proof {
                assert(rest@ =~= users@.skip(start + 3));
            }
            let rest_len = rest.unicode_len();
            match find_char(rest, '"') {
                Some(quote) => {
                    let name = rest.substring_char(0, quote).to_owned();
                    proof {
                        assert(name@ =~= rest@.take(quote as int));
                    }
                    match find_sub(rest, "pid=") {
                        Some(pid_start) => {
                            let pid_rest = rest.substring_char(pid_start + 4, rest_len);
                            proof {
                                assert(pid_rest@ =~= rest@.skip(pid_start + 4));
                            }
                            let digits = digit_run_len(pid_rest);
                            if digits == pid_rest.unicode_len() {
                                (0u32, name)
                            } else {
                                let digit_part = pid_rest.substring_char(0, digits);
                                proof {
                                    assert(digit_part@ =~= pid_rest@.take(digits as int));
                                }
                                match parse_u32(digit_part) {
                                    Some(pid) => (pid, name),
                                    None => (0u32, name),
                                }
                            }
                        },
                        None => (0u32, name),
                    }
                },
                None => (0u32, String::from_str("unknown")),
            }
        },
        None => (0u32, String::from_str("unknown")),
    }
}

/// An entry as a remote scan reports it: topology only, statistics
/// defaulted, never a zombie.
pub open spec fn spec_remote_entry(
    port: u16,
    protocol: Protocol,
    pid: u32,
    name: Seq<char>,
) -> PortEntryV {
    PortEntryV {
        port,
        protocol,
        pid,
        process_name: name,
        cpu_usage: 0,
        memory_usage: 0,
        memory_display: seq!['-'],
        has_parent: true,
        is_zombie: false,
    }
}

/// The degraded shape every remotely scanned entry has: no statistics,
/// a presumed parent, never flagged a zombie.
pub open spec fn spec_remote_shape(e: PortEntryV) -> bool {
    e.cpu_usage == 0 && e.memory_usage == 0 && e.memory_display == seq!['-'] && e.has_parent
        && !e.is_zombie
}

fn make_remote_entry(port: u16, protocol: Protocol, pid: u32, name: String) -> (e: PortEntry)
    ensures
        e@ == spec_remote_entry(port, protocol, pid, name@),
{
    let display = String::from_str("-");
    proof {
        reveal_strlit("-");
        assert(display@ =~= seq!['-']);
    }
    PortEntry {
        port,
        protocol,
        pid,
        process_name: name,
        cpu_usage: 0,
        memory_usage: 0,
        memory_display: display,
        has_parent: true,
        is_zombie: false,
    }
}

/// One line of `ss` output: at least five whitespace-separated columns,
/// a port in the local-address column, pid and name from the users
/// column.
pub open spec fn spec_parse_ss_line(line: Seq<char>, protocol: Protocol) -> Option<PortEntryV> {
    let toks = spec_split_ws(line);
    if toks.len() < 5 {
        None
    } else {
        match spec_extract_port(toks[4]) {
            None => None,
            Some(port) => {
                let users = spec_parse_ss_users(toks.last());
                Some(spec_remote_entry(port, protocol, users.0, users.1))
            },
        }
    }
}

/// Parse one `ss` output line.
pub fn parse_ss_line(line: &str, protocol: Protocol) -> (r: Option<PortEntry>)
    ensures
        match r {
            Some(e) => spec_parse_ss_line(line@, protocol) == Some(e@),
            None => spec_parse_ss_line(line@, protocol) is None,
        },
{
    let toks = split_whitespace_of(line);
    if toks.len() < 5 {
        return None;
    }
    proof {
        assert(toks.deep_view()[4] == toks@[4]@);
        assert(toks.deep_view().last() == toks@[toks@.len() - 1]@);
    }
    let port = match extract_port(toks[4].as_str()) {
        Some(p) => p,
        None => {
            return None;
        },
    };
    let (pid, name) = parse_ss_users(toks[toks.len() - 1].as_str());
    Some(make_remote_entry(port, protocol, pid, name))
}

/// One line of `lsof` output: at least nine columns, the process name
/// first, a numeric pid second, and the address in the ninth.
pub open spec fn spec_parse_lsof_line(line: Seq<char>, protocol: Protocol) -> Option<PortEntryV> {
    let toks = spec_split_ws(line);
    if toks.len() < 9 {
        None
    } else {
        match spec_parse_u32(toks[1]) {
            None => None,
            Some(pid) => match spec_extract_port(toks[8]) {
                None => None,
                Some(port) => Some(spec_remote_entry(port, protocol, pid, toks[0])),
            },
        }
    }
}

/// Parse one `lsof` output line.
pub fn parse_lsof_line(line: &str, protocol: Protocol) -> (r: Option<PortEntry>)
    ensures
        match r {
            Some(e) => spec_parse_lsof_line(line@, protocol) == Some(e@),
            None => spec_parse_lsof_line(line@, protocol) is None,
        },
{
    let toks = split_whitespace_of(line);
    if toks.len() < 9 {
        return None;
    }
    proof {
        assert(toks.deep_view()[0] == toks@[0]@);
        assert(toks.deep_view()[1] == toks@[1]@);
        assert(toks.deep_view()[8] == toks@[8]@);
    }
    let pid = match parse_u32(toks[1].as_str()) {
        Some(p) => p,
        None => {
            return None;
        },
    };
    let port = match extract_port(toks[8].as_str()) {
        Some(p) => p,
        None => {
            return None;
        },
    };
    Some(make_remote_entry(port, protocol, pid, toks[0].clone()))
}

/// The first token holding an extractable port, if any.
pub open spec fn spec_first_port(toks: Seq<Seq<char>>) -> Option<u16>
    decreases toks.len(),
{
    if toks.len() == 0 {
        None
    } else {
        match spec_extract_port(toks[0]) {
            Some(p) => Some(p),
            None => spec_first_port(toks.drop_first()),
        }
    }
}

/// One line of generic netstat output: at least four columns; the first
/// token with an extractable port names it, pid and process are not
/// recoverable here.
pub open spec fn spec_parse_netstat_line(line: Seq<char>) -> Option<PortEntryV> {
    let toks = spec_split_ws(line);
    if toks.len() < 4 {
        None
    } else {
        match spec_first_port(toks) {
            Some(port) => Some(spec_remote_entry(port, Protocol::Tcp, 0, "unknown"@)),
            None => None,
        }
    }
}

/// Parse one generic netstat output line.
pub fn parse_netstat_line(line: &str) -> (r: Option<PortEntry>)
    ensures
        match r {
            Some(e) => spec_parse_netstat_line(line@) == Some(e@),
            None => spec_parse_netstat_line(line@) is None,
        },
{
    let toks = split_whitespace_of(line);
    if toks.len() < 4 {
        return None;
    }
    let ghost tv = toks.deep_view();
    let mut i: usize = 0;
    proof {
        reveal_strlit("unknown");
        assert(tv.skip(0) =~= tv);
    }
    while i < toks.len()
        invariant
            0 <= i <= toks@.len(),
            tv == toks.deep_view(),
            tv == spec_split_ws(line@),
            tv.len() == toks@.len(),
            tv.len() >= 4,
            spec_first_port(tv) == spec_first_port(tv.skip(i as int)),
        decreases toks@.len() - i,
    {
        proof {
            assert(tv.skip(i as int)[0] == tv[i as int]);
            assert(tv.skip(i as int).drop_first() =~= tv.skip(i + 1));
            assert(tv[i as int] == toks@[i as int]@);
        }
        match extract_port(toks[i].as_str()) {
            Some(port) => {
                return Some(
                    make_remote_entry(port, Protocol::Tcp, 0, String::from_str("unknown")),
                );
            },
            None => {},
        }
        i = i + 1;
    }
    proof {
        assert(tv.skip(i as int) =~= Seq::<Seq<char>>::empty());
    }
    None
}

// ---------------------------------------------------------------------------
// Whole-output parsing
// ---------------------------------------------------------------------------

/// Every element a `filter_map` produces satisfies what every produced
/// value satisfies.
pub proof fn lemma_filter_map_elements<A, B>(
    s: Seq<A>,
    f: spec_fn(A) -> Option<B>,
    p: spec_fn(B) -> bool,
)
    requires
        forall|t: A| (#[trigger] f(t)) is Some ==> p(f(t).unwrap()),
    ensures
        forall|i: int| 0 <= i < s.filter_map(f).len() ==> p(#[trigger] s.filter_map(f)[i]),
    decreases s.len(),
{
    if s.len() > 0 {
        let rest = s.drop_last();
        lemma_filter_map_elements(rest, f, p);
        assert forall|i: int| 0 <= i < s.filter_map(f).len() implies p(
            #[trigger] s.filter_map(f)[i],
        ) by {
            match f(s.last()) {
                Some(b) => {
                    assert(s.filter_map(f) == rest.filter_map(f) + seq![b]);
                    if i < rest.filter_map(f).len() {
                        assert(s.filter_map(f)[i] == rest.filter_map(f)[i]);
                    } else {
                        assert(s.filter_map(f)[i] == b);
                    }
                },
                None => {
                    assert(s.filter_map(f) == rest.filter_map(f));
                },
            }
        }
    }
}

/// The mapper one `ss` output line passes through.
pub open spec fn ss_line_mapper(protocol: Protocol) -> spec_fn(Seq<char>) -> Option<PortEntryV> {
    |line: Seq<char>| spec_parse_ss_line(line, protocol)
}

/// The mapper one `lsof` output line passes through.
pub open spec fn lsof_line_mapper(protocol: Protocol) -> spec_fn(Seq<char>) -> Option<
    PortEntryV,
> {
    |line: Seq<char>| spec_parse_lsof_line(line, protocol)
}

/// The mapper one generic netstat output line passes through: only lines
/// mentioning a listening state are considered at all.
pub open spec fn netstat_line_mapper() -> spec_fn(Seq<char>) -> Option<PortEntryV> {
    |line: Seq<char>|
        if spec_contains_seq(line, "LISTEN"@) || spec_contains_seq(line, "tcp"@) {
            spec_parse_netstat_line(line)
        } else {
            None
        }
}

/// The body of a command's output: every line after the header.
pub open spec fn spec_output_body(text: Seq<char>) -> Seq<Seq<char>> {
    let ls = spec_lines(text);
    if ls.len() == 0 {
        Seq::empty()
    } else {
        ls.drop_first()
    }
}

/// What a Linux scan yields from its two captured outputs: the `ss` TCP
/// lines, then the `ss` UDP lines, headers skipped, malformed lines
/// dropped.
pub open spec fn spec_scan_linux(tcp_text: Seq<char>, udp_text: Seq<char>) -> Seq<PortEntryV> {
    spec_output_body(tcp_text).filter_map(ss_line_mapper(Protocol::Tcp)) + spec_output_body(
        udp_text,
    ).filter_map(ss_line_mapper(Protocol::Udp))
}

/// What a macOS scan yields from its two captured outputs.
pub open spec fn spec_scan_macos(tcp_text: Seq<char>, udp_text: Seq<char>) -> Seq<PortEntryV> {
    spec_output_body(tcp_text).filter_map(lsof_line_mapper(Protocol::Tcp)) + spec_output_body(
        udp_text,
    ).filter_map(lsof_line_mapper(Protocol::Udp))
}

/// What a generic scan yields from its captured output: no header skip,
/// only lines mentioning a listening state.
pub open spec fn spec_scan_generic(text: Seq<char>) -> Seq<PortEntryV> {
    spec_lines(text).filter_map(netstat_line_mapper())
}

/// Append the parsed `ss` lines of one output body to `acc`.
fn append_ss_entries(acc: &mut Vec<PortEntry>, text: &str, protocol: Protocol)
    ensures
        entry_views(final(acc)@) == entry_views(old(acc)@) + spec_output_body(text@).filter_map(
            ss_line_mapper(protocol),
        ),
{
    let lines = lines_of(text);
    let ghost body = spec_output_body(text@);
    let ghost start = entry_views(acc@);
    if lines.len() == 0 {
        proof {
            assert(entry_views(acc@) =~= start + body.filter_map(ss_line_mapper(protocol)));
        }
        return ;
    }
    let mut i: usize = 1;
    proof {
        assert(body =~= lines.deep_view().skip(1));
        assert(body.take(0).filter_map(ss_line_mapper(protocol)) =~= Seq::<PortEntryV>::empty());
        assert(entry_views(acc@) =~= start + body.take(0).filter_map(ss_line_mapper(protocol)));
    }
    while i < lines.len()
        invariant
            1 <= i <= lines@.len(),
            body == spec_output_body(text@),
            body =~= lines.deep_view().skip(1),
            lines.deep_view().len() == lines@.len(),
            entry_views(acc@) == start + body.take(i - 1).filter_map(ss_line_mapper(protocol)),
        decreases lines@.len() - i,
    {
        proof {
            body.lemma_filter_map_take_succ(ss_line_mapper(protocol), i - 1);
            assert(body[i - 1] == lines.deep_view()[i as int]);
            assert(body[i - 1] == lines@[i as int]@);
        }
        match parse_ss_line(lines[i].as_str(), protocol) {
            Some(e) => {
                let ghost old_views = entry_views(acc@);
                acc.push(e);
                proof {
                    assert(entry_views(acc@) =~= old_views + seq![e@]);
                    assert(entry_views(acc@) =~= start + (body.take(i - 1).filter_map(
                        ss_line_mapper(protocol),
                    ) + seq![e@]));
                }
            },
            None => {
                proof {
                    assert(body.take(i as int).filter_map(ss_line_mapper(protocol)) =~= body.take(
                        i - 1,
                    ).filter_map(ss_line_mapper(protocol)));
                }
            },
        }
        i = i + 1;
    }
    proof {
        assert(body.take(i - 1) =~= body);
    }
}

/// Append the parsed `lsof` lines of one output body to `acc`.
fn append_lsof_entries(acc: &mut Vec<PortEntry>, text: &str, protocol: Protocol)
    ensures
        entry_views(final(acc)@) == entry_views(old(acc)@) + spec_output_body(text@).filter_map(
            lsof_line_mapper(protocol),
        ),
{
    let lines = lines_of(text);
    let ghost body = spec_output_body(text@);
    let ghost start = entry_views(acc@);
    if lines.len() == 0 {
        proof {
            assert(entry_views(acc@) =~= start + body.filter_map(lsof_line_mapper(protocol)));
        }
        return ;
    }
    let mut i: usize = 1;
    proof {
        assert(body =~= lines.deep_view().skip(1));
        assert(body.take(0).filter_map(lsof_line_mapper(protocol)) =~= Seq::<
            PortEntryV,
        >::empty());
        assert(entry_views(acc@) =~= start + body.take(0).filter_map(lsof_line_mapper(protocol)));
    }
    while i < lines.len()
        invariant
            1 <= i <= lines@.len(),
            body == spec_output_body(text@),
            body =~= lines.deep_view().skip(1),
            lines.deep_view().len() == lines@.len(),
            entry_views(acc@) == start + body.take(i - 1).filter_map(lsof_line_mapper(protocol)),
        decreases lines@.len() - i,
    {
        proof {
            body.lemma_filter_map_take_succ(lsof_line_mapper(protocol), i - 1);
            assert(body[i - 1] == lines.deep_view()[i as int]);
            assert(body[i - 1] == lines@[i as int]@);
        }
        match parse_lsof_line(lines[i].as_str(), protocol) {
            Some(e) => {
                let ghost old_views = entry_views(acc@);
                acc.push(e);
                proof {
                    assert(entry_views(acc@) =~= old_views + seq![e@]);
                    assert(entry_views(acc@) =~= start + (body.take(i - 1).filter_map(
                        lsof_line_mapper(protocol),
                    ) + seq![e@]));
                }
            },
            None => {
                proof {
                    assert(body.take(i as int).filter_map(lsof_line_mapper(protocol))
                        =~= body.take(i - 1).filter_map(lsof_line_mapper(protocol)));
                }
            },
        }
        i = i + 1;
    }
    proof {
        assert(body.take(i - 1) =~= body);
    }
}

/// Parse the two captured Linux socket-statistics outputs.
pub fn parse_linux_output(tcp_output: &str, udp_output: &str) -> (r: Vec<PortEntry>)
    ensures
        entry_views(r@) == spec_scan_linux(tcp_output@, udp_output@),
{
    let mut entries: Vec<PortEntry> = Vec::new();
    proof {
        assert(entry_views(entries@) =~= Seq::<PortEntryV>::empty());
    }
    append_ss_entries(&mut entries, tcp_output, Protocol::Tcp);
    append_ss_entries(&mut entries, udp_output, Protocol::Udp);
    proof {
        assert(entry_views(entries@) =~= spec_scan_linux(tcp_output@, udp_output@));
    }
    entries
}

/// Parse the two captured macOS socket-listing outputs.
pub fn parse_macos_output(tcp_output: &str, udp_output: &str) -> (r: Vec<PortEntry>)
    ensures
        entry_views(r@) == spec_scan_macos(tcp_output@, udp_output@),
{
    let mut entries: Vec<PortEntry> = Vec::new();
    proof {
        assert(entry_views(entries@) =~= Seq::<PortEntryV>::empty());
    }
    append_lsof_entries(&mut entries, tcp_output, Protocol::Tcp);
    append_lsof_entries(&mut entries, udp_output, Protocol::Udp);
    proof {
        assert(entry_views(entries@) =~= spec_scan_macos(tcp_output@, udp_output@));
    }
    entries
}

/// Parse a captured generic network-statistics output.
pub fn parse_generic_output(output: &str) -> (r: Vec<PortEntry>)
    ensures
        entry_views(r@) == spec_scan_generic(output@),
{
    let lines = lines_of(output);
    let ghost all = spec_lines(output@);
    let mut entries: Vec<PortEntry> = Vec::new();
    let mut i: usize = 0;
    proof {
        reveal_strlit("LISTEN");
        reveal_strlit("tcp");
        assert(all =~= lines.deep_view());
        assert(all.take(0).filter_map(netstat_line_mapper()) =~= Seq::<PortEntryV>::empty());
        assert(entry_views(entries@) =~= all.take(0).filter_map(netstat_line_mapper()));
    }
    while i < lines.len()
        invariant
            0 <= i <= lines@.len(),
            all == spec_lines(output@),
            all =~= lines.deep_view(),
            lines.deep_view().len() == lines@.len(),
            entry_views(entries@) == all.take(i as int).filter_map(netstat_line_mapper()),
        decreases lines@.len() - i,
    {
        proof {
            all.lemma_filter_map_take_succ(netstat_line_mapper(), i as int);
            assert(all[i as int] == lines@[i as int]@);
        }
        let line = lines[i].as_str();
        let wanted = str_contains(line, "LISTEN") || str_contains(line, "tcp");
        if wanted {
            match parse_netstat_line(line) {
                Some(e) => {
                    let ghost old_views = entry_views(entries@);
                    entries.push(e);
                    proof {
                        assert(entry_views(entries@) =~= old_views + seq![e@]);
                        assert(entry_views(entries@) =~= all.take(i as int).filter_map(
                            netstat_line_mapper(),
                        ) + seq![e@]);
                    }
                },
                None => {
                    proof {
                        assert(all.take(i + 1).filter_map(netstat_line_mapper()) =~= all.take(
                            i as int,
                        ).filter_map(netstat_line_mapper()));
                    }
                },
            }
        } else {
            proof {
                assert(all.take(i + 1).filter_map(netstat_line_mapper()) =~= all.take(
                    i as int,
                ).filter_map(netstat_line_mapper()));
            }
        }
        i = i + 1;
    }
    proof {
        assert(all.take(i as int) =~= all);
    }
    entries
}

// ---------------------------------------------------------------------------
// The remote scanner
// ---------------------------------------------------------------------------

#[verifier::external_type_specification]
#[verifier::external_body]
pub struct ExSession(ssh2::Session);

/// Relies on `ssh2::Session::channel_session`, `ssh2::Channel::exec`,
/// `std::io::Read::read_to_string` and `ssh2::Channel::wait_close`: one
/// remote command round trip, returning the captured output, or `None` on
/// any transport failure.
#[verifier::external_body]
fn exec_command(session: &ssh2::Session, command: &str) -> (r: Option<String>) {
    let mut channel = session.channel_session().ok()?;
    channel.exec(command).ok()?;
    let mut output = String::new();
    channel.read_to_string(&mut output).ok()?;
    channel.wait_close().ok();
    Some(output)
}

/// One credential source for authenticating a session, in the order the
/// connection sequence tries them.
#[derive(Debug)]
pub enum AuthMethod {
    /// The key file named in the configuration.
    ExplicitKey(String),
    /// A running key agent.
    Agent,
    /// A conventional key file under the user's home directory.
    DefaultKey(String),
}

/// The mathematical shape of an `AuthMethod`.
pub enum AuthMethodV {
    ExplicitKey(Seq<char>),
    Agent,
    DefaultKey(Seq<char>),
}

impl View for AuthMethod {
    type V = AuthMethodV;

    open spec fn view(&self) -> AuthMethodV {
        match self {
            AuthMethod::ExplicitKey(k) => AuthMethodV::ExplicitKey(k@),
            AuthMethod::Agent => AuthMethodV::Agent,
            AuthMethod::DefaultKey(k) => AuthMethodV::DefaultKey(k@),
        }
    }
}

pub open spec fn auth_views(s: Seq<AuthMethod>) -> Seq<AuthMethodV> {
    s.map_values(|m: AuthMethod| m@)
}

/// The credential sources a connection tries, in order: the explicit key
/// alone when one is configured; otherwise an agent, then the
/// conventional ed25519, RSA and ECDSA key files under the home
/// directory (`.` where none is known).
pub open spec fn spec_auth_plan(key_path: Option<Seq<char>>, home: Option<Seq<char>>) -> Seq<
    AuthMethodV,
> {
    match key_path {
        Some(k) => seq![AuthMethodV::ExplicitKey(k)],
        None => {
            let h = match home {
                Some(h) => h,
                None => "."@,
            };
            seq![
                AuthMethodV::Agent,
                AuthMethodV::DefaultKey(h + "/.ssh/id_ed25519"@),
                AuthMethodV::DefaultKey(h + "/.ssh/id_rsa"@),
                AuthMethodV::DefaultKey(h + "/.ssh/id_ecdsa"@),
            ]
        },
    }
}

/// The ordered credential sources to try for this configuration.
/// `home_dir` is the user's home directory, where the caller knows it.
pub fn auth_attempt_plan(config: &RemoteConfig, home_dir: Option<&str>) -> (r: Vec<AuthMethod>)
    ensures
        auth_views(r@) == spec_auth_plan(
            config@.key_path,
            match home_dir {
                Some(h) => Some(h@),
                None => None,
            },
        ),
{
    let mut r: Vec<AuthMethod> = Vec::new();
    match &config.key_path {
        Some(k) => {
            r.push(AuthMethod::ExplicitKey(k.clone()));
            proof {
                assert(auth_views(r@) =~= spec_auth_plan(
                    config@.key_path,
                    match home_dir {
                        Some(h) => Some(h@),
                        None => None,
                    },
                ));
            }
        },
        None => {
            let home: String = match home_dir {
                Some(h) => h.to_owned(),
                None => String::from_str("."),
            };
            r.push(AuthMethod::Agent);
            r.push(AuthMethod::DefaultKey(home.clone().concat("/.ssh/id_ed25519")));
            r.push(AuthMethod::DefaultKey(home.clone().concat("/.ssh/id_rsa")));
            r.push(AuthMethod::DefaultKey(home.concat("/.ssh/id_ecdsa")));
            proof {
                reveal_strlit(".");
                assert(auth_views(r@) =~= spec_auth_plan(
                    config@.key_path,
                    match home_dir {
                        Some(h) => Some(h@),
                        None => None,
                    },
                ));
            }
        },
    }
    r
}

/// Remote scanner bound to one host configuration, holding the session
/// once the caller has connected and authenticated it.
pub struct RemoteScanner {
    config: RemoteConfig,
    session: Option<ssh2::Session>,
}

impl RemoteScanner {
    /// The configuration this scanner was built with.
    pub closed spec fn spec_config(&self) -> RemoteConfigV {
        self.config@
    }

    /// Whether a session is attached.
    pub closed spec fn spec_connected(&self) -> bool {
        self.session is Some
    }

    /// Create a scanner for the given host, not yet connected.
    pub fn new(config: RemoteConfig) -> (r: RemoteScanner)
        ensures
            r.spec_config() == config@,
            !r.spec_connected(),
    {
        RemoteScanner { config, session: None }
    }

    /// The configuration, for building the connection.
    pub fn config(&self) -> (r: &RemoteConfig)
        ensures
            r@ == self.spec_config(),
    {
        &self.config
    }

    /// Attach an authenticated session; the caller performed the
    /// transport connection and the authentication sequence.
    pub fn attach_session(&mut self, session: ssh2::Session)
        ensures
            final(self).spec_connected(),
            final(self).spec_config() == old(self).spec_config(),
    {
        self.session = Some(session);
    }

    /// Drop the session, returning to the disconnected state.
    pub fn disconnect(&mut self)
        ensures
            !final(self).spec_connected(),
            final(self).spec_config() == old(self).spec_config(),
    {
        self.session = None;
    }

    /// Check if connected.
    pub fn is_connected(&self) -> (r: bool)
        ensures
            r == self.spec_connected(),
    {
        match &self.session {
            Some(_) => true,
            None => false,
        }
    }

    /// Run one remote command, capturing its output.
    fn exec(&self, command: &str) -> (r: Result<String, RemoteError>)
        ensures
            !self.spec_connected() ==> r == Err::<String, RemoteError>(RemoteError::NotConnected),
            self.spec_connected() ==> !(r matches Err(RemoteError::NotConnected)),
            r matches Err(e) ==> (e is NotConnected || e is ExecFailed),
            r is Ok ==> self.spec_connected(),
    {
        match &self.session {
            None => Err(RemoteError::NotConnected),
            Some(session) => match exec_command(session, command) {
                Some(output) => Ok(output),
                None => Err(RemoteError::ExecFailed),
            },
        }
    }

    /// Scan ports on the remote host: detect the OS family, run its
    /// diagnostic commands, and parse their output. Every produced entry
    /// has the degraded remote shape; which entries appear is exactly
    /// what the line parsers make of the captured text.
    pub fn scan(&self) -> (r: Result<Vec<PortEntry>, RemoteError>)
        ensures
            !self.spec_connected() ==> r == Err::<Vec<PortEntry>, RemoteError>(
                RemoteError::NotConnected,
            ),
            self.spec_connected() ==> !(r matches Err(RemoteError::NotConnected)),
            r matches Err(e) ==> (e is NotConnected || e is ExecFailed),
            r matches Ok(v) ==> forall|i: int|
                0 <= i < v@.len() ==> spec_remote_shape(#[trigger] v@[i]@),
    {
        if !self.is_connected() {
            return Err(RemoteError::NotConnected);
        }
        let os_output = match self.exec("uname -s") {
            Ok(o) => o,
            Err(e) => {
                return Err(e);
            },
        };
        let os = trim_of(os_output.as_str());
        if str_eq(os.as_str(), "Linux") {
            self.scan_linux()
        } else if str_eq(os.as_str(), "Darwin") {
            self.scan_macos()
        } else {
            self.scan_generic()
        }
    }

    /// Linux path: socket statistics for TCP and UDP, with a fallback
    /// alternative command on the remote side.
    fn scan_linux(&self) -> (r: Result<Vec<PortEntry>, RemoteError>)
        ensures
            !self.spec_connected() ==> r == Err::<Vec<PortEntry>, RemoteError>(
                RemoteError::NotConnected,
            ),
            self.spec_connected() ==> !(r matches Err(RemoteError::NotConnected)),
            r matches Err(e) ==> (e is NotConnected || e is ExecFailed),
            r matches Ok(v) ==> forall|i: int|
                0 <= i < v@.len() ==> spec_remote_shape(#[trigger] v@[i]@),
    {
        let tcp_output = match self.exec("ss -tlnp 2>/dev/null || netstat -tlnp 2>/dev/null") {
            Ok(o) => o,
            Err(e) => {
                return Err(e);
            },
        };
        let udp_output = match self.exec("ss -ulnp 2>/dev/null || netstat -ulnp 2>/dev/null") {
            Ok(o) => o,
            Err(e) => {
                return Err(e);
            },
        };
        let entries = parse_linux_output(tcp_output.as_str(), udp_output.as_str());
        proof {
            lemma_filter_map_elements(
                spec_output_body(tcp_output@),
                ss_line_mapper(Protocol::Tcp),
                |e: PortEntryV| spec_remote_shape(e),
            );
            lemma_filter_map_elements(
                spec_output_body(udp_output@),
                ss_line_mapper(Protocol::Udp),
                |e: PortEntryV| spec_remote_shape(e),
            );
            let tcp_part = spec_output_body(tcp_output@).filter_map(ss_line_mapper(
                Protocol::Tcp,
            ));
            let udp_part = spec_output_body(udp_output@).filter_map(ss_line_mapper(
                Protocol::Udp,
            ));
            assert(entry_views(entries@) == tcp_part + udp_part);
            assert forall|i: int| 0 <= i < entries@.len() implies spec_remote_shape(
                #[trigger] entries@[i]@,
            ) by {
                assert(entry_views(entries@)[i] == entries@[i]@);
                if i < tcp_part.len() {
                    assert(entries@[i]@ == tcp_part[i]);
                } else {
                    assert(entries@[i]@ == udp_part[i - tcp_part.len()]);
                }
            }
        }
        Ok(entries)
    }

    /// macOS path: file/socket listing for listening TCP, then UDP.
    fn scan_macos(&self) -> (r: Result<Vec<PortEntry>, RemoteError>)
        ensures
            !self.spec_connected() ==> r == Err::<Vec<PortEntry>, RemoteError>(
                RemoteError::NotConnected,
            ),
            self.spec_connected() ==> !(r matches Err(RemoteError::NotConnected)),
            r matches Err(e) ==> (e is NotConnected || e is ExecFailed),
            r matches Ok(v) ==> forall|i: int|
                0 <= i < v@.len() ==> spec_remote_shape(#[trigger] v@[i]@),
    {
        let tcp_output = match self.exec("lsof -iTCP -sTCP:LISTEN -P -n 2>/dev/null") {
            Ok(o) => o,
            Err(e) => {
                return Err(e);
            },
        };
        let udp_output = match self.exec("lsof -iUDP -P -n 2>/dev/null") {
            Ok(o) => o,
            Err(e) => {
                return Err(e);
            },
        };
        let entries = parse_macos_output(tcp_output.as_str(), udp_output.as_str());
        proof {
            lemma_filter_map_elements(
                spec_output_body(tcp_output@),
                lsof_line_mapper(Protocol::Tcp),
                |e: PortEntryV| spec_remote_shape(e),
            );
            lemma_filter_map_elements(
                spec_output_body(udp_output@),
                lsof_line_mapper(Protocol::Udp),
                |e: PortEntryV| spec_remote_shape(e),
            );
            let tcp_part = spec_output_body(tcp_output@).filter_map(lsof_line_mapper(
                Protocol::Tcp,
            ));
            let udp_part = spec_output_body(udp_output@).filter_map(lsof_line_mapper(
                Protocol::Udp,
            ));
            assert(entry_views(entries@) == tcp_part + udp_part);
            assert forall|i: int| 0 <= i < entries@.len() implies spec_remote_shape(
                #[trigger] entries@[i]@,
            ) by {
                assert(entry_views(entries@)[i] == entries@[i]@);
                if i < tcp_part.len() {
                    assert(entries@[i]@ == tcp_part[i]);
                } else {
                    assert(entries@[i]@ == udp_part[i - tcp_part.len()]);
                }
            }
        }
        Ok(entries)
    }

    /// Generic fallback: network statistics, listening lines only.
    fn scan_generic(&self) -> (r: Result<Vec<PortEntry>, RemoteError>)
        ensures
            !self.spec_connected() ==> r == Err::<Vec<PortEntry>, RemoteError>(
                RemoteError::NotConnected,
            ),
            self.spec_connected() ==> !(r matches Err(RemoteError::NotConnected)),
            r matches Err(e) ==> (e is NotConnected || e is ExecFailed),
            r matches Ok(v) ==> forall|i: int|
                0 <= i < v@.len() ==> spec_remote_shape(#[trigger] v@[i]@),
    {
        let output = match self.exec("netstat -tlnp 2>/dev/null || netstat -an 2>/dev/null") {
            Ok(o) => o,
            Err(e) => {
                return Err(e);
            },
        };
        let entries = parse_generic_output(output.as_str());
        proof {
            lemma_filter_map_elements(
                spec_lines(output@),
                netstat_line_mapper(),
                |e: PortEntryV| spec_remote_shape(e),
            );
            assert forall|i: int| 0 <= i < entries@.len() implies spec_remote_shape(
                #[trigger] entries@[i]@,
            ) by {
                assert(entry_views(entries@)[i] == entries@[i]@);
            }
        }
        Ok(entries)
    }

    /// Kill a process on the remote host: a graceful-then-forced shell
    /// command in one round trip, its captured output read for the typed
    /// outcome.
    pub fn kill_process(&self, pid: u32) -> (r: Result<(), RemoteError>)
        ensures
            !self.spec_connected() ==> r == Err::<(), RemoteError>(RemoteError::NotConnected),
            self.spec_connected() ==> !(r matches Err(RemoteError::NotConnected)),
            r matches Err(RemoteError::ProcessNotFound { pid: p }) ==> p == pid,
    {
        if !self.is_connected() {
            return Err(RemoteError::NotConnected);
        }
        let pid_str = u64_to_string(pid as u64);
        let command = String::from_str("kill ").concat(pid_str.as_str()).concat(
            " 2>&1 || kill -9 ",
        ).concat(pid_str.as_str()).concat(" 2>&1");
        match self.exec(command.as_str()) {
            Ok(output) => interpret_remote_kill_output(pid, output.as_str()),
            Err(e) => Err(e),
        }
    }

    /// Force kill a process on the remote host: the hard signal only.
    pub fn kill_process_force(&self, pid: u32) -> (r: Result<(), RemoteError>)
        ensures
            !self.spec_connected() ==> r == Err::<(), RemoteError>(RemoteError::NotConnected),
            self.spec_connected() ==> !(r matches Err(RemoteError::NotConnected)),
            r matches Err(RemoteError::ProcessNotFound { pid: p }) ==> p == pid,
    {
        if !self.is_connected() {
            return Err(RemoteError::NotConnected);
        }
        let pid_str = u64_to_string(pid as u64);
        let command = String::from_str("kill -9 ").concat(pid_str.as_str()).concat(" 2>&1");
        match self.exec(command.as_str()) {
            Ok(output) => interpret_remote_kill_output(pid, output.as_str()),
            Err(e) => Err(e),
        }
    }
}

/// The typed outcome a remote kill's captured output denotes.
pub open spec fn spec_interpret_remote_kill(pid: u32, output: Seq<char>) -> Result<
    (),
    RemoteError,
> {
    if spec_contains_seq(output, "No such process"@) {
        Err(RemoteError::ProcessNotFound { pid })
    } else if spec_contains_seq(output, "Operation not permitted"@) || spec_contains_seq(
        output,
        "Permission denied"@,
    ) {
        Err(RemoteError::PermissionDenied)
    } else {
        Ok(())
    }
}

/// Read a remote kill's captured output: a not-found report names the
/// pid, a refusal reports lacking privilege, anything else counts as
/// success.
pub fn interpret_remote_kill_output(pid: u32, output: &str) -> (r: Result<(), RemoteError>)
    ensures
        r == spec_interpret_remote_kill(pid, output@),
{
    if str_contains(output, "No such process") {
        Err(RemoteError::ProcessNotFound { pid })
    } else if str_contains(output, "Operation not permitted") || str_contains(
        output,
        "Permission denied",
    ) {
        Err(RemoteError::PermissionDenied)
    } else {
        Ok(())
    }
}

} // verus!
