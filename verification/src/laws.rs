//! The library's stated laws: zombie classification, the composite
//! ordering, the UDP cache's throttling, parser resilience against
//! malformed lines, and the stability of the reconciled topology across
//! statistics refreshes.

use vstd::prelude::*;

use crate::app::{spec_is_zombie, spec_topo, PortEntryV, Protocol, ZOMBIE_CPU_THRESHOLD};
use crate::remote::{lsof_line_mapper, spec_parse_lsof_line, spec_parse_ss_line, ss_line_mapper};
use crate::scanner::{
    lemma_map_values_to_multiset_eq, spec_baseline, spec_entry_from_tcp, spec_entry_from_udp,
    spec_entry_le, tcp_mapper, ProcessInfoV, SocketRowV, UdpPortCache, UdpRowV,
    UDP_CACHE_DURATION_MS,
};

verus! {

// ---------------------------------------------------------------------------
// Zombie classification
// ---------------------------------------------------------------------------

/// A process is classified a zombie exactly when its CPU usage exceeds
/// the threshold strictly and it has no visible parent; every other
/// combination, the threshold itself included, is not a zombie.
pub proof fn lemma_zombie_rule(cpu_usage: u32, has_parent: bool)
    ensures
        spec_is_zombie(cpu_usage, has_parent) <==> (cpu_usage > ZOMBIE_CPU_THRESHOLD
            && !has_parent),
        cpu_usage == ZOMBIE_CPU_THRESHOLD ==> !spec_is_zombie(cpu_usage, has_parent),
        has_parent ==> !spec_is_zombie(cpu_usage, has_parent),
{
}

// ---------------------------------------------------------------------------
// The composite ordering
// ---------------------------------------------------------------------------

/// The reconciled list's ordering: ascending port; on equal ports TCP
/// strictly before UDP; on equal ports and protocols, higher memory use
/// first.
pub proof fn lemma_composite_order(a: PortEntryV, b: PortEntryV)
    ensures
        a.port < b.port ==> spec_entry_le(a, b) && !spec_entry_le(b, a),
        a.port == b.port && a.protocol == Protocol::Tcp && b.protocol == Protocol::Udp
            ==> spec_entry_le(a, b) && !spec_entry_le(b, a),
        a.port == b.port && a.protocol == b.protocol && a.memory_usage > b.memory_usage
            ==> spec_entry_le(a, b) && !spec_entry_le(b, a),
{
}

// ---------------------------------------------------------------------------
// UDP cache throttling
// ---------------------------------------------------------------------------

/// Within the refresh interval of the previous refresh, a read never
/// asks for the expensive scan again; once the interval has elapsed, it
/// does.
pub proof fn lemma_udp_cache_throttle(c: UdpPortCache, now_ms: u64)
    requires
        c.primed,
    ensures
        now_ms < c.last_refresh_ms + UDP_CACHE_DURATION_MS ==> !c.spec_needs_refresh(now_ms),
        now_ms >= c.last_refresh_ms + UDP_CACHE_DURATION_MS ==> c.spec_needs_refresh(now_ms),
{
}

/// A cache that has never been refreshed asks for a refresh at any time.
pub proof fn lemma_udp_cache_initial_refresh(c: UdpPortCache, now_ms: u64)
    requires
        !c.primed,
    ensures
        c.spec_needs_refresh(now_ms),
{
}

// ---------------------------------------------------------------------------
// Parser resilience
// ---------------------------------------------------------------------------

/// `filter_map` distributes over concatenation.
pub proof fn lemma_filter_map_add<A, B>(a: Seq<A>, b: Seq<A>, f: spec_fn(A) -> Option<B>)
    ensures
        (a + b).filter_map(f) == a.filter_map(f) + b.filter_map(f),
    decreases b.len(),
{
    if b.len() == 0 {
        assert(a + b =~= a);
        assert(a.filter_map(f) + b.filter_map(f) =~= a.filter_map(f));
    } else {
        let b0 = b.drop_last();
        lemma_filter_map_add(a, b0, f);
        assert((a + b).drop_last() =~= a + b0);
        assert((a + b).last() == b.last());
        match f(b.last()) {
            Some(s) => {
                assert((a + b).filter_map(f) == (a + b0).filter_map(f) + seq![s]);
                assert(b.filter_map(f) == b0.filter_map(f) + seq![s]);
                assert((a.filter_map(f) + b0.filter_map(f)) + seq![s] =~= a.filter_map(f) + (
                b0.filter_map(f) + seq![s]));
            },
            None => {
                assert((a + b).filter_map(f) == (a + b0).filter_map(f));
                assert(b.filter_map(f) == b0.filter_map(f));
            },
        }
    }
}

/// A malformed diagnostic line contributes nothing and drops nothing: the
/// entries parsed from the lines around it are exactly those parsed with
/// the line removed.
pub proof fn lemma_malformed_ss_line_skipped(
    before: Seq<Seq<char>>,
    bad_line: Seq<char>,
    after: Seq<Seq<char>>,
    protocol: Protocol,
)
    requires
        spec_parse_ss_line(bad_line, protocol) is None,
    ensures
        (before + seq![bad_line] + after).filter_map(ss_line_mapper(protocol)) == (before
            + after).filter_map(ss_line_mapper(protocol)),
{
    let f = ss_line_mapper(protocol);
    lemma_filter_map_add(before + seq![bad_line], after, f);
    lemma_filter_map_add(before, seq![bad_line], f);
    lemma_filter_map_add(before, after, f);
    assert(seq![bad_line].filter_map(f) =~= Seq::<PortEntryV>::empty()) by {
        Seq::lemma_filter_map_singleton(bad_line, f);
    }
    assert(before.filter_map(f) + Seq::<PortEntryV>::empty() =~= before.filter_map(f));
}

/// The same resilience for the file/socket-listing parser.
pub proof fn lemma_malformed_lsof_line_skipped(
    before: Seq<Seq<char>>,
    bad_line: Seq<char>,
    after: Seq<Seq<char>>,
    protocol: Protocol,
)
    requires
        spec_parse_lsof_line(bad_line, protocol) is None,
    ensures
        (before + seq![bad_line] + after).filter_map(lsof_line_mapper(protocol)) == (before
            + after).filter_map(lsof_line_mapper(protocol)),
{
    let f = lsof_line_mapper(protocol);
    lemma_filter_map_add(before + seq![bad_line], after, f);
    lemma_filter_map_add(before, seq![bad_line], f);
    lemma_filter_map_add(before, after, f);
    assert(seq![bad_line].filter_map(f) =~= Seq::<PortEntryV>::empty()) by {
        Seq::lemma_filter_map_singleton(bad_line, f);
    }
    assert(before.filter_map(f) + Seq::<PortEntryV>::empty() =~= before.filter_map(f));
}

// ---------------------------------------------------------------------------
// Topology stability across statistics refreshes
// ---------------------------------------------------------------------------

/// The topology projection, as a mapper.
pub open spec fn topo_mapper() -> spec_fn(PortEntryV) -> (u16, Protocol, u32) {
    |e: PortEntryV| spec_topo(e)
}

/// The topology of the reconciliation baseline does not depend on the
/// process directory at all: whatever statistics a refresh brought, the
/// same `(port, protocol, pid)` triples come out, in the same order.
pub proof fn lemma_baseline_topology_fixed(
    tcp: Seq<SocketRowV>,
    udp: Seq<UdpRowV>,
    d1: Seq<(u32, ProcessInfoV)>,
    d2: Seq<(u32, ProcessInfoV)>,
)
    ensures
        spec_baseline(tcp, udp, d1).map_values(topo_mapper()) == spec_baseline(
            tcp,
            udp,
            d2,
        ).map_values(topo_mapper()),
{
    lemma_tcp_topology_fixed(tcp, d1, d2);
    let t1 = tcp.filter_map(tcp_mapper(d1));
    let t2 = tcp.filter_map(tcp_mapper(d2));
    let u1 = udp.map_values(|row: UdpRowV| spec_entry_from_udp(row, d1));
    let u2 = udp.map_values(|row: UdpRowV| spec_entry_from_udp(row, d2));
    assert((t1 + u1).map_values(topo_mapper()) =~= t1.map_values(topo_mapper()) + u1.map_values(
        topo_mapper(),
    ));
    assert((t2 + u2).map_values(topo_mapper()) =~= t2.map_values(topo_mapper()) + u2.map_values(
        topo_mapper(),
    ));
    assert(u1.map_values(topo_mapper()) =~= u2.map_values(topo_mapper()));
}

/// The TCP part of the baseline has the same topology under any two
/// directories.
proof fn lemma_tcp_topology_fixed(
    tcp: Seq<SocketRowV>,
    d1: Seq<(u32, ProcessInfoV)>,
    d2: Seq<(u32, ProcessInfoV)>,
)
    ensures
        tcp.filter_map(tcp_mapper(d1)).map_values(topo_mapper()) == tcp.filter_map(
            tcp_mapper(d2),
        ).map_values(topo_mapper()),
    decreases tcp.len(),
{
    if tcp.len() == 0 {
        assert(tcp.filter_map(tcp_mapper(d1)).map_values(topo_mapper()) =~= tcp.filter_map(
            tcp_mapper(d2),
        ).map_values(topo_mapper()));
    } else {
        let rest = tcp.drop_last();
        lemma_tcp_topology_fixed(rest, d1, d2);
        let row = tcp.last();
        if row.is_tcp && row.listening {
            assert(tcp.filter_map(tcp_mapper(d1)) == rest.filter_map(tcp_mapper(d1)) + seq![
                spec_entry_from_tcp(row, d1),
            ]);
            assert(tcp.filter_map(tcp_mapper(d2)) == rest.filter_map(tcp_mapper(d2)) + seq![
                spec_entry_from_tcp(row, d2),
            ]);
            assert(spec_topo(spec_entry_from_tcp(row, d1)) == spec_topo(
                spec_entry_from_tcp(row, d2),
            ));
            let f1 = rest.filter_map(tcp_mapper(d1));
            let f2 = rest.filter_map(tcp_mapper(d2));
            let e1 = spec_entry_from_tcp(row, d1);
            let e2 = spec_entry_from_tcp(row, d2);
            assert((f1 + seq![e1]).map_values(topo_mapper()) =~= f1.map_values(topo_mapper())
                + seq![spec_topo(e1)]);
            assert((f2 + seq![e2]).map_values(topo_mapper()) =~= f2.map_values(topo_mapper())
                + seq![spec_topo(e2)]);
        } else {
            assert(tcp.filter_map(tcp_mapper(d1)) == rest.filter_map(tcp_mapper(d1)));
            assert(tcp.filter_map(tcp_mapper(d2)) == rest.filter_map(tcp_mapper(d2)));
        }
    }
}

/// Repeated reconciliation against an unchanged topology is idempotent up
/// to statistics: two passes over the same sockets and cached UDP rows,
/// each with its own directory refresh, hold exactly the same
/// `(port, protocol, pid)` triples, however the sort tiebreaks moved
/// entries with fluctuating statistics around.
pub proof fn lemma_reconcile_topology_idempotent(
    r1: Seq<PortEntryV>,
    r2: Seq<PortEntryV>,
    tcp: Seq<SocketRowV>,
    udp: Seq<UdpRowV>,
    d1: Seq<(u32, ProcessInfoV)>,
    d2: Seq<(u32, ProcessInfoV)>,
)
    requires
        r1.to_multiset() == spec_baseline(tcp, udp, d1).to_multiset(),
        r2.to_multiset() == spec_baseline(tcp, udp, d2).to_multiset(),
    ensures
        r1.map_values(topo_mapper()).to_multiset() == r2.map_values(topo_mapper()).to_multiset(),
{
    lemma_map_values_to_multiset_eq(r1, spec_baseline(tcp, udp, d1), topo_mapper());
    lemma_map_values_to_multiset_eq(r2, spec_baseline(tcp, udp, d2), topo_mapper());
    lemma_baseline_topology_fixed(tcp, udp, d1, d2);
}

} // verus!
