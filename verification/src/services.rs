use vstd::prelude::*;
use crate::host::HostView;
use crate::text::{split_on, spec_parse_u16};

verus! {

/// The info key under which a node lists its peers.
pub open spec fn services_key(alternate: bool) -> Seq<char> {
    if alternate {
        "services-alternate"@
    } else {
        "services"@
    }
}

/// The name to connect to for a peer announced as `name`: its replacement in
/// the policy's address table where there is one.
pub open spec fn mapped_host(name: Seq<char>, ip_map: Option<Map<Seq<char>, Seq<char>>>) -> Seq<char> {
    match ip_map {
        Some(m) => if m.dom().contains(name) {
            m[name]
        } else {
            name
        },
        None => name,
    }
}

/// How one entry of a services list reads.
pub enum FriendEntry {
    /// Not of the form `HOST:PORT`; it is passed over.
    Malformed,
    /// Of that form, but the port is not a number that fits in a `u16`.
    BadPort,
    /// The address of a peer.
    Address(HostView),
}

/// Reads one entry `HOST:PORT` of a services list.
pub open spec fn parse_friend(entry: Seq<char>, ip_map: Option<Map<Seq<char>, Seq<char>>>) -> FriendEntry {
    let parts = split_on(entry, ':');
    if parts.len() != 2 {
        FriendEntry::Malformed
    } else {
        match spec_parse_u16(parts[1]) {
            None => FriendEntry::BadPort,
            Some(port) => FriendEntry::Address(HostView { name: mapped_host(parts[0], ip_map), port }),
        }
    }
}

/// The outcome of reading the entries of a services list: the new peers in
/// the order they came, how many entries named an address already known, and
/// whether an entry had a bad port (reading stops there).
pub struct FriendScan {
    pub friends: Seq<HostView>,
    pub known: nat,
    pub failed: bool,
}

/// Reads the entries of a services list in order. An address already known
/// counts as a reference; a new address is added once.
pub open spec fn scan_friends(
    entries: Seq<Seq<char>>,
    ip_map: Option<Map<Seq<char>, Seq<char>>>,
    current: Seq<HostView>,
) -> FriendScan
    decreases entries.len(),
{
    if entries.len() == 0 {
        FriendScan { friends: Seq::empty(), known: 0, failed: false }
    } else {
        let prev = scan_friends(entries.drop_last(), ip_map, current);
        if prev.failed {
            prev
        } else {
            match parse_friend(entries.last(), ip_map) {
                FriendEntry::Malformed => prev,
                FriendEntry::BadPort => FriendScan { failed: true, ..prev },
                FriendEntry::Address(a) => if current.contains(a) {
                    FriendScan { known: prev.known + 1, ..prev }
                } else if prev.friends.contains(a) {
                    prev
                } else {
                    FriendScan { friends: prev.friends.push(a), ..prev }
                },
            }
        }
    }
}

/// Once an entry had a bad port, later entries change nothing.
pub proof fn lemma_scan_stops_at_failure(
    entries: Seq<Seq<char>>,
    ip_map: Option<Map<Seq<char>, Seq<char>>>,
    current: Seq<HostView>,
    k: int,
)
    requires
        0 <= k <= entries.len(),
        scan_friends(entries.take(k), ip_map, current).failed,
    ensures
        scan_friends(entries, ip_map, current) == scan_friends(entries.take(k), ip_map, current),
    decreases entries.len() - k,
{
    if k < entries.len() {
        assert(entries.take(k + 1).drop_last() == entries.take(k));
        lemma_scan_stops_at_failure(entries, ip_map, current, k + 1);
    } else {
        assert(entries.take(k) == entries);
    }
}

/// A counter after `n` steps of one, wrapping around past the largest `usize`.
pub open spec fn wrapping_count(x: usize, n: nat) -> usize {
    ((x + n) % (usize::MAX as int + 1)) as usize
}

/// One more step of a wrapping counter is one more wrapping addition of one.
pub proof fn lemma_wrapping_count_step(x: usize, n: nat)
    ensures
        wrapping_count(x, n).wrapping_add(1) == wrapping_count(x, n + 1),
{
    let m = usize::MAX as int + 1;
    let r = (x + n) % m;
    vstd::arithmetic::div_mod::lemma_add_mod_noop(x + n, 1, m);
    vstd::arithmetic::div_mod::lemma_small_mod(1, m as nat);
    if r + 1 < m {
        vstd::arithmetic::div_mod::lemma_small_mod((r + 1) as nat, m as nat);
    } else {
        vstd::arithmetic::div_mod::lemma_mod_self_0(m);
    }
}

} // verus!
