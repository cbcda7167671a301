use vstd::prelude::*;
use crate::error::NodeError;
use crate::host::{decimal_text, digit_char, HostView};
use crate::node::{
    check_in, checkout, closed, node_invariant, released, settle, with_alias, ConnectionAction,
    ConnectionEvent, ConnectionSlot, NodeView,
};
use crate::services::{mapped_host, parse_friend, scan_friends, FriendEntry, FriendScan};
use crate::text::{all_digits, digits_value, is_digit, spec_parse_isize, spec_parse_u16, split_on};

verus! {

/// Every operation keeps the node invariant: the pool stays within the size
/// that the policy allows, and the host stays the first of the node's
/// addresses, of which there is always one at least.
pub proof fn law_node_invariant_kept<C>(
    v: NodeView<C>,
    conn: C,
    alias: HostView,
    event: ConnectionEvent,
)
    requires
        node_invariant(v),
    ensures
        node_invariant(checkout(v).0),
        node_invariant(check_in(v, conn).0),
        node_invariant(settle(v, event).0),
        node_invariant(released(v)),
        node_invariant(closed(v)),
        node_invariant(with_alias(v, alias)),
        with_alias(v, alias).host == v.host,
{
}

/// A closed node keeps no connection that is given back to it, and changes
/// nothing when one is.
pub proof fn law_closed_node_keeps_nothing<C>(v: NodeView<C>, conn: C)
    ensures
        check_in(closed(v), conn) == (closed(v), None::<C>),
        closed(v).pool.len() == 0,
        !closed(v).active,
        closed(v).connection_count == v.connection_count,
        closed(v).aliases == v.aliases,
{
}

/// A refused request for a connection leaves the node as it was.
pub proof fn law_refused_checkout_changes_nothing<C>(v: NodeView<C>)
    ensures
        checkout(v).1 is Err ==> checkout(v).0 == v,
        checkout(v).1 is Err <==> (v.pool.len() == 0 && v.connection_count > v.policy.pool_size),
{
}

/// Giving back a reserved connection slot (when opening the connection
/// failed) restores the count of connections.
pub proof fn law_reserved_slot_given_back<C>(v: NodeView<C>)
    ensures
        checkout(v).1 == Ok::<ConnectionSlot<C>, NodeError>(ConnectionSlot::Reserved) ==> released(
            checkout(v).0,
        ) == v,
{
}

/// A new connection that cannot be opened or set up leaves the node as it
/// was before the request; an idle pooled connection is counted as gone and
/// the next request is answered from the rest of the pool.
pub proof fn law_failed_opening_leaves_node_as_before<C>(v: NodeView<C>)
    ensures
        checkout(v).1 == Ok::<ConnectionSlot<C>, NodeError>(ConnectionSlot::Reserved) ==> {
            &&& settle(checkout(v).0, ConnectionEvent::OpenFailed) == (v, ConnectionAction::Fail)
            &&& settle(checkout(v).0, ConnectionEvent::OpenedTimeoutFailed) == (
                v,
                ConnectionAction::Fail,
            )
        },
        v.pool.len() > 0 ==> settle(checkout(v).0, ConnectionEvent::PooledIdle) == (
            released(NodeView { pool: v.pool.drop_first(), ..v }),
            ConnectionAction::CloseAndRetry,
        ),
{
}

/// The pool is first in, first out: a connection given back to an active
/// node with room is the one handed out after those already pooled.
pub proof fn law_pool_first_in_first_out<C>(v: NodeView<C>, conn: C)
    requires
        v.active,
        v.pool.len() < v.policy.pool_size,
    ensures
        v.pool.len() == 0 ==> checkout(check_in(v, conn).0) == (v, Ok::<ConnectionSlot<C>, NodeError>(
            ConnectionSlot::Pooled(conn),
        )),
        v.pool.len() > 0 ==> checkout(check_in(v, conn).0).1 == Ok::<ConnectionSlot<C>, NodeError>(
            ConnectionSlot::Pooled(v.pool[0]),
        ),
{
    if v.pool.len() == 0 {
        assert(v.pool.push(conn).drop_first() =~= v.pool);
    }
}

/// The peers that a services list yields are distinct, and none of them is
/// among the addresses already known; every entry is counted at most once.
pub proof fn law_new_peers_are_distinct_and_unknown(
    entries: Seq<Seq<char>>,
    ip_map: Option<Map<Seq<char>, Seq<char>>>,
    current: Seq<HostView>,
)
    ensures
        scan_friends(entries, ip_map, current).friends.no_duplicates(),
        forall|i: int|
            0 <= i < scan_friends(entries, ip_map, current).friends.len() ==> !current.contains(
                #[trigger] scan_friends(entries, ip_map, current).friends[i],
            ),
        scan_friends(entries, ip_map, current).friends.len() + scan_friends(
            entries,
            ip_map,
            current,
        ).known <= entries.len(),
    decreases entries.len(),
{
    if entries.len() > 0 {
        law_new_peers_are_distinct_and_unknown(entries.drop_last(), ip_map, current);
    }
}

/// Text without the separator splits into itself alone.
proof fn lemma_split_without_separator(s: Seq<char>, sep: char)
    requires
        !s.contains(sep),
    ensures
        split_on(s, sep) == seq![s],
    decreases s.len(),
{
    if s.len() > 0 {
        assert(!s.drop_last().contains(sep)) by {
            if s.drop_last().contains(sep) {
                let i = choose|i: int| 0 <= i < s.drop_last().len() && s.drop_last()[i] == sep;
                assert(s[i] == sep);
            }
        }
        lemma_split_without_separator(s.drop_last(), sep);
        assert(s.last() != sep) by {
            assert(s[s.len() - 1] == s.last());
        }
        assert(s.drop_last().push(s.last()) == s);
    } else {
        assert(s == Seq::<char>::empty());
    }
}

/// Text without the separator, appended after a separator, becomes the last
/// piece.
proof fn lemma_split_after_separator(a: Seq<char>, b: Seq<char>, sep: char)
    requires
        !b.contains(sep),
    ensures
        split_on(a.push(sep) + b, sep) == split_on(a, sep).push(b),
    decreases b.len(),
{
    if b.len() == 0 {
        assert(a.push(sep) + b == a.push(sep));
        assert(a.push(sep).drop_last() == a);
        assert(b == Seq::<char>::empty());
    } else {
        assert(!b.drop_last().contains(sep)) by {
            if b.drop_last().contains(sep) {
                let i = choose|i: int| 0 <= i < b.drop_last().len() && b.drop_last()[i] == sep;
                assert(b[i] == sep);
            }
        }
        lemma_split_after_separator(a, b.drop_last(), sep);
        let s = a.push(sep) + b;
        assert(s.drop_last() == a.push(sep) + b.drop_last());
        assert(s.last() == b.last());
        assert(b.last() != sep) by {
            assert(b[b.len() - 1] == b.last());
        }
        crate::text::lemma_split_nonempty(a, sep);
        assert(b.drop_last().push(b.last()) == b);
        let prev = split_on(a, sep).push(b.drop_last());
        assert(prev.update(prev.len() - 1, prev.last().push(b.last())) =~= split_on(a, sep).push(b));
    }
}

/// The decimal writing of a number is made of digits and reads back as that
/// number.
proof fn lemma_decimal_text_digits(n: nat)
    ensures
        decimal_text(n).len() > 0,
        all_digits(decimal_text(n)),
        digits_value(decimal_text(n)) == n,
        decimal_text(n)[0] != '+',
        !decimal_text(n).contains(':'),
    decreases n,
{
    if n < 10 {
        let t = decimal_text(n);
        assert(t.drop_last() == Seq::<char>::empty());
        assert(digit_char(n) as nat - '0' as nat == n);
        assert(t.last() == digit_char(n));
        assert(digits_value(t.drop_last()) == 0);
        assert(digits_value(t) == n);
    } else {
        lemma_decimal_text_digits(n / 10);
        let t = decimal_text(n);
        assert(digit_char(n % 10) as nat - '0' as nat == n % 10);
        assert(t.drop_last() == decimal_text(n / 10));
        assert(t.last() == digit_char(n % 10));
        assert(digits_value(t) == digits_value(decimal_text(n / 10)) * 10 + n % 10);
        vstd::arithmetic::div_mod::lemma_fundamental_div_mod(n as int, 10);
        assert(digits_value(t) == n);
        assert(is_digit(t.last()));
        assert(all_digits(t)) by {
            assert forall|i: int| 0 <= i < t.len() implies is_digit(#[trigger] t[i]) by {
                if i < t.len() - 1 {
                    assert(t[i] == decimal_text(n / 10)[i]);
                }
            }
        }
        assert(t[0] == decimal_text(n / 10)[0]);
    }
    let t = decimal_text(n);
    assert(!t.contains(':')) by {
        if t.contains(':') {
            let i = choose|i: int| 0 <= i < t.len() && t[i] == ':';
            assert(is_digit(t[i]));
        }
    }
}

/// An address written as `NAME:PORT` (as `Host::text` writes it), whose name
/// holds no `:` and has no replacement in the address table, reads back as
/// that address when it stands in a services list.
pub proof fn law_written_address_reads_back(
    h: HostView,
    ip_map: Option<Map<Seq<char>, Seq<char>>>,
)
    requires
        !h.name.contains(':'),
        mapped_host(h.name, ip_map) == h.name,
    ensures
        parse_friend(h.name + ":"@ + decimal_text(h.port as nat), ip_map) == FriendEntry::Address(h),
{
    reveal_strlit(":");
    let digits = decimal_text(h.port as nat);
    lemma_decimal_text_digits(h.port as nat);
    lemma_split_without_separator(h.name, ':');
    lemma_split_after_separator(h.name, digits, ':');
    assert(h.name + ":"@ + digits == h.name.push(':') + digits);
    let parts = split_on(h.name + ":"@ + digits, ':');
    assert(parts == seq![h.name, digits]);
    assert(spec_parse_u16(digits) == Some(h.port));
}

/// The text made of `pieces` with `sep` between each two of them.
pub open spec fn join_on(pieces: Seq<Seq<char>>, sep: char) -> Seq<char>
    decreases pieces.len(),
{
    if pieces.len() == 0 {
        Seq::empty()
    } else if pieces.len() == 1 {
        pieces[0]
    } else {
        join_on(pieces.drop_last(), sep).push(sep) + pieces.last()
    }
}

/// No piece of a split holds the separator.
proof fn lemma_split_pieces_without_separator(s: Seq<char>, sep: char)
    ensures
        forall|i: int| 0 <= i < split_on(s, sep).len() ==> !(#[trigger] split_on(s, sep)[i]).contains(sep),
    decreases s.len(),
{
    if s.len() > 0 {
        lemma_split_pieces_without_separator(s.drop_last(), sep);
        crate::text::lemma_split_nonempty(s.drop_last(), sep);
        let prev = split_on(s.drop_last(), sep);
        if s.last() != sep {
            let last = prev.last().push(s.last());
            assert(!last.contains(sep)) by {
                if last.contains(sep) {
                    let j = choose|j: int| 0 <= j < last.len() && last[j] == sep;
                    if j < last.len() - 1 {
                        assert(prev.last()[j] == sep);
                        assert(prev[prev.len() - 1] == prev.last());
                    }
                }
            }
        }
        assert forall|i: int| 0 <= i < split_on(s, sep).len() implies !(
        #[trigger] split_on(s, sep)[i]).contains(sep) by {
            if i < prev.len() - 1 {
                assert(split_on(s, sep)[i] == prev[i]);
            }
        }
    }
}

/// Joining pieces that hold no separator and splitting again gives the
/// pieces back.
proof fn lemma_split_join(pieces: Seq<Seq<char>>, sep: char)
    requires
        pieces.len() >= 1,
        forall|i: int| 0 <= i < pieces.len() ==> !(#[trigger] pieces[i]).contains(sep),
    ensures
        split_on(join_on(pieces, sep), sep) == pieces,
    decreases pieces.len(),
{
    if pieces.len() == 1 {
        lemma_split_without_separator(pieces[0], sep);
        assert(pieces == seq![pieces[0]]);
    } else {
        let front = pieces.drop_last();
        assert forall|i: int| 0 <= i < front.len() implies !(#[trigger] front[i]).contains(sep) by {
            assert(front[i] == pieces[i]);
        }
        lemma_split_join(front, sep);
        assert(!pieces.last().contains(sep)) by {
            assert(pieces[pieces.len() - 1] == pieces.last());
        }
        lemma_split_after_separator(join_on(front, sep), pieces.last(), sep);
        assert(front.push(pieces.last()) == pieces);
    }
}

/// An entry that does not read as `HOST:PORT` can be left out of a list of
/// entries without changing the outcome of reading it.
proof fn lemma_scan_without_malformed(
    entries: Seq<Seq<char>>,
    k: int,
    ip_map: Option<Map<Seq<char>, Seq<char>>>,
    current: Seq<HostView>,
)
    requires
        0 <= k < entries.len(),
        parse_friend(entries[k], ip_map) == FriendEntry::Malformed,
    ensures
        scan_friends(entries.remove(k), ip_map, current) == scan_friends(entries, ip_map, current),
    decreases entries.len(),
{
    if k == entries.len() - 1 {
        assert(entries.remove(k) == entries.drop_last());
    } else {
        lemma_scan_without_malformed(entries.drop_last(), k, ip_map, current);
        assert(entries.remove(k).drop_last() == entries.drop_last().remove(k));
        assert(entries.remove(k).last() == entries.last());
    }
}

/// An entry of a services list that does not read as `HOST:PORT` changes
/// nothing: leaving it out of the text, together with one `;` next to it,
/// gives the same peers, the same count of known addresses, and no failure
/// where there was none. The edited text is the remaining entries joined
/// with `;`.
pub proof fn law_malformed_entry_is_ignored(
    services: Seq<char>,
    k: int,
    ip_map: Option<Map<Seq<char>, Seq<char>>>,
    current: Seq<HostView>,
)
    requires
        0 <= k < split_on(services, ';').len(),
        parse_friend(split_on(services, ';')[k], ip_map) == FriendEntry::Malformed,
    ensures
        scan_friends(split_on(join_on(split_on(services, ';').remove(k), ';'), ';'), ip_map, current)
            == scan_friends(split_on(services, ';'), ip_map, current),
{
    let entries = split_on(services, ';');
    let rest = entries.remove(k);
    lemma_scan_without_malformed(entries, k, ip_map, current);
    if rest.len() == 0 {
        let empty = split_on(join_on(rest, ';'), ';');
        assert(join_on(rest, ';') == Seq::<char>::empty());
        assert(empty == seq![Seq::<char>::empty()]);
        assert(empty.drop_last() == Seq::<Seq<char>>::empty());
        assert(split_on(empty.last(), ':') == seq![Seq::<char>::empty()]);
        assert(parse_friend(empty.last(), ip_map) == FriendEntry::Malformed);
        assert(scan_friends(empty.drop_last(), ip_map, current) == FriendScan {
            friends: Seq::empty(),
            known: 0,
            failed: false,
        });
        assert(rest == Seq::<Seq<char>>::empty());
    } else {
        lemma_split_pieces_without_separator(services, ';');
        assert forall|i: int| 0 <= i < rest.len() implies !(#[trigger] rest[i]).contains(';') by {
            if i < k {
                assert(rest[i] == entries[i]);
            } else {
                assert(rest[i] == entries[i + 1]);
            }
        }
        lemma_split_join(rest, ';');
    }
}

/// The node after `k` rounds in which `get_connection` hands out a pooled
/// connection that turns out to be idle and is invalidated.
pub open spec fn after_idle_rounds<C>(v: NodeView<C>, k: nat) -> NodeView<C>
    decreases k,
{
    if k == 0 {
        v
    } else {
        settle(checkout(after_idle_rounds(v, (k - 1) as nat)).0, ConnectionEvent::PooledIdle).0
    }
}

/// Asking for a connection while the pooled ones are idle drains them from
/// the front of the pool, counting each as gone; once the pool is empty the
/// next request counts a new connection or is refused.
pub proof fn law_idle_connections_are_drained<C>(v: NodeView<C>, k: nat)
    requires
        k <= v.pool.len(),
    ensures
        after_idle_rounds(v, k) == (NodeView {
            pool: v.pool.skip(k as int),
            connection_count: ((v.connection_count - k) % (usize::MAX as int + 1)) as usize,
            ..v
        }),
        k == v.pool.len() ==> checkout(after_idle_rounds(v, k)).1 is Err || checkout(
            after_idle_rounds(v, k),
        ).1 == Ok::<ConnectionSlot<C>, NodeError>(ConnectionSlot::Reserved),
    decreases k,
{
    let m = usize::MAX as int + 1;
    if k == 0 {
        assert(v.pool.skip(0) == v.pool);
        vstd::arithmetic::div_mod::lemma_small_mod(v.connection_count as nat, m as nat);
    } else {
        law_idle_connections_are_drained(v, (k - 1) as nat);
        let x = v.connection_count - (k - 1);
        let r = x % m;
        vstd::arithmetic::div_mod::lemma_add_mod_noop(x, -1, m);
        vstd::arithmetic::div_mod::lemma_mod_bound(x, m);
        assert((-1int) % m == m - 1) by {
            vstd::arithmetic::div_mod::lemma_fundamental_div_mod(-1, m);
            vstd::arithmetic::div_mod::lemma_mod_bound(-1, m);
        }
        if r >= 1 {
            vstd::arithmetic::div_mod::lemma_small_mod((r - 1) as nat, m as nat);
        } else {
            vstd::arithmetic::div_mod::lemma_small_mod((m - 1) as nat, m as nat);
        }
        assert(v.pool.skip(k - 1).drop_first() == v.pool.skip(k as int));
    }
}

/// Whether `entry` of a services list reads as an address among `current`.
pub open spec fn reads_known_address(
    entry: Seq<char>,
    ip_map: Option<Map<Seq<char>, Seq<char>>>,
    current: Seq<HostView>,
) -> bool {
    match parse_friend(entry, ip_map) {
        FriendEntry::Address(a) => current.contains(a),
        _ => false,
    }
}

/// Reading a services list that has no bad port is complete and sound: every
/// entry that reads as an address not among `current` yields a peer, every
/// peer is the address of some entry and not among `current`, no peer comes
/// twice, and the count of known addresses is the number of entries that read
/// as one of `current`.
pub proof fn law_peer_scan_is_complete(
    entries: Seq<Seq<char>>,
    ip_map: Option<Map<Seq<char>, Seq<char>>>,
    current: Seq<HostView>,
)
    requires
        !scan_friends(entries, ip_map, current).failed,
    ensures
        forall|i: int|
            0 <= i < entries.len() && parse_friend(#[trigger] entries[i], ip_map) is Address
                && !current.contains(parse_friend(entries[i], ip_map)->0) ==> scan_friends(
                entries,
                ip_map,
                current,
            ).friends.contains(parse_friend(entries[i], ip_map)->0),
        forall|j: int|
            0 <= j < scan_friends(entries, ip_map, current).friends.len() ==> exists|i: int|
                0 <= i < entries.len() && parse_friend(#[trigger] entries[i], ip_map)
                    == FriendEntry::Address(
                    #[trigger] scan_friends(entries, ip_map, current).friends[j],
                ),
        forall|j: int|
            0 <= j < scan_friends(entries, ip_map, current).friends.len() ==> !current.contains(
                #[trigger] scan_friends(entries, ip_map, current).friends[j],
            ),
        scan_friends(entries, ip_map, current).friends.no_duplicates(),
        scan_friends(entries, ip_map, current).known == entries.filter(
            |e: Seq<char>| reads_known_address(e, ip_map, current),
        ).len(),
    decreases entries.len(),
{
    law_new_peers_are_distinct_and_unknown(entries, ip_map, current);
    let pred = |e: Seq<char>| reads_known_address(e, ip_map, current);
    reveal(Seq::filter);
    if entries.len() == 0 {
        assert(entries.filter(pred).len() == 0);
    } else {
        let front = entries.drop_last();
        let prev = scan_friends(front, ip_map, current);
        let now = scan_friends(entries, ip_map, current);
        law_peer_scan_is_complete(front, ip_map, current);
        assert(entries.filter(pred) == if pred(entries.last()) {
            front.filter(pred).push(entries.last())
        } else {
            front.filter(pred)
        });
        assert forall|i: int|
            0 <= i < entries.len() && parse_friend(#[trigger] entries[i], ip_map) is Address
                && !current.contains(parse_friend(entries[i], ip_map)->0) implies now.friends.contains(
            parse_friend(entries[i], ip_map)->0) by {
            let a = parse_friend(entries[i], ip_map)->0;
            if i < entries.len() - 1 {
                assert(front[i] == entries[i]);
                let k = choose|k: int| 0 <= k < prev.friends.len() && prev.friends[k] == a;
                if now.friends != prev.friends {
                    assert(now.friends[k] == a);
                }
            } else {
                assert(entries[i] == entries.last());
                if !prev.friends.contains(a) {
                    assert(now.friends[now.friends.len() - 1] == a);
                }
            }
        }
        assert forall|j: int| 0 <= j < now.friends.len() implies exists|i: int|
            0 <= i < entries.len() && parse_friend(#[trigger] entries[i], ip_map)
                == FriendEntry::Address(#[trigger] now.friends[j]) by {
            if j < prev.friends.len() {
                let i = choose|i: int| 0 <= i < front.len() && parse_friend(#[trigger] front[i], ip_map)
                    == FriendEntry::Address(prev.friends[j]);
                assert(front[i] == entries[i]);
                assert(now.friends[j] == prev.friends[j]);
            } else {
                assert(entries[entries.len() - 1] == entries.last());
            }
        }
    }
}

/// Reading stops at the first entry with a bad port: what was read before it
/// stands, and nothing after it counts.
pub proof fn law_peer_scan_stops_at_bad_port(
    entries: Seq<Seq<char>>,
    ip_map: Option<Map<Seq<char>, Seq<char>>>,
    current: Seq<HostView>,
)
    ensures
        scan_friends(entries, ip_map, current).failed ==> exists|i: int|
            0 <= i < entries.len() && parse_friend(#[trigger] entries[i], ip_map) == FriendEntry::BadPort
                && !scan_friends(entries.take(i), ip_map, current).failed
                && scan_friends(entries, ip_map, current) == (FriendScan {
                    failed: true,
                    ..scan_friends(entries.take(i), ip_map, current)
                }),
    decreases entries.len(),
{
    if entries.len() > 0 && scan_friends(entries, ip_map, current).failed {
        let front = entries.drop_last();
        assert(entries.take(entries.len() - 1) == front);
        if scan_friends(front, ip_map, current).failed {
            law_peer_scan_stops_at_bad_port(front, ip_map, current);
            let i = choose|i: int|
                0 <= i < front.len() && parse_friend(#[trigger] front[i], ip_map) == FriendEntry::BadPort
                    && !scan_friends(front.take(i), ip_map, current).failed
                    && scan_friends(front, ip_map, current) == (FriendScan {
                        failed: true,
                        ..scan_friends(front.take(i), ip_map, current)
                    });
            assert(front.take(i) == entries.take(i));
            assert(front[i] == entries[i]);
        } else {
            assert(entries[entries.len() - 1] == entries.last());
        }
    }
}

/// A connection given back to an active node whose pool has room is kept:
/// the pool grows by one and ends with it, nothing is handed back to close,
/// and nothing else changes; it is handed out again once the connections
/// pooled before it are gone.
pub proof fn law_connection_kept_while_pool_has_room<C>(v: NodeView<C>, conn: C)
    requires
        v.active,
        v.pool.len() < v.policy.pool_size,
    ensures
        check_in(v, conn).1 is None,
        check_in(v, conn).0.pool.len() == v.pool.len() + 1,
        check_in(v, conn).0.pool.last() == conn,
        check_in(v, conn).0.pool.drop_last() == v.pool,
        check_in(v, conn).0.connection_count == v.connection_count,
        check_in(v, conn).0 == (NodeView { pool: check_in(v, conn).0.pool, ..v }),
        after_idle_rounds(check_in(v, conn).0, v.pool.len()).pool == seq![conn],
{
    let w = check_in(v, conn).0;
    assert(w.pool.drop_last() == v.pool);
    law_idle_connections_are_drained(w, v.pool.len());
    assert(w.pool.skip(v.pool.len() as int) == seq![conn]);
}

/// Adding an address keeps the earlier ones in order and puts the new one
/// last; the host stays, and one more reference is counted.
pub proof fn law_alias_is_appended<C>(v: NodeView<C>, alias: HostView)
    ensures
        with_alias(v, alias).aliases.len() == v.aliases.len() + 1,
        with_alias(v, alias).aliases.last() == alias,
        forall|i: int| 0 <= i < v.aliases.len() ==> #[trigger] with_alias(v, alias).aliases[i] == v.aliases[i],
        with_alias(v, alias).aliases.contains(alias),
        with_alias(v, alias).host == v.host,
        with_alias(v, alias).reference_count == v.reference_count.wrapping_add(1),
{
    assert(with_alias(v, alias).aliases[v.aliases.len() as int] == alias);
}

/// A connection found fit for use is used, whatever else the node holds, and
/// the node is left as it was; a pooled connection handed out by
/// `get_connection` and found ready is exactly the first of the pool.
pub proof fn law_ready_connection_is_used<C>(v: NodeView<C>)
    ensures
        settle(v, ConnectionEvent::PooledReady) == (v, ConnectionAction::Use),
        settle(v, ConnectionEvent::OpenedReady) == (v, ConnectionAction::Use),
        v.pool.len() > 0 ==> {
            &&& checkout(v).1 == Ok::<ConnectionSlot<C>, NodeError>(ConnectionSlot::Pooled(v.pool[0]))
            &&& settle(checkout(v).0, ConnectionEvent::PooledReady).1 == ConnectionAction::Use
        },
{
}

/// The decimal writing of a signed number: a `-` before the digits of a
/// negative one.
pub open spec fn signed_decimal_text(n: int) -> Seq<char> {
    if n < 0 {
        seq!['-'] + decimal_text((-n) as nat)
    } else {
        decimal_text(n as nat)
    }
}

/// Every `isize` written in decimal reads back as itself, and every `u16`
/// does too.
pub proof fn law_decimal_round_trip(n: isize, p: u16)
    ensures
        spec_parse_isize(signed_decimal_text(n as int)) == Some(n),
        spec_parse_u16(decimal_text(p as nat)) == Some(p),
        spec_parse_isize(seq!['+'] + decimal_text(p as nat)) == Some(p as isize),
{
    lemma_decimal_text_digits(p as nat);
    let t = seq!['+'] + decimal_text(p as nat);
    assert(t.drop_first() == decimal_text(p as nat));
    if n < 0 {
        lemma_decimal_text_digits((-n) as nat);
        let s = signed_decimal_text(n as int);
        assert(s.drop_first() == decimal_text((-n) as nat));
        assert(s[0] == '-');
    } else {
        lemma_decimal_text_digits(n as nat);
        let s = signed_decimal_text(n as int);
        assert(s[0] != '-') by {
            assert(is_digit(s[0]));
        }
    }
}

/// Reading further entries only appends peers: the peers of the first `i`
/// entries come first, in the same order, in the peers of the whole list.
/// With `law_peer_scan_is_complete` on each prefix, this fixes the peers'
/// order as the order in which they first appear.
pub proof fn law_peers_keep_list_order(
    entries: Seq<Seq<char>>,
    ip_map: Option<Map<Seq<char>, Seq<char>>>,
    current: Seq<HostView>,
    i: int,
)
    requires
        0 <= i <= entries.len(),
    ensures
        scan_friends(entries.take(i), ip_map, current).friends.len() <= scan_friends(
            entries,
            ip_map,
            current,
        ).friends.len(),
        scan_friends(entries, ip_map, current).friends.take(
            scan_friends(entries.take(i), ip_map, current).friends.len() as int,
        ) == scan_friends(entries.take(i), ip_map, current).friends,
    decreases entries.len() - i,
{
    if i == entries.len() {
        assert(entries.take(i) == entries);
        let f = scan_friends(entries, ip_map, current).friends;
        assert(f.take(f.len() as int) == f);
    } else {
        law_peers_keep_list_order(entries, ip_map, current, i + 1);
        let small = scan_friends(entries.take(i), ip_map, current).friends;
        let mid = scan_friends(entries.take(i + 1), ip_map, current).friends;
        let all = scan_friends(entries, ip_map, current).friends;
        assert(entries.take(i + 1).drop_last() == entries.take(i));
        assert(mid.take(small.len() as int) == small);
        assert(all.take(small.len() as int) == mid.take(small.len() as int));
    }
}

/// Splitting text and joining the pieces again with the separator gives the
/// text back, and no piece holds the separator: the pieces are exactly the
/// runs of text between separators.
pub proof fn law_split_then_join(s: Seq<char>, sep: char)
    ensures
        join_on(split_on(s, sep), sep) == s,
        forall|i: int| 0 <= i < split_on(s, sep).len() ==> !(#[trigger] split_on(s, sep)[i]).contains(sep),
    decreases s.len(),
{
    lemma_split_pieces_without_separator(s, sep);
    if s.len() == 0 {
        assert(split_on(s, sep) == seq![Seq::<char>::empty()]);
        assert(s == Seq::<char>::empty());
    } else {
        law_split_then_join(s.drop_last(), sep);
        crate::text::lemma_split_nonempty(s.drop_last(), sep);
        let prev = split_on(s.drop_last(), sep);
        let c = s.last();
        if c == sep {
            let now = prev.push(Seq::<char>::empty());
            assert(now.drop_last() == prev);
            assert(s.drop_last().push(sep) + Seq::<char>::empty() == s);
        } else {
            let now = prev.update(prev.len() - 1, prev.last().push(c));
            if prev.len() == 1 {
                assert(now[0] == prev[0].push(c));
                assert(s.drop_last().push(c) == s);
            } else {
                assert(now.drop_last() == prev.drop_last());
                assert(now.last() == prev.last().push(c));
                assert(join_on(prev.drop_last(), sep).push(sep) + prev.last().push(c) == (join_on(
                    prev.drop_last(),
                    sep,
                ).push(sep) + prev.last()).push(c));
                assert(s.drop_last().push(c) == s);
            }
        }
    }
}

/// An entry `NAME:PORT` whose name the address table replaces reads as the
/// replacement name with that port.
pub proof fn law_address_table_applies(
    name: Seq<char>,
    port: u16,
    table: Map<Seq<char>, Seq<char>>,
)
    requires
        !name.contains(':'),
        table.dom().contains(name),
    ensures
        parse_friend(name + ":"@ + decimal_text(port as nat), Some(table)) == FriendEntry::Address(
            HostView { name: table[name], port },
        ),
{
    reveal_strlit(":");
    let digits = decimal_text(port as nat);
    lemma_decimal_text_digits(port as nat);
    lemma_split_without_separator(name, ':');
    lemma_split_after_separator(name, digits, ':');
    assert(name + ":"@ + digits == name.push(':') + digits);
    assert(split_on(name + ":"@ + digits, ':') == seq![name, digits]);
}

} // verus!
