//! Properties of the registry and the broadcast that hold for all inputs.
use vstd::prelude::*;

use crate::registry::{fanout, inserted, keys_of, recipients, unique_keys, ClientKey};

verus! {

/// The payloads addressed to `k`, in the order they are handed out.
pub open spec fn received(ds: Seq<(ClientKey, Seq<u8>)>, k: ClientKey) -> Seq<Seq<u8>>
    decreases ds.len(),
{
    if ds.len() == 0 {
        Seq::empty()
    } else {
        let rest = received(ds.drop_last(), k);
        if ds.last().0 == k {
            rest.push(ds.last().1)
        } else {
            rest
        }
    }
}

/// A broadcast from `origin` reaches a key exactly when that key is
/// registered and belongs to another connection: the origin is never among
/// the recipients, and neither is a channel that was never opened.
pub proof fn lemma_recipients_are_the_others(keys: Seq<ClientKey>, origin: u64, k: ClientKey)
    ensures
        recipients(keys, origin).contains(k) <==> keys.contains(k) && k.conn != origin,
    decreases keys.len(),
{
    if keys.len() > 0 {
        let rest = keys.drop_last();
        lemma_recipients_are_the_others(rest, origin, k);
        assert(keys =~= rest.push(keys.last()));
        if keys.contains(k) && k.conn != origin && k != keys.last() {
            let i = choose|i: int| 0 <= i < keys.len() && keys[i] == k;
            assert(rest[i] == k);
        }
        if rest.contains(k) {
            let i = choose|i: int| 0 <= i < rest.len() && rest[i] == k;
            assert(keys[i] == k);
        }
        if recipients(rest, origin).contains(k) && keys.last().conn != origin {
            let i = choose|i: int|
                0 <= i < recipients(rest, origin).len() && recipients(rest, origin)[i] == k;
            assert(recipients(keys, origin)[i] == k);
        }
        if keys.last() == k && k.conn != origin {
            assert(recipients(keys, origin).last() == k);
        }
    }
}

proof fn lemma_recipients_without_origin(keys: Seq<ClientKey>, origin: u64)
    requires
        forall|i: int| 0 <= i < keys.len() ==> keys[i].conn != origin,
    ensures
        recipients(keys, origin) == keys,
    decreases keys.len(),
{
    if keys.len() > 0 {
        lemma_recipients_without_origin(keys.drop_last(), origin);
        assert(keys.drop_last().push(keys.last()) =~= keys);
    }
}

/// With every open channel on a connection of its own, a broadcast from one
/// of those connections reaches all the others: one fewer than the number of
/// open channels.
pub proof fn lemma_broadcast_reaches_all_but_origin(keys: Seq<ClientKey>, origin: u64)
    requires
        forall|i: int, j: int| 0 <= i < j < keys.len() ==> keys[i].conn != keys[j].conn,
        exists|i: int| 0 <= i < keys.len() && keys[i].conn == origin,
    ensures
        recipients(keys, origin).len() == keys.len() - 1,
    decreases keys.len(),
{
    let rest = keys.drop_last();
    if keys.last().conn == origin {
        assert forall|i: int| 0 <= i < rest.len() implies rest[i].conn != origin by {
            assert(keys[i].conn != keys[keys.len() - 1].conn);
        }
        lemma_recipients_without_origin(rest, origin);
    } else {
        let i = choose|i: int| 0 <= i < keys.len() && keys[i].conn == origin;
        assert(rest[i].conn == origin);
        lemma_broadcast_reaches_all_but_origin(rest, origin);
    }
}

proof fn lemma_received_concat(a: Seq<(ClientKey, Seq<u8>)>, b: Seq<(ClientKey, Seq<u8>)>, k: ClientKey)
    ensures
        received(a + b, k) == received(a, k) + received(b, k),
    decreases b.len(),
{
    if b.len() == 0 {
        assert(a + b =~= a);
        assert(received(a, k) + received(b, k) =~= received(a, k));
    } else {
        lemma_received_concat(a, b.drop_last(), k);
        assert((a + b).drop_last() =~= a + b.drop_last());
        assert((a + b).last() == b.last());
        if b.last().0 == k {
            assert(received(a, k) + received(b.drop_last(), k).push(b.last().1) =~= (received(a, k)
                + received(b.drop_last(), k)).push(b.last().1));
        }
    }
}

proof fn lemma_fanout_received(keys: Seq<ClientKey>, origin: u64, p: Seq<u8>, k: ClientKey)
    requires
        keys.no_duplicates(),
        k.conn != origin,
    ensures
        received(fanout(keys, origin, p), k) == (if keys.contains(k) {
            seq![p]
        } else {
            Seq::<Seq<u8>>::empty()
        }),
    decreases keys.len(),
{
    if keys.len() > 0 {
        let rest = keys.drop_last();
        assert(rest.no_duplicates());
        lemma_fanout_received(rest, origin, p, k);
        let f = fanout(keys, origin, p);
        if keys.last().conn != origin {
            assert(f.drop_last() =~= fanout(rest, origin, p));
            assert(f.last() == (keys.last(), p));
        } else {
            assert(f =~= fanout(rest, origin, p));
        }
        assert(keys =~= rest.push(keys.last()));
        if rest.contains(k) {
            let i = choose|i: int| 0 <= i < rest.len() && rest[i] == k;
            assert(keys[i] == k);
            assert(keys.last() != k);
        }
        if keys.contains(k) && keys.last() != k {
            let i = choose|i: int| 0 <= i < keys.len() && keys[i] == k;
            assert(rest[i] == k);
        }
        if keys.last() == k {
            assert(keys.contains(k));
            assert(seq![].push(p) =~= seq![p]);
        }
    }
}

/// Two broadcasts from one connection, of `p1` and then `p2`, reach every
/// channel of another connection in that order: `p1`, then `p2`.
pub proof fn lemma_broadcast_keeps_order(
    keys: Seq<ClientKey>,
    origin: u64,
    p1: Seq<u8>,
    p2: Seq<u8>,
    k: ClientKey,
)
    requires
        keys.no_duplicates(),
        keys.contains(k),
        k.conn != origin,
    ensures
        received(fanout(keys, origin, p1) + fanout(keys, origin, p2), k) == seq![p1, p2],
{
    lemma_received_concat(fanout(keys, origin, p1), fanout(keys, origin, p2), k);
    lemma_fanout_received(keys, origin, p1, k);
    lemma_fanout_received(keys, origin, p2, k);
    assert(seq![p1] + seq![p2] =~= seq![p1, p2]);
}

/// What a connection's data event hands out reaches that connection only
/// once, through the echo at the end; the broadcast part never does.
pub proof fn lemma_origin_only_gets_echo(keys: Seq<ClientKey>, origin: u64, channel: u32, p: Seq<u8>)
    ensures
        ({
            let ds = fanout(keys, origin, p).push((ClientKey { conn: origin, channel }, p));
            forall|i: int| 0 <= i < ds.len() && #[trigger] ds[i].0.conn == origin ==> i == ds.len() - 1
        }),
{
    let f = fanout(keys, origin, p);
    assert forall|i: int| 0 <= i < f.len() implies #[trigger] f[i].0.conn != origin by {
        let r = recipients(keys, origin);
        assert(r[i] == f[i].0);
        assert(r.contains(f[i].0));
        lemma_recipients_are_the_others(keys, origin, f[i].0);
    }
}

/// Registering a key keeps every key unique.
pub proof fn lemma_insert_keeps_keys_unique<H>(s: Seq<(ClientKey, H)>, key: ClientKey, h: H)
    requires
        unique_keys(s),
    ensures
        unique_keys(inserted(s, key, h)),
        keys_of(inserted(s, key, h)) == (if keys_of(s).contains(key) {
            keys_of(s)
        } else {
            keys_of(s).push(key)
        }),
{
    let ks = keys_of(s);
    if ks.contains(key) {
        let i = ks.index_of(key);
        assert(keys_of(s.update(i, (key, h))) =~= ks);
    } else {
        assert(keys_of(s.push((key, h))) =~= ks.push(key));
    }
}

/// Opening the same key twice overwrites: the second registration replaces
/// the first, and the registry holds one entry for the key.
pub proof fn lemma_insert_twice_overwrites<H>(s: Seq<(ClientKey, H)>, key: ClientKey, h1: H, h2: H)
    requires
        unique_keys(s),
    ensures
        inserted(inserted(s, key, h1), key, h2) == inserted(s, key, h2),
        inserted(inserted(s, key, h1), key, h2).len() == inserted(s, key, h1).len(),
{
    let ks = keys_of(s);
    let once = inserted(s, key, h1);
    lemma_insert_keeps_keys_unique(s, key, h1);
    if ks.contains(key) {
        assert(keys_of(once) == ks);
        assert(once.update(ks.index_of(key), (key, h2)) =~= s.update(ks.index_of(key), (key, h2)));
    } else {
        let n = s.len() as int;
        assert(keys_of(once) == ks.push(key));
        assert(keys_of(once)[n] == key);
        assert(keys_of(once).contains(key));
        let j = keys_of(once).index_of(key);
        assert(keys_of(once)[j] == key);
        assert(j == n);
        assert(once.update(n, (key, h2)) =~= s.push((key, h2)));
    }
}

/// The registry never holds more entries than it has distinct keys.
pub proof fn lemma_size_is_distinct_keys<H>(s: Seq<(ClientKey, H)>)
    requires
        unique_keys(s),
    ensures
        s.len() == keys_of(s).to_set().len(),
{
    keys_of(s).unique_seq_to_set();
}

} // verus!
