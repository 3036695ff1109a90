//! The client registry: a mapping from (connection, channel) to the outbound
//! handle through which bytes reach that channel's remote peer.
use vstd::prelude::*;

verus! {

/// Identifies one open channel endpoint: the connection it belongs to and the
/// channel number that the protocol layer assigned within that connection.
#[derive(Clone, Copy, Debug, PartialEq, Eq, Hash, Structural)]
pub struct ClientKey {
    pub conn: u64,
    pub channel: u32,
}

/// Bytes to be injected into one registered channel.
#[derive(Debug)]
pub struct Delivery {
    pub key: ClientKey,
    pub payload: Vec<u8>,
}

/// The keys of a sequence of registry entries, in order.
pub open spec fn keys_of<H>(s: Seq<(ClientKey, H)>) -> Seq<ClientKey> {
    s.map_values(|e: (ClientKey, H)| e.0)
}

/// Registry entries are well formed when no key occurs twice.
pub open spec fn unique_keys<H>(s: Seq<(ClientKey, H)>) -> bool {
    keys_of(s).no_duplicates()
}

/// The entries after `key` is registered with `h`: an existing entry for the
/// key is overwritten in place, otherwise the entry is appended.
pub open spec fn inserted<H>(s: Seq<(ClientKey, H)>, key: ClientKey, h: H) -> Seq<(ClientKey, H)> {
    if keys_of(s).contains(key) {
        s.update(keys_of(s).index_of(key), (key, h))
    } else {
        s.push((key, h))
    }
}

/// The keys, in registry order, that do not belong to connection `origin`.
pub open spec fn recipients(keys: Seq<ClientKey>, origin: u64) -> Seq<ClientKey>
    decreases keys.len(),
{
    if keys.len() == 0 {
        Seq::empty()
    } else {
        let rest = recipients(keys.drop_last(), origin);
        if keys.last().conn != origin {
            rest.push(keys.last())
        } else {
            rest
        }
    }
}

/// What a broadcast from `origin` hands out: `payload` addressed to every
/// key of another connection, each at its own channel number.
pub open spec fn fanout(keys: Seq<ClientKey>, origin: u64, payload: Seq<u8>) -> Seq<(ClientKey, Seq<u8>)> {
    recipients(keys, origin).map_values(|k: ClientKey| (k, payload))
}

/// The abstract content of a list of deliveries.
pub open spec fn delivered(ds: Seq<Delivery>) -> Seq<(ClientKey, Seq<u8>)> {
    ds.map_values(|d: Delivery| (d.key, d.payload@))
}

/// The entries that remain once every channel of connection `conn` is gone,
/// in their original order.
pub open spec fn without_conn<H>(s: Seq<(ClientKey, H)>, conn: u64) -> Seq<(ClientKey, H)>
    decreases s.len(),
{
    if s.len() == 0 {
        s
    } else if s[0].0.conn == conn {
        without_conn(s.drop_first(), conn)
    } else {
        seq![s[0]].add(without_conn(s.drop_first(), conn))
    }
}

proof fn lemma_remove_keeps_unique<H>(s: Seq<(ClientKey, H)>, i: int)
    requires
        unique_keys(s),
        0 <= i < s.len(),
    ensures
        unique_keys(s.remove(i)),
{
    let r = s.remove(i);
    let ks = keys_of(s);
    assert forall|a: int, b: int| 0 <= a < r.len() && 0 <= b < r.len() && a != b implies keys_of(r)[a]
        != keys_of(r)[b] by {
        let a0 = if a < i { a } else { a + 1 };
        let b0 = if b < i { b } else { b + 1 };
        assert(keys_of(r)[a] == ks[a0]);
        assert(keys_of(r)[b] == ks[b0]);
    }
}

/// The process-wide directory of open channels.
pub struct Registry<H> {
    entries: Vec<(ClientKey, H)>,
}

impl<H> View for Registry<H> {
    type V = Seq<(ClientKey, H)>;

    closed spec fn view(&self) -> Seq<(ClientKey, H)> {
        self.entries@
    }
}

impl<H> Registry<H> {
    pub open spec fn wf(&self) -> bool {
        unique_keys(self@)
    }

    pub open spec fn keys(&self) -> Seq<ClientKey> {
        keys_of(self@)
    }

    pub fn new() -> (r: Self)
        ensures
            r@ == Seq::<(ClientKey, H)>::empty(),
            r.wf(),
    {
        let r = Registry { entries: Vec::new() };
        assert(keys_of(r@) =~= Seq::<ClientKey>::empty());
        r
    }

    pub fn len(&self) -> (r: usize)
        ensures
            r == self@.len(),
    {
        self.entries.len()
    }

    /// Position of `key` among the entries, if it is registered.
    fn position(&self, key: ClientKey) -> (r: Option<usize>)
        requires
            self.wf(),
        ensures
            r.is_none() <==> !self.keys().contains(key),
            r matches Some(i) ==> i < self@.len() && i == self.keys().index_of(key)
                && self@[i as int].0 == key,
    {
        let mut i: usize = 0;
        while i < self.entries.len()
            invariant
                self.wf(),
                i <= self@.len(),
                forall|j: int| 0 <= j < i ==> self@[j].0 != key,
            decreases self@.len() - i,
        {
            if self.entries[i].0 == key {
                proof {
                    let ks = self.keys();
                    assert(ks[i as int] == key);
                    assert(ks.contains(key));
                    let k = ks.index_of(key);
                    assert(0 <= k < ks.len() && ks[k] == key);
                    assert(k == i as int);
                }
                return Some(i);
            }
            i = i + 1;
        }
        proof {
            if self.keys().contains(key) {
                let j = choose|j: int| 0 <= j < self.keys().len() && self.keys()[j] == key;
                assert(self@[j].0 == key);
            }
        }
        None
    }

    /// Registers `handle` for `key`, overwriting any handle already there.
    pub fn insert(&mut self, key: ClientKey, handle: H)
        requires
            old(self).wf(),
        ensures
            final(self).wf(),
            final(self)@ == inserted(old(self)@, key, handle),
    {
        match self.position(key) {
            Some(i) => {
                self.entries.set(i, (key, handle));
                assert(keys_of(self@) =~= keys_of(old(self)@));
            },
            None => {
                self.entries.push((key, handle));
                assert(keys_of(self@) =~= keys_of(old(self)@).push(key));
            },
        }
    }

    /// The handle registered for `key`.
    pub fn get(&self, key: ClientKey) -> (r: Option<&H>)
        requires
            self.wf(),
        ensures
            r.is_none() <==> !self.keys().contains(key),
            r matches Some(h) ==> *h == self@[self.keys().index_of(key)].1,
    {
        match self.position(key) {
            Some(i) => Some(&self.entries[i].1),
            None => None,
        }
    }

    /// Unregisters `key`, handing back its handle if it was registered.
    pub fn remove(&mut self, key: ClientKey) -> (r: Option<H>)
        requires
            old(self).wf(),
        ensures
            final(self).wf(),
            r.is_none() <==> !old(self).keys().contains(key),
            old(self).keys().contains(key) ==> {
                let i = old(self).keys().index_of(key);
                &&& r == Some(old(self)@[i].1)
                &&& final(self)@ == old(self)@.remove(i)
            },
            !old(self).keys().contains(key) ==> final(self)@ == old(self)@,
    {
        match self.position(key) {
            Some(i) => {
                proof {
                    lemma_remove_keeps_unique(self@, i as int);
                }
                let (_, h) = self.entries.remove(i);
                Some(h)
            },
            None => None,
        }
    }

    /// Unregisters every channel of connection `conn`, keeping the order of
    /// the others.
    pub fn remove_connection(&mut self, conn: u64)
        requires
            old(self).wf(),
        ensures
            final(self).wf(),
            final(self)@ == without_conn(old(self)@, conn),
    {
        let mut i: usize = 0;
        assert(self@.skip(0) =~= self@);
        assert(self@.take(0) + without_conn(self@, conn) =~= without_conn(self@, conn));
        while i < self.entries.len()
            invariant
                self.wf(),
                i <= self@.len(),
                self@.take(i as int) + without_conn(self@.skip(i as int), conn) == without_conn(
                    old(self)@,
                    conn,
                ),
            decreases self@.len() - i,
        {
            let ghost before = self@;
            assert(before.skip(i as int).drop_first() =~= before.skip(i as int + 1));
            if self.entries[i].0.conn == conn {
                proof {
                    lemma_remove_keeps_unique(before, i as int);
                }
                self.entries.remove(i);
                assert(self@.take(i as int) =~= before.take(i as int));
                assert(self@.skip(i as int) =~= before.skip(i as int + 1));
            } else {
                assert(before.take(i as int + 1) =~= before.take(i as int) + seq![before[i as int]]);
                assert(before.skip(i as int)[0] == before[i as int]);
                assert(before.take(i as int) + without_conn(before.skip(i as int), conn)
                    =~= before.take(i as int + 1) + without_conn(before.skip(i as int + 1), conn));
                i = i + 1;
            }
        }
        assert(self@.take(i as int) =~= self@);
        assert(self@.skip(i as int) =~= Seq::<(ClientKey, H)>::empty());
        assert(self@ + Seq::<(ClientKey, H)>::empty() =~= self@);
    }

    /// Copies of `payload` for every registered channel whose connection is
    /// not `origin`, each addressed to that channel's own number.
    pub fn broadcast_except(&self, origin: u64, payload: &[u8]) -> (r: Vec<Delivery>)
        ensures
            delivered(r@) == fanout(self.keys(), origin, payload@),
    {
        let mut out: Vec<Delivery> = Vec::new();
        let mut i: usize = 0;
        while i < self.entries.len()
            invariant
                i <= self@.len(),
                delivered(out@) == fanout(self.keys().take(i as int), origin, payload@),
            decreases self@.len() - i,
        {
            let key = self.entries[i].0;
            proof {
                let ks = self.keys();
                assert(ks.take(i as int + 1).drop_last() =~= ks.take(i as int));
                assert(ks.take(i as int + 1).last() == key);
            }
            if key.conn != origin {
                let d = Delivery { key, payload: vstd::slice::slice_to_vec(payload) };
                out.push(d);
                assert(delivered(out@) =~= fanout(self.keys().take(i as int), origin, payload@).push(
                    (key, payload@),
                ));
            }
            i = i + 1;
        }
        assert(self.keys().take(self@.len() as int) =~= self.keys());
        out
    }
}

} // verus!
