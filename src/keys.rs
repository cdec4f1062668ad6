//! Resolution of key identifiers to verification keys, with request
//! coalescing: for each identifier at most one fetch is in flight, and every
//! task that asks meanwhile waits for that fetch and gets its result.
//!
//! A failed fetch is evicted, so that a later request fetches again. Keys that
//! resolved stay cached for good and are handed out by slot number.
use vstd::prelude::*;

verus! {

/// Why a key could not be had.
#[derive(Clone, Copy, Debug, PartialEq, Eq, Structural)]
pub enum KeyError {
    /// The key material could not be fetched.
    Fetch,
    /// The fetched bytes are not a key.
    Parse,
}

/// What a task that asks for a key must do next.
#[derive(Clone, Copy, Debug, PartialEq, Eq, Structural)]
pub enum Resolution {
    /// No fetch for the identifier is in flight: the task starts the one fetch
    /// and reports its result through `complete`.
    Fetch,
    /// A fetch is in flight; the task waits for its delivery.
    Wait,
    /// The key is cached in this slot.
    Ready(usize),
}

/// The result of a fetch, for every task that waited on it.
#[derive(Debug)]
pub struct Delivery {
    pub waiters: Vec<u64>,
    pub outcome: Result<usize, KeyError>,
}

#[derive(Debug)]
enum EntryState {
    InFlight(Vec<u64>),
    Ready(usize),
}

#[derive(Debug)]
struct KeyEntry {
    id: Vec<u8>,
    state: EntryState,
}

/// The state of one identifier's entry, as a mathematical value.
pub enum SlotModel {
    /// A fetch is in flight; these tasks wait for it, in the order they asked.
    InFlight(Seq<u64>),
    /// The key is cached in this slot.
    Ready(usize),
}

/// The entry of one key identifier, as a mathematical value.
pub struct EntryModel {
    pub id: Seq<u8>,
    pub state: SlotModel,
}

impl KeyEntry {
    closed spec fn model(&self) -> EntryModel {
        EntryModel {
            id: self.id@,
            state: match self.state {
                EntryState::InFlight(ws) => SlotModel::InFlight(ws@),
                EntryState::Ready(s) => SlotModel::Ready(s),
            },
        }
    }
}

/// `k` is the position of the first entry for `id`.
pub open spec fn is_first_entry(es: Seq<EntryModel>, id: Seq<u8>, k: int) -> bool {
    &&& 0 <= k < es.len()
    &&& es[k].id == id
    &&& forall|j: int| 0 <= j < k ==> (#[trigger] es[j]).id != id
}

/// The position of the entry for `id`, or -1.
pub open spec fn entry_of(es: Seq<EntryModel>, id: Seq<u8>) -> int {
    if exists|k: int| is_first_entry(es, id, k) {
        choose|k: int| is_first_entry(es, id, k)
    } else {
        -1
    }
}

proof fn lemma_entry_is(es: Seq<EntryModel>, id: Seq<u8>, k: int)
    requires
        is_first_entry(es, id, k),
    ensures
        entry_of(es, id) == k,
{
    let c = choose|c: int| is_first_entry(es, id, c);
    assert(is_first_entry(es, id, c));
    if c < k {
        assert(es[c].id != id);
    } else if c > k {
        assert(es[k].id != id);
    }
}

proof fn lemma_entry_none(es: Seq<EntryModel>, id: Seq<u8>)
    requires
        forall|j: int| 0 <= j < es.len() ==> (#[trigger] es[j]).id != id,
    ensures
        entry_of(es, id) == -1,
{
    if exists|k: int| is_first_entry(es, id, k) {
        let c = choose|c: int| is_first_entry(es, id, c);
        assert(es[c].id == id);
    }
}

proof fn lemma_entry_facts(es: Seq<EntryModel>, id: Seq<u8>)
    requires
        entries_wf(es),
    ensures
        -1 <= entry_of(es, id) < es.len(),
        entry_of(es, id) >= 0 ==> es[entry_of(es, id)].id == id,
        entry_of(es, id) < 0 ==> forall|j: int| 0 <= j < es.len() ==> (#[trigger] es[j]).id != id,
{
    if exists|k: int| is_first_entry(es, id, k) {
    } else {
        assert forall|j: int| 0 <= j < es.len() implies (#[trigger] es[j]).id != id by {
            if es[j].id == id {
                assert forall|i: int| 0 <= i < j implies (#[trigger] es[i]).id != id by {
                    assert(es[i].id != es[j].id);
                }
                assert(is_first_entry(es, id, j));
            }
        }
    }
}

/// Identifiers have one entry each.
pub open spec fn entries_wf(es: Seq<EntryModel>) -> bool {
    forall|i: int, j: int|
        0 <= i < es.len() && 0 <= j < es.len() && i != j ==> (#[trigger] es[i]).id != (#[trigger] es[j]).id
}

/// The entries after task `w` asked for the key `id`, and what it must do.
pub open spec fn request_model(es: Seq<EntryModel>, id: Seq<u8>, w: u64) -> (Seq<EntryModel>, Resolution) {
    let k = entry_of(es, id);
    if k < 0 {
        (es.push(EntryModel { id, state: SlotModel::InFlight(seq![w]) }), Resolution::Fetch)
    } else {
        match es[k].state {
            SlotModel::InFlight(ws) => (
                es.update(k, EntryModel { id, state: SlotModel::InFlight(ws.push(w)) }),
                Resolution::Wait,
            ),
            SlotModel::Ready(s) => (es, Resolution::Ready(s)),
        }
    }
}

/// Whether a fetch for `id` is in flight.
pub open spec fn in_flight(es: Seq<EntryModel>, id: Seq<u8>) -> bool {
    entry_of(es, id) >= 0 && es[entry_of(es, id)].state is InFlight
}

/// The tasks that wait for the fetch of `id`.
pub open spec fn waiters_of(es: Seq<EntryModel>, id: Seq<u8>) -> Seq<u64> {
    es[entry_of(es, id)].state->InFlight_0
}

/// The entries after the fetch of `id` completed: on success the key went to
/// slot `slot` (`Some`), on failure (`None`) the entry is evicted.
pub open spec fn complete_model(es: Seq<EntryModel>, id: Seq<u8>, slot: Option<usize>) -> Seq<EntryModel> {
    let k = entry_of(es, id);
    if !in_flight(es, id) {
        es
    } else {
        match slot {
            Some(s) => es.update(k, EntryModel { id, state: SlotModel::Ready(s) }),
            None => es.remove(k),
        }
    }
}

/// Two tasks that ask for the same key start at most one fetch between them.
/// Where nothing is cached or in flight, the first is told to fetch and the
/// second to wait; where a fetch is in flight, both wait; where the key is
/// cached, both get the same slot. Whoever waits is among the waiters of that
/// one fetch, so that its single delivery reaches both.
pub proof fn lemma_single_flight(es: Seq<EntryModel>, id: Seq<u8>, w1: u64, w2: u64)
    requires
        entries_wf(es),
    ensures
        ({
            let (e1, r1) = request_model(es, id, w1);
            let (e2, r2) = request_model(e1, id, w2);
            &&& r2 !is Fetch
            &&& entry_of(es, id) < 0 ==> r1 is Fetch && r2 is Wait
            &&& in_flight(es, id) ==> r1 is Wait && r2 is Wait
            &&& r1 is Ready ==> r2 == r1
            &&& r1 !is Ready ==> in_flight(e2, id) && waiters_of(e2, id).contains(w1)
                && waiters_of(e2, id).contains(w2)
        }),
{
    lemma_entry_facts(es, id);
    let k = entry_of(es, id);
    if k < 0 {
        let e1 = es.push(EntryModel { id, state: SlotModel::InFlight(seq![w1]) });
        assert(is_first_entry(e1, id, es.len() as int)) by {
            assert forall|j: int| 0 <= j < es.len() implies (#[trigger] e1[j]).id != id by {
                assert(e1[j] == es[j]);
            }
        }
        lemma_entry_is(e1, id, es.len() as int);
        let e2 = e1.update(es.len() as int, EntryModel { id, state: SlotModel::InFlight(seq![w1].push(w2)) });
        assert(is_first_entry(e2, id, es.len() as int)) by {
            assert forall|j: int| 0 <= j < es.len() implies (#[trigger] e2[j]).id != id by {
                assert(e2[j] == es[j]);
            }
        }
        lemma_entry_is(e2, id, es.len() as int);
        assert(seq![w1].push(w2)[0] == w1 && seq![w1].push(w2)[1] == w2);
    } else if es[k].state is InFlight {
        let ws = es[k].state->InFlight_0;
        let e1 = es.update(k, EntryModel { id, state: SlotModel::InFlight(ws.push(w1)) });
        assert(is_first_entry(e1, id, k)) by {
            assert forall|j: int| 0 <= j < k implies (#[trigger] e1[j]).id != id by {
                assert(e1[j] == es[j]);
                assert(es[j].id != es[k].id);
            }
        }
        lemma_entry_is(e1, id, k);
        let e2 = e1.update(k, EntryModel { id, state: SlotModel::InFlight(ws.push(w1).push(w2)) });
        assert(is_first_entry(e2, id, k)) by {
            assert forall|j: int| 0 <= j < k implies (#[trigger] e2[j]).id != id by {
                assert(e2[j] == es[j]);
                assert(es[j].id != es[k].id);
            }
        }
        lemma_entry_is(e2, id, k);
        assert(ws.push(w1).push(w2)[ws.len() as int] == w1);
        assert(ws.push(w1).push(w2)[ws.len() as int + 1] == w2);
    }
}

/// Whether two byte strings are equal.
pub(crate) fn same_bytes(a: &[u8], b: &[u8]) -> (r: bool)
    ensures
        r == (a@ == b@),
{
    if a.len() != b.len() {
        return false;
    }
    let mut i: usize = 0;
    while i < a.len()
        invariant
            a@.len() == b@.len(),
            i <= a@.len(),
            forall|j: int| 0 <= j < i ==> a@[j] == b@[j],
        decreases a@.len() - i,
    {
        if a[i] != b[i] {
            return false;
        }
        i = i + 1;
    }
    assert(a@ =~= b@);
    true
}

/// The cache of verification keys, one entry per key identifier.
pub struct KeyResolver<K> {
    entries: Vec<KeyEntry>,
    keys: Vec<K>,
}

impl<K> KeyResolver<K> {
    /// The entries, one per identifier that was asked for and not evicted.
    pub closed spec fn entries_spec(&self) -> Seq<EntryModel> {
        self.entries@.map_values(|e: KeyEntry| e.model())
    }

    /// The keys that resolved, by slot.
    pub closed spec fn keys_spec(&self) -> Seq<K> {
        self.keys@
    }

    /// Identifiers have one entry each, and cached slots hold keys.
    pub open spec fn wf(&self) -> bool {
        &&& entries_wf(self.entries_spec())
        &&& forall|i: int|
            0 <= i < self.entries_spec().len() && (#[trigger] self.entries_spec()[i]).state is Ready
                ==> self.entries_spec()[i].state->Ready_0 < self.keys_spec().len()
    }

    /// An empty cache.
    pub fn new() -> (r: KeyResolver<K>)
        ensures
            r.wf(),
            r.entries_spec() == Seq::<EntryModel>::empty(),
            r.keys_spec() == Seq::<K>::empty(),
    {
        let r = KeyResolver { entries: Vec::new(), keys: Vec::new() };
        assert(r.entries_spec() =~= Seq::<EntryModel>::empty());
        r
    }

    fn find(&self, id: &[u8]) -> (r: Option<usize>)
        requires
            self.wf(),
        ensures
            r is None ==> entry_of(self.entries_spec(), id@) == -1,
            r matches Some(k) ==> k == entry_of(self.entries_spec(), id@),
    {
        let ghost es = self.entries_spec();
        let mut i: usize = 0;
        while i < self.entries.len()
            invariant
                i <= self.entries@.len(),
                es == self.entries@.map_values(|e: KeyEntry| e.model()),
                forall|j: int| 0 <= j < i ==> (#[trigger] es[j]).id != id@,
            decreases self.entries@.len() - i,
        {
            if same_bytes(self.entries[i].id.as_slice(), id) {
                proof {
                    lemma_entry_is(es, id@, i as int);
                }
                return Some(i);
            }
            i = i + 1;
        }
        proof {
            lemma_entry_none(es, id@);
        }
        None
    }

    /// Task `waiter` asks for the key `id`. The first task to ask while no
    /// fetch is in flight is told to fetch; the others wait for that fetch.
    /// A cached key is handed out at once.
    pub fn request(&mut self, id: &[u8], waiter: u64) -> (r: Resolution)
        requires
            old(self).wf(),
        ensures
            final(self).wf(),
            (final(self).entries_spec(), r) == request_model(old(self).entries_spec(), id@, waiter),
            final(self).keys_spec() == old(self).keys_spec(),
    {
        let ghost es = self.entries_spec();
        proof {
            lemma_entry_facts(es, id@);
        }
        match self.find(id) {
            None => {
                let mut ws: Vec<u64> = Vec::new();
                ws.push(waiter);
                self.entries.push(KeyEntry { id: vstd::slice::slice_to_vec(id), state: EntryState::InFlight(ws) });
                proof {
                    let ne = self.entries_spec();
                    assert(ne =~= es.push(EntryModel { id: id@, state: SlotModel::InFlight(seq![waiter]) }));
                    assert forall|i: int, j: int|
                        0 <= i < ne.len() && 0 <= j < ne.len() && i != j implies (#[trigger] ne[i]).id
                        != (#[trigger] ne[j]).id by {
                        if i < es.len() && j < es.len() {
                            assert(es[i].id != es[j].id);
                        } else if i < es.len() {
                            assert(es[i].id != id@);
                        } else {
                            assert(es[j].id != id@);
                        }
                    }
                }
                Resolution::Fetch
            },
            Some(k) => {
                if let EntryState::Ready(s) = self.entries[k].state {
                    return Resolution::Ready(s);
                }
                let entry = self.entries.remove(k);
                let mut ws = match entry.state {
                    EntryState::InFlight(ws) => ws,
                    EntryState::Ready(_) => Vec::new(),
                };
                ws.push(waiter);
                self.entries.insert(k, KeyEntry { id: entry.id, state: EntryState::InFlight(ws) });
                proof {
                    let ne = self.entries_spec();
                    let target = es.update(
                        k as int,
                        EntryModel { id: id@, state: SlotModel::InFlight(es[k as int].state->InFlight_0.push(waiter)) },
                    );
                    assert(ne =~= target);
                    assert forall|i: int, j: int|
                        0 <= i < ne.len() && 0 <= j < ne.len() && i != j implies (#[trigger] ne[i]).id
                        != (#[trigger] ne[j]).id by {
                        assert(ne[i].id == es[i].id && ne[j].id == es[j].id);
                    }
                    assert forall|i: int|
                        0 <= i < ne.len() && (#[trigger] ne[i]).state is Ready implies ne[i].state->Ready_0
                        < self.keys@.len() by {
                        assert(i != k);
                        assert(ne[i] == es[i]);
                    }
                }
                Resolution::Wait
            },
        }
    }

    /// The fetch of `id` has completed with `fetched`. Every task that waited
    /// on it gets the same outcome: the slot of the key, or the error. A
    /// failed entry is evicted so that a later request fetches again. Gives
    /// `None`, and changes nothing, where no fetch of `id` was in flight.
    pub fn complete(&mut self, id: &[u8], fetched: Result<K, KeyError>) -> (r: Option<Delivery>)
        requires
            old(self).wf(),
        ensures
            final(self).wf(),
            !in_flight(old(self).entries_spec(), id@) ==> r is None
                && final(self).entries_spec() == old(self).entries_spec()
                && final(self).keys_spec() == old(self).keys_spec(),
            in_flight(old(self).entries_spec(), id@) ==> r is Some
                && r->Some_0.waiters@ == waiters_of(old(self).entries_spec(), id@)
                && match fetched {
                    Ok(key) => {
                        &&& r->Some_0.outcome == Ok::<usize, KeyError>(old(self).keys_spec().len() as usize)
                        &&& final(self).keys_spec() == old(self).keys_spec().push(key)
                        &&& final(self).entries_spec() == complete_model(
                            old(self).entries_spec(),
                            id@,
                            Some(old(self).keys_spec().len() as usize),
                        )
                    },
                    Err(e) => {
                        &&& r->Some_0.outcome == Err::<usize, KeyError>(e)
                        &&& final(self).keys_spec() == old(self).keys_spec()
                        &&& final(self).entries_spec() == complete_model(old(self).entries_spec(), id@, None)
                    },
                },
    {
        let ghost es = self.entries_spec();
        proof {
            lemma_entry_facts(es, id@);
        }
        let k = match self.find(id) {
            None => return None,
            Some(k) => k,
        };
        if let EntryState::Ready(_) = self.entries[k].state {
            return None;
        }
        let entry = self.entries.remove(k);
        let waiters = match entry.state {
            EntryState::InFlight(ws) => ws,
            EntryState::Ready(_) => Vec::new(),
        };
        assert(waiters@ == waiters_of(es, id@));
        match fetched {
            Ok(key) => {
                let slot = self.keys.len();
                self.keys.push(key);
                self.entries.insert(k, KeyEntry { id: entry.id, state: EntryState::Ready(slot) });
                proof {
                    let ne = self.entries_spec();
                    assert(ne =~= es.update(k as int, EntryModel { id: id@, state: SlotModel::Ready(slot) }));
                    assert forall|i: int, j: int|
                        0 <= i < ne.len() && 0 <= j < ne.len() && i != j implies (#[trigger] ne[i]).id
                        != (#[trigger] ne[j]).id by {
                        assert(ne[i].id == es[i].id && ne[j].id == es[j].id);
                    }
                    assert forall|i: int|
                        0 <= i < ne.len() && (#[trigger] ne[i]).state is Ready implies ne[i].state->Ready_0
                        < self.keys@.len() by {
                        if i != k {
                            assert(ne[i] == es[i]);
                        }
                    }
                }
                Some(Delivery { waiters, outcome: Ok(slot) })
            },
            Err(e) => {
                proof {
                    let ne = self.entries_spec();
                    assert(ne =~= es.remove(k as int));
                    assert forall|i: int, j: int|
                        0 <= i < ne.len() && 0 <= j < ne.len() && i != j implies (#[trigger] ne[i]).id
                        != (#[trigger] ne[j]).id by {
                        let oi = if i < k { i } else { i + 1 };
                        let oj = if j < k { j } else { j + 1 };
                        assert(ne[i] == es[oi] && ne[j] == es[oj]);
                    }
                    assert forall|i: int|
                        0 <= i < ne.len() && (#[trigger] ne[i]).state is Ready implies ne[i].state->Ready_0
                        < self.keys@.len() by {
                        let oi = if i < k { i } else { i + 1 };
                        assert(ne[i] == es[oi]);
                    }
                }
                Some(Delivery { waiters, outcome: Err(e) })
            },
        }
    }

    /// The key cached in `slot`.
    pub fn key(&self, slot: usize) -> (r: &K)
        requires
            slot < self.keys_spec().len(),
        ensures
            *r == self.keys_spec()[slot as int],
    {
        &self.keys[slot]
    }
}

} // verus!
