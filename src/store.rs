//! The reconciliation store: the ordered list of file records, and the
//! matching of stamps against documents by content hash.
//!
//! Every record has a stable identifier that is never reused. Ingestion tasks
//! report their results through `submit`, one at a time; the store pairs a
//! stamp with a document of equal hash whichever of the two arrives first.
use crate::names::{classify_file, kind_of, FileKind};
use crate::time::Timestamp;
use vstd::utf8::encode_utf8;
use vstd::prelude::*;

verus! {

/// Whether a document has been matched with a stamp, and with what result.
#[derive(Clone, Copy, Debug, PartialEq, Eq, Structural)]
pub enum VerifiedState {
    /// No stamp with the document's hash has been seen yet.
    Unknown,
    /// A stamp with a valid signature binds the document to this instant.
    Yes(Timestamp),
    /// A stamp with the document's hash was found, but its signature failed.
    No,
}

/// A stamp whose signature has been checked, waiting for its document.
#[derive(Debug)]
pub struct StampRecord {
    pub hash: String,
    pub timestamp: Timestamp,
    pub signature_valid: bool,
}

/// The state of one ingested file. It only moves forward:
/// `Init`, then `Pending`, then one of the terminal states.
#[derive(Debug)]
pub enum FileState {
    /// Created; no work started yet.
    Init,
    /// Work is in flight; the number names the task's cancellation handle.
    Pending(u64),
    /// A checked stamp with no matching document yet.
    Stamp(StampRecord),
    /// A hashed document, and what the stamps seen so far say of it.
    Document { hash: String, verified: VerifiedState },
    /// Reading or checking the file failed.
    Error,
}

/// One file as the store holds it.
#[derive(Debug)]
pub struct FileRecord {
    pub id: u64,
    pub name: String,
    pub state: FileState,
}

/// What an ingestion task reports when it completes.
#[derive(Debug)]
pub enum Outcome {
    /// A document was read to its end; this is its content hash.
    DocumentHash(String),
    /// A stamp was read and its signature checked.
    StampResult(StampRecord),
    /// The file could not be read or checked.
    Failed,
}

/// One entry of the change feed: what happened to the list of records, with
/// positions as they were when the change was made.
#[derive(Clone, Copy, Debug, PartialEq, Eq, Structural)]
pub enum Change {
    Insert { index: usize, id: u64 },
    Update { index: usize, id: u64 },
    Remove { index: usize, id: u64 },
    /// The in-flight work of a record that is being removed must stop.
    Cancel { id: u64, token: u64 },
}

/// The state of a file as a mathematical value.
pub enum StateModel {
    Init,
    Pending(u64),
    Stamp { hash: Seq<char>, timestamp: Timestamp, valid: bool },
    Document { hash: Seq<char>, verified: VerifiedState },
    Error,
}

/// A record as a mathematical value.
pub struct RecordModel {
    pub id: u64,
    pub name: Seq<char>,
    pub state: StateModel,
}

/// A completion report as a mathematical value.
pub enum OutcomeModel {
    DocumentHash(Seq<char>),
    StampResult { hash: Seq<char>, timestamp: Timestamp, valid: bool },
    Failed,
}

impl View for FileState {
    type V = StateModel;

    open spec fn view(&self) -> StateModel {
        match self {
            FileState::Init => StateModel::Init,
            FileState::Pending(t) => StateModel::Pending(*t),
            FileState::Stamp(s) => StateModel::Stamp {
                hash: s.hash@,
                timestamp: s.timestamp,
                valid: s.signature_valid,
            },
            FileState::Document { hash, verified } => StateModel::Document {
                hash: hash@,
                verified: *verified,
            },
            FileState::Error => StateModel::Error,
        }
    }
}

/// Whether two states compare equal: the same state, unless work is in
/// flight.
pub open spec fn states_equal(a: StateModel, b: StateModel) -> bool {
    !(a is Pending) && a == b
}

impl PartialEq for FileState {
    /// Two states are equal when they say the same: the same variant with the
    /// same contents. A state with work in flight equals no state, itself
    /// included, so that setting it always counts as a change.
    fn eq(&self, other: &FileState) -> bool {
        match (self, other) {
            (FileState::Init, FileState::Init) => true,
            (FileState::Pending(_), FileState::Pending(_)) => false,
            (FileState::Stamp(a), FileState::Stamp(b)) => a.hash == b.hash && a.timestamp == b.timestamp
                && a.signature_valid == b.signature_valid,
            (
                FileState::Document { hash: h1, verified: v1 },
                FileState::Document { hash: h2, verified: v2 },
            ) => *h1 == *h2 && *v1 == *v2,
            (FileState::Error, FileState::Error) => true,
            _ => false,
        }
    }
}

impl vstd::std_specs::cmp::PartialEqSpecImpl for FileState {
    open spec fn obeys_eq_spec() -> bool {
        true
    }

    open spec fn eq_spec(&self, other: &FileState) -> bool {
        states_equal(self@, other@)
    }
}

impl View for FileRecord {
    type V = RecordModel;

    open spec fn view(&self) -> RecordModel {
        RecordModel { id: self.id, name: self.name@, state: self.state@ }
    }
}

impl View for Outcome {
    type V = OutcomeModel;

    open spec fn view(&self) -> OutcomeModel {
        match self {
            Outcome::DocumentHash(h) => OutcomeModel::DocumentHash(h@),
            Outcome::StampResult(s) => OutcomeModel::StampResult {
                hash: s.hash@,
                timestamp: s.timestamp,
                valid: s.signature_valid,
            },
            Outcome::Failed => OutcomeModel::Failed,
        }
    }
}

/// The result that a stamp's signature check gives a matching document.
pub open spec fn verdict(valid: bool, timestamp: Timestamp) -> VerifiedState {
    if valid {
        VerifiedState::Yes(timestamp)
    } else {
        VerifiedState::No
    }
}

/// No terminal state has been reached yet.
pub open spec fn is_open(s: StateModel) -> bool {
    s is Init || s is Pending
}

/// The hash that a record in the `Stamp` state carries.
pub open spec fn stamp_hash(s: StateModel) -> Option<Seq<char>> {
    match s {
        StateModel::Stamp { hash, .. } => Some(hash),
        _ => None,
    }
}

/// The hash of a document that no stamp has resolved yet.
pub open spec fn open_doc_hash(s: StateModel) -> Option<Seq<char>> {
    match s {
        StateModel::Document { hash, verified: VerifiedState::Unknown } => Some(hash),
        _ => None,
    }
}

/// What a search through the records looks for.
pub enum Probe {
    /// The record with this identifier.
    Id(u64),
    /// A stamp with this hash.
    StampWith(Seq<char>),
    /// An unresolved document with this hash.
    OpenDocWith(Seq<char>),
}

/// Whether `r` is what `p` looks for.
pub open spec fn hits(p: Probe, r: RecordModel) -> bool {
    match p {
        Probe::Id(id) => r.id == id,
        Probe::StampWith(h) => stamp_hash(r.state) == Some(h),
        Probe::OpenDocWith(h) => open_doc_hash(r.state) == Some(h),
    }
}

/// `k` is the position of the first record that `p` finds.
pub open spec fn is_first_hit(rs: Seq<RecordModel>, p: Probe, k: int) -> bool {
    &&& 0 <= k < rs.len()
    &&& hits(p, rs[k])
    &&& forall|j: int| 0 <= j < k ==> !hits(p, #[trigger] rs[j])
}

/// The position of the first record that `p` finds in store order, or -1.
pub open spec fn first_hit(rs: Seq<RecordModel>, p: Probe) -> int {
    if exists|k: int| is_first_hit(rs, p, k) {
        choose|k: int| is_first_hit(rs, p, k)
    } else {
        -1
    }
}

proof fn lemma_first_hit_is(rs: Seq<RecordModel>, p: Probe, k: int)
    requires
        is_first_hit(rs, p, k),
    ensures
        first_hit(rs, p) == k,
{
    let c = choose|c: int| is_first_hit(rs, p, c);
    assert(is_first_hit(rs, p, c));
    if c < k {
        assert(!hits(p, rs[c]));
    } else if c > k {
        assert(!hits(p, rs[k]));
    }
}

proof fn lemma_first_hit_none(rs: Seq<RecordModel>, p: Probe)
    requires
        forall|j: int| 0 <= j < rs.len() ==> !hits(p, #[trigger] rs[j]),
    ensures
        first_hit(rs, p) == -1,
{
    if exists|k: int| is_first_hit(rs, p, k) {
        let c = choose|c: int| is_first_hit(rs, p, c);
        assert(hits(p, rs[c]));
    }
}

proof fn lemma_first_hit_facts(rs: Seq<RecordModel>, p: Probe)
    ensures
        -1 <= first_hit(rs, p) < rs.len(),
        first_hit(rs, p) >= 0 ==> is_first_hit(rs, p, first_hit(rs, p)),
        first_hit(rs, p) < 0 ==> forall|j: int| 0 <= j < rs.len() ==> !hits(p, #[trigger] rs[j]),
{
    if exists|k: int| is_first_hit(rs, p, k) {
    } else {
        assert forall|j: int| 0 <= j < rs.len() implies !hits(p, #[trigger] rs[j]) by {
            if hits(p, rs[j]) {
                let m = choose_first(rs, p, j);
                assert(is_first_hit(rs, p, m));
            }
        }
    }
}

/// Some first hit exists at or before `j` when `rs[j]` is a hit.
proof fn choose_first(rs: Seq<RecordModel>, p: Probe, j: int) -> (m: int)
    requires
        0 <= j < rs.len(),
        hits(p, rs[j]),
    ensures
        is_first_hit(rs, p, m),
    decreases j,
{
    if exists|i: int| 0 <= i < j && hits(p, #[trigger] rs[i]) {
        let i = choose|i: int| 0 <= i < j && hits(p, #[trigger] rs[i]);
        choose_first(rs, p, i)
    } else {
        j
    }
}

/// The invariant of the records: identifiers are distinct and below the next
/// one to be handed out, and matching is complete: no stamp waits while an
/// unresolved document with its hash is present.
pub open spec fn records_wf(rs: Seq<RecordModel>, next_id: u64) -> bool {
    &&& forall|i: int, j: int|
        0 <= i < rs.len() && 0 <= j < rs.len() && i != j ==> #[trigger] rs[i].id != #[trigger] rs[j].id
    &&& forall|i: int| 0 <= i < rs.len() ==> #[trigger] rs[i].id < next_id
    &&& forall|i: int, j: int|
        0 <= i < rs.len() && 0 <= j < rs.len() && (#[trigger] stamp_hash(rs[i].state)) is Some
            ==> stamp_hash(rs[i].state) != #[trigger] open_doc_hash(rs[j].state)
}

/// `r` with its state replaced by `s`.
pub open spec fn with_state(r: RecordModel, s: StateModel) -> RecordModel {
    RecordModel { id: r.id, name: r.name, state: s }
}

/// The records after a new file named `name` was added under identifier `id`.
pub open spec fn add_model(rs: Seq<RecordModel>, id: u64, name: Seq<char>) -> Seq<RecordModel> {
    rs.push(RecordModel { id, name, state: StateModel::Init })
}

/// The records after work on record `id` started under cancellation handle
/// `token`. Only a record in `Init` moves.
pub open spec fn begin_model(rs: Seq<RecordModel>, id: u64, token: u64) -> Seq<RecordModel> {
    let i = first_hit(rs, Probe::Id(id));
    if i >= 0 && rs[i].state is Init {
        rs.update(i, with_state(rs[i], StateModel::Pending(token)))
    } else {
        rs
    }
}

/// The records after record `id` was removed.
pub open spec fn remove_model(rs: Seq<RecordModel>, id: u64) -> Seq<RecordModel> {
    let i = first_hit(rs, Probe::Id(id));
    if i >= 0 {
        rs.remove(i)
    } else {
        rs
    }
}

/// The changes that removing record `id` reports: a cancellation first where
/// work on it is in flight, then the removal.
pub open spec fn remove_changes(rs: Seq<RecordModel>, id: u64) -> Seq<Change> {
    let i = first_hit(rs, Probe::Id(id));
    if i < 0 {
        seq![]
    } else {
        match rs[i].state {
            StateModel::Pending(token) => seq![
                Change::Cancel { id, token },
                Change::Remove { index: i as usize, id },
            ],
            _ => seq![Change::Remove { index: i as usize, id }],
        }
    }
}

/// The records after a task reported `o` for record `id`.
///
/// Nothing happens unless the record is present and still open. A failure
/// marks it `Error`. A document takes the result of the first stamp with its
/// hash, in store order, and that stamp's record goes; with no such stamp it
/// stays `Unknown`. A stamp resolves the first unresolved document with its
/// hash and its own record goes; with no such document it stays as a stamp.
pub open spec fn submit_model(rs: Seq<RecordModel>, id: u64, o: OutcomeModel) -> Seq<RecordModel> {
    let i = first_hit(rs, Probe::Id(id));
    if i < 0 || !is_open(rs[i].state) {
        rs
    } else {
        match o {
            OutcomeModel::Failed => rs.update(i, with_state(rs[i], StateModel::Error)),
            OutcomeModel::DocumentHash(h) => {
                let k = first_hit(rs, Probe::StampWith(h));
                if k < 0 {
                    rs.update(
                        i,
                        with_state(
                            rs[i],
                            StateModel::Document { hash: h, verified: VerifiedState::Unknown },
                        ),
                    )
                } else {
                    rs.update(
                        i,
                        with_state(
                            rs[i],
                            StateModel::Document {
                                hash: h,
                                verified: verdict(
                                    rs[k].state->Stamp_valid,
                                    rs[k].state->Stamp_timestamp,
                                ),
                            },
                        ),
                    ).remove(k)
                }
            },
            OutcomeModel::StampResult { hash, timestamp, valid } => {
                let k = first_hit(rs, Probe::OpenDocWith(hash));
                if k < 0 {
                    rs.update(i, with_state(rs[i], StateModel::Stamp { hash, timestamp, valid }))
                } else {
                    rs.update(
                        k,
                        with_state(
                            rs[k],
                            StateModel::Document { hash, verified: verdict(valid, timestamp) },
                        ),
                    ).remove(i)
                }
            },
        }
    }
}

/// The changes that `submit_model` reports, in order.
pub open spec fn submit_changes(rs: Seq<RecordModel>, id: u64, o: OutcomeModel) -> Seq<Change> {
    let i = first_hit(rs, Probe::Id(id));
    if i < 0 || !is_open(rs[i].state) {
        seq![]
    } else {
        match o {
            OutcomeModel::Failed => seq![Change::Update { index: i as usize, id }],
            OutcomeModel::DocumentHash(h) => {
                let k = first_hit(rs, Probe::StampWith(h));
                if k < 0 {
                    seq![Change::Update { index: i as usize, id }]
                } else {
                    seq![
                        Change::Update { index: i as usize, id },
                        Change::Remove { index: k as usize, id: rs[k].id },
                    ]
                }
            },
            OutcomeModel::StampResult { hash, .. } => {
                let k = first_hit(rs, Probe::OpenDocWith(hash));
                if k < 0 {
                    seq![Change::Update { index: i as usize, id }]
                } else {
                    seq![
                        Change::Update { index: k as usize, id: rs[k].id },
                        Change::Remove { index: i as usize, id },
                    ]
                }
            },
        }
    }
}

/// Setting a record to a state that is neither a stamp nor an unresolved
/// document keeps the invariant.
proof fn lemma_update_keeps_wf(rs: Seq<RecordModel>, next_id: u64, i: int, s: StateModel)
    requires
        records_wf(rs, next_id),
        0 <= i < rs.len(),
        stamp_hash(s) is None,
        open_doc_hash(s) is None,
    ensures
        records_wf(rs.update(i, with_state(rs[i], s)), next_id),
{
    let ns = rs.update(i, with_state(rs[i], s));
    assert forall|a: int, b: int|
        0 <= a < ns.len() && 0 <= b < ns.len() && a != b implies #[trigger] ns[a].id != #[trigger] ns[b].id by {
        assert(ns[a].id == rs[a].id && ns[b].id == rs[b].id);
    }
    assert forall|a: int| 0 <= a < ns.len() implies #[trigger] ns[a].id < next_id by {
        assert(ns[a].id == rs[a].id);
    }
    assert forall|a: int, b: int|
        0 <= a < ns.len() && 0 <= b < ns.len() && (#[trigger] stamp_hash(ns[a].state)) is Some
            implies stamp_hash(ns[a].state) != #[trigger] open_doc_hash(ns[b].state) by {
        if a != i && b != i {
            assert(stamp_hash(rs[a].state) != open_doc_hash(rs[b].state));
        }
    }
}

/// An open record that becomes an unresolved document with hash `h` keeps the
/// invariant when no stamp with `h` is present.
proof fn lemma_new_open_doc_keeps_wf(rs: Seq<RecordModel>, next_id: u64, i: int, h: Seq<char>)
    requires
        records_wf(rs, next_id),
        0 <= i < rs.len(),
        is_open(rs[i].state),
        forall|j: int| 0 <= j < rs.len() ==> !hits(Probe::StampWith(h), #[trigger] rs[j]),
    ensures
        records_wf(
            rs.update(i, with_state(rs[i], StateModel::Document { hash: h, verified: VerifiedState::Unknown })),
            next_id,
        ),
{
    let ns = rs.update(i, with_state(rs[i], StateModel::Document { hash: h, verified: VerifiedState::Unknown }));
    assert forall|a: int, b: int|
        0 <= a < ns.len() && 0 <= b < ns.len() && a != b implies #[trigger] ns[a].id != #[trigger] ns[b].id by {
        assert(ns[a].id == rs[a].id && ns[b].id == rs[b].id);
    }
    assert forall|a: int| 0 <= a < ns.len() implies #[trigger] ns[a].id < next_id by {
        assert(ns[a].id == rs[a].id);
    }
    assert forall|a: int, b: int|
        0 <= a < ns.len() && 0 <= b < ns.len() && (#[trigger] stamp_hash(ns[a].state)) is Some
            implies stamp_hash(ns[a].state) != #[trigger] open_doc_hash(ns[b].state) by {
        assert(a != i);
        assert(!hits(Probe::StampWith(h), rs[a]));
        if b != i {
            assert(stamp_hash(rs[a].state) != open_doc_hash(rs[b].state));
        }
    }
}

/// An open record that becomes a stamp with hash `h` keeps the invariant when
/// no unresolved document with `h` is present.
proof fn lemma_new_stamp_keeps_wf(rs: Seq<RecordModel>, next_id: u64, i: int, s: StateModel)
    requires
        records_wf(rs, next_id),
        0 <= i < rs.len(),
        is_open(rs[i].state),
        s is Stamp,
        forall|j: int| 0 <= j < rs.len() ==> !hits(Probe::OpenDocWith(s->Stamp_hash), #[trigger] rs[j]),
    ensures
        records_wf(rs.update(i, with_state(rs[i], s)), next_id),
{
    let ns = rs.update(i, with_state(rs[i], s));
    assert forall|a: int, b: int|
        0 <= a < ns.len() && 0 <= b < ns.len() && a != b implies #[trigger] ns[a].id != #[trigger] ns[b].id by {
        assert(ns[a].id == rs[a].id && ns[b].id == rs[b].id);
    }
    assert forall|a: int| 0 <= a < ns.len() implies #[trigger] ns[a].id < next_id by {
        assert(ns[a].id == rs[a].id);
    }
    assert forall|a: int, b: int|
        0 <= a < ns.len() && 0 <= b < ns.len() && (#[trigger] stamp_hash(ns[a].state)) is Some
            implies stamp_hash(ns[a].state) != #[trigger] open_doc_hash(ns[b].state) by {
        if b == i {
        } else if a == i {
            assert(!hits(Probe::OpenDocWith(s->Stamp_hash), rs[b]));
        } else {
            assert(stamp_hash(rs[a].state) != open_doc_hash(rs[b].state));
        }
    }
}

/// Removing a record keeps the invariant.
proof fn lemma_remove_keeps_wf(rs: Seq<RecordModel>, next_id: u64, i: int)
    requires
        records_wf(rs, next_id),
        0 <= i < rs.len(),
    ensures
        records_wf(rs.remove(i), next_id),
{
    let ns = rs.remove(i);
    assert forall|a: int, b: int|
        0 <= a < ns.len() && 0 <= b < ns.len() && (#[trigger] stamp_hash(ns[a].state)) is Some
            implies stamp_hash(ns[a].state) != #[trigger] open_doc_hash(ns[b].state) by {
        let oa = if a < i { a } else { a + 1 };
        let ob = if b < i { b } else { b + 1 };
        assert(ns[a] == rs[oa]);
        assert(ns[b] == rs[ob]);
    }
    assert forall|a: int, b: int|
        0 <= a < ns.len() && 0 <= b < ns.len() && a != b implies #[trigger] ns[a].id != #[trigger] ns[b].id by {
        let oa = if a < i { a } else { a + 1 };
        let ob = if b < i { b } else { b + 1 };
        assert(ns[a] == rs[oa]);
        assert(ns[b] == rs[ob]);
    }
    assert forall|a: int| 0 <= a < ns.len() implies #[trigger] ns[a].id < next_id by {
        let oa = if a < i { a } else { a + 1 };
        assert(ns[a] == rs[oa]);
    }
}

/// The models of a sequence of records.
pub open spec fn record_models(rs: Seq<FileRecord>) -> Seq<RecordModel> {
    rs.map_values(|r: FileRecord| r@)
}

/// The store of file records. It alone inserts and removes records, and it
/// applies completion reports one at a time.
pub struct ReconciliationStore {
    records: Vec<FileRecord>,
    next_id: u64,
    changes: Vec<Change>,
}

impl View for ReconciliationStore {
    type V = Seq<RecordModel>;

    closed spec fn view(&self) -> Seq<RecordModel> {
        record_models(self.records@)
    }
}

impl ReconciliationStore {
    /// The identifier that the next added file will get.
    pub closed spec fn next_id_spec(&self) -> u64 {
        self.next_id
    }

    /// The change feed: every change since the feed was last taken.
    pub closed spec fn changes_spec(&self) -> Seq<Change> {
        self.changes@
    }

    /// The records keep their invariant.
    pub open spec fn wf(&self) -> bool {
        records_wf(self@, self.next_id_spec())
    }

    /// An empty store.
    pub fn new() -> (r: ReconciliationStore)
        ensures
            r.wf(),
            r@ == Seq::<RecordModel>::empty(),
            r.next_id_spec() == 0,
            r.changes_spec() == Seq::<Change>::empty(),
    {
        let r = ReconciliationStore { records: Vec::new(), next_id: 0, changes: Vec::new() };
        assert(r@ =~= Seq::<RecordModel>::empty());
        r
    }

    /// The records, in store order.
    pub fn records(&self) -> (r: &Vec<FileRecord>)
        ensures
            record_models(r@) == self@,
    {
        &self.records
    }

    /// Hands out the change feed and starts a new one.
    pub fn take_changes(&mut self) -> (r: Vec<Change>)
        ensures
            r@ == old(self).changes_spec(),
            final(self).changes_spec() == Seq::<Change>::empty(),
            final(self)@ == old(self)@,
            final(self).next_id_spec() == old(self).next_id_spec(),
    {
        let mut taken = Vec::new();
        std::mem::swap(&mut self.changes, &mut taken);
        taken
    }

    /// The position of the record `id`.
    pub fn position_of(&self, id: u64) -> (r: Option<usize>)
        ensures
            r is None ==> first_hit(self@, Probe::Id(id)) == -1,
            r matches Some(i) ==> i == first_hit(self@, Probe::Id(id)),
    {
        let mut i: usize = 0;
        while i < self.records.len()
            invariant
                i <= self.records@.len(),
                self@ == record_models(self.records@),
                forall|j: int| 0 <= j < i ==> !hits(Probe::Id(id), #[trigger] self@[j]),
            decreases self.records@.len() - i,
        {
            if self.records[i].id == id {
                proof {
                    lemma_first_hit_is(self@, Probe::Id(id), i as int);
                }
                return Some(i);
            }
            i = i + 1;
        }
        proof {
            lemma_first_hit_none(self@, Probe::Id(id));
        }
        None
    }

    /// The position of the first stamp with hash `h`.
    fn position_of_stamp(&self, h: &String) -> (r: Option<usize>)
        ensures
            r is None ==> first_hit(self@, Probe::StampWith(h@)) == -1,
            r matches Some(i) ==> i == first_hit(self@, Probe::StampWith(h@)),
    {
        let mut i: usize = 0;
        while i < self.records.len()
            invariant
                i <= self.records@.len(),
                self@ == record_models(self.records@),
                forall|j: int| 0 <= j < i ==> !hits(Probe::StampWith(h@), #[trigger] self@[j]),
            decreases self.records@.len() - i,
        {
            if let FileState::Stamp(st) = &self.records[i].state {
                if st.hash == *h {
                    proof {
                        lemma_first_hit_is(self@, Probe::StampWith(h@), i as int);
                    }
                    return Some(i);
                }
            }
            i = i + 1;
        }
        proof {
            lemma_first_hit_none(self@, Probe::StampWith(h@));
        }
        None
    }

    /// The position of the first unresolved document with hash `h`.
    fn position_of_open_doc(&self, h: &String) -> (r: Option<usize>)
        ensures
            r is None ==> first_hit(self@, Probe::OpenDocWith(h@)) == -1,
            r matches Some(i) ==> i == first_hit(self@, Probe::OpenDocWith(h@)),
    {
        let mut i: usize = 0;
        while i < self.records.len()
            invariant
                i <= self.records@.len(),
                self@ == record_models(self.records@),
                forall|j: int| 0 <= j < i ==> !hits(Probe::OpenDocWith(h@), #[trigger] self@[j]),
            decreases self.records@.len() - i,
        {
            if let FileState::Document { hash, verified: VerifiedState::Unknown } = &self.records[i].state {
                if *hash == *h {
                    proof {
                        lemma_first_hit_is(self@, Probe::OpenDocWith(h@), i as int);
                    }
                    return Some(i);
                }
            }
            i = i + 1;
        }
        proof {
            lemma_first_hit_none(self@, Probe::OpenDocWith(h@));
        }
        None
    }

    /// Replaces the state of the record at `i`, keeping its identifier and name.
    fn set_state(&mut self, i: usize, state: FileState)
        requires
            i < old(self)@.len(),
        ensures
            final(self)@ == old(self)@.update(i as int, with_state(old(self)@[i as int], state@)),
            final(self).next_id == old(self).next_id,
            final(self).changes == old(self).changes,
            final(self).records@.len() == old(self).records@.len(),
    {
        let id = self.records[i].id;
        let name = self.records[i].name.clone();
        self.records.set(i, FileRecord { id, name, state });
        assert(self@ =~= old(self)@.update(i as int, with_state(old(self)@[i as int], state@)));
    }

    /// Applies what the task of record `id` reported; see `submit_model`.
    /// A record that is gone, or already in a terminal state, is left alone:
    /// a task whose record was removed changes nothing. The result says
    /// whether the report was applied.
    pub fn submit(&mut self, id: u64, outcome: Outcome) -> (applied: bool)
        requires
            old(self).wf(),
        ensures
            final(self).wf(),
            final(self)@ == submit_model(old(self)@, id, outcome@),
            final(self).next_id_spec() == old(self).next_id_spec(),
            final(self).changes_spec() == old(self).changes_spec() + submit_changes(
                old(self)@,
                id,
                outcome@,
            ),
            applied == (first_hit(old(self)@, Probe::Id(id)) >= 0 && is_open(
                old(self)@[first_hit(old(self)@, Probe::Id(id))].state,
            )),
    {
        let ghost rs = self@;
        let ghost o = outcome@;
        let i = match self.position_of(id) {
            None => {
                assert(self.changes@ =~= old(self).changes@ + submit_changes(rs, id, o));
                return false;
            },
            Some(i) => i,
        };
        if !matches!(self.records[i].state, FileState::Init | FileState::Pending(_)) {
            assert(self.changes@ =~= old(self).changes@ + submit_changes(rs, id, o));
            return false;
        }
        proof {
            lemma_first_hit_facts(rs, Probe::Id(id));
        }
        match outcome {
            Outcome::Failed => {
                self.set_state(i, FileState::Error);
                self.changes.push(Change::Update { index: i, id });
                proof {
                    assert(self.changes@ =~= old(self).changes@ + submit_changes(rs, id, o));
                    lemma_update_keeps_wf(rs, self.next_id, i as int, StateModel::Error);
                }
            },
            Outcome::DocumentHash(h) => {
                proof {
                    lemma_first_hit_facts(rs, Probe::StampWith(h@));
                }
                match self.position_of_stamp(&h) {
                    None => {
                        let ghost hv = h@;
                        self.set_state(i, FileState::Document { hash: h, verified: VerifiedState::Unknown });
                        self.changes.push(Change::Update { index: i, id });
                        proof {
                            assert(self.changes@ =~= old(self).changes@ + submit_changes(rs, id, o));
                            lemma_new_open_doc_keeps_wf(rs, self.next_id, i as int, hv);
                        }
                    },
                    Some(k) => {
                        let verified = match &self.records[k].state {
                            FileState::Stamp(st) => if st.signature_valid {
                                VerifiedState::Yes(st.timestamp)
                            } else {
                                VerifiedState::No
                            },
                            _ => VerifiedState::Unknown,
                        };
                        let kid = self.records[k].id;
                        let ghost hv = h@;
                        self.set_state(i, FileState::Document { hash: h, verified });
                        let _ = self.records.remove(k);
                        assert(self@ =~= rs.update(
                            i as int,
                            with_state(rs[i as int], StateModel::Document { hash: hv, verified }),
                        ).remove(k as int));
                        self.changes.push(Change::Update { index: i, id });
                        self.changes.push(Change::Remove { index: k, id: kid });
                        proof {
                            assert(self.changes@ =~= old(self).changes@ + submit_changes(rs, id, o));
                            let s = StateModel::Document { hash: hv, verified };
                            lemma_update_keeps_wf(rs, self.next_id, i as int, s);
                            lemma_remove_keeps_wf(rs.update(i as int, with_state(rs[i as int], s)), self.next_id, k as int);
                        }
                    },
                }
            },
            Outcome::StampResult(st) => {
                proof {
                    lemma_first_hit_facts(rs, Probe::OpenDocWith(st.hash@));
                }
                match self.position_of_open_doc(&st.hash) {
                    None => {
                        let ghost sv = FileState::Stamp(st)@;
                        self.set_state(i, FileState::Stamp(st));
                        self.changes.push(Change::Update { index: i, id });
                        proof {
                            assert(self.changes@ =~= old(self).changes@ + submit_changes(rs, id, o));
                            lemma_new_stamp_keeps_wf(rs, self.next_id, i as int, sv);
                        }
                    },
                    Some(k) => {
                        let verified = if st.signature_valid {
                            VerifiedState::Yes(st.timestamp)
                        } else {
                            VerifiedState::No
                        };
                        let kid = self.records[k].id;
                        let ghost hv = st.hash@;
                        self.set_state(k, FileState::Document { hash: st.hash, verified });
                        let _ = self.records.remove(i);
                        assert(self@ =~= rs.update(
                            k as int,
                            with_state(rs[k as int], StateModel::Document { hash: hv, verified }),
                        ).remove(i as int));
                        self.changes.push(Change::Update { index: k, id: kid });
                        self.changes.push(Change::Remove { index: i, id });
                        proof {
                            assert(self.changes@ =~= old(self).changes@ + submit_changes(rs, id, o));
                            let s = StateModel::Document { hash: hv, verified };
                            lemma_update_keeps_wf(rs, self.next_id, k as int, s);
                            lemma_remove_keeps_wf(rs.update(k as int, with_state(rs[k as int], s)), self.next_id, i as int);
                        }
                    },
                }
            },
        }
        true
    }

    /// Adds a record for a new file, in state `Init`, at the end of the list.
    /// Gives `None`, and changes nothing, once every identifier is used up.
    pub fn add_file(&mut self, name: String) -> (r: Option<u64>)
        requires
            old(self).wf(),
        ensures
            final(self).wf(),
            old(self).next_id_spec() == u64::MAX ==> r is None && final(self)@ == old(self)@
                && final(self).next_id_spec() == old(self).next_id_spec()
                && final(self).changes_spec() == old(self).changes_spec(),
            old(self).next_id_spec() < u64::MAX ==> r == Some(old(self).next_id_spec())
                && final(self)@ == add_model(old(self)@, old(self).next_id_spec(), name@)
                && final(self).next_id_spec() == old(self).next_id_spec() + 1
                && final(self).changes_spec() == old(self).changes_spec().push(
                    Change::Insert { index: old(self)@.len() as usize, id: old(self).next_id_spec() },
                ),
    {
        if self.next_id == u64::MAX {
            return None;
        }
        let id = self.next_id;
        let index = self.records.len();
        self.records.push(FileRecord { id, name, state: FileState::Init });
        self.next_id = id + 1;
        self.changes.push(Change::Insert { index, id });
        assert(self@ =~= add_model(old(self)@, id, name@));
        Some(id)
    }

    /// Marks work on record `id` as started, with cancellation handle `token`.
    /// Only a record in `Init` moves; the result says whether it did.
    pub fn begin(&mut self, id: u64, token: u64) -> (started: bool)
        requires
            old(self).wf(),
        ensures
            final(self).wf(),
            final(self)@ == begin_model(old(self)@, id, token),
            final(self).next_id_spec() == old(self).next_id_spec(),
            started == (final(self)@ != old(self)@),
            started ==> final(self).changes_spec() == old(self).changes_spec().push(
                Change::Update { index: first_hit(old(self)@, Probe::Id(id)) as usize, id },
            ),
            !started ==> final(self).changes_spec() == old(self).changes_spec(),
    {
        match self.position_of(id) {
            None => false,
            Some(i) => {
                if !matches!(self.records[i].state, FileState::Init) {
                    return false;
                }
                let name = self.records[i].name.clone();
                self.records.set(i, FileRecord { id, name, state: FileState::Pending(token) });
                self.changes.push(Change::Update { index: i, id });
                proof {
                    let m = begin_model(old(self)@, id, token);
                    assert(self@ =~= m);
                    assert(self@[i as int] != old(self)@[i as int]);
                    assert forall|a: int, b: int|
                        0 <= a < self@.len() && 0 <= b < self@.len() && (#[trigger] stamp_hash(
                            self@[a].state,
                        )) is Some implies stamp_hash(self@[a].state) != #[trigger] open_doc_hash(
                        self@[b].state,
                    ) by {
                        assert(a != i && b != i ==> stamp_hash(old(self)@[a].state) != open_doc_hash(old(self)@[b].state));
                    }
                    assert(records_wf(self@, self.next_id));
                }
                true
            },
        }
    }

    /// Removes record `id`. Where work on it is still in flight, the change
    /// feed reports the cancellation of that work before the removal.
    pub fn remove(&mut self, id: u64) -> (r: Option<FileRecord>)
        requires
            old(self).wf(),
        ensures
            final(self).wf(),
            final(self)@ == remove_model(old(self)@, id),
            final(self).next_id_spec() == old(self).next_id_spec(),
            final(self).changes_spec() == old(self).changes_spec() + remove_changes(old(self)@, id),
            r is None <==> first_hit(old(self)@, Probe::Id(id)) == -1,
            r matches Some(x) ==> x@ == old(self)@[first_hit(old(self)@, Probe::Id(id))],
    {
        match self.position_of(id) {
            None => {
                assert(remove_changes(old(self)@, id) =~= seq![]);
                assert(self.changes@ =~= old(self).changes@ + remove_changes(old(self)@, id));
                None
            },
            Some(i) => {
                if let FileState::Pending(token) = self.records[i].state {
                    self.changes.push(Change::Cancel { id, token });
                }
                self.changes.push(Change::Remove { index: i, id });
                let x = self.records.remove(i);
                proof {
                    assert(self@ =~= remove_model(old(self)@, id));
                    assert(self.changes@ =~= old(self).changes@ + remove_changes(old(self)@, id));
                    assert forall|a: int, b: int|
                        0 <= a < self@.len() && 0 <= b < self@.len() && (#[trigger] stamp_hash(
                            self@[a].state,
                        )) is Some implies stamp_hash(self@[a].state) != #[trigger] open_doc_hash(
                        self@[b].state,
                    ) by {
                        let oa = if a < i { a } else { a + 1 };
                        let ob = if b < i { b } else { b + 1 };
                        assert(self@[a] == old(self)@[oa]);
                        assert(self@[b] == old(self)@[ob]);
                    }
                    assert forall|a: int, b: int|
                        0 <= a < self@.len() && 0 <= b < self@.len() && a != b
                            implies #[trigger] self@[a].id != #[trigger] self@[b].id by {
                        let oa = if a < i { a } else { a + 1 };
                        let ob = if b < i { b } else { b + 1 };
                        assert(self@[a] == old(self)@[oa]);
                        assert(self@[b] == old(self)@[ob]);
                    }
                    assert forall|a: int| 0 <= a < self@.len() implies #[trigger] self@[a].id < self.next_id by {
                        let oa = if a < i { a } else { a + 1 };
                        assert(self@[a] == old(self)@[oa]);
                    }
                }
                Some(x)
            },
        }
    }
}

/// Takes in a new file: adds its record, marks its work as started under the
/// cancellation handle `token`, and says by the file's name whether the work
/// is that of a stamp or of a document. Gives `None`, and changes nothing,
/// once every identifier is used up.
pub fn open_file(store: &mut ReconciliationStore, name: String, token: u64) -> (r: Option<(u64, FileKind)>)
    requires
        old(store).wf(),
    ensures
        final(store).wf(),
        old(store).next_id_spec() == u64::MAX <==> r is None,
        r is None ==> final(store)@ == old(store)@,
        r is None ==> final(store).next_id_spec() == old(store).next_id_spec()
            && final(store).changes_spec() == old(store).changes_spec(),
        r matches Some((id, kind)) ==> {
            &&& id == old(store).next_id_spec()
            &&& kind == kind_of(encode_utf8(name@))
            &&& final(store)@ == begin_model(add_model(old(store)@, id, name@), id, token)
            &&& final(store).next_id_spec() == id + 1
            &&& final(store).changes_spec() == old(store).changes_spec().push(
                Change::Insert { index: old(store)@.len() as usize, id },
            ).push(Change::Update { index: old(store)@.len() as usize, id })
        },
{
    let ghost before = store@;
    let kind = classify_file(name.as_str());
    let id = match store.add_file(name) {
        Some(id) => id,
        None => return None,
    };
    proof {
        let added = store@;
        assert(is_first_hit(added, Probe::Id(id), before.len() as int)) by {
            assert forall|j: int| 0 <= j < before.len() implies !hits(Probe::Id(id), #[trigger] added[j]) by {
                assert(added[j] == before[j]);
            }
        }
        lemma_first_hit_is(added, Probe::Id(id), before.len() as int);
    }
    store.begin(id, token);
    Some((id, kind))
}


/// Changing a record's state leaves every identifier where it was.
proof fn lemma_first_id_after_update(rs: Seq<RecordModel>, i: int, s: StateModel, id: u64)
    requires
        0 <= i < rs.len(),
    ensures
        first_hit(rs.update(i, with_state(rs[i], s)), Probe::Id(id)) == first_hit(rs, Probe::Id(id)),
{
    let ns = rs.update(i, with_state(rs[i], s));
    assert forall|j: int| 0 <= j < rs.len() implies #[trigger] ns[j].id == rs[j].id by {}
    lemma_first_hit_facts(rs, Probe::Id(id));
    let k = first_hit(rs, Probe::Id(id));
    if k >= 0 {
        assert(is_first_hit(ns, Probe::Id(id), k)) by {
            assert forall|j: int| 0 <= j < k implies !hits(Probe::Id(id), #[trigger] ns[j]) by {
                assert(!hits(Probe::Id(id), rs[j]));
            }
        }
        lemma_first_hit_is(ns, Probe::Id(id), k);
    } else {
        assert forall|j: int| 0 <= j < ns.len() implies !hits(Probe::Id(id), #[trigger] ns[j]) by {
            assert(!hits(Probe::Id(id), rs[j]));
        }
        lemma_first_hit_none(ns, Probe::Id(id));
    }
}

/// A document and a stamp with the same hash end in the same state whichever
/// of the two reports first: the document takes the stamp's result, and the
/// stamp's record is gone, so that of the two only the document remains.
#[verifier::spinoff_prover]
#[verifier::rlimit(60)]
pub proof fn lemma_arrival_order_irrelevant(
    rs: Seq<RecordModel>,
    next_id: u64,
    doc: u64,
    stamp: u64,
    h: Seq<char>,
    t: Timestamp,
    valid: bool,
)
    requires
        records_wf(rs, next_id),
        first_hit(rs, Probe::Id(doc)) >= 0,
        is_open(rs[first_hit(rs, Probe::Id(doc))].state),
        first_hit(rs, Probe::Id(stamp)) >= 0,
        is_open(rs[first_hit(rs, Probe::Id(stamp))].state),
        doc != stamp,
        forall|j: int|
            0 <= j < rs.len() ==> stamp_hash(#[trigger] rs[j].state) != Some(h) && open_doc_hash(
                rs[j].state,
            ) != Some(h),
    ensures
        ({
            let d = OutcomeModel::DocumentHash(h);
            let s = OutcomeModel::StampResult { hash: h, timestamp: t, valid };
            let di = first_hit(rs, Probe::Id(doc));
            let si = first_hit(rs, Probe::Id(stamp));
            let doc_first = submit_model(submit_model(rs, doc, d), stamp, s);
            let stamp_first = submit_model(submit_model(rs, stamp, s), doc, d);
            &&& doc_first == stamp_first
            &&& doc_first == rs.update(
                di,
                with_state(rs[di], StateModel::Document { hash: h, verified: verdict(valid, t) }),
            ).remove(si)
            &&& records_wf(doc_first, next_id)
            &&& forall|j: int| 0 <= j < doc_first.len() ==> #[trigger] doc_first[j].id != stamp
        }),
{
    let d = OutcomeModel::DocumentHash(h);
    let s = OutcomeModel::StampResult { hash: h, timestamp: t, valid };
    let di = first_hit(rs, Probe::Id(doc));
    let si = first_hit(rs, Probe::Id(stamp));
    lemma_first_hit_facts(rs, Probe::Id(doc));
    lemma_first_hit_facts(rs, Probe::Id(stamp));
    assert(di != si);
    assert forall|j: int| 0 <= j < rs.len() implies !hits(Probe::StampWith(h), #[trigger] rs[j])
        && !hits(Probe::OpenDocWith(h), rs[j]) by {}
    lemma_first_hit_none(rs, Probe::StampWith(h));
    lemma_first_hit_none(rs, Probe::OpenDocWith(h));
    let open_doc = StateModel::Document { hash: h, verified: VerifiedState::Unknown };
    let done_doc = StateModel::Document { hash: h, verified: verdict(valid, t) };
    let stamped = StateModel::Stamp { hash: h, timestamp: t, valid };
    let expected = rs.update(di, with_state(rs[di], done_doc)).remove(si);

    // The document first.
    let r1 = rs.update(di, with_state(rs[di], open_doc));
    assert(submit_model(rs, doc, d) == r1);
    lemma_first_id_after_update(rs, di, open_doc, stamp);
    assert(is_first_hit(r1, Probe::OpenDocWith(h), di)) by {
        assert forall|j: int| 0 <= j < di implies !hits(Probe::OpenDocWith(h), #[trigger] r1[j]) by {
            assert(r1[j] == rs[j]);
        }
    }
    lemma_first_hit_is(r1, Probe::OpenDocWith(h), di);
    assert(submit_model(r1, stamp, s) =~= expected);

    // The stamp first.
    let r2 = rs.update(si, with_state(rs[si], stamped));
    assert(submit_model(rs, stamp, s) == r2);
    lemma_first_id_after_update(rs, si, stamped, doc);
    assert(is_first_hit(r2, Probe::StampWith(h), si)) by {
        assert forall|j: int| 0 <= j < si implies !hits(Probe::StampWith(h), #[trigger] r2[j]) by {
            assert(r2[j] == rs[j]);
        }
    }
    lemma_first_hit_is(r2, Probe::StampWith(h), si);
    assert(submit_model(r2, doc, d) =~= expected);

    lemma_update_keeps_wf(rs, next_id, di, done_doc);
    lemma_remove_keeps_wf(rs.update(di, with_state(rs[di], done_doc)), next_id, si);
    assert forall|j: int| 0 <= j < expected.len() implies #[trigger] expected[j].id != stamp by {
        let oj = if j < si { j } else { j + 1 };
        assert(expected[j].id == rs[oj].id);
    }
}

/// A stamp whose signature failed still resolves the first unresolved
/// document with its hash, to `No` and not to an error, and its own record
/// goes.
pub proof fn lemma_invalid_stamp_resolves_to_no(
    rs: Seq<RecordModel>,
    next_id: u64,
    id: u64,
    h: Seq<char>,
    t: Timestamp,
)
    requires
        records_wf(rs, next_id),
        first_hit(rs, Probe::Id(id)) >= 0,
        is_open(rs[first_hit(rs, Probe::Id(id))].state),
        first_hit(rs, Probe::OpenDocWith(h)) >= 0,
    ensures
        ({
            let i = first_hit(rs, Probe::Id(id));
            let k = first_hit(rs, Probe::OpenDocWith(h));
            let ns = submit_model(rs, id, OutcomeModel::StampResult { hash: h, timestamp: t, valid: false });
            let j = if k < i { k } else { k - 1 };
            &&& ns.len() == rs.len() - 1
            &&& ns[j] == with_state(rs[k], StateModel::Document { hash: h, verified: VerifiedState::No })
        }),
{
    lemma_first_hit_facts(rs, Probe::Id(id));
    lemma_first_hit_facts(rs, Probe::OpenDocWith(h));
}

/// Once a record is removed, nothing that its task reports afterwards changes
/// the store.
pub proof fn lemma_removed_task_is_inert(rs: Seq<RecordModel>, next_id: u64, id: u64, o: OutcomeModel)
    requires
        records_wf(rs, next_id),
    ensures
        submit_model(remove_model(rs, id), id, o) == remove_model(rs, id),
{
    let i = first_hit(rs, Probe::Id(id));
    lemma_first_hit_facts(rs, Probe::Id(id));
    if i >= 0 {
        let ns = rs.remove(i);
        assert forall|j: int| 0 <= j < ns.len() implies !hits(Probe::Id(id), #[trigger] ns[j]) by {
            let oj = if j < i { j } else { j + 1 };
            assert(ns[j] == rs[oj]);
        }
        lemma_first_hit_none(ns, Probe::Id(id));
    }
}

} // verus!
