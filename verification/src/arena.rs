//! The aggregator that collects the fragments of each window until the
//! window is complete.

use crate::batch::{batch_schema, groups_view, schema_of, Batch};
use crate::bitmap::Bitmap;
use crate::error::FlockError;
use crate::payload::{window_key, Payload, WindowId};
use arrow::datatypes::Schema;
use hashbrown::HashMap;
use std::sync::Arc;
use vstd::prelude::*;
use vstd::set_lib::set_int_range;

verus! {

/// What the arrival of a fragment means for its window.
#[derive(Debug, Clone, Copy, PartialEq, Eq, Structural)]
pub enum HashAggregateStatus {
    /// The fragment had arrived before; nothing changed.
    Processed,
    /// The fragment completed the window.
    Ready,
    /// The window still waits for fragments.
    NotReady,
}

/// A window identity as a mathematical value.
pub type WindowKey = (Seq<char>, usize);

/// The state of one window: the expected number of fragments, the groups
/// collected for each relation in order of arrival, and the marks of the
/// sequence numbers that arrived.
pub struct SessionView {
    pub size: nat,
    pub r1: Seq<Seq<Batch>>,
    pub r2: Seq<Seq<Batch>>,
    pub marks: Seq<bool>,
}

impl SessionView {
    /// The sequence numbers that arrived.
    pub open spec fn seen(self) -> Set<int> {
        Set::new(|k: int| 0 <= k < self.marks.len() && self.marks[k])
    }

    /// The marks cover `0 ..= size` with 0 unused, both relations hold one
    /// group per fragment that arrived.
    pub open spec fn wf(self) -> bool {
        &&& self.marks.len() == self.size + 1
        &&& !self.marks[0]
        &&& self.r1.len() == self.r2.len()
        &&& self.r1.len() == self.seen().len()
    }

    /// Every fragment of the window arrived.
    pub open spec fn complete(self) -> bool {
        self.seen().len() == self.size
    }

    /// The window after fragment `k` arrived with the groups `g1` and `g2`:
    /// unchanged if `k` arrived before, else one group longer on both sides
    /// and with `k` marked.
    pub open spec fn accept(self, k: int, g1: Seq<Batch>, g2: Seq<Batch>) -> SessionView {
        if self.marks[k] {
            self
        } else {
            SessionView {
                size: self.size,
                r1: self.r1.push(g1),
                r2: self.r2.push(g2),
                marks: self.marks.update(k, true),
            }
        }
    }

    /// What the arrival of fragment `k` is answered with: `Processed` if it
    /// arrived before, `Ready` if with it the last missing sequence number
    /// arrived, `NotReady` otherwise.
    pub open spec fn outcome(self, k: int) -> HashAggregateStatus {
        if self.marks[k] {
            HashAggregateStatus::Processed
        } else if self.seen().insert(k).len() == self.size {
            HashAggregateStatus::Ready
        } else {
            HashAggregateStatus::NotReady
        }
    }
}

/// A window of `n` fragments of which none arrived.
pub open spec fn fresh_session(n: nat) -> SessionView {
    SessionView {
        size: n,
        r1: Seq::empty(),
        r2: Seq::empty(),
        marks: Seq::new(n + 1, |i: int| false),
    }
}

/// The sessions after a fragment arrived, and the answer to its arrival.
/// A window that has no session starts from a fresh one.
pub open spec fn collect_model(
    m: Map<WindowKey, SessionView>,
    key: WindowKey,
    k: int,
    n: nat,
    g1: Seq<Batch>,
    g2: Seq<Batch>,
) -> (Map<WindowKey, SessionView>, HashAggregateStatus) {
    let s = if m.contains_key(key) {
        m[key]
    } else {
        fresh_session(n)
    };
    (m.insert(key, s.accept(k, g1, g2)), s.outcome(k))
}

/// The sessions after the groups of a window were taken, and the groups of
/// both relations: empty where the window has no session.
pub open spec fn take_model(m: Map<WindowKey, SessionView>, key: WindowKey) -> (
    Map<WindowKey, SessionView>,
    Seq<Seq<Seq<Batch>>>,
) {
    if m.contains_key(key) {
        (m.remove(key), seq![m[key].r1, m[key].r2])
    } else {
        (m, seq![Seq::empty(), Seq::empty()])
    }
}

/// The marked indices of a well-formed session are finitely many, none
/// above the size.
pub proof fn lemma_seen_bounded(s: SessionView)
    requires
        s.marks.len() == s.size + 1,
        !s.marks[0],
    ensures
        s.seen().finite(),
        s.seen().len() <= s.size,
        s.seen().subset_of(set_int_range(1, s.size as int + 1)),
{
    let all = set_int_range(1, s.size as int + 1);
    vstd::set_lib::lemma_int_range(1, s.size as int + 1);
    assert(s.seen().subset_of(all));
    vstd::set_lib::lemma_len_subset(s.seen(), all);
}

/// Accepting a fragment keeps a session well-formed, marks exactly its
/// sequence number, and is answered with `Ready` exactly when the session
/// then holds as many groups as the window expects.
pub proof fn lemma_accept(s: SessionView, k: int, g1: Seq<Batch>, g2: Seq<Batch>)
    requires
        s.wf(),
        1 <= k <= s.size,
    ensures
        s.accept(k, g1, g2).wf(),
        s.accept(k, g1, g2).size == s.size,
        s.accept(k, g1, g2).seen() == s.seen().insert(k),
        !s.marks[k] ==> s.seen().insert(k).len() == s.r1.len() + 1,
        s.outcome(k) == HashAggregateStatus::Ready <==> !s.marks[k] && s.accept(
            k,
            g1,
            g2,
        ).complete(),
{
    lemma_seen_bounded(s);
    let t = s.accept(k, g1, g2);
    assert(t.seen() =~= s.seen().insert(k));
    if !s.marks[k] {
        assert(!s.seen().contains(k));
    }
}

/// One arrival at a window: the sequence number of the fragment and its
/// groups for both relations.
pub struct Arrival {
    pub seq_num: int,
    pub g1: Seq<Batch>,
    pub g2: Seq<Batch>,
}

/// The sessions after the arrivals of one window, of `n` fragments each,
/// were collected in order.
pub open spec fn run(
    m: Map<WindowKey, SessionView>,
    key: WindowKey,
    n: nat,
    arrivals: Seq<Arrival>,
) -> Map<WindowKey, SessionView>
    decreases arrivals.len(),
{
    if arrivals.len() == 0 {
        m
    } else {
        let a = arrivals.last();
        collect_model(run(m, key, n, arrivals.drop_last()), key, a.seq_num, n, a.g1, a.g2).0
    }
}

/// The answer to arrival `i`, after the arrivals before it were collected.
pub open spec fn status_at(
    m: Map<WindowKey, SessionView>,
    key: WindowKey,
    n: nat,
    arrivals: Seq<Arrival>,
    i: int,
) -> HashAggregateStatus {
    let a = arrivals[i];
    collect_model(run(m, key, n, arrivals.take(i)), key, a.seq_num, n, a.g1, a.g2).1
}

/// The sequence numbers that occur among the arrivals.
pub open spec fn numbers(arrivals: Seq<Arrival>) -> Set<int> {
    Set::new(
        |k: int| exists|j: int| 0 <= j < arrivals.len() && (#[trigger] arrivals[j]).seq_num == k,
    )
}

/// Every arrival carries a sequence number of the window: `1 ..= n`.
pub open spec fn in_window(n: nat, arrivals: Seq<Arrival>) -> bool {
    forall|j: int| 0 <= j < arrivals.len() ==> 1 <= (#[trigger] arrivals[j]).seq_num <= n
}

/// No sequence number arrives twice.
pub open spec fn distinct(arrivals: Seq<Arrival>) -> bool {
    forall|i: int, j: int|
        0 <= i < j < arrivals.len() ==> (#[trigger] arrivals[i]).seq_num != (
        #[trigger] arrivals[j]).seq_num
}

proof fn lemma_numbers_push(arrivals: Seq<Arrival>)
    requires
        arrivals.len() > 0,
    ensures
        numbers(arrivals) == numbers(arrivals.drop_last()).insert(arrivals.last().seq_num),
{
    let init = arrivals.drop_last();
    let k = arrivals.last().seq_num;
    assert forall|x: int| numbers(arrivals).contains(x) implies numbers(init).insert(k).contains(
        x,
    ) by {
        let j = choose|j: int| 0 <= j < arrivals.len() && (#[trigger] arrivals[j]).seq_num == x;
        if j < init.len() {
            assert(init[j].seq_num == x);
        }
    }
    assert forall|x: int| numbers(init).insert(k).contains(x) implies numbers(arrivals).contains(
        x,
    ) by {
        if x == k {
            assert(arrivals[arrivals.len() - 1].seq_num == x);
        } else {
            let j = choose|j: int| 0 <= j < init.len() && (#[trigger] init[j]).seq_num == x;
            assert(arrivals[j].seq_num == x);
        }
    }
    assert(numbers(arrivals) =~= numbers(init).insert(k));
}

proof fn lemma_numbers_take(arrivals: Seq<Arrival>, i: int, j: int)
    requires
        0 <= i <= j <= arrivals.len(),
    ensures
        numbers(arrivals.take(i)).subset_of(numbers(arrivals.take(j))),
{
    assert forall|x: int| numbers(arrivals.take(i)).contains(x) implies numbers(
        arrivals.take(j),
    ).contains(x) by {
        let w = choose|w: int| 0 <= w < i && (#[trigger] arrivals.take(i)[w]).seq_num == x;
        assert(arrivals.take(j)[w].seq_num == x);
    }
}

/// After the arrivals of a window that had no session were collected, its
/// session is well-formed and has marked exactly the numbers that arrived.
pub proof fn lemma_run(
    m: Map<WindowKey, SessionView>,
    key: WindowKey,
    n: nat,
    arrivals: Seq<Arrival>,
)
    requires
        !m.contains_key(key),
        in_window(n, arrivals),
    ensures
        run(m, key, n, arrivals).contains_key(key) <==> arrivals.len() > 0,
        arrivals.len() > 0 ==> {
            let s = run(m, key, n, arrivals)[key];
            s.wf() && s.size == n && s.seen() == numbers(arrivals)
        },
    decreases arrivals.len(),
{
    if arrivals.len() > 0 {
        let init = arrivals.drop_last();
        let a = arrivals.last();
        assert(forall|j: int| 0 <= j < init.len() ==> init[j] == arrivals[j]);
        lemma_run(m, key, n, init);
        lemma_numbers_push(arrivals);
        let before = run(m, key, n, init);
        let s = if before.contains_key(key) {
            before[key]
        } else {
            fresh_session(n)
        };
        if init.len() == 0 {
            assert(s.seen() =~= Set::<int>::empty());
            assert(numbers(init) =~= Set::<int>::empty());
        }
        lemma_accept(s, a.seq_num, a.g1, a.g2);
    }
}

/// Each arrival at a window that had no session is answered by what came
/// before it: `Processed` if its number arrived before, `Ready` if with it
/// the `n`-th distinct number arrived, `NotReady` otherwise.
pub proof fn lemma_status_of_arrival(
    m: Map<WindowKey, SessionView>,
    key: WindowKey,
    n: nat,
    arrivals: Seq<Arrival>,
    i: int,
)
    requires
        !m.contains_key(key),
        in_window(n, arrivals),
        0 <= i < arrivals.len(),
    ensures
        status_at(m, key, n, arrivals, i) == (if numbers(arrivals.take(i)).contains(
            arrivals[i].seq_num,
        ) {
            HashAggregateStatus::Processed
        } else if numbers(arrivals.take(i + 1)).len() == n {
            HashAggregateStatus::Ready
        } else {
            HashAggregateStatus::NotReady
        }),
{
    let head = arrivals.take(i);
    let k = arrivals[i].seq_num;
    assert(forall|j: int| 0 <= j < head.len() ==> head[j] == arrivals[j]);
    lemma_run(m, key, n, head);
    let before = run(m, key, n, head);
    let s = if before.contains_key(key) {
        before[key]
    } else {
        fresh_session(n)
    };
    if i == 0 {
        assert(s.seen() =~= Set::<int>::empty());
        assert(numbers(head) =~= Set::<int>::empty());
    }
    assert(s.seen() == numbers(head));
    assert(s.marks[k] == s.seen().contains(k));
    assert(arrivals.take(i + 1).drop_last() =~= head);
    lemma_numbers_push(arrivals.take(i + 1));
}

/// Among the arrivals at a window that had no session, at most one is
/// answered with `Ready`.
pub proof fn lemma_ready_at_most_once(
    m: Map<WindowKey, SessionView>,
    key: WindowKey,
    n: nat,
    arrivals: Seq<Arrival>,
    i: int,
    j: int,
)
    requires
        !m.contains_key(key),
        in_window(n, arrivals),
        0 <= i < j < arrivals.len(),
    ensures
        !(status_at(m, key, n, arrivals, i) == HashAggregateStatus::Ready && status_at(
            m,
            key,
            n,
            arrivals,
            j,
        ) == HashAggregateStatus::Ready),
{
    lemma_status_of_arrival(m, key, n, arrivals, i);
    lemma_status_of_arrival(m, key, n, arrivals, j);
    if status_at(m, key, n, arrivals, i) == HashAggregateStatus::Ready {
        let full = numbers(arrivals.take(i + 1));
        let all = set_int_range(1, n as int + 1);
        vstd::set_lib::lemma_int_range(1, n as int + 1);
        assert forall|x: int| full.contains(x) implies all.contains(x) by {
            let w = choose|w: int|
                0 <= w < i + 1 && (#[trigger] arrivals.take(i + 1)[w]).seq_num == x;
            assert(arrivals.take(i + 1)[w] == arrivals[w]);
        }
        vstd::set_lib::lemma_len_subset(full, all);
        vstd::set_lib::lemma_subset_equality(full, all);
        lemma_numbers_take(arrivals, i + 1, j);
        assert(all.contains(arrivals[j].seq_num));
        assert(numbers(arrivals.take(j)).contains(arrivals[j].seq_num));
    }
}

/// Once every sequence number of a window that had no session arrived, one
/// of the arrivals was answered with `Ready`.
pub proof fn lemma_ready_when_all_arrived(
    m: Map<WindowKey, SessionView>,
    key: WindowKey,
    n: nat,
    arrivals: Seq<Arrival>,
)
    requires
        !m.contains_key(key),
        n >= 1,
        in_window(n, arrivals),
        numbers(arrivals).len() == n,
    ensures
        exists|i: int|
            0 <= i < arrivals.len() && #[trigger] status_at(m, key, n, arrivals, i)
                == HashAggregateStatus::Ready,
    decreases arrivals.len(),
{
    if arrivals.len() == 0 {
        assert(numbers(arrivals) =~= Set::<int>::empty());
    } else {
        let init = arrivals.drop_last();
        let last = arrivals.len() - 1;
        assert(forall|j: int| 0 <= j < init.len() ==> init[j] == arrivals[j]);
        assert(arrivals.take(last) =~= init);
        assert(arrivals.take(last + 1) =~= arrivals);
        lemma_numbers_push(arrivals);
        lemma_run(m, key, n, init);
        if init.len() == 0 {
            assert(numbers(init) =~= Set::<int>::empty());
        } else {
            lemma_seen_bounded(run(m, key, n, init)[key]);
        }
        if numbers(init).len() == n {
            lemma_ready_when_all_arrived(m, key, n, init);
            let i = choose|i: int|
                0 <= i < init.len() && #[trigger] status_at(m, key, n, init, i)
                    == HashAggregateStatus::Ready;
            assert(init.take(i) =~= arrivals.take(i));
            assert(status_at(m, key, n, arrivals, i) == HashAggregateStatus::Ready);
        } else {
            lemma_status_of_arrival(m, key, n, arrivals, last);
            assert(status_at(m, key, n, arrivals, last) == HashAggregateStatus::Ready);
        }
    }
}

/// Where no sequence number arrives twice, the session of a window that
/// had no session holds the groups of the arrivals in their order.
pub proof fn lemma_groups_in_arrival_order(
    m: Map<WindowKey, SessionView>,
    key: WindowKey,
    n: nat,
    arrivals: Seq<Arrival>,
)
    requires
        !m.contains_key(key),
        in_window(n, arrivals),
        distinct(arrivals),
        arrivals.len() > 0,
    ensures
        run(m, key, n, arrivals)[key].r1 == arrivals.map_values(|a: Arrival| a.g1),
        run(m, key, n, arrivals)[key].r2 == arrivals.map_values(|a: Arrival| a.g2),
    decreases arrivals.len(),
{
    let init = arrivals.drop_last();
    let a = arrivals.last();
    assert(forall|j: int| 0 <= j < init.len() ==> init[j] == arrivals[j]);
    lemma_run(m, key, n, init);
    let before = run(m, key, n, init);
    let s = if before.contains_key(key) {
        before[key]
    } else {
        fresh_session(n)
    };
    if init.len() > 0 {
        lemma_groups_in_arrival_order(m, key, n, init);
        if s.marks[a.seq_num] {
            assert(numbers(init).contains(a.seq_num));
            let w = choose|w: int| 0 <= w < init.len() && (#[trigger] init[w]).seq_num == a.seq_num;
            assert(arrivals[w].seq_num == arrivals[arrivals.len() - 1].seq_num);
        }
    }
    assert(run(m, key, n, arrivals)[key].r1 =~= arrivals.map_values(|a: Arrival| a.g1));
    assert(run(m, key, n, arrivals)[key].r2 =~= arrivals.map_values(|a: Arrival| a.g2));
}

/// When an arrival is answered with `Ready`, taking the window's groups
/// yields as many groups per relation as the window has fragments, the
/// last of them those of this arrival, and removes the session: taking
/// again yields nothing and changes nothing.
pub proof fn lemma_take_after_ready(
    m: Map<WindowKey, SessionView>,
    key: WindowKey,
    k: int,
    n: nat,
    g1: Seq<Batch>,
    g2: Seq<Batch>,
)
    requires
        m.contains_key(key) ==> m[key].wf() && m[key].size == n,
        1 <= k <= n,
        collect_model(m, key, k, n, g1, g2).1 == HashAggregateStatus::Ready,
    ensures
        ({
            let first = take_model(collect_model(m, key, k, n, g1, g2).0, key);
            let second = take_model(first.0, key);
            &&& first.1[0].len() == n
            &&& first.1[1].len() == n
            &&& first.1[0].last() == g1
            &&& first.1[1].last() == g2
            &&& !first.0.contains_key(key)
            &&& second.0 == first.0
            &&& second.1 == seq![Seq::<Seq<Batch>>::empty(), Seq::<Seq<Batch>>::empty()]
        }),
{
    let s = if m.contains_key(key) {
        m[key]
    } else {
        fresh_session(n)
    };
    if !m.contains_key(key) {
        assert(s.seen() =~= Set::<int>::empty());
    }
    lemma_accept(s, k, g1, g2);
}

/// The accumulated state of one window.
#[derive(Debug)]
pub struct WindowSession {
    /// The number of fragments that the window expects.
    pub size: usize,
    /// The groups of the first relation, in order of arrival.
    pub r1_records: Vec<Vec<Batch>>,
    /// The groups of the second relation, in order of arrival.
    pub r2_records: Vec<Vec<Batch>>,
    /// The sequence numbers that arrived.
    pub bitmap: Bitmap,
}

impl WindowSession {
    /// The session as a mathematical value.
    pub open spec fn view(&self) -> SessionView {
        SessionView {
            size: self.size as nat,
            r1: groups_view(self.r1_records),
            r2: groups_view(self.r2_records),
            marks: self.bitmap@,
        }
    }

    /// The bitmap and the session's state are well-formed.
    pub open spec fn wf(&self) -> bool {
        self.bitmap.wf() && self@.wf()
    }

    /// The schema of the first relation, taken from its first batch, and
    /// that of the second relation where it has a batch. Fails with
    /// `EmptyWindow` while the first relation has no batch.
    pub fn schema(&self) -> (r: Result<(Arc<Schema>, Option<Arc<Schema>>), FlockError>)
        ensures
            r is Err <==> self@.r1.len() == 0 || self@.r1[0].len() == 0,
            r matches Err(e) ==> e == FlockError::EmptyWindow,
            r matches Ok(s) ==> *s.0 == schema_of(self@.r1[0][0]) && (match s.1 {
                Some(t) => self@.r2.len() > 0 && self@.r2[0].len() > 0 && *t == schema_of(
                    self@.r2[0][0],
                ),
                None => self@.r2.len() == 0 || self@.r2[0].len() == 0,
            }),
    {
        if self.r1_records.len() == 0 || self.r1_records[0].len() == 0 {
            return Err(FlockError::EmptyWindow);
        }
        let first = batch_schema(&self.r1_records[0][0]);
        if self.r2_records.len() != 0 && self.r2_records[0].len() != 0 {
            Ok((first, Some(batch_schema(&self.r2_records[0][0]))))
        } else {
            Ok((first, None))
        }
    }
}

/// The `hashbrown` hash map that holds the live sessions by window
/// identity. Trusted as an opaque value: what it holds is named
/// `table_sessions`, and the functions below say what each call does to it.
#[verifier::external_body]
pub struct SessionTable {
    map: HashMap<WindowId, WindowSession>,
}

/// The sessions that a table holds, by window identity.
pub uninterp spec fn table_sessions(table: SessionTable) -> Map<WindowKey, WindowSession>;

/// Calls `HashMap::new`. Trusted: the new table holds no session.
#[verifier::external_body]
fn table_new() -> (table: SessionTable)
    ensures
        table_sessions(table).dom() == Set::<WindowKey>::empty(),
{
    SessionTable { map: HashMap::new() }
}

/// Calls `HashMap::get`. Trusted: it finds the session stored under the
/// identity, if there is one.
#[verifier::external_body]
fn table_get<'a>(table: &'a SessionTable, id: &WindowId) -> (r: Option<&'a WindowSession>)
    ensures
        r is Some <==> table_sessions(*table).contains_key(window_key(*id)),
        r matches Some(w) ==> *w == table_sessions(*table)[window_key(*id)],
{
    table.map.get(id)
}

/// Calls `HashMap::get_mut`. Trusted: it lends the session stored under the
/// identity, if there is one; whatever the borrower leaves there is what
/// the table holds afterwards, and no other entry changes.
#[verifier::external_body]
fn table_get_mut<'a>(table: &'a mut SessionTable, id: &WindowId) -> (r: Option<
    &'a mut WindowSession,
>)
    ensures
        r is Some <==> table_sessions(*old(table)).contains_key(window_key(*id)),
        r is Some ==> *r.unwrap() == table_sessions(*old(table))[window_key(*id)]
            && table_sessions(*final(table)) == table_sessions(*old(table)).insert(
            window_key(*id),
            *final(r.unwrap()),
        ),
        r is None ==> table_sessions(*final(table)) == table_sessions(*old(table)),
{
    table.map.get_mut(id)
}

/// Calls `HashMap::insert`. Trusted: the session is stored under the
/// identity, replacing and handing back the one that was there.
#[verifier::external_body]
fn table_insert(table: &mut SessionTable, id: WindowId, session: WindowSession) -> (prev: Option<
    WindowSession,
>)
    ensures
        table_sessions(*final(table)) == table_sessions(*old(table)).insert(
            window_key(id),
            session,
        ),
        prev is Some <==> table_sessions(*old(table)).contains_key(window_key(id)),
        prev matches Some(w) ==> w == table_sessions(*old(table))[window_key(id)],
{
    table.map.insert(id, session)
}

/// Calls `HashMap::remove`. Trusted: the session stored under the identity
/// leaves the table and is handed back, if there is one.
#[verifier::external_body]
fn table_remove(table: &mut SessionTable, id: &WindowId) -> (r: Option<WindowSession>)
    ensures
        table_sessions(*final(table)) == table_sessions(*old(table)).remove(window_key(*id)),
        r is Some <==> table_sessions(*old(table)).contains_key(window_key(*id)),
        r matches Some(w) ==> w == table_sessions(*old(table))[window_key(*id)],
{
    table.map.remove(id)
}

/// Collects the fragments of every window that is under way, one session
/// per window identity.
pub struct Arena(SessionTable);

impl Arena {
    /// The live sessions by window identity.
    pub closed spec fn sessions(&self) -> Map<WindowKey, WindowSession> {
        table_sessions(self.0)
    }

    /// The state of every live window.
    pub open spec fn view(&self) -> Map<WindowKey, SessionView> {
        self.sessions().map_values(|w: WindowSession| w@)
    }

    /// Every live session is well-formed.
    pub open spec fn wf(&self) -> bool {
        forall|key: WindowKey| #[trigger]
            self.sessions().contains_key(key) ==> self.sessions()[key].wf()
    }

    /// An arena without sessions.
    pub fn new() -> (arena: Arena)
        ensures
            arena.wf(),
            arena@ == Map::<WindowKey, SessionView>::empty(),
    {
        let arena = Arena(table_new());
        assert(arena@ =~= Map::<WindowKey, SessionView>::empty());
        arena
    }

    /// The session of a window, if it has one.
    pub fn get(&self, window_id: &WindowId) -> (r: Option<&WindowSession>)
        ensures
            r is Some <==> self@.contains_key(window_key(*window_id)),
            r matches Some(w) ==> w@ == self@[window_key(*window_id)] && (self.wf() ==> w.wf()),
    {
        table_get(&self.0, window_id)
    }

    /// Removes the session of a window and hands out the groups of its two
    /// relations, in order of arrival. A window without a session yields
    /// two empty sequences.
    pub fn take_batches(&mut self, window_id: &WindowId) -> (r: Vec<Vec<Vec<Batch>>>)
        requires
            old(self).wf(),
        ensures
            final(self).wf(),
            r@.len() == 2,
            (final(self)@, seq![groups_view(r@[0]), groups_view(r@[1])]) == take_model(
                old(self)@,
                window_key(*window_id),
            ),
    {
        let ghost key = window_key(*window_id);
        let taken = table_remove(&mut self.0, window_id);
        let r = match taken {
            Some(window) => {
                let mut out: Vec<Vec<Vec<Batch>>> = Vec::new();
                out.push(window.r1_records);
                out.push(window.r2_records);
                out
            },
            None => {
                let mut out: Vec<Vec<Vec<Batch>>> = Vec::new();
                out.push(Vec::new());
                out.push(Vec::new());
                out
            },
        };
        proof {
            let after = take_model(old(self)@, key);
            assert(self@ =~= after.0);
            assert(seq![groups_view(r@[0]), groups_view(r@[1])] =~= after.1) by {
                assert(groups_view(r@[0]) =~= after.1[0]);
                assert(groups_view(r@[1]) =~= after.1[1]);
            }
        }
        r
    }

    /// The bitmap of a window, if it has a session.
    pub fn get_bitmap(&self, window_id: &WindowId) -> (r: Option<&Bitmap>)
        ensures
            r is Some <==> self@.contains_key(window_key(*window_id)),
            r matches Some(b) ==> b@ == self@[window_key(*window_id)].marks && (self.wf()
                ==> b.wf()),
    {
        match table_get(&self.0, window_id) {
            Some(window) => Some(&window.bitmap),
            None => None,
        }
    }

    /// Tells whether the window has a session that holds as many groups as
    /// the window expects fragments, that is, whether every fragment
    /// arrived.
    pub fn is_complete(&self, window_id: &WindowId) -> (r: bool)
        requires
            self.wf(),
        ensures
            r == (self@.contains_key(window_key(*window_id)) && self@[window_key(
                *window_id,
            )].complete()),
    {
        match table_get(&self.0, window_id) {
            Some(window) => window.size == window.r1_records.len(),
            None => false,
        }
    }

    /// Tells whether `collect` takes the payload: its fragment lies inside
    /// its window, the window's bitmap can be allocated, and a session of
    /// the window expects as many fragments as the payload declares.
    pub fn admits(&self, payload: &Payload) -> (r: bool)
        ensures
            r == (payload.uuid.wf() && payload.uuid.seq_len < usize::MAX && (self@.contains_key(
                payload.uuid.window(),
            ) ==> self@[payload.uuid.window()].size == payload.uuid.seq_len)),
    {
        if !(1 <= payload.uuid.seq_num && payload.uuid.seq_num <= payload.uuid.seq_len
            && payload.uuid.seq_len < usize::MAX) {
            return false;
        }
        let window_id = payload.get_window_id();
        match table_get(&self.0, &window_id) {
            Some(window) => window.size == payload.uuid.seq_len,
            None => true,
        }
    }

    /// Takes in one fragment. The first fragment of a window opens its
    /// session; a fragment that arrived before changes nothing and is
    /// answered with `Processed`; any other fragment adds its groups to
    /// both relations and marks its sequence number, and is answered with
    /// `Ready` if it was the last one missing, else with `NotReady`.
    pub fn collect(&mut self, payload: Payload) -> (status: HashAggregateStatus)
        requires
            old(self).wf(),
            payload.uuid.wf(),
            payload.uuid.seq_len < usize::MAX,
            old(self)@.contains_key(payload.uuid.window()) ==> old(self)@[payload.uuid.window()].size
                == payload.uuid.seq_len,
        ensures
            final(self).wf(),
            (final(self)@, status) == collect_model(
                old(self)@,
                payload.uuid.window(),
                payload.uuid.seq_num as int,
                payload.uuid.seq_len as nat,
                payload.data@,
                payload.data2@,
            ),
    {
        let window_id = payload.get_window_id();
        let seq_num: usize = payload.uuid.seq_num;
        let seq_len: usize = payload.uuid.seq_len;
        let ghost key = payload.uuid.window();
        let ghost g1 = payload.data@;
        let ghost g2 = payload.data2@;
        let ghost before = old(self).sessions();
        let status = match table_get_mut(&mut self.0, &window_id) {
            Some(window) => {
                let ghost s = window@;
                proof {
                    assert(before.contains_key(key));
                    assert(before[key].wf());
                    lemma_accept(s, seq_num as int, g1, g2);
                }
                if !window.bitmap.is_set(seq_num) {
                    let (r1, r2) = payload.to_record_batch();
                    let ghost old_r1 = window.r1_records;
                    let ghost old_r2 = window.r2_records;
                    window.r1_records.push(r1);
                    window.r2_records.push(r2);
                    window.bitmap.set(seq_num);
                    proof {
                        assert(groups_view(window.r1_records) =~= groups_view(old_r1).push(g1));
                        assert(groups_view(window.r2_records) =~= groups_view(old_r2).push(g2));
                        assert(window@ == s.accept(seq_num as int, g1, g2));
                    }
                    if window.size == window.r1_records.len() {
                        HashAggregateStatus::Ready
                    } else {
                        HashAggregateStatus::NotReady
                    }
                } else {
                    HashAggregateStatus::Processed
                }
            },
            None => {
                let (r1, r2) = payload.to_record_batch();
                let mut r1_records: Vec<Vec<Batch>> = Vec::new();
                r1_records.push(r1);
                let mut r2_records: Vec<Vec<Batch>> = Vec::new();
                r2_records.push(r2);
                let mut window = WindowSession {
                    size: seq_len,
                    r1_records,
                    r2_records,
                    bitmap: Bitmap::new(seq_len + 1),
                };
                window.bitmap.set(seq_num);
                proof {
                    let s = fresh_session(seq_len as nat);
                    assert(s.seen() =~= Set::<int>::empty());
                    lemma_accept(s, seq_num as int, g1, g2);
                    assert(groups_view(window.r1_records) =~= s.r1.push(g1));
                    assert(groups_view(window.r2_records) =~= s.r2.push(g2));
                    assert(window@ == s.accept(seq_num as int, g1, g2));
                }
                table_insert(&mut self.0, window_id, window);
                if seq_len == 1 {
                    HashAggregateStatus::Ready
                } else {
                    HashAggregateStatus::NotReady
                }
            },
        };
        proof {
            let after = collect_model(
                old(self)@,
                key,
                seq_num as int,
                seq_len as nat,
                g1,
                g2,
            );
            assert(self@ =~= after.0);
        }
        status
    }
}

} // verus!
