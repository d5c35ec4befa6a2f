//! Which worker a session's messages go to, and when each of them is handled.
use vstd::prelude::*;
use crate::text;

verus! {

/// How many seconds a worker waits for another message before it ends.
pub const SESSION_IDLE_SECONDS: u64 = 300;

/// The workers in use, by the key of their session, and the id of the next one.
#[verifier::ext_equal]
pub struct WorkersView {
    pub workers: Map<Seq<char>, u64>,
    pub next_id: u64,
}

impl WorkersView {
    /// The worker that a session's messages go to: the one in use, or else a new one.
    pub open spec fn worker_for(self, key: Seq<char>) -> u64 {
        if self.workers.contains_key(key) {
            self.workers[key]
        } else {
            self.next_id
        }
    }

    /// The workers once one was asked for.
    pub open spec fn with_worker(self, key: Seq<char>) -> WorkersView {
        if self.workers.contains_key(key) {
            self
        } else {
            WorkersView {
                workers: self.workers.insert(key, self.next_id),
                next_id: if self.next_id == u64::MAX {
                    0
                } else {
                    (self.next_id + 1) as u64
                },
            }
        }
    }

    /// The workers once one has ended; one that has already been replaced takes nobody with it.
    pub open spec fn without_worker(self, key: Seq<char>, id: u64) -> WorkersView {
        if self.workers.contains_key(key) && self.workers[key] == id {
            WorkersView { workers: self.workers.remove(key), ..self }
        } else {
            self
        }
    }
}

impl WorkersView {
    /// Whether the ids were given out one after another: none twice, and none is still to come.
    pub open spec fn ids_in_turn(self) -> bool {
        &&& forall|key: Seq<char>| #[trigger]
            self.workers.contains_key(key) ==> self.workers[key] < self.next_id
        &&& forall|a: Seq<char>, b: Seq<char>|
            #![trigger self.workers.contains_key(a), self.workers.contains_key(b)]
            self.workers.contains_key(a) && self.workers.contains_key(b) && self.workers[a]
                == self.workers[b] ==> a == b
    }
}

/// Two sessions never share a worker, as long as ids are left: ids are given out in turn, and so
/// workers that are asked for by two sessions are two.
pub proof fn law_sessions_have_workers_of_their_own(
    table: WorkersView,
    key: Seq<char>,
    other: Seq<char>,
    id: u64,
)
    requires
        table.ids_in_turn(),
        table.next_id < u64::MAX,
        other != key,
    ensures
        table.with_worker(key).ids_in_turn(),
        table.without_worker(key, id).ids_in_turn(),
        table.with_worker(key).worker_for(other) != table.worker_for(key),
{
}

/// As long as a worker lives, the messages of its session go to it.
pub proof fn law_sessions_keep_their_worker(table: WorkersView, key: Seq<char>)
    ensures
        table.with_worker(key).worker_for(key) == table.worker_for(key),
        table.with_worker(key).with_worker(key) == table.with_worker(key),
{
}

/// The end of a worker touches no other session, and not a worker that came after it.
pub proof fn law_ended_workers_take_nobody_with_them(
    table: WorkersView,
    key: Seq<char>,
    id: u64,
    other: Seq<char>,
)
    requires
        other != key || table.worker_for(key) != id,
    ensures
        table.without_worker(key, id).workers.contains_key(other) == table.workers.contains_key(
            other,
        ),
        table.workers.contains_key(other) ==> table.without_worker(key, id).workers[other]
            == table.workers[other],
{
}

/// What stands under each key.
pub open spec fn entries_map<V>(entries: Seq<(String, V)>) -> Map<Seq<char>, V>
    decreases entries.len(),
{
    if entries.len() == 0 {
        Map::empty()
    } else {
        entries_map(entries.drop_last()).insert(entries.last().0@, entries.last().1)
    }
}

/// Whether no key stands twice.
pub open spec fn keys_distinct<V>(entries: Seq<(String, V)>) -> bool {
    forall|i: int, j: int|
        0 <= i < j < entries.len() ==> (#[trigger] entries[i]).0@ != (#[trigger] entries[j]).0@
}

/// What the map holds.
proof fn lemma_entries<V>(entries: Seq<(String, V)>, key: Seq<char>)
    requires
        keys_distinct(entries),
    ensures
        entries_map(entries).contains_key(key) <==> exists|i: int|
            0 <= i < entries.len() && (#[trigger] entries[i]).0@ == key,
        forall|i: int|
            0 <= i < entries.len() && (#[trigger] entries[i]).0@ == key ==> entries_map(
                entries,
            )[key] == entries[i].1,
    decreases entries.len(),
{
    if entries.len() > 0 {
        let before = entries.drop_last();
        assert forall|i: int, j: int| 0 <= i < j < before.len() implies (#[trigger] before[i]).0@
            != (#[trigger] before[j]).0@ by {
            assert(before[i] == entries[i] && before[j] == entries[j]);
        }
        lemma_entries(before, key);
        assert forall|i: int| 0 <= i < entries.len() && (#[trigger] entries[i]).0@ == key implies {
            &&& entries_map(entries).contains_key(key)
            &&& entries_map(entries)[key] == entries[i].1
        } by {
            if i < before.len() {
                assert(before[i] == entries[i]);
                assert(entries[i].0@ != entries[entries.len() - 1].0@);
            }
        }
        if entries_map(entries).contains_key(key) {
            if entries.last().0@ == key {
                assert(entries[entries.len() - 1].0@ == key);
            } else {
                let i = choose|i: int| 0 <= i < before.len() && (#[trigger] before[i]).0@ == key;
                assert(entries[i].0@ == key);
            }
        }
    }
}

/// Taking an entry out takes its key out of the map.
proof fn lemma_removed<V>(entries: Seq<(String, V)>, at: int)
    requires
        keys_distinct(entries),
        0 <= at < entries.len(),
    ensures
        keys_distinct(entries.remove(at)),
        entries_map(entries.remove(at)) == entries_map(entries).remove(entries[at].0@),
{
    let rest = entries.remove(at);
    assert forall|i: int, j: int| 0 <= i < j < rest.len() implies (#[trigger] rest[i]).0@ != (
    #[trigger] rest[j]).0@ by {
        let a = if i < at {
            i
        } else {
            i + 1
        };
        let b = if j < at {
            j
        } else {
            j + 1
        };
        assert(rest[i] == entries[a] && rest[j] == entries[b]);
    }
    let key = entries[at].0@;
    assert forall|k: Seq<char>| #[trigger] entries_map(rest).contains_key(k) == entries_map(
        entries,
    ).remove(key).contains_key(k) by {
        lemma_entries(rest, k);
        lemma_entries(entries, k);
        if entries_map(rest).contains_key(k) {
            let i = choose|i: int| 0 <= i < rest.len() && (#[trigger] rest[i]).0@ == k;
            let a = if i < at {
                i
            } else {
                i + 1
            };
            assert(entries[a].0@ == k);
            assert(entries[at].0@ == key);
        }
        if entries_map(entries).contains_key(k) && k != key {
            let i = choose|i: int| 0 <= i < entries.len() && (#[trigger] entries[i]).0@ == k;
            let a = if i < at {
                i
            } else {
                i - 1
            };
            assert(rest[a].0@ == k);
        }
    }
    assert forall|k: Seq<char>| #[trigger] entries_map(rest).contains_key(k) implies entries_map(
        rest,
    )[k] == entries_map(entries)[k] by {
        lemma_entries(rest, k);
        lemma_entries(entries, k);
        let i = choose|i: int| 0 <= i < rest.len() && (#[trigger] rest[i]).0@ == k;
        let a = if i < at {
            i
        } else {
            i + 1
        };
        assert(entries[a].0@ == k);
        assert(entries[a] == rest[i]);
    }
    assert(entries_map(rest) =~= entries_map(entries).remove(key));
}

/// An entry behind the others puts its key into the map, where it is new.
proof fn lemma_added<V>(entries: Seq<(String, V)>, entry: (String, V))
    requires
        keys_distinct(entries),
        forall|i: int| 0 <= i < entries.len() ==> (#[trigger] entries[i]).0@ != entry.0@,
    ensures
        keys_distinct(entries.push(entry)),
        entries_map(entries.push(entry)) == entries_map(entries).insert(entry.0@, entry.1),
{
    let grown = entries.push(entry);
    assert(grown.drop_last() =~= entries);
    assert forall|i: int, j: int| 0 <= i < j < grown.len() implies (#[trigger] grown[i]).0@ != (
    #[trigger] grown[j]).0@ by {
        assert(grown[i] == entries[i]);
        if j < entries.len() {
            assert(grown[j] == entries[j]);
        }
    }
}

/// The workers in use.
pub struct WorkerTable {
    entries: Vec<(String, u64)>,
    next_worker_id: u64,
}

impl View for WorkerTable {
    type V = WorkersView;

    closed spec fn view(&self) -> WorkersView {
        WorkersView { workers: entries_map(self.entries@), next_id: self.next_worker_id }
    }
}

impl WorkerTable {
    /// Whether no session has two workers.
    #[verifier::type_invariant]
    closed spec fn wf(self) -> bool {
        keys_distinct(self.entries@)
    }

    /// A table without workers; the first one gets the id 1.
    pub fn new() -> (r: Self)
        ensures
            r@ == (WorkersView { workers: Map::empty(), next_id: 1 }),
            r@.ids_in_turn(),
    {
        WorkerTable { entries: Vec::new(), next_worker_id: 1 }
    }

    /// The position of a session's worker.
    fn index_of(&self, key: &str) -> (r: Option<usize>)
        ensures
            match r {
                Some(i) => i < self.entries@.len() && self.entries@[i as int].0@ == key@
                    && self@.workers.contains_key(key@) && self@.workers[key@]
                    == self.entries@[i as int].1,
                None => !self@.workers.contains_key(key@) && forall|i: int|
                    0 <= i < self.entries@.len() ==> (#[trigger] self.entries@[i]).0@ != key@,
            },
    {
        proof {
            use_type_invariant(self);
            lemma_entries(self.entries@, key@);
        }
        let mut i: usize = 0;
        while i < self.entries.len()
            invariant
                i <= self.entries@.len(),
                keys_distinct(self.entries@),
                forall|k: int| 0 <= k < i ==> (#[trigger] self.entries@[k]).0@ != key@,
            decreases self.entries@.len() - i,
        {
            if text::same_text(self.entries[i].0.as_str(), key) {
                proof {
                    lemma_entries(self.entries@, key@);
                }
                return Some(i);
            }
            i = i + 1;
        }
        None
    }

    /// The worker that a session's messages go to, and whether it is a new one.
    pub fn worker_for_key(&mut self, key: &str) -> (r: (u64, bool))
        ensures
            r.0 == old(self)@.worker_for(key@),
            r.1 == !old(self)@.workers.contains_key(key@),
            final(self)@ == old(self)@.with_worker(key@),
    {
        proof {
            use_type_invariant(&*self);
        }
        if let Some(i) = self.index_of(key) {
            return (self.entries[i].1, false);
        }
        let id: u64 = self.next_worker_id;
        let mut entries: Vec<(String, u64)> = Vec::new();
        std::mem::swap(&mut entries, &mut self.entries);
        let entry = (key.to_owned(), id);
        proof {
            lemma_added(entries@, entry);
        }
        entries.push(entry);
        self.entries = entries;
        self.next_worker_id = id.wrapping_add(1);
        (id, true)
    }

    /// Takes a worker out that has ended, unless another has taken its place.
    pub fn remove_worker_if_matches(&mut self, key: &str, expected_worker_id: u64)
        ensures
            final(self)@ == old(self)@.without_worker(key@, expected_worker_id),
    {
        proof {
            use_type_invariant(&*self);
        }
        if let Some(i) = self.index_of(key) {
            if self.entries[i].1 == expected_worker_id {
                proof {
                    lemma_removed(self.entries@, i as int);
                }
                let mut entries: Vec<(String, u64)> = Vec::new();
                std::mem::swap(&mut entries, &mut self.entries);
                let _ended = entries.remove(i);
                self.entries = entries;
            }
        }
    }

    /// How many workers there are.
    pub fn worker_count(&self) -> (r: usize)
        ensures
            r == self@.workers.dom().len(),
    {
        proof {
            use_type_invariant(self);
            lemma_count(self.entries@);
        }
        self.entries.len()
    }
}

/// The map has as many keys as there are entries.
proof fn lemma_count(entries: Seq<(String, u64)>)
    requires
        keys_distinct(entries),
    ensures
        entries_map(entries).dom().finite(),
        entries_map(entries).dom().len() == entries.len(),
    decreases entries.len(),
{
    if entries.len() > 0 {
        let before = entries.drop_last();
        assert forall|i: int, j: int| 0 <= i < j < before.len() implies (#[trigger] before[i]).0@
            != (#[trigger] before[j]).0@ by {
            assert(before[i] == entries[i] && before[j] == entries[j]);
        }
        lemma_count(before);
        lemma_entries(before, entries.last().0@);
        assert(!entries_map(before).contains_key(entries.last().0@)) by {
            if entries_map(before).contains_key(entries.last().0@) {
                let i = choose|i: int|
                    0 <= i < before.len() && (#[trigger] before[i]).0@ == entries.last().0@;
                assert(entries[i].0@ != entries[entries.len() - 1].0@);
            }
        }
        assert(entries_map(entries).dom() =~= entries_map(before).dom().insert(
            entries.last().0@,
        ));
    } else {
        assert(entries_map(entries).dom() =~= Set::<Seq<char>>::empty());
    }
}

/// What follows an attempt to hand a message to a worker.
#[derive(Debug, Clone, Copy, PartialEq, Eq, Structural)]
pub enum DispatchStep {
    /// The worker has the message.
    Queued,
    /// The worker had ended; another one is asked for.
    Retry,
    /// The second worker had ended too; the message is lost.
    Dropped,
}

/// What follows an attempt: a message is tried twice.
pub open spec fn dispatch_step(attempt: u32, sent: bool) -> DispatchStep {
    if sent {
        DispatchStep::Queued
    } else if attempt == 0 {
        DispatchStep::Retry
    } else {
        DispatchStep::Dropped
    }
}

impl WorkerTable {
    /// Takes note of an attempt to hand a message to a worker.  A worker that did not take it is
    /// out of use.
    pub fn after_attempt(&mut self, key: &str, worker_id: u64, attempt: u32, sent: bool) -> (r:
        DispatchStep)
        ensures
            r == dispatch_step(attempt, sent),
            final(self)@ == if sent {
                old(self)@
            } else {
                old(self)@.without_worker(key@, worker_id)
            },
    {
        if sent {
            return DispatchStep::Queued;
        }
        self.remove_worker_if_matches(key, worker_id);
        if attempt == 0 {
            DispatchStep::Retry
        } else {
            DispatchStep::Dropped
        }
    }
}

/// A message that found an ended worker is offered to a new one.
pub proof fn law_retry_finds_another_worker(table: WorkersView, key: Seq<char>)
    requires
        table.workers.contains_key(key),
    ensures
        table.without_worker(key, table.worker_for(key)).worker_for(key) == table.next_id,
{
}

/// Where the messages of a session stand.
#[verifier::ext_equal]
pub struct LineView<T> {
    /// The messages that wait, the earliest first.
    pub waiting: Seq<T>,
    /// Whether a message is being handled.
    pub busy: bool,
}

impl<T> LineView<T> {
    /// No message waits, and none is being handled.
    pub open spec fn idle() -> LineView<T> {
        LineView { waiting: Seq::empty(), busy: false }
    }

    /// The message that is handled next: the earliest one, as long as no other is being handled.
    pub open spec fn next(self) -> Option<T> {
        if self.busy || self.waiting.len() == 0 {
            None
        } else {
            Some(self.waiting[0])
        }
    }
}

/// What happens to the messages of a session.
pub enum LineEvent<T> {
    /// A message came in.
    Queued(T),
    /// The next message is asked for.
    Asked,
    /// The message that was being handled is done with.
    Done,
}

impl<T> LineView<T> {
    /// Where the messages stand behind an event.
    pub open spec fn after(self, event: LineEvent<T>) -> LineView<T> {
        match event {
            LineEvent::Queued(message) => LineView {
                waiting: self.waiting.push(message),
                busy: self.busy,
            },
            LineEvent::Asked => if self.next() is Some {
                LineView { waiting: self.waiting.skip(1), busy: true }
            } else {
                self
            },
            LineEvent::Done => LineView { waiting: self.waiting, busy: false },
        }
    }
}

/// The messages of all sessions; a session that is not among them is idle.
#[verifier::ext_equal]
pub struct LinesView<T> {
    pub lines: Map<Seq<char>, LineView<T>>,
}

impl<T> LinesView<T> {
    /// Where the messages of a session stand.
    pub open spec fn line(self, key: Seq<char>) -> LineView<T> {
        if self.lines.contains_key(key) {
            self.lines[key]
        } else {
            LineView::idle()
        }
    }

    /// The messages of all sessions behind an event of one.
    pub open spec fn after(self, key: Seq<char>, event: LineEvent<T>) -> LinesView<T> {
        let line = self.line(key).after(event);
        LinesView {
            lines: if line == LineView::<T>::idle() {
                self.lines.remove(key)
            } else {
                self.lines.insert(key, line)
            },
        }
    }

    /// The messages of all sessions behind events.
    pub open spec fn after_all(events: Seq<(Seq<char>, LineEvent<T>)>) -> LinesView<T>
        decreases events.len(),
    {
        if events.len() == 0 {
            LinesView { lines: Map::empty() }
        } else {
            let (key, event) = events.last();
            LinesView::after_all(events.drop_last()).after(key, event)
        }
    }
}

/// The messages of a session that came in, in their order.
pub open spec fn queued<T>(events: Seq<(Seq<char>, LineEvent<T>)>, key: Seq<char>) -> Seq<T>
    decreases events.len(),
{
    if events.len() == 0 {
        Seq::empty()
    } else {
        let before = queued(events.drop_last(), key);
        match events.last().1 {
            LineEvent::Queued(message) => if events.last().0 == key {
                before.push(message)
            } else {
                before
            },
            _ => before,
        }
    }
}

/// The messages of a session that were begun with, in the order in which they were.
pub open spec fn begun<T>(events: Seq<(Seq<char>, LineEvent<T>)>, key: Seq<char>) -> Seq<T>
    decreases events.len(),
{
    if events.len() == 0 {
        Seq::empty()
    } else {
        let before = begun(events.drop_last(), key);
        let line = LinesView::after_all(events.drop_last()).line(key);
        match events.last().1 {
            LineEvent::Asked => if events.last().0 == key && line.next() is Some {
                before.push(line.next()->Some_0)
            } else {
                before
            },
            _ => before,
        }
    }
}

/// How many messages of a session are done with.
pub open spec fn done_with<T>(events: Seq<(Seq<char>, LineEvent<T>)>, key: Seq<char>) -> nat
    decreases events.len(),
{
    if events.len() == 0 {
        0
    } else {
        let before = done_with(events.drop_last(), key);
        let line = LinesView::after_all(events.drop_last()).line(key);
        match events.last().1 {
            LineEvent::Done => if events.last().0 == key && line.busy {
                before + 1
            } else {
                before
            },
            _ => before,
        }
    }
}

/// The messages of a session are handled one at a time, in the order in which they came in: those
/// begun with are the first that came in, the others wait, and all that were begun with before the
/// last of them are done with.
pub proof fn law_sessions_are_handled_in_order<T>(
    events: Seq<(Seq<char>, LineEvent<T>)>,
    key: Seq<char>,
)
    ensures
        queued(events, key) == begun(events, key) + LinesView::after_all(events).line(key).waiting,
        begun(events, key).len() == done_with(events, key) + if LinesView::after_all(events).line(
            key,
        ).busy {
            1nat
        } else {
            0nat
        },
        forall|i: int, j: int|
            0 <= i < j < begun(events, key).len() ==> {
                &&& #[trigger] begun(events, key)[i] == queued(events, key)[i]
                &&& #[trigger] begun(events, key)[j] == queued(events, key)[j]
                &&& i < done_with(events, key)
            },
    decreases events.len(),
{
    if events.len() > 0 {
        let before = events.drop_last();
        law_sessions_are_handled_in_order(before, key);
        let old_line = LinesView::after_all(before).line(key);
        let line = LinesView::after_all(events).line(key);
        let (of, event) = events.last();
        if of == key {
            assert(line == old_line.after(event));
            match event {
                LineEvent::Queued(message) => {
                    assert(queued(events, key) =~= begun(events, key) + line.waiting);
                },
                LineEvent::Asked => {
                    if old_line.next() is Some {
                        assert(old_line.waiting =~= seq![old_line.waiting[0]]
                            + old_line.waiting.skip(1));
                    }
                    assert(queued(events, key) =~= begun(events, key) + line.waiting);
                },
                LineEvent::Done => {},
            }
        } else {
            assert(line == old_line);
        }
    }
}

/// No session waits for another: whatever the others do, a message of an idle session is the next
/// that is handled, and it does not change where the messages of another session stand.
pub proof fn law_sessions_do_not_wait_for_each_other<T>(
    lines: LinesView<T>,
    key: Seq<char>,
    other: Seq<char>,
    message: T,
)
    requires
        other != key,
        lines.line(other) == LineView::<T>::idle(),
    ensures
        lines.after(other, LineEvent::Queued(message)).line(other).next() == Some(message),
        lines.after(other, LineEvent::Queued(message)).after(other, LineEvent::Asked).line(
            other,
        ).busy,
        lines.after(other, LineEvent::Queued(message)).line(key) == lines.line(key),
        lines.after(other, LineEvent::Queued(message)).after(other, LineEvent::Asked).line(key)
            == lines.line(key),
{
}

/// The messages of a session.
#[derive(Debug)]
pub struct Line<T> {
    waiting: Vec<T>,
    busy: bool,
}

impl<T> View for Line<T> {
    type V = LineView<T>;

    closed spec fn view(&self) -> LineView<T> {
        LineView { waiting: self.waiting@, busy: self.busy }
    }
}

/// The messages of all sessions that are not idle.
pub struct SessionLines<T> {
    entries: Vec<(String, Line<T>)>,
}

impl<T> View for SessionLines<T> {
    type V = LinesView<T>;

    closed spec fn view(&self) -> LinesView<T> {
        LinesView { lines: entries_map(self.entries@).map_values(|line: Line<T>| line@) }
    }
}

impl<T> SessionLines<T> {
    /// Whether no session stands twice.
    #[verifier::type_invariant]
    closed spec fn wf(self) -> bool {
        keys_distinct(self.entries@)
    }

    /// All sessions are idle.
    pub fn new() -> (r: Self)
        ensures
            r@ == LinesView::<T>::after_all(Seq::empty()),
    {
        let r = SessionLines { entries: Vec::new() };
        assert(r@ =~= LinesView::<T>::after_all(Seq::empty()));
        r
    }

    /// Takes the messages of a session out.
    fn take_line(&mut self, key: &str) -> (r: Line<T>)
        ensures
            r@ == old(self)@.line(key@),
            final(self)@.lines == old(self)@.lines.remove(key@),
    {
        proof {
            use_type_invariant(&*self);
            lemma_entries(self.entries@, key@);
        }
        let ghost all = self.entries@;
        let mut i: usize = 0;
        while i < self.entries.len()
            invariant
                i <= self.entries@.len(),
                self.entries@ == all,
                *self == *old(self),
                keys_distinct(all),
                forall|k: int| 0 <= k < i ==> (#[trigger] all[k]).0@ != key@,
            decreases self.entries@.len() - i,
        {
            if text::same_text(self.entries[i].0.as_str(), key) {
                proof {
                    lemma_entries(all, key@);
                    lemma_removed(all, i as int);
                    assert(all[i as int].0@ == key@);
                }
                let mut entries: Vec<(String, Line<T>)> = Vec::new();
                std::mem::swap(&mut entries, &mut self.entries);
                let (_, line) = entries.remove(i);
                self.entries = entries;
                assert(self@.lines =~= old(self)@.lines.remove(key@));
                return line;
            }
            i = i + 1;
        }
        proof {
            lemma_entries(all, key@);
            assert(self@.lines =~= self@.lines.remove(key@));
        }
        let line: Line<T> = Line { waiting: Vec::new(), busy: false };
        assert(line@ =~= LineView::<T>::idle());
        line
    }

    /// Puts the messages of a session back, unless it is idle.
    fn put_line(&mut self, key: &str, line: Line<T>)
        requires
            !old(self)@.lines.contains_key(key@),
        ensures
            final(self)@.lines == if line@ == LineView::<T>::idle() {
                old(self)@.lines.remove(key@)
            } else {
                old(self)@.lines.insert(key@, line@)
            },
    {
        proof {
            use_type_invariant(&*self);
            lemma_entries(self.entries@, key@);
        }
        if !line.busy && line.waiting.len() == 0 {
            assert(line@ =~= LineView::<T>::idle());
            assert(self@.lines =~= self@.lines.remove(key@));
            return;
        }
        let mut entries: Vec<(String, Line<T>)> = Vec::new();
        std::mem::swap(&mut entries, &mut self.entries);
        let entry = (key.to_owned(), line);
        proof {
            lemma_added(entries@, entry);
        }
        entries.push(entry);
        self.entries = entries;
        assert(self@.lines =~= old(self)@.lines.insert(key@, line@));
    }

    /// Takes a message of a session in.
    pub fn queue(&mut self, key: &str, message: T)
        ensures
            final(self)@ == old(self)@.after(key@, LineEvent::Queued(message)),
    {
        let mut line = self.take_line(key);
        line.waiting.push(message);
        self.put_line(key, line);
        assert(self@ =~= old(self)@.after(key@, LineEvent::Queued(message)));
    }

    /// The next message of a session, where one waits and none is being handled.
    pub fn begin(&mut self, key: &str) -> (r: Option<T>)
        ensures
            r == old(self)@.line(key@).next(),
            final(self)@ == old(self)@.after(key@, LineEvent::Asked),
    {
        let mut line = self.take_line(key);
        let ghost before = line@;
        let next = if line.busy || line.waiting.len() == 0 {
            None
        } else {
            let message = line.waiting.remove(0);
            line.busy = true;
            assert(line@.waiting =~= before.waiting.skip(1));
            Some(message)
        };
        self.put_line(key, line);
        assert(self@ =~= old(self)@.after(key@, LineEvent::Asked));
        next
    }

    /// Takes note that the message of a session that was being handled is done with.
    pub fn done(&mut self, key: &str)
        ensures
            final(self)@ == old(self)@.after(key@, LineEvent::Done),
    {
        let mut line = self.take_line(key);
        line.busy = false;
        self.put_line(key, line);
        assert(self@ =~= old(self)@.after(key@, LineEvent::Done));
    }
}

/// A message that was sent is queued; one that was not is tried once more, and then dropped.
pub proof fn law_messages_are_tried_twice(attempt: u32)
    ensures
        dispatch_step(attempt, true) == DispatchStep::Queued,
        dispatch_step(0, false) == DispatchStep::Retry,
        attempt > 0 ==> dispatch_step(attempt, false) == DispatchStep::Dropped,
{
}

/// A worker takes up a session at once: it is the session's until it ends, and then no longer.
pub proof fn law_workers_take_up_sessions(table: WorkersView, key: Seq<char>, other: Seq<char>)
    requires
        other != key,
    ensures
        table.with_worker(key).workers.contains_key(key),
        table.with_worker(key).workers[key] == table.worker_for(key),
        table.workers.contains_key(key) ==> table.worker_for(key) == table.workers[key],
        !table.workers.contains_key(key) ==> table.worker_for(key) == table.next_id,
        table.with_worker(key).workers.contains_key(other) == table.workers.contains_key(other),
        table.workers.contains_key(other) ==> table.with_worker(key).workers[other]
            == table.workers[other],
        !table.with_worker(key).without_worker(key, table.worker_for(key)).workers.contains_key(key),
{
}

/// The line of a session moves on: the first that waits is next unless one is being handled, it
/// waits no longer once it is begun, and what is done makes room for the next.
pub proof fn law_lines_move_on<T>(line: LineView<T>, message: T)
    ensures
        !line.busy && line.waiting.len() > 0 ==> line.next() == Some(line.waiting[0]),
        line.busy || line.waiting.len() == 0 ==> line.next() is None,
        line.after(LineEvent::Queued(message)).waiting == line.waiting.push(message),
        line.after(LineEvent::Queued(message)).busy == line.busy,
        line.next() is Some ==> line.after(LineEvent::Asked).waiting == line.waiting.skip(1)
            && line.after(LineEvent::Asked).busy,
        line.next() is None ==> line.after(LineEvent::Asked) == line,
        line.after(LineEvent::Done).waiting == line.waiting,
        !line.after(LineEvent::Done).busy,
{
}

/// What happens in one session happens in its own line.
pub proof fn law_sessions_have_lines_of_their_own<T>(
    lines: LinesView<T>,
    key: Seq<char>,
    other: Seq<char>,
    event: LineEvent<T>,
)
    ensures
        lines.after(key, event).line(key) == lines.line(key).after(event),
        other != key ==> lines.after(key, event).line(other) == lines.line(other),
{
}

/// The lines of sessions are handled as the calls say: what is queued waits last, what is begun was
/// first, and what is done makes room.
pub proof fn law_lines_do_as_they_are_told<T>(
    lines: &mut SessionLines<T>,
    key: &str,
    message: T,
)
    requires
        call_ensures(SessionLines::<T>::queue, (lines, key, message), ()),
    ensures
        final(lines)@.line(key@).waiting == old(lines)@.line(key@).waiting.push(message),
        final(lines)@.line(key@).busy == old(lines)@.line(key@).busy,
{
    law_sessions_have_lines_of_their_own(old(lines)@, key@, key@, LineEvent::Queued(message));
    law_lines_move_on(old(lines)@.line(key@), message);
}

/// The first that waits is begun.
pub proof fn law_the_first_is_begun<T>(lines: &mut SessionLines<T>, key: &str, r: Option<T>)
    requires
        call_ensures(SessionLines::<T>::begin, (lines, key), r),
    ensures
        ({
            let before = old(lines)@.line(key@);
            let after = final(lines)@.line(key@);
            &&& !before.busy && before.waiting.len() > 0 ==> r == Some(before.waiting[0])
                && after.waiting == before.waiting.skip(1) && after.busy
            &&& before.busy || before.waiting.len() == 0 ==> r is None && after == before
        }),
{
    law_sessions_have_lines_of_their_own(
        old(lines)@,
        key@,
        key@,
        LineEvent::<T>::Asked,
    );
}

} // verus!
