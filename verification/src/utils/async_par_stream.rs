//! Running tasks side by side, and handing out what they give as it comes.
use std::collections::VecDeque;
use vstd::prelude::*;

verus! {

/// The tasks of which no more than a number run or wait to be handed out at once. Tasks are told apart by
/// their numbers, in the order in which they are started.
#[derive(Debug)]
pub struct AsyncParallelStream<T> {
    parallelism: usize,
    next_id: usize,
    tasks: VecDeque<usize>,
    values: VecDeque<T>,
    waiting: usize,
}

/// What a stream of tasks stands for: how many may run at once, the number of the next one, those that run,
/// the values that wait to be handed out, and how many tasks are still to be started.
#[verifier::ext_equal]
pub struct StreamView<T> {
    pub parallelism: int,
    pub next_id: int,
    pub tasks: Seq<usize>,
    pub values: Seq<T>,
    pub waiting: int,
}

impl<T> View for AsyncParallelStream<T> {
    type V = StreamView<T>;

    closed spec fn view(&self) -> StreamView<T> {
        StreamView {
            parallelism: self.parallelism as int,
            next_id: self.next_id as int,
            tasks: self.tasks@,
            values: self.values@,
            waiting: self.waiting as int,
        }
    }
}

/// Whether no more tasks run or wait to be handed out than may be, and the numbers of all fit.
pub open spec fn within<T>(s: StreamView<T>) -> bool {
    &&& s.tasks.len() + s.values.len() <= s.parallelism
    &&& 0 <= s.next_id
    &&& 0 <= s.waiting
    &&& s.next_id + s.waiting <= usize::MAX
}

/// How many tasks can be started.
pub open spec fn startable<T>(s: StreamView<T>) -> int {
    let room = s.parallelism - s.tasks.len() - s.values.len();
    if room <= 0 {
        0
    } else if room < s.waiting {
        room
    } else {
        s.waiting
    }
}

/// The numbers of the next tasks.
pub open spec fn next_ids(from: int, n: int) -> Seq<usize> {
    Seq::new(n as nat, |i: int| (from + i) as usize)
}

/// A stream with as many tasks started as can be.
pub open spec fn spawned<T>(s: StreamView<T>) -> StreamView<T> {
    let n = startable(s);
    StreamView { next_id: s.next_id + n, tasks: s.tasks + next_ids(s.next_id, n), waiting: s.waiting - n, ..s }
}

/// The values that came, in the order of the tasks.
pub open spec fn ready<T>(polled: Seq<Option<T>>) -> Seq<T>
    decreases polled.len(),
{
    if polled.len() == 0 {
        Seq::empty()
    } else {
        match polled.last() {
            Some(v) => ready(polled.drop_last()).push(v),
            None => ready(polled.drop_last()),
        }
    }
}

/// The tasks that still run, in their order.
pub open spec fn pending<T>(tasks: Seq<usize>, polled: Seq<Option<T>>) -> Seq<usize>
    recommends
        tasks.len() == polled.len(),
    decreases polled.len(),
{
    if polled.len() == 0 {
        Seq::empty()
    } else {
        match polled.last() {
            Some(_) => pending(tasks.drop_last(), polled.drop_last()),
            None => pending(tasks.drop_last(), polled.drop_last()).push(tasks.last()),
        }
    }
}

/// A stream of a number of tasks, of which none is started yet.
pub open spec fn not_started<T>(parallelism: int, count: int) -> StreamView<T> {
    StreamView { parallelism, next_id: 0, tasks: Seq::empty(), values: Seq::empty(), waiting: count }
}

/// A stream after its tasks were looked at.
pub open spec fn looked_at<T>(s: StreamView<T>, polled: Seq<Option<T>>) -> StreamView<T> {
    StreamView { tasks: pending(s.tasks, polled), values: s.values + ready(polled), ..s }
}

/// A stream without the value that has waited the longest, where one waits.
pub open spec fn handed_out<T>(s: StreamView<T>) -> StreamView<T> {
    if s.values.len() > 0 {
        StreamView { values: s.values.drop_first(), ..s }
    } else {
        s
    }
}

/// The value that has waited the longest.
pub open spec fn oldest<T>(s: StreamView<T>) -> Option<T> {
    if s.values.len() > 0 {
        Some(s.values[0])
    } else {
        None
    }
}

/// Every task that was looked at runs on or gave a value.
proof fn none_is_lost<T>(tasks: Seq<usize>, polled: Seq<Option<T>>)
    requires
        tasks.len() == polled.len(),
    ensures
        pending(tasks, polled).len() + ready(polled).len() == polled.len(),
    decreases polled.len(),
{
    if polled.len() > 0 {
        none_is_lost(tasks.drop_last(), polled.drop_last());
    }
}

impl<T> AsyncParallelStream<T> {
    /// Whether no more tasks run or wait to be handed out than may be, the numbers of all fit, and no more tasks can
    /// be started.
    pub open spec fn wf(&self) -> bool {
        within(self@) && startable(self@) == 0
    }

    /// A stream of a number of tasks, of which as many are started as can be. Gives their numbers too.
    pub fn new(parallelism: usize, count: usize) -> (r: (AsyncParallelStream<T>, Vec<usize>))
        ensures
            r.0.wf(),
            r.0@ == spawned(not_started::<T>(parallelism as int, count as int)),
            r.1@ == next_ids(0, startable(not_started::<T>(parallelism as int, count as int))),
    {
        let mut stream = AsyncParallelStream {
            parallelism,
            next_id: 0,
            tasks: VecDeque::new(),
            values: VecDeque::new(),
            waiting: count,
        };
        assert(stream@ =~= not_started::<T>(parallelism as int, count as int));
        let started = stream.spawn_tasks();
        (stream, started)
    }

    /// Starts as many tasks as can be, and gives their numbers.
    fn spawn_tasks(&mut self) -> (r: Vec<usize>)
        requires
            within(old(self)@),
        ensures
            final(self).wf(),
            final(self)@ == spawned(old(self)@),
            r@ == next_ids(old(self)@.next_id, startable(old(self)@)),
    {
        let ghost before = self@;
        let mut started: Vec<usize> = Vec::new();
        assert(self.tasks@ =~= before.tasks + next_ids(before.next_id, 0));
        assert(started@ =~= next_ids(before.next_id, 0));
        while self.tasks.len() < self.parallelism - self.values.len() && self.waiting > 0
            invariant
                within(self@),
                self.parallelism == before.parallelism,
                self.values@ == before.values,
                self.next_id == before.next_id + started@.len(),
                self.waiting == before.waiting - started@.len(),
                self.tasks@ == before.tasks + next_ids(before.next_id, started@.len() as int),
                started@ == next_ids(before.next_id, started@.len() as int),
                started@.len() <= startable(before),
            decreases self.waiting,
        {
            let id: usize = self.next_id;
            let ghost n = started@.len() as int;
            self.next_id = self.next_id + 1;
            self.waiting = self.waiting - 1;
            self.tasks.push_back(id);
            started.push(id);
            assert(started@ =~= next_ids(before.next_id, n + 1));
            assert(self.tasks@ =~= before.tasks + next_ids(before.next_id, n + 1));
        }
        assert(self@ =~= spawned(before));
        started
    }

    /// Whether no task runs and no value waits to be handed out.
    pub fn is_idle(&self) -> (r: bool)
        ensures
            r == (self@.tasks.len() == 0 && self@.values.len() == 0),
    {
        self.tasks.len() == 0 && self.values.len() == 0
    }

    /// The tasks that run, in the order in which they are to be looked at.
    pub fn running(&self) -> (r: Vec<usize>)
        ensures
            r@ == self@.tasks,
    {
        let mut v: Vec<usize> = Vec::new();
        let mut i: usize = 0;
        while i < self.tasks.len()
            invariant
                i <= self.tasks@.len(),
                v@ == self.tasks@.take(i as int),
            decreases self.tasks@.len() - i,
        {
            v.push(self.tasks[i]);
            assert(v@ =~= self.tasks@.take(i + 1));
            i = i + 1;
        }
        assert(v@ =~= self.tasks@);
        v
    }

    /// Takes what the running tasks gave, hands out the value that has waited the longest, and starts as many
    /// tasks as can be. Gives the value and the numbers of those tasks.
    pub fn poll_next(&mut self, polled: Vec<Option<T>>) -> (r: (Option<T>, Vec<usize>))
        requires
            old(self).wf(),
            polled@.len() == old(self)@.tasks.len(),
        ensures
            final(self).wf(),
            ({
                let looked = looked_at(old(self)@, polled@);
                &&& r.0 == oldest(looked)
                &&& r.1@ == next_ids(looked.next_id, startable(handed_out(looked)))
                &&& final(self)@ == spawned(handed_out(looked))
            }),
    {
        let ghost before = self@;
        let ghost n = polled@.len() as int;
        let mut rest = polled;
        let count: usize = self.tasks.len();
        let mut i: usize = 0;
        proof {
            assert(before.tasks.skip(0) + pending(before.tasks.take(0), polled@.take(0)) =~= before.tasks);
            assert(before.values + ready(polled@.take(0)) =~= before.values);
        }
        while i < count
            invariant
                i <= count,
                count == n,
                n == polled@.len(),
                n == before.tasks.len(),
                rest@ == polled@.skip(i as int),
                self.parallelism == before.parallelism,
                self.next_id == before.next_id,
                self.waiting == before.waiting,
                self.tasks@ == before.tasks.skip(i as int) + pending(
                    before.tasks.take(i as int),
                    polled@.take(i as int),
                ),
                self.values@ == before.values + ready(polled@.take(i as int)),
            decreases count - i,
        {
            let p = rest.remove(0);
            proof {
                assert(p == polled@[i as int]);
                assert(rest@ =~= polled@.skip(i + 1));
                assert(polled@.take(i + 1).drop_last() =~= polled@.take(i as int));
                assert(before.tasks.take(i + 1).drop_last() =~= before.tasks.take(i as int));
                assert(polled@.take(i + 1).last() == p);
                assert(before.tasks.take(i + 1).last() == before.tasks[i as int]);
            }
            let ghost tasks = self.tasks@;
            if let Some(id) = self.tasks.pop_front() {
                assert(id == before.tasks[i as int]);
                assert(tasks.drop_first() =~= before.tasks.skip(i + 1) + pending(
                    before.tasks.take(i as int),
                    polled@.take(i as int),
                ));
                match p {
                    Some(value) => {
                        self.values.push_back(value);
                        assert(self.values@ =~= before.values + ready(polled@.take(i + 1)));
                    },
                    None => {
                        self.tasks.push_back(id);
                        assert(self.tasks@ =~= before.tasks.skip(i + 1) + pending(
                            before.tasks.take(i + 1),
                            polled@.take(i + 1),
                        ));
                    },
                }
            }
            i = i + 1;
        }
        proof {
            assert(before.tasks.take(n) =~= before.tasks);
            assert(polled@.take(n) =~= polled@);
            assert(self.tasks@ =~= pending(before.tasks, polled@));
            none_is_lost(before.tasks, polled@);
        }
        let value = self.values.pop_front();
        let started = self.spawn_tasks();
        (value, started)
    }
}

/// The number of tasks that run or gave a value that waits stays within what may be, and every task is
/// started once: the numbers of those started follow one another.
pub proof fn spawning_keeps_within<T>(s: StreamView<T>)
    requires
        s.tasks.len() + s.values.len() <= s.parallelism,
        s.waiting >= 0,
    ensures
        ({
            let t = spawned(s);
            &&& t.tasks.len() + t.values.len() <= t.parallelism
            &&& t.waiting >= 0
            &&& t.next_id + t.waiting == s.next_id + s.waiting
            &&& t.next_id - s.next_id == t.tasks.len() - s.tasks.len()
        }),
{
}

/// A stream that may run tasks is idle after starting what it can only where nothing is left to start.
pub proof fn idle_is_finished<T>(s: StreamView<T>)
    requires
        s.parallelism > 0,
        s.waiting >= 0,
        spawned(s).tasks.len() == 0,
        spawned(s).values.len() == 0,
    ensures
        spawned(s).waiting == 0,
{
}

/// A stream and the values that it has handed out so far.
pub struct RunView<T> {
    pub stream: StreamView<T>,
    pub handed: Seq<T>,
}

/// A run of a stream: it is made, and then the running tasks are looked at a number of times.
pub open spec fn run<T>(parallelism: int, count: int, polls: Seq<Seq<Option<T>>>, n: int) -> RunView<T>
    decreases n,
{
    if n <= 0 {
        RunView { stream: spawned(not_started(parallelism, count)), handed: Seq::empty() }
    } else {
        let before = run(parallelism, count, polls, n - 1);
        let looked = looked_at(before.stream, polls[n - 1]);
        RunView {
            stream: spawned(handed_out(looked)),
            handed: match oldest(looked) {
                Some(v) => before.handed.push(v),
                None => before.handed,
            },
        }
    }
}

/// Whether what was seen of the tasks is what they give: each running task was looked at, and where it gave a value
/// that is its output.
pub open spec fn is_run<T>(parallelism: int, count: int, polls: Seq<Seq<Option<T>>>, output: spec_fn(int) -> T) -> bool {
    forall|k: int|
        0 <= k < polls.len() ==> gives(run(parallelism, count, polls, k).stream.tasks, #[trigger] polls[k], output)
}

/// Whether each of some tasks was looked at, and where it gave a value that is its output.
pub open spec fn gives<T>(tasks: Seq<usize>, polled: Seq<Option<T>>, output: spec_fn(int) -> T) -> bool {
    &&& polled.len() == tasks.len()
    &&& forall|j: int| 0 <= j < polled.len() && (#[trigger] polled[j]) is Some ==> polled[j]->0 == output(tasks[j] as int)
}

/// The outputs of some tasks.
pub open spec fn outputs<T>(tasks: Seq<usize>, output: spec_fn(int) -> T) -> Seq<T> {
    tasks.map_values(|t: usize| output(t as int))
}

/// The outputs of the first tasks.
pub open spec fn first_outputs<T>(n: int, output: spec_fn(int) -> T) -> Seq<T> {
    Seq::new(n as nat, |i: int| output(i))
}

/// Looking at tasks keeps their outputs: each is still to come or has come.
proof fn looking_keeps_outputs<T>(tasks: Seq<usize>, polled: Seq<Option<T>>, output: spec_fn(int) -> T)
    requires
        gives(tasks, polled, output),
    ensures
        outputs(pending(tasks, polled), output).to_multiset().add(ready(polled).to_multiset()) == outputs(
            tasks,
            output,
        ).to_multiset(),
    decreases polled.len(),
{
    broadcast use vstd::seq_lib::group_to_multiset_ensures;

    if polled.len() == 0 {
        assert(outputs(pending(tasks, polled), output) =~= Seq::empty());
        assert(outputs(tasks, output) =~= Seq::empty());
        assert(outputs(pending(tasks, polled), output).to_multiset().add(ready(polled).to_multiset()) =~= outputs(
            tasks,
            output,
        ).to_multiset());
    } else {
        let t = tasks.drop_last();
        let p = polled.drop_last();
        assert(gives(t, p, output)) by {
            assert forall|j: int| 0 <= j < p.len() && (#[trigger] p[j]) is Some implies p[j]->0 == output(t[j] as int) by {
                assert(polled[j] == p[j]);
            }
        }
        looking_keeps_outputs(t, p, output);
        let last = output(tasks.last() as int);
        assert(outputs(tasks, output) =~= outputs(t, output).push(last));
        let a = outputs(pending(t, p), output);
        let b = ready(p);
        match polled.last() {
            Some(v) => {
                assert(polled[polled.len() - 1] is Some);
                assert(v == last);
                assert(a.to_multiset().add(b.push(v).to_multiset()) =~= a.to_multiset().add(b.to_multiset()).insert(v));
            },
            None => {
                assert(outputs(pending(tasks, polled), output) =~= a.push(last));
                assert(a.push(last).to_multiset().add(b.to_multiset()) =~= a.to_multiset().add(b.to_multiset()).insert(
                    last,
                ));
            },
        }
    }
}

/// Whether the outputs of all tasks that were started are handed out, wait, or are still to come, each once.
spec fn accounts<T>(r: RunView<T>, output: spec_fn(int) -> T) -> bool {
    r.handed.to_multiset().add(r.stream.values.to_multiset()).add(outputs(r.stream.tasks, output).to_multiset())
        == first_outputs(r.stream.next_id, output).to_multiset()
}

/// Starting tasks keeps the account.
proof fn spawning_accounts<T>(s: StreamView<T>, handed: Seq<T>, output: spec_fn(int) -> T)
    requires
        within(s),
        accounts(RunView { stream: s, handed }, output),
    ensures
        within(spawned(s)),
        accounts(RunView { stream: spawned(s), handed }, output),
{
    let n = startable(s);
    let new = next_ids(s.next_id, n);
    let o = outputs(new, output);
    assert(outputs(spawned(s).tasks, output) =~= outputs(s.tasks, output) + o);
    assert(first_outputs(s.next_id + n, output) =~= first_outputs(s.next_id, output) + o);
    vstd::seq_lib::lemma_multiset_commutative(outputs(s.tasks, output), o);
    vstd::seq_lib::lemma_multiset_commutative(first_outputs(s.next_id, output), o);
    assert(handed.to_multiset().add(s.values.to_multiset()).add(
        outputs(s.tasks, output).to_multiset().add(o.to_multiset()),
    ) =~= handed.to_multiset().add(s.values.to_multiset()).add(outputs(s.tasks, output).to_multiset()).add(
        o.to_multiset(),
    ));
}

/// What holds of every run after each look at its tasks.
proof fn run_accounts<T>(
    parallelism: int,
    count: int,
    polls: Seq<Seq<Option<T>>>,
    output: spec_fn(int) -> T,
    n: int,
)
    requires
        0 <= parallelism,
        0 <= count <= usize::MAX,
        is_run(parallelism, count, polls, output),
        0 <= n <= polls.len(),
    ensures
        ({
            let r = run(parallelism, count, polls, n);
            &&& within(r.stream)
            &&& r.stream.parallelism == parallelism
            &&& r.stream.next_id + r.stream.waiting == count
            &&& r.stream.next_id == r.handed.len() + r.stream.values.len() + r.stream.tasks.len()
            &&& accounts(r, output)
            &&& spawned(r.stream) == r.stream
        }),
    decreases n,
{
    broadcast use vstd::seq_lib::group_to_multiset_ensures;

    if n == 0 {
        let s = not_started::<T>(parallelism, count);
        assert(outputs(s.tasks, output) =~= Seq::empty());
        assert(first_outputs(0, output) =~= Seq::empty());
        assert(Seq::<T>::empty().to_multiset().add(Seq::empty().to_multiset()).add(Seq::empty().to_multiset())
            =~= Seq::<T>::empty().to_multiset());
        spawning_accounts(s, Seq::empty(), output);
        assert(spawned(spawned(s)) =~= spawned(s));
    } else {
        run_accounts(parallelism, count, polls, output, n - 1);
        let before = run(parallelism, count, polls, n - 1);
        let polled = polls[n - 1];
        let looked = looked_at(before.stream, polled);
        let after = run(parallelism, count, polls, n);
        looking_keeps_outputs(before.stream.tasks, polled, output);
        none_is_lost(before.stream.tasks, polled);
        let h = before.handed.to_multiset();
        let v = before.stream.values.to_multiset();
        let rd = ready(polled).to_multiset();
        let pd = outputs(looked.tasks, output).to_multiset();
        vstd::seq_lib::lemma_multiset_commutative(before.stream.values, ready(polled));
        assert(h.add(v.add(rd)).add(pd) =~= h.add(v).add(pd.add(rd)));
        let left = handed_out(looked);
        if looked.values.len() > 0 {
            let first = looked.values[0];
            let rest = looked.values.drop_first();
            assert(looked.values =~= seq![first] + rest);
            vstd::seq_lib::lemma_multiset_commutative(seq![first], rest);
            assert(seq![first] =~= Seq::empty().push(first));
            assert(h.insert(first).add(rest.to_multiset()).add(pd) =~= h.add(looked.values.to_multiset()).add(pd));
        }
        spawning_accounts(left, after.handed, output);
        assert(spawned(after.stream) =~= after.stream);
    }
}

/// After every look at the tasks, no more tasks were started and not yet handed out than may run at once.
pub proof fn run_keeps_within<T>(
    parallelism: int,
    count: int,
    polls: Seq<Seq<Option<T>>>,
    output: spec_fn(int) -> T,
    n: int,
)
    requires
        0 <= parallelism,
        0 <= count <= usize::MAX,
        is_run(parallelism, count, polls, output),
        0 <= n <= polls.len(),
    ensures
        ({
            let r = run(parallelism, count, polls, n);
            0 <= r.stream.next_id - r.handed.len() <= parallelism
        }),
{
    run_accounts(parallelism, count, polls, output, n);
}

/// Once no task runs and no value waits, the values that were handed out are the outputs of all tasks, each once.
pub proof fn run_hands_out_all<T>(
    parallelism: int,
    count: int,
    polls: Seq<Seq<Option<T>>>,
    output: spec_fn(int) -> T,
)
    requires
        1 <= parallelism,
        0 <= count <= usize::MAX,
        is_run(parallelism, count, polls, output),
        run(parallelism, count, polls, polls.len() as int).stream.tasks.len() == 0,
        run(parallelism, count, polls, polls.len() as int).stream.values.len() == 0,
    ensures
        run(parallelism, count, polls, polls.len() as int).handed.len() == count,
        run(parallelism, count, polls, polls.len() as int).handed.to_multiset() == first_outputs(
            count,
            output,
        ).to_multiset(),
{
    broadcast use vstd::seq_lib::group_to_multiset_ensures;

    let n = polls.len() as int;
    run_accounts(parallelism, count, polls, output, n);
    let r = run(parallelism, count, polls, n);
    idle_is_finished(r.stream);
    assert(outputs(r.stream.tasks, output) =~= Seq::empty());
    assert(r.stream.values =~= Seq::empty());
    assert(r.handed.to_multiset().add(Seq::empty().to_multiset()).add(Seq::empty().to_multiset())
        =~= r.handed.to_multiset());
}

/// Looking at the tasks loses none of them: each runs on, or its value waits to be handed out.
pub proof fn looking_loses_none<T>(s: StreamView<T>, polled: Seq<Option<T>>)
    requires
        polled.len() == s.tasks.len(),
    ensures
        looked_at(s, polled).tasks.len() + looked_at(s, polled).values.len() == s.tasks.len() + s.values.len(),
{
    none_is_lost(s.tasks, polled);
}

/// As many tasks are started as may run: after that none waits, or no more may run.
pub proof fn room_is_used<T>(s: StreamView<T>)
    requires
        s.tasks.len() + s.values.len() <= s.parallelism,
        s.waiting >= 0,
    ensures
        spawned(s).waiting == 0 || spawned(s).tasks.len() + s.values.len() == s.parallelism,
        spawned(s).values == s.values,
        spawned(s).parallelism == s.parallelism,
{
}

/// The tasks that are started have the next numbers, in their order, behind those that run.
pub proof fn tasks_are_numbered<T>(s: StreamView<T>, i: int)
    requires
        s.tasks.len() <= i < spawned(s).tasks.len(),
        within(s),
    ensures
        spawned(s).tasks[i] == s.next_id + (i - s.tasks.len()),
        spawned(s).tasks.take(s.tasks.len() as int) == s.tasks,
{
    assert(spawned(s).tasks.take(s.tasks.len() as int) =~= s.tasks);
}

/// The values come in the order of their tasks, and the tasks that still run stay in their order.
pub proof fn values_come_in_order<T>(
    tasks: Seq<usize>,
    polled: Seq<Option<T>>,
    task: usize,
    value: Option<T>,
    later: Seq<usize>,
    polled_later: Seq<Option<T>>,
)
    requires
        tasks.len() == polled.len(),
        later.len() == polled_later.len(),
    ensures
        ready(polled.push(value) + polled_later) == ready(polled) + (match value {
            Some(v) => seq![v],
            None => Seq::empty(),
        }) + ready(polled_later),
        pending(tasks.push(task) + later, polled.push(value) + polled_later) == pending(tasks, polled) + (match value {
            Some(_) => Seq::empty(),
            None => seq![task],
        }) + pending(later, polled_later),
    decreases polled_later.len(),
{
    let all = polled.push(value) + polled_later;
    let all_tasks = tasks.push(task) + later;
    if polled_later.len() == 0 {
        assert(all.drop_last() =~= polled);
        assert(all_tasks.drop_last() =~= tasks);
        assert(all.last() == value);
        assert(all_tasks.last() == task);
    } else {
        values_come_in_order(tasks, polled, task, value, later.drop_last(), polled_later.drop_last());
        assert(all.drop_last() =~= polled.push(value) + polled_later.drop_last());
        assert(all_tasks.drop_last() =~= tasks.push(task) + later.drop_last());
        assert(all.last() == polled_later.last());
        assert(all_tasks.last() == later.last());
    }
    assert(ready(all) =~= ready(polled) + (match value {
        Some(v) => seq![v],
        None => Seq::empty(),
    }) + ready(polled_later));
    assert(pending(all_tasks, all) =~= pending(tasks, polled) + (match value {
        Some(_) => Seq::empty(),
        None => seq![task],
    }) + pending(later, polled_later));
}

/// The value that has waited the longest is handed out, and those that came later stay, in their order; new values
/// come behind them.
pub proof fn first_come_first_out<T>(s: StreamView<T>, polled: Seq<Option<T>>)
    ensures
        s.values.len() > 0 ==> oldest(s) is Some && s.values == seq![oldest(s)->0] + handed_out(s).values,
        s.values.len() == 0 ==> oldest(s) is None && handed_out(s) == s,
        handed_out(s).tasks == s.tasks,
        looked_at(s, polled).values == s.values + ready(polled),
{
    if s.values.len() > 0 {
        assert(s.values =~= seq![oldest(s)->0] + handed_out(s).values);
    }
}

} // verus!
