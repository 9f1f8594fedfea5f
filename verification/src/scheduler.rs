//! Which jobs start: by the clock, and by changed files.

use vstd::prelude::*;

use crate::clock::UtcTime;
use crate::keyed::{self, Keyed};
use crate::schedule::{self, Schedule, ScheduleStore};
use crate::text;
use crate::types::{Error, ErrorView};

verus! {

/// How often the clock is looked at, in seconds.
pub const TICK_INTERVAL_SECS: u64 = 30;

/// How long a burst of changes is waited out, in seconds.
pub const WATCH_DEBOUNCE_SECS: u64 = 2;

/// How long after a start changed files are not listened to, in seconds.
pub const WATCH_COOLDOWN_SECS: u64 = 60;

/// The jobs that the clock starts: up to where each has been dealt with, and
/// which are running.
pub struct InProcessScheduler {
    pub cursors: Keyed<UtcTime>,
    pub running: Vec<String>,
    /// The program that runs a job.
    pub binary: String,
    /// The store's file, where it is not the user's own.
    pub store_path: Option<String>,
}

/// What a scheduler knows.
pub struct SchedulerView {
    pub cursors: Seq<(Seq<char>, UtcTime)>,
    pub running: Seq<Seq<char>>,
    pub binary: Seq<char>,
    pub store_path: Option<Seq<char>>,
}

impl SchedulerView {
    /// Up to where a job has been dealt with.
    pub open spec fn cursor(self, id: Seq<char>) -> Option<UtcTime> {
        keyed::lookup(self.cursors, id)
    }

    /// Every cursor is a moment of the calendar.
    pub open spec fn is_valid(self) -> bool {
        all_valid(self.cursors)
    }
}

pub open spec fn all_valid(cursors: Seq<(Seq<char>, UtcTime)>) -> bool {
    forall|i: int| 0 <= i < cursors.len() ==> (#[trigger] cursors[i]).1.is_valid()
}

/// From where a job is seen: where it was left, else its last run, else now.
pub open spec fn seen_from(st: SchedulerView, s: Schedule, now: UtcTime) -> UtcTime {
    match st.cursor(s.id@) {
        Some(c) => c,
        None => match schedule::last_run_moment(s) {
            Some(t) => t,
            None => now,
        },
    }
}

/// Whether a job starts: it is enabled, due, and not running.
pub open spec fn starts(st: SchedulerView, s: Schedule, now: UtcTime) -> bool {
    &&& s.enabled
    &&& schedule::due_at(s, seen_from(st, s, now)) matches Some(next) && !now.before(next)
    &&& !st.running.contains(s.id@)
}

/// What is known after one job was looked at. A job that starts is running,
/// and dealt with up to the moment that it was due.
pub open spec fn looked_at(st: SchedulerView, s: Schedule, now: UtcTime) -> SchedulerView {
    let from = seen_from(st, s, now);
    if !s.enabled {
        st
    } else if starts(st, s, now) {
        SchedulerView {
            cursors: keyed::with_entry(
                keyed::with_entry(st.cursors, s.id@, from),
                s.id@,
                schedule::due_at(s, from)->0,
            ),
            running: st.running.push(s.id@),
            ..st
        }
    } else {
        SchedulerView { cursors: keyed::with_entry(st.cursors, s.id@, from), ..st }
    }
}

/// What is known after all jobs were looked at, in order, and the names of
/// those that start.
pub open spec fn ticked(st: SchedulerView, jobs: Seq<Schedule>, now: UtcTime) -> (
    SchedulerView,
    Seq<Seq<char>>,
)
    decreases jobs.len(),
{
    if jobs.len() == 0 {
        (st, Seq::empty())
    } else {
        let before = ticked(st, jobs.drop_last(), now);
        let s = jobs.last();
        (
            looked_at(before.0, s, now),
            if starts(before.0, s, now) {
                before.1.push(s.id@)
            } else {
                before.1
            },
        )
    }
}

/// The jobs of a store as it was read; none where it could not be.
pub open spec fn jobs_read(store: Result<ScheduleStore, Error>) -> Seq<Schedule> {
    match store {
        Ok(s) => s.schedules@,
        Err(_) => Seq::empty(),
    }
}

/// Every job of a name follows a cron expression.
pub open spec fn recurring(jobs: Seq<Schedule>, id: Seq<char>) -> bool {
    forall|i: int| 0 <= i < jobs.len() && (#[trigger] jobs[i]).id@ == id ==> jobs[i].run_at is None
}

/// No job of a name has a last run that can be read.
pub open spec fn never_ran(jobs: Seq<Schedule>, id: Seq<char>) -> bool {
    forall|i: int|
        0 <= i < jobs.len() && (#[trigger] jobs[i]).id@ == id ==> schedule::last_run_moment(jobs[i])
            is None
}

/// A cursor that moved went forward.
pub open spec fn went_forward(from: Option<UtcTime>, to: Option<UtcTime>) -> bool {
    from is Some ==> to is Some && (to->0 == from->0 || from->0.before(to->0))
}

impl View for InProcessScheduler {
    type V = SchedulerView;

    open spec fn view(&self) -> SchedulerView {
        SchedulerView {
            cursors: self.cursors@,
            running: text::views(self.running@),
            binary: self.binary@,
            store_path: text::view_opt(self.store_path),
        }
    }
}

impl InProcessScheduler {
    /// A scheduler of the user's own store.
    pub fn new(binary: String) -> (r: InProcessScheduler)
        ensures
            r.cursors@ == Seq::<(Seq<char>, UtcTime)>::empty(),
            r.running@ == Seq::<String>::empty(),
            r.binary == binary,
            r.store_path is None,
            r@.is_valid(),
    {
        InProcessScheduler {
            cursors: Keyed::new(),
            running: Vec::new(),
            binary,
            store_path: None,
        }
    }

    /// A scheduler of a store in a file of its own.
    pub fn with_store_path(binary: String, store_path: String) -> (r: InProcessScheduler)
        ensures
            r.cursors@ == Seq::<(Seq<char>, UtcTime)>::empty(),
            r.running@ == Seq::<String>::empty(),
            r.binary == binary,
            r.store_path == Some(store_path),
            r@.is_valid(),
    {
        InProcessScheduler {
            cursors: Keyed::new(),
            running: Vec::new(),
            binary,
            store_path: Some(store_path),
        }
    }

    /// Looks at one job; says whether it starts.
    fn look_at(&mut self, s: &Schedule, now: UtcTime) -> (r: bool)
        requires
            old(self)@.is_valid(),
            now.is_valid(),
        ensures
            r == starts(old(self)@, *s, now),
            final(self)@ == looked_at(old(self)@, *s, now),
            final(self)@.is_valid(),
            final(self).binary == old(self).binary,
            final(self).store_path == old(self).store_path,
            r && s.run_at is None ==> seen_from(old(self)@, *s, now).before(
                schedule::due_at(*s, seen_from(old(self)@, *s, now))->0,
            ),
    {
        broadcast use text::views_push;

        if !s.enabled {
            return false;
        }
        let ghost st = self@;
        let id = s.id.as_str();
        let cursor = match self.cursors.get(id) {
            Some(c) => {
                proof {
                    lemma_lookup_valid(st.cursors, id@);
                }
                *c
            },
            None => match schedule::parse_last_run(s) {
                Some(t) => t,
                None => now,
            },
        };
        proof {
            lemma_entry_valid(st.cursors, id@, cursor);
        }
        self.cursors.set(id, cursor);
        let ghost seen = self@;
        match schedule::next_fire(s, cursor) {
            Some(next) => {
                if now.is_before(&next) || keyed::has_name(&self.running, id) {
                    return false;
                }
                self.running.push(s.id.clone());
                self.cursors.set(id, next);
                proof {
                    lemma_entry_valid(seen.cursors, id@, next);
                    assert(self@.cursors == keyed::with_entry(seen.cursors, id@, next));
                }
                true
            },
            None => false,
        }
    }

    /// Looks at the jobs of the store as it was read at a moment; gives the
    /// names of those that start now, which count as running until [`finish`]
    /// is told of their end. A job that follows a cron expression goes strictly
    /// forward from one due moment to the next, and one that has never been
    /// seen and never ran does not start at once. A store that could not be
    /// read is passed over: nothing starts and nothing changes.
    ///
    /// [`finish`]: InProcessScheduler::finish
    pub fn tick(&mut self, store: &Result<ScheduleStore, Error>, now: UtcTime) -> (r: Vec<String>)
        requires
            old(self)@.is_valid(),
            now.is_valid(),
        ensures
            final(self)@ == ticked(old(self)@, jobs_read(*store), now).0,
            text::views(r@) == ticked(old(self)@, jobs_read(*store), now).1,
            store is Err ==> r@.len() == 0 && *final(self) == *old(self),
            final(self)@.is_valid(),
            final(self).binary == old(self).binary,
            final(self).store_path == old(self).store_path,
            forall|id: Seq<char>| #[trigger]
                recurring(jobs_read(*store), id) ==> went_forward(
                    old(self)@.cursor(id),
                    final(self)@.cursor(id),
                ),
            forall|id: Seq<char>| #[trigger]
                recurring(jobs_read(*store), id) && never_ran(jobs_read(*store), id) && old(
                    self,
                )@.cursor(id) is None ==> !text::views(r@).contains(id),
    {
        match store {
            Ok(s) => self.look_at_all(s, now),
            Err(_) => {
                let none: Vec<String> = Vec::new();
                assert(text::views(none@) =~= Seq::<Seq<char>>::empty());
                none
            },
        }
    }

    /// Looks at the jobs of a store.
    fn look_at_all(&mut self, store: &ScheduleStore, now: UtcTime) -> (r: Vec<String>)
        requires
            old(self)@.is_valid(),
            now.is_valid(),
        ensures
            final(self)@ == ticked(old(self)@, store.schedules@, now).0,
            text::views(r@) == ticked(old(self)@, store.schedules@, now).1,
            final(self)@.is_valid(),
            final(self).binary == old(self).binary,
            final(self).store_path == old(self).store_path,
            forall|id: Seq<char>| #[trigger]
                recurring(store.schedules@, id) ==> went_forward(
                    old(self)@.cursor(id),
                    final(self)@.cursor(id),
                ),
            forall|id: Seq<char>| #[trigger]
                recurring(store.schedules@, id) && never_ran(store.schedules@, id) && old(
                    self,
                )@.cursor(id) is None ==> !text::views(r@).contains(id),
    {
        let ghost st = self@;
        let ghost jobs = store.schedules@;
        let mut fired: Vec<String> = Vec::new();
        let n = store.schedules.len();
        let mut i: usize = 0;
        while i < n
            invariant
                n == jobs.len(),
                jobs == store.schedules@,
                i <= n,
                now.is_valid(),
                self@.is_valid(),
                self.binary == old(self).binary,
                self.store_path == old(self).store_path,
                self@ == ticked(st, jobs.take(i as int), now).0,
                text::views(fired@) == ticked(st, jobs.take(i as int), now).1,
                forall|id: Seq<char>| #[trigger]
                    recurring(jobs, id) ==> went_forward(st.cursor(id), self@.cursor(id)),
                forall|id: Seq<char>| #[trigger]
                    recurring(jobs, id) && never_ran(jobs, id) && st.cursor(id) is None
                        ==> waits(self@, text::views(fired@), id, now),
            decreases n - i,
        {
            broadcast use text::views_push;

            let s = &store.schedules[i];
            let ghost before = self@;
            let ghost names = text::views(fired@);
            proof {
                assert(jobs.take(i + 1).drop_last() == jobs.take(i as int));
                assert(jobs.take(i + 1).last() == *s);
            }
            let starts_now = self.look_at(s, now);
            if starts_now {
                fired.push(s.id.clone());
            }
            proof {
                assert forall|id: Seq<char>| #[trigger] recurring(jobs, id) implies went_forward(
                    st.cursor(id),
                    self@.cursor(id),
                ) by {
                    assert(jobs[i as int].id@ == id ==> jobs[i as int].run_at is None);
                    lemma_step_forward(before, *s, now, id);
                }
                assert forall|id: Seq<char>| #[trigger]
                    recurring(jobs, id) && never_ran(jobs, id) && st.cursor(id)
                        is None implies waits(self@, text::views(fired@), id, now) by {
                    assert(jobs[i as int].id@ == id ==> jobs[i as int].run_at is None);
                    assert(jobs[i as int].id@ == id ==> schedule::last_run_moment(jobs[i as int])
                        is None);
                    lemma_step_waits(before, names, *s, now, id);
                }
            }
            i = i + 1;
        }
        proof {
            assert(jobs.take(n as int) == jobs);
        }
        fired
    }

    /// Takes note that a job has ended.
    pub fn finish(&mut self, id: &str)
        ensures
            final(self)@ == (SchedulerView {
                running: keyed::without_name(old(self)@.running, id@),
                ..old(self)@
            }),
            final(self).binary == old(self).binary,
            final(self).store_path == old(self).store_path,
    {
        keyed::take_out(&mut self.running, id);
    }
}

/// A job has not started, and if it has been seen, then only from now.
spec fn waits(st: SchedulerView, fired: Seq<Seq<char>>, id: Seq<char>, now: UtcTime) -> bool {
    &&& !fired.contains(id)
    &&& st.cursor(id) matches Some(c) ==> c == now
}

proof fn lemma_lookup_valid(c: Seq<(Seq<char>, UtcTime)>, id: Seq<char>)
    requires
        all_valid(c),
    ensures
        keyed::lookup(c, id) matches Some(t) ==> t.is_valid(),
    decreases c.len(),
{
    if c.len() > 0 {
        assert(c[0].1.is_valid());
        lemma_skip_valid(c);
        lemma_lookup_valid(c.skip(1), id);
    }
}

proof fn lemma_skip_valid(c: Seq<(Seq<char>, UtcTime)>)
    requires
        all_valid(c),
        c.len() > 0,
    ensures
        all_valid(c.skip(1)),
{
    assert forall|i: int| 0 <= i < c.skip(1).len() implies (#[trigger] c.skip(1)[i]).1.is_valid() by {
        assert(c[i + 1].1.is_valid());
    }
}

proof fn lemma_entry_valid(c: Seq<(Seq<char>, UtcTime)>, id: Seq<char>, t: UtcTime)
    requires
        all_valid(c),
        t.is_valid(),
    ensures
        all_valid(keyed::with_entry(c, id, t)),
    decreases c.len(),
{
    let w = keyed::with_entry(c, id, t);
    if c.len() > 0 {
        lemma_skip_valid(c);
        lemma_entry_valid(c.skip(1), id, t);
        let rest = if c[0].0 == id {
            c.skip(1)
        } else {
            keyed::with_entry(c.skip(1), id, t)
        };
        assert(c[0].1.is_valid());
        assert forall|i: int| 0 <= i < w.len() implies (#[trigger] w[i]).1.is_valid() by {
            if i > 0 {
                assert(w[i] == rest[i - 1]);
                assert(rest[i - 1].1.is_valid());
            }
        }
    }
}

proof fn lemma_step_forward(st: SchedulerView, s: Schedule, now: UtcTime, id: Seq<char>)
    requires
        starts(st, s, now) && s.run_at is None ==> seen_from(st, s, now).before(
            schedule::due_at(s, seen_from(st, s, now))->0,
        ),
        s.id@ == id ==> s.run_at is None,
    ensures
        went_forward(st.cursor(id), looked_at(st, s, now).cursor(id)),
{
    let from = seen_from(st, s, now);
    let c = keyed::with_entry(st.cursors, s.id@, from);
    keyed::entry_set_is_found(st.cursors, s.id@, from, id);
    keyed::entry_set_is_found(c, s.id@, schedule::due_at(s, from)->0, id);
}

proof fn lemma_step_waits(
    st: SchedulerView,
    fired: Seq<Seq<char>>,
    s: Schedule,
    now: UtcTime,
    id: Seq<char>,
)
    requires
        starts(st, s, now) && s.run_at is None ==> seen_from(st, s, now).before(
            schedule::due_at(s, seen_from(st, s, now))->0,
        ),
        s.id@ == id ==> s.run_at is None && schedule::last_run_moment(s) is None,
        waits(st, fired, id, now),
    ensures
        waits(
            looked_at(st, s, now),
            if starts(st, s, now) {
                fired.push(s.id@)
            } else {
                fired
            },
            id,
            now,
        ),
{
    let from = seen_from(st, s, now);
    let c = keyed::with_entry(st.cursors, s.id@, from);
    keyed::entry_set_is_found(st.cursors, s.id@, from, id);
    keyed::entry_set_is_found(c, s.id@, schedule::due_at(s, from)->0, id);
    keyed::lemma_push_contains(fired, s.id@, id);
}

/// A job that starts belongs to an enabled entry of the store and was not
/// running; it is running afterwards, and dealt with up to a moment that is
/// not in the future. So no job starts twice at once, and a disabled one never
/// starts.
pub proof fn only_due_jobs_start(
    st: SchedulerView,
    jobs: Seq<Schedule>,
    now: UtcTime,
    id: Seq<char>,
)
    requires
        ticked(st, jobs, now).1.contains(id),
    ensures
        exists|i: int| 0 <= i < jobs.len() && (#[trigger] jobs[i]).id@ == id && jobs[i].enabled,
        !st.running.contains(id),
        ticked(st, jobs, now).0.running.contains(id),
        ticked(st, jobs, now).0.cursor(id) matches Some(c) && !now.before(c),
    decreases jobs.len(),
{
    if jobs.len() > 0 {
        let t = jobs.drop_last();
        let before = ticked(st, t, now);
        let s = jobs.last();
        let from = seen_from(before.0, s, now);
        let c = keyed::with_entry(before.0.cursors, s.id@, from);
        keyed::entry_set_is_found(before.0.cursors, s.id@, from, id);
        keyed::entry_set_is_found(c, s.id@, schedule::due_at(s, from)->0, id);
        keyed::lemma_push_contains(before.1, s.id@, id);
        keyed::lemma_push_contains(before.0.running, s.id@, id);
        lemma_running_grows(st, t, now, id);
        if before.1.contains(id) {
            only_due_jobs_start(st, t, now, id);
            let i = choose|i: int| 0 <= i < t.len() && (#[trigger] t[i]).id@ == id && t[i].enabled;
            assert(jobs[i].id@ == id && jobs[i].enabled);
        } else {
            assert(jobs[jobs.len() - 1].id@ == id);
        }
    }
}

proof fn lemma_running_grows(st: SchedulerView, jobs: Seq<Schedule>, now: UtcTime, id: Seq<char>)
    ensures
        st.running.contains(id) ==> ticked(st, jobs, now).0.running.contains(id),
    decreases jobs.len(),
{
    if jobs.len() > 0 {
        lemma_running_grows(st, jobs.drop_last(), now, id);
        let before = ticked(st, jobs.drop_last(), now);
        keyed::lemma_push_contains(before.0.running, jobs.last().id@, id);
    }
}

/// No two jobs share a name.
pub open spec fn names_are_unique(jobs: Seq<Schedule>) -> bool {
    forall|i: int, j: int|
        0 <= i < j < jobs.len() ==> (#[trigger] jobs[i]).id@ != (#[trigger] jobs[j]).id@
}

/// The moment up to which a job has been dealt with: what is remembered, else
/// its last run, else now.
pub open spec fn dealt_with_to(st: SchedulerView, s: Schedule, now: UtcTime) -> UtcTime {
    if st.cursor(s.id@) is Some {
        st.cursor(s.id@)->0
    } else if schedule::last_run_moment(s) is Some {
        schedule::last_run_moment(s)->0
    } else {
        now
    }
}

/// A moment that has come: at or before now.
pub open spec fn has_come(t: UtcTime, now: UtcTime) -> bool {
    !now.before(t)
}

/// A job whose moment has come. One that runs once has a moment of its own,
/// which counts until it has run; one that follows a cron expression has the
/// next moment of the expression after that up to which it is dealt with.
pub open spec fn is_due(st: SchedulerView, s: Schedule, now: UtcTime) -> bool {
    if s.run_at is Some {
        s.last_run is None && exists|t: UtcTime| #[trigger]
            has_come(t, now) && schedule::run_at_moment(s.run_at->0@) == Ok::<
                UtcTime,
                ErrorView,
            >(t)
    } else {
        exists|t: UtcTime| #[trigger]
            has_come(t, now) && schedule::cron_fire_after(s.cron@, dealt_with_to(st, s, now))
                == Some(t)
    }
}

proof fn lemma_others_leave_a_job_alone(
    st: SchedulerView,
    jobs: Seq<Schedule>,
    now: UtcTime,
    id: Seq<char>,
)
    requires
        forall|i: int| 0 <= i < jobs.len() ==> (#[trigger] jobs[i]).id@ != id,
    ensures
        ticked(st, jobs, now).0.cursor(id) == st.cursor(id),
        ticked(st, jobs, now).0.running.contains(id) == st.running.contains(id),
        !ticked(st, jobs, now).1.contains(id),
    decreases jobs.len(),
{
    if jobs.len() > 0 {
        let t = jobs.drop_last();
        let s = jobs.last();
        assert(jobs[jobs.len() - 1].id@ != id);
        assert forall|i: int| 0 <= i < t.len() implies (#[trigger] t[i]).id@ != id by {
            assert(jobs[i].id@ != id);
        }
        lemma_others_leave_a_job_alone(st, t, now, id);
        let before = ticked(st, t, now);
        let from = seen_from(before.0, s, now);
        let c = keyed::with_entry(before.0.cursors, s.id@, from);
        keyed::entry_set_is_found(before.0.cursors, s.id@, from, id);
        keyed::entry_set_is_found(c, s.id@, schedule::due_at(s, from)->0, id);
        keyed::lemma_push_contains(before.1, s.id@, id);
        keyed::lemma_push_contains(before.0.running, s.id@, id);
    }
}

/// A look at the store starts exactly the jobs that are enabled, not running
/// and due: none of them is left out, and no other starts. What has started is
/// running from then on, and what was running still is.
pub proof fn due_jobs_start(st: SchedulerView, jobs: Seq<Schedule>, now: UtcTime, i: int)
    requires
        names_are_unique(jobs),
        0 <= i < jobs.len(),
    ensures
        ticked(st, jobs, now).1.contains(jobs[i].id@) <==> jobs[i].enabled
            && !st.running.contains(jobs[i].id@) && is_due(st, jobs[i], now),
        ticked(st, jobs, now).0.running.contains(jobs[i].id@) <==> st.running.contains(jobs[i].id@)
            || ticked(st, jobs, now).1.contains(jobs[i].id@),
    decreases jobs.len(),
{
    let t = jobs.drop_last();
    let s = jobs.last();
    let id = jobs[i].id@;
    let before = ticked(st, t, now);
    assert(names_are_unique(t)) by {
        assert forall|a: int, b: int| 0 <= a < b < t.len() implies (#[trigger] t[a]).id@ != (
        #[trigger] t[b]).id@ by {
            assert(jobs[a].id@ != jobs[b].id@);
        }
    }
    keyed::lemma_push_contains(before.1, s.id@, id);
    keyed::lemma_push_contains(before.0.running, s.id@, id);
    if i < jobs.len() - 1 {
        due_jobs_start(st, t, now, i);
        assert(jobs[i].id@ != jobs[jobs.len() - 1].id@);
    } else {
        assert forall|k: int| 0 <= k < t.len() implies (#[trigger] t[k]).id@ != id by {
            assert(jobs[k].id@ != jobs[i].id@);
        }
        lemma_others_leave_a_job_alone(st, t, now, id);
        assert(seen_from(before.0, s, now) == dealt_with_to(st, s, now));
        if let Some(next) = schedule::due_at(s, dealt_with_to(st, s, now)) {
            assert(has_come(next, now) == !now.before(next));
        }
    }
}

/// A job that runs once, is enabled, has not run and is not running starts at
/// the first look at or after its moment.
pub proof fn one_shots_start_when_their_moment_comes(
    st: SchedulerView,
    jobs: Seq<Schedule>,
    now: UtcTime,
    i: int,
    t: UtcTime,
)
    requires
        names_are_unique(jobs),
        0 <= i < jobs.len(),
        jobs[i].enabled,
        jobs[i].last_run is None,
        jobs[i].run_at is Some,
        schedule::run_at_moment(jobs[i].run_at->0@) == Ok::<UtcTime, ErrorView>(t),
        !st.running.contains(jobs[i].id@),
        !now.before(t),
    ensures
        ticked(st, jobs, now).1.contains(jobs[i].id@),
{
    due_jobs_start(st, jobs, now, i);
    assert(has_come(t, now));
}

/// After a job has started and ended, it is not running; one that follows a
/// cron expression then starts again at the first look at or after the next
/// moment of its expression.
pub proof fn ended_jobs_start_again(
    st: SchedulerView,
    jobs: Seq<Schedule>,
    now: UtcTime,
    later: UtcTime,
    i: int,
    started: UtcTime,
    next: UtcTime,
)
    requires
        names_are_unique(jobs),
        0 <= i < jobs.len(),
        jobs[i].enabled,
        jobs[i].run_at is None,
        ticked(st, jobs, now).0.cursor(jobs[i].id@) == Some(started),
        schedule::cron_fire_after(jobs[i].cron@, started) == Some(next),
        !later.before(next),
    ensures
        ({
            let after = ticked(st, jobs, now).0;
            let ended = SchedulerView {
                running: keyed::without_name(after.running, jobs[i].id@),
                ..after
            };
            ticked(ended, jobs, later).1.contains(jobs[i].id@)
        }),
{
    let after = ticked(st, jobs, now).0;
    let ended = SchedulerView {
        running: keyed::without_name(after.running, jobs[i].id@),
        ..after
    };
    keyed::name_taken_out_is_gone(after.running, jobs[i].id@, jobs[i].id@);
    due_jobs_start(ended, jobs, later, i);
    assert(has_come(next, later));
}

/// A job that is still running when it is due again is passed over, and its
/// due moment is not lost: it is dealt with no further than before.
pub proof fn running_jobs_are_passed_over(
    st: SchedulerView,
    s: Schedule,
    now: UtcTime,
    from: UtcTime,
)
    requires
        st.running.contains(s.id@),
        st.cursor(s.id@) == Some(from),
    ensures
        !starts(st, s, now),
        looked_at(st, s, now).cursor(s.id@) == Some(from),
        looked_at(st, s, now).running == st.running,
{
    keyed::entry_set_is_found(st.cursors, s.id@, from, s.id@);
}

// ---------------------------------------------------------------------------
// Jobs that changed files start
// ---------------------------------------------------------------------------

/// The jobs that listen to changed files: enabled, and asked to.
pub open spec fn watched_of(jobs: Seq<Schedule>) -> Seq<(Seq<char>, Seq<char>)>
    decreases jobs.len(),
{
    if jobs.len() == 0 {
        Seq::empty()
    } else {
        let before = watched_of(jobs.drop_last());
        let s = jobs.last();
        if s.enabled && s.watch_workspace {
            before.push((s.id@, s.cwd@))
        } else {
            before
        }
    }
}

/// A job that listens to changed files, and where.
#[derive(Debug, PartialEq, Eq)]
pub struct Watched {
    pub id: String,
    pub cwd: String,
}

impl View for Watched {
    type V = (Seq<char>, Seq<char>);

    open spec fn view(&self) -> (Seq<char>, Seq<char>) {
        (self.id@, self.cwd@)
    }
}

/// The jobs of a store that listen to changed files.
pub fn watched(store: &ScheduleStore) -> (r: Vec<Watched>)
    ensures
        text::views(r@) == watched_of(store.schedules@),
{
    let ghost jobs = store.schedules@;
    let mut r: Vec<Watched> = Vec::new();
    let n = store.schedules.len();
    let mut i: usize = 0;
    while i < n
        invariant
            n == jobs.len(),
            jobs == store.schedules@,
            i <= n,
            text::views(r@) == watched_of(jobs.take(i as int)),
        decreases n - i,
    {
        broadcast use text::views_push;

        let s = &store.schedules[i];
        proof {
            assert(jobs.take(i + 1).drop_last() == jobs.take(i as int));
            assert(jobs.take(i + 1).last() == *s);
        }
        if s.enabled && s.watch_workspace {
            r.push(Watched { id: s.id.clone(), cwd: s.cwd.clone() });
        }
        i = i + 1;
    }
    proof {
        assert(jobs.take(n as int) == jobs);
    }
    r
}

/// Which jobs changed files have started: which are running, and when each
/// was last started, in milliseconds of some clock that does not go back.
pub struct WatchGate {
    pub running: Vec<String>,
    pub last_fire: Keyed<u64>,
}

/// What a gate knows.
pub struct GateView {
    pub running: Seq<Seq<char>>,
    pub last_fire: Seq<(Seq<char>, u64)>,
}

impl GateView {
    /// A change starts a job that is not running, unless it was started less
    /// than the cooldown ago.
    pub open spec fn opens(self, id: Seq<char>, now_ms: u64) -> bool {
        &&& !self.running.contains(id)
        &&& match keyed::lookup(self.last_fire, id) {
            Some(t) => now_ms - t >= WATCH_COOLDOWN_SECS * 1_000,
            None => true,
        }
    }

    /// What is known after a change.
    pub open spec fn changed(self, id: Seq<char>, now_ms: u64) -> GateView {
        if self.opens(id, now_ms) {
            GateView {
                running: self.running.push(id),
                last_fire: keyed::with_entry(self.last_fire, id, now_ms),
            }
        } else {
            self
        }
    }

    /// What is known after a job has ended.
    pub open spec fn ended(self, id: Seq<char>) -> GateView {
        GateView { running: keyed::without_name(self.running, id), ..self }
    }
}

impl View for WatchGate {
    type V = GateView;

    open spec fn view(&self) -> GateView {
        GateView { running: text::views(self.running@), last_fire: self.last_fire@ }
    }
}

impl WatchGate {
    /// A gate that has started nothing.
    pub fn new() -> (r: WatchGate)
        ensures
            r@.running == Seq::<Seq<char>>::empty(),
            r@.last_fire == Seq::<(Seq<char>, u64)>::empty(),
    {
        WatchGate { running: Vec::new(), last_fire: Keyed::new() }
    }

    /// Takes note of a change in the directory of a job; says whether the job
    /// starts.
    pub fn change(&mut self, id: &str, now_ms: u64) -> (r: bool)
        ensures
            r == old(self)@.opens(id@, now_ms),
            final(self)@ == old(self)@.changed(id@, now_ms),
    {
        broadcast use text::views_push;

        if keyed::has_name(&self.running, id) {
            return false;
        }
        if let Some(t) = self.last_fire.get(id) {
            if now_ms < *t || now_ms - *t < WATCH_COOLDOWN_SECS * 1_000 {
                return false;
            }
        }
        self.running.push(id.to_string());
        self.last_fire.set(id, now_ms);
        true
    }

    /// Takes note that a job has ended.
    pub fn done(&mut self, id: &str)
        ensures
            final(self)@ == old(self)@.ended(id@),
    {
        keyed::take_out(&mut self.running, id);
    }
}

/// After a start, changes start the job again neither while it runs nor within
/// the cooldown, so a job's own writes do not start it over and over.
pub proof fn cooldown_follows_a_start(g: GateView, id: Seq<char>, at_ms: u64, now_ms: u64)
    requires
        g.opens(id, at_ms),
    ensures
        !g.changed(id, at_ms).opens(id, now_ms),
        now_ms - at_ms < WATCH_COOLDOWN_SECS * 1_000 ==> !g.changed(id, at_ms).ended(id).opens(
            id,
            now_ms,
        ),
        now_ms - at_ms >= WATCH_COOLDOWN_SECS * 1_000 ==> g.changed(id, at_ms).ended(id).opens(
            id,
            now_ms,
        ),
{
    keyed::lemma_push_contains(g.running, id, id);
    keyed::entry_set_is_found(g.last_fire, id, at_ms, id);
    keyed::name_taken_out_is_gone(g.running.push(id), id, id);
}

/// One job's start and end leave the others alone.
pub proof fn jobs_do_not_hold_each_other_up(
    g: GateView,
    id: Seq<char>,
    other: Seq<char>,
    at_ms: u64,
    now_ms: u64,
)
    requires
        other != id,
    ensures
        g.changed(id, at_ms).opens(other, now_ms) == g.opens(other, now_ms),
        g.ended(id).opens(other, now_ms) == g.opens(other, now_ms),
{
    keyed::lemma_push_contains(g.running, id, other);
    keyed::entry_set_is_found(g.last_fire, id, at_ms, other);
    keyed::name_taken_out_is_gone(g.running, id, other);
}

/// The jobs whose workspace is watched are those that are on and asked for it,
/// each with its directory, and no others.
pub proof fn watched_jobs_are_those_that_asked(jobs: Seq<Schedule>)
    ensures
        forall|i: int|
            0 <= i < jobs.len() && (#[trigger] jobs[i]).enabled && jobs[i].watch_workspace
                ==> watched_of(jobs).contains((jobs[i].id@, jobs[i].cwd@)),
        forall|k: int|
            0 <= k < watched_of(jobs).len() ==> comes_from_a_job(
                jobs,
                #[trigger] watched_of(jobs)[k],
            ),
    decreases jobs.len(),
{
    if jobs.len() > 0 {
        let d = jobs.drop_last();
        let s = jobs.last();
        let before = watched_of(d);
        let after = watched_of(jobs);
        watched_jobs_are_those_that_asked(d);
        assert forall|i: int|
            0 <= i < jobs.len() && (#[trigger] jobs[i]).enabled
                && jobs[i].watch_workspace implies after.contains(
            (jobs[i].id@, jobs[i].cwd@),
        ) by {
            let x = (jobs[i].id@, jobs[i].cwd@);
            if i < d.len() {
                assert(d[i] == jobs[i]);
                let k = choose|k: int| 0 <= k < before.len() && before[k] == x;
                assert(after[k] == x);
            } else {
                assert(after[after.len() - 1] == x);
            }
        }
        assert forall|k: int| 0 <= k < after.len() implies comes_from_a_job(
            jobs,
            #[trigger] after[k],
        ) by {
            if k < before.len() {
                assert(comes_from_a_job(d, before[k]));
                let i = choose|i: int|
                    0 <= i < d.len() && (#[trigger] d[i]).enabled && d[i].watch_workspace
                        && before[k] == (d[i].id@, d[i].cwd@);
                assert(jobs[i] == d[i]);
            } else {
                assert(jobs[jobs.len() - 1] == s);
            }
        }
    }
}

/// A job that is on and asked for it has this name and this directory.
pub open spec fn comes_from_a_job(jobs: Seq<Schedule>, x: (Seq<char>, Seq<char>)) -> bool {
    exists|i: int|
        0 <= i < jobs.len() && (#[trigger] jobs[i]).enabled && jobs[i].watch_workspace && x == (
            jobs[i].id@,
            jobs[i].cwd@,
        )
}

/// A change starts a job at once that has not been started by one yet and is
/// not running; it never starts one that is running.
pub proof fn first_changes_start_a_job(g: GateView, id: Seq<char>, now_ms: u64)
    ensures
        g.running.contains(id) ==> !g.opens(id, now_ms),
        !g.running.contains(id) && (forall|i: int|
            0 <= i < g.last_fire.len() ==> (#[trigger] g.last_fire[i]).0 != id) ==> g.opens(
            id,
            now_ms,
        ),
        g.opens(id, now_ms) ==> g.changed(id, now_ms).running.contains(id),
        !g.opens(id, now_ms) ==> g.changed(id, now_ms) == g,
{
    keyed::found_is_listed(g.last_fire, id);
    keyed::lemma_push_contains(g.running, id, id);
}

} // verus!
