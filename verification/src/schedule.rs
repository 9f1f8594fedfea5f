//! Scheduled jobs: the store, the triggers, when a job is due, and what is
//! recorded of a run.

use vstd::prelude::*;

use crate::clock::{self, UtcTime};
use crate::paths;
use crate::text;
use crate::types::{Error, ErrorView};

verus! {

/// The version of the store's file format.
pub const STORE_VERSION: u32 = 1;

/// One scheduled job.
#[derive(Debug, PartialEq, Eq)]
pub struct Schedule {
    /// The name of the job; also the name of its log directory.
    pub id: String,
    /// A cron expression; empty for a job that runs once.
    pub cron: String,
    /// When a job that runs once is due, in RFC 3339.
    pub run_at: Option<String>,
    /// The directory that the job runs in.
    pub cwd: String,
    pub prompt: String,
    pub model: Option<String>,
    pub max_iterations: Option<usize>,
    /// The longest that the job may run, in seconds.
    pub timeout_secs: Option<u64>,
    pub enabled: bool,
    /// Run the job also when a file in `cwd` changes.
    pub watch_workspace: bool,
    /// When the job last ran, in RFC 3339.
    pub last_run: Option<String>,
    /// The exit code of that run; none where it was cut short.
    pub last_exit: Option<i32>,
}

/// The value of `enabled` where a store's file does not give one.
pub fn default_true() -> (r: bool)
    ensures
        r,
{
    true
}

impl Clone for Schedule {
    fn clone(&self) -> (r: Schedule)
        ensures
            r == *self,
    {
        Schedule {
            id: self.id.clone(),
            cron: self.cron.clone(),
            run_at: text::copy_opt(&self.run_at),
            cwd: self.cwd.clone(),
            prompt: self.prompt.clone(),
            model: text::copy_opt(&self.model),
            max_iterations: self.max_iterations,
            timeout_secs: self.timeout_secs,
            enabled: self.enabled,
            watch_workspace: self.watch_workspace,
            last_run: text::copy_opt(&self.last_run),
            last_exit: self.last_exit,
        }
    }
}

impl Default for Schedule {
    fn default() -> (r: Schedule)
        ensures
            r.id@.len() == 0,
            r.cron@.len() == 0,
            r.run_at is None,
            r.cwd@.len() == 0,
            r.prompt@.len() == 0,
            r.model is None,
            r.max_iterations is None,
            r.timeout_secs is None,
            !r.enabled,
            !r.watch_workspace,
            r.last_run is None,
            r.last_exit is None,
    {
        Schedule {
            id: String::new(),
            cron: String::new(),
            run_at: None,
            cwd: String::new(),
            prompt: String::new(),
            model: None,
            max_iterations: None,
            timeout_secs: None,
            enabled: false,
            watch_workspace: false,
            last_run: None,
            last_exit: None,
        }
    }
}

// ---------------------------------------------------------------------------
// Triggers
// ---------------------------------------------------------------------------

/// A cron expression with a field for seconds: one of five fields gets it in
/// front.
pub open spec fn normalized_cron(expr: Seq<char>) -> Seq<char> {
    let t = text::trim_of(expr);
    if text::words_of(t).len() == 5 {
        "0 "@ + t
    } else {
        t
    }
}

pub fn normalize_cron(expr: &str) -> (r: String)
    ensures
        r@ == normalized_cron(expr@),
{
    let trimmed = text::trim(expr);
    if text::count_words(trimmed) == 5 {
        let mut s = "0 ".to_string();
        s.append(trimmed);
        s
    } else {
        trimmed.to_string()
    }
}

/// What is wrong with a cron expression.
pub open spec fn cron_error(expr: Seq<char>) -> Option<ErrorView> {
    match clock::cron_schedule(normalized_cron(expr)) {
        Ok(_) => None,
        Err(e) => Some(
            ErrorView::Config("invalid cron expression '"@ + expr + "': "@ + e),
        ),
    }
}

/// Checks a cron expression of five fields, or of more with seconds.
pub fn validate_cron(expr: &str) -> (r: Result<(), Error>)
    ensures
        match r {
            Ok(_) => cron_error(expr@) is None,
            Err(e) => cron_error(expr@) == Some(e@),
        },
        clock::names_time_of_day(normalized_cron(expr@)) ==> r is Ok,
{
    match clock::parse_cron(normalize_cron(expr).as_str()) {
        Ok(_) => Ok(()),
        Err(e) => {
            let mut m = "invalid cron expression '".to_string();
            m.append(expr);
            m.append("': ");
            m.append(e.as_str());
            Err(Error::Config(m))
        },
    }
}

/// The moment that a timestamp denotes, or what is wrong with it.
pub open spec fn run_at_moment(ts: Seq<char>) -> Result<UtcTime, ErrorView> {
    match clock::rfc3339_moment(text::trim_of(ts)) {
        Ok(t) => Ok(t),
        Err(e) => Err(
            ErrorView::Config(
                "invalid --at timestamp '"@ + ts + "': "@ + e
                    + " (expected RFC 3339, e.g. 2026-05-24T15:30:00Z or 2026-05-24T22:30:00+07:00)"@,
            ),
        ),
    }
}

/// The moment that a timestamp in RFC 3339 denotes, whatever its offset.
pub fn parse_run_at(ts: &str) -> (r: Result<UtcTime, Error>)
    ensures
        match r {
            Ok(t) => run_at_moment(ts@) == Ok::<UtcTime, ErrorView>(t) && t.is_valid(),
            Err(e) => run_at_moment(ts@) == Err::<UtcTime, ErrorView>(e@),
        },
{
    match clock::parse_rfc3339(text::trim(ts)) {
        Ok(t) => Ok(t),
        Err(e) => {
            let mut m = "invalid --at timestamp '".to_string();
            m.append(ts);
            m.append("': ");
            m.append(e.as_str());
            m.append(
                " (expected RFC 3339, e.g. 2026-05-24T15:30:00Z or 2026-05-24T22:30:00+07:00)",
            );
            Err(Error::Config(m))
        },
    }
}

/// The seconds of a unit letter; digits count as seconds.
pub open spec fn unit_secs(c: char) -> Option<int> {
    if c == 's' || text::is_digit(c) {
        Some(1)
    } else if c == 'm' {
        Some(60)
    } else if c == 'h' {
        Some(3_600)
    } else if c == 'd' {
        Some(86_400)
    } else {
        None
    }
}

/// The number in front of the unit.
pub open spec fn amount_text(t: Seq<char>) -> Seq<char> {
    if text::is_digit(t.last()) {
        t
    } else {
        t.drop_last()
    }
}

pub open spec fn in_i64(n: int) -> bool {
    i64::MIN <= n <= i64::MAX
}

/// The seconds that a delay like `15m` stands for, or what is wrong with it.
pub open spec fn delay_secs(s: Seq<char>) -> Result<i64, ErrorView> {
    let t = text::trim_of(s);
    let bad = Err(
        ErrorView::Config(
            "invalid --in duration '"@ + t + "': use forms like 15m, 2h, 90s, 1d"@,
        ),
    );
    if t.len() == 0 || unit_secs(t.last()) is None {
        bad
    } else {
        match text::integer_of(text::trim_of(amount_text(t))) {
            Some(n) => if !in_i64(n) {
                bad
            } else if n <= 0 {
                Err(
                    ErrorView::Config(
                        "invalid --in duration '"@ + t
                            + "': must be a positive amount of time"@,
                    ),
                )
            } else if !in_i64(n * unit_secs(t.last())->0) {
                bad
            } else {
                Ok((n * unit_secs(t.last())->0) as i64)
            },
            None => bad,
        }
    }
}

fn bad_delay(t: &str) -> (r: Error)
    ensures
        r@ == ErrorView::Config(
            "invalid --in duration '"@ + t@ + "': use forms like 15m, 2h, 90s, 1d"@,
        ),
{
    let mut m = "invalid --in duration '".to_string();
    m.append(t);
    m.append("': use forms like 15m, 2h, 90s, 1d");
    Error::Config(m)
}

/// The seconds that a delay stands for: a number, and a unit `s`, `m`, `h` or
/// `d`; seconds where there is no unit.
pub fn parse_relative_duration(s: &str) -> (r: Result<i64, Error>)
    ensures
        match r {
            Ok(n) => delay_secs(s@) == Ok::<i64, ErrorView>(n) && n > 0,
            Err(e) => delay_secs(s@) == Err::<i64, ErrorView>(e@),
        },
{
    let t = text::trim(s);
    let n = t.unicode_len();
    if n == 0 {
        return Err(bad_delay(t));
    }
    let last = t.get_char(n - 1);
    let digit = '0' <= last && last <= '9';
    let unit: i64 = if last == 's' || digit {
        1
    } else if last == 'm' {
        60
    } else if last == 'h' {
        3_600
    } else if last == 'd' {
        86_400
    } else {
        return Err(bad_delay(t));
    };
    let amount = if digit {
        t
    } else {
        t.substring_char(0, n - 1)
    };
    proof {
        assert(t@.last() == last);
        assert(amount@ =~= amount_text(t@));
    }
    match text::parse_i64(text::trim(amount)) {
        Some(value) => {
            if value <= 0 {
                let mut m = "invalid --in duration '".to_string();
                m.append(t);
                m.append("': must be a positive amount of time");
                return Err(Error::Config(m));
            }
            match value.checked_mul(unit) {
                Some(secs) => {
                    proof {
                        assert(value * unit >= 1) by (nonlinear_arith)
                            requires
                                value >= 1,
                                unit >= 1,
                        ;
                    }
                    Ok(secs)
                },
                None => Err(bad_delay(t)),
            }
        },
        None => Err(bad_delay(t)),
    }
}

/// What is wrong with the trigger of a job: it has exactly one of a cron
/// expression and a moment, and that one can be read.
pub open spec fn trigger_error(s: Schedule) -> Option<ErrorView> {
    let has_cron = text::trim_of(s.cron@).len() > 0;
    match s.run_at {
        Some(ts) => if has_cron {
            Some(
                ErrorView::Config(
                    "a schedule is either recurring (--cron) or one-shot (--at/--in), not both"@,
                ),
            )
        } else {
            match run_at_moment(ts@) {
                Ok(_) => None,
                Err(e) => Some(e),
            }
        },
        None => if !has_cron {
            Some(
                ErrorView::Config(
                    "a schedule needs a trigger: pass --cron for recurring, or --at/--in for a one-shot"@,
                ),
            )
        } else {
            cron_error(s.cron@)
        },
    }
}

/// Checks the trigger of a job.
pub fn validate_trigger(schedule: &Schedule) -> (r: Result<(), Error>)
    ensures
        match r {
            Ok(_) => trigger_error(*schedule) is None,
            Err(e) => trigger_error(*schedule) == Some(e@),
        },
{
    let has_cron = !text::trim(schedule.cron.as_str()).is_empty();
    match &schedule.run_at {
        Some(ts) => {
            if has_cron {
                return Err(
                    Error::Config(
                        "a schedule is either recurring (--cron) or one-shot (--at/--in), not both".to_string(),
                    ),
                );
            }
            match parse_run_at(ts.as_str()) {
                Ok(_) => Ok(()),
                Err(e) => Err(e),
            }
        },
        None => {
            if !has_cron {
                return Err(
                    Error::Config(
                        "a schedule needs a trigger: pass --cron for recurring, or --at/--in for a one-shot".to_string(),
                    ),
                );
            }
            validate_cron(schedule.cron.as_str())
        },
    }
}

// ---------------------------------------------------------------------------
// The store
// ---------------------------------------------------------------------------

/// All scheduled jobs.
#[derive(Debug, PartialEq, Eq)]
pub struct ScheduleStore {
    pub version: u32,
    pub schedules: Vec<Schedule>,
}

/// The first job with a name.
pub open spec fn find_schedule(s: Seq<Schedule>, id: Seq<char>) -> Option<Schedule>
    decreases s.len(),
{
    if s.len() == 0 {
        None
    } else if s[0].id@ == id {
        Some(s[0])
    } else {
        find_schedule(s.skip(1), id)
    }
}

/// The jobs without those of a name.
pub open spec fn without(s: Seq<Schedule>, id: Seq<char>) -> Seq<Schedule>
    decreases s.len(),
{
    if s.len() == 0 {
        s
    } else if s.last().id@ == id {
        without(s.drop_last(), id)
    } else {
        without(s.drop_last(), id).push(s.last())
    }
}

/// No two jobs have the same name.
pub open spec fn unique_ids(s: Seq<Schedule>) -> bool {
    forall|i: int, j: int| 0 <= i < j < s.len() ==> (#[trigger] s[i]).id@ != (#[trigger] s[j]).id@
}

/// The position of the first job with a name; the length where there is none.
pub open spec fn schedule_index(s: Seq<Schedule>, id: Seq<char>) -> nat
    decreases s.len(),
{
    if s.len() == 0 || s[0].id@ == id {
        0
    } else {
        1 + schedule_index(s.skip(1), id)
    }
}

proof fn lemma_find(s: Seq<Schedule>, id: Seq<char>, i: int)
    requires
        0 <= i <= s.len(),
        forall|k: int| 0 <= k < i ==> (#[trigger] s[k]).id@ != id,
        i < s.len() ==> s[i].id@ == id,
    ensures
        find_schedule(s, id) == if i < s.len() {
            Some(s[i])
        } else {
            None::<Schedule>
        },
        schedule_index(s, id) == i,
    decreases i,
{
    if i > 0 {
        assert forall|k: int| 0 <= k < i - 1 implies (#[trigger] s.skip(1)[k]).id@ != id by {
            assert(s.skip(1)[k] == s[k + 1]);
        }
        lemma_find(s.skip(1), id, i - 1);
    }
}

/// What is wrong with adding a job: its name is taken, or its trigger is bad.
pub open spec fn add_error(s: Seq<Schedule>, new: Schedule) -> Option<ErrorView> {
    if find_schedule(s, new.id@) is Some {
        Some(
            ErrorView::Config(
                "schedule id '"@ + new.id@ + "' already exists — `thclaws schedule rm "@ + new.id@
                    + "` first"@,
            ),
        )
    } else {
        trigger_error(new)
    }
}

impl Default for ScheduleStore {
    fn default() -> (r: ScheduleStore)
        ensures
            r.version == STORE_VERSION,
            r.schedules@ == Seq::<Schedule>::empty(),
    {
        ScheduleStore { version: STORE_VERSION, schedules: Vec::new() }
    }
}

impl ScheduleStore {
    /// Where the user's store is, given the home directory.
    pub fn default_path(home: Option<&str>) -> (r: Option<String>)
        ensures
            text::view_opt(r) == match home {
                Some(h) => Some(paths::join_of(h@, ".config/thclaws/schedules.json"@)),
                None => None,
            },
    {
        match home {
            Some(h) => Some(paths::join(h, ".config/thclaws/schedules.json")),
            None => None,
        }
    }

    /// Where the user's store is written; without a home directory there is
    /// no such place.
    pub fn save_path(home: Option<&str>) -> (r: Result<String, Error>)
        ensures
            match (r, home) {
                (Ok(p), Some(h)) => p@ == paths::join_of(h@, ".config/thclaws/schedules.json"@),
                (Err(e), None) => e@ == ErrorView::Config(
                    "no home directory found — cannot locate schedule store"@,
                ),
                _ => false,
            },
    {
        match ScheduleStore::default_path(home) {
            Some(p) => Ok(p),
            None => Err(
                Error::Config("no home directory found — cannot locate schedule store".to_string()),
            ),
        }
    }

    /// The store that a file gives: none yet where there is no file, and an
    /// error that names the file where it cannot be parsed.
    pub fn load_from(path: &str, parsed: Option<Result<ScheduleStore, String>>) -> (r: Result<
        ScheduleStore,
        Error,
    >)
        ensures
            match (r, parsed) {
                (Ok(s), None) => s.version == STORE_VERSION && s.schedules@ == Seq::<
                    Schedule,
                >::empty(),
                (Ok(s), Some(Ok(x))) => s == x,
                (Err(e), Some(Err(m))) => e@ == ErrorView::Config(path@ + ": "@ + m@),
                _ => false,
            },
    {
        match parsed {
            None => Ok(ScheduleStore::default()),
            Some(Ok(s)) => Ok(s),
            Some(Err(e)) => {
                let mut m = path.to_string();
                m.append(": ");
                m.append(e.as_str());
                Err(Error::Config(m))
            },
        }
    }

    fn position(&self, id: &str) -> (r: usize)
        ensures
            r == schedule_index(self.schedules@, id@),
            r <= self.schedules@.len(),
            find_schedule(self.schedules@, id@) == if r < self.schedules@.len() {
                Some(self.schedules@[r as int])
            } else {
                None::<Schedule>
            },
            r < self.schedules@.len() ==> self.schedules@[r as int].id@ == id@,
    {
        let mut i: usize = 0;
        while i < self.schedules.len() && !text::same(self.schedules[i].id.as_str(), id)
            invariant
                i <= self.schedules@.len(),
                forall|k: int| 0 <= k < i ==> (#[trigger] self.schedules@[k]).id@ != id@,
            decreases self.schedules@.len() - i,
        {
            i = i + 1;
        }
        proof {
            lemma_find(self.schedules@, id@, i as int);
        }
        i
    }

    /// The job with a name.
    pub fn get(&self, id: &str) -> (r: Option<&Schedule>)
        ensures
            match r {
                Some(s) => find_schedule(self.schedules@, id@) == Some(*s),
                None => find_schedule(self.schedules@, id@) is None,
            },
    {
        let i = self.position(id);
        if i < self.schedules.len() {
            Some(&self.schedules[i])
        } else {
            None
        }
    }

    /// The job with a name, to be changed.
    pub fn get_mut(&mut self, id: &str) -> (r: Option<&mut Schedule>)
        ensures
            match r {
                Some(s) => find_schedule(old(self).schedules@, id@) == Some(*s)
                    && final(self).version == old(self).version && final(self).schedules@
                    == old(self).schedules@.update(
                    schedule_index(old(self).schedules@, id@) as int,
                    *final(s),
                ),
                None => find_schedule(old(self).schedules@, id@) is None && *final(self) == *old(
                    self,
                ),
            },
    {
        let i = self.position(id);
        if i < self.schedules.len() {
            Some(&mut self.schedules[i])
        } else {
            None
        }
    }

    /// Adds a job. A name that is taken, or a bad trigger, changes nothing.
    pub fn add(&mut self, schedule: Schedule) -> (r: Result<(), Error>)
        ensures
            match r {
                Ok(_) => add_error(old(self).schedules@, schedule) is None
                    && final(self).schedules@ == old(self).schedules@.push(schedule)
                    && final(self).version == old(self).version,
                Err(e) => add_error(old(self).schedules@, schedule) == Some(e@) && *final(self)
                    == *old(self),
            },
    {
        if self.get(schedule.id.as_str()).is_some() {
            let mut m = "schedule id '".to_string();
            m.append(schedule.id.as_str());
            m.append("' already exists — `thclaws schedule rm ");
            m.append(schedule.id.as_str());
            m.append("` first");
            return Err(Error::Config(m));
        }
        match validate_trigger(&schedule) {
            Ok(_) => {
                self.schedules.push(schedule);
                Ok(())
            },
            Err(e) => Err(e),
        }
    }

    /// Removes the jobs with a name; says whether there were any.
    pub fn remove(&mut self, id: &str) -> (r: bool)
        ensures
            final(self).schedules@ == without(old(self).schedules@, id@),
            final(self).version == old(self).version,
            r == (final(self).schedules@.len() != old(self).schedules@.len()),
    {
        let ghost all = self.schedules@;
        let before = self.schedules.len();
        let mut list: Vec<Schedule> = Vec::new();
        std::mem::swap(&mut list, &mut self.schedules);
        let mut kept: Vec<Schedule> = Vec::new();
        for s in it: list
            invariant
                it.seq() == all,
                kept@ == without(all.take(it.index()), id@),
        {
            proof {
                assert(all.take(it.index() + 1).drop_last() == all.take(it.index()));
                assert(all.take(it.index() + 1).last() == s);
            }
            if !text::same(s.id.as_str(), id) {
                kept.push(s);
            }
        }
        proof {
            assert(all.take(all.len() as int) == all);
        }
        self.schedules = kept;
        before != self.schedules.len()
    }
}

/// What a store keeps: a name that is found is a name of the list, and a
/// missing one is not.
pub proof fn found_is_listed(s: Seq<Schedule>, id: Seq<char>)
    ensures
        find_schedule(s, id) is Some <==> exists|i: int|
            0 <= i < s.len() && (#[trigger] s[i]).id@ == id,
        find_schedule(s, id) matches Some(x) ==> x.id@ == id,
    decreases s.len(),
{
    if s.len() > 0 {
        found_is_listed(s.skip(1), id);
        if s[0].id@ != id {
            if find_schedule(s, id) is Some {
                let i = choose|i: int| 0 <= i < s.skip(1).len() && (#[trigger] s.skip(1)[i]).id@
                    == id;
                assert(s[i + 1].id@ == id);
            } else {
                assert forall|i: int| 0 <= i < s.len() implies (#[trigger] s[i]).id@ != id by {
                    if i > 0 {
                        assert(s.skip(1)[i - 1] == s[i]);
                    }
                }
            }
        } else {
            assert(s[0].id@ == id);
        }
    }
}

/// Adding keeps names unique, and what was added is what is found; every
/// other job stays what it was.
pub proof fn added_is_found(s: Seq<Schedule>, new: Schedule, other: Seq<char>)
    requires
        add_error(s, new) is None,
    ensures
        find_schedule(s.push(new), new.id@) == Some(new),
        other != new.id@ ==> find_schedule(s.push(new), other) == find_schedule(s, other),
        unique_ids(s) ==> unique_ids(s.push(new)),
{
    found_is_listed(s, new.id@);
    lemma_find_in_push(s, new, new.id@);
    lemma_find_in_push(s, new, other);
}

proof fn lemma_find_in_push(s: Seq<Schedule>, new: Schedule, id: Seq<char>)
    ensures
        find_schedule(s.push(new), id) == match find_schedule(s, id) {
            Some(x) => Some(x),
            None => if new.id@ == id {
                Some(new)
            } else {
                None
            },
        },
    decreases s.len(),
{
    if s.len() > 0 {
        lemma_find_in_push(s.skip(1), new, id);
        assert(s.push(new).skip(1) =~= s.skip(1).push(new));
    } else {
        assert(s.push(new).skip(1) =~= Seq::<Schedule>::empty());
        reveal_with_fuel(find_schedule, 2);
    }
}

/// What was removed is gone; every other job stays what it was, and names
/// stay unique.
pub proof fn removed_is_gone(s: Seq<Schedule>, id: Seq<char>, other: Seq<char>)
    ensures
        find_schedule(without(s, id), id) is None,
        other != id ==> find_schedule(without(s, id), other) == find_schedule(s, other),
        unique_ids(s) ==> unique_ids(without(s, id)),
        without(s, id).len() <= s.len(),
    decreases s.len(),
{
    if s.len() > 0 {
        let t = s.drop_last();
        removed_is_gone(t, id, other);
        assert(t.push(s.last()) =~= s);
        lemma_find_in_push(t, s.last(), other);
        lemma_find_in_push(without(t, id), s.last(), other);
        lemma_find_in_push(without(t, id), s.last(), id);
        if unique_ids(s) && s.last().id@ != id {
            lemma_without_from(t, id);
            let w = without(t, id);
            assert(unique_ids(t)) by {
                assert forall|i: int, j: int| 0 <= i < j < t.len() implies (#[trigger] t[i]).id@
                    != (#[trigger] t[j]).id@ by {
                    assert(s[i].id@ != s[j].id@);
                }
            }
            assert forall|i: int, j: int| 0 <= i < j < w.push(s.last()).len() implies (
            #[trigger] w.push(s.last())[i]).id@ != (#[trigger] w.push(s.last())[j]).id@ by {
                if j == w.len() {
                    let k = choose|k: int| 0 <= k < t.len() && #[trigger] t[k] == w[i];
                    assert(t.contains(w[i]));
                    assert(s[k].id@ != s[s.len() - 1].id@);
                }
            }
        } else if unique_ids(s) {
            assert(unique_ids(t)) by {
                assert forall|i: int, j: int| 0 <= i < j < t.len() implies (#[trigger] t[i]).id@
                    != (#[trigger] t[j]).id@ by {
                    assert(s[i].id@ != s[j].id@);
                }
            }
        }
    }
}

/// Removing shortens the list where the name is there, and only there.
pub proof fn removal_shortens(s: Seq<Schedule>, id: Seq<char>)
    ensures
        without(s, id).len() < s.len() <==> find_schedule(s, id) is Some,
        find_schedule(s, id) is None ==> without(s, id) == s,
    decreases s.len(),
{
    if s.len() > 0 {
        let t = s.drop_last();
        removal_shortens(t, id);
        removed_is_gone(t, id, id);
        assert(t.push(s.last()) =~= s);
        lemma_find_in_push(t, s.last(), id);
    }
}

proof fn lemma_without_from(s: Seq<Schedule>, id: Seq<char>)
    ensures
        forall|i: int| 0 <= i < without(s, id).len() ==> s.contains(#[trigger] without(s, id)[i]),
    decreases s.len(),
{
    if s.len() > 0 {
        let t = s.drop_last();
        lemma_without_from(t, id);
        assert forall|i: int| 0 <= i < without(s, id).len() implies s.contains(
            #[trigger] without(s, id)[i],
        ) by {
            let w = without(t, id);
            if i < w.len() {
                assert(t.contains(w[i]));
                let k = choose|k: int| 0 <= k < t.len() && t[k] == w[i];
                assert(s[k] == w[i]);
            } else {
                assert(s[s.len() - 1] == s.last());
            }
        }
    }
}

// ---------------------------------------------------------------------------
// When a job is due
// ---------------------------------------------------------------------------

/// The moment of the last run, where it is recorded and can be read.
pub open spec fn last_run_moment(s: Schedule) -> Option<UtcTime> {
    match s.last_run {
        Some(ts) => match clock::rfc3339_moment(ts@) {
            Ok(t) => Some(t),
            Err(_) => None,
        },
        None => None,
    }
}

/// The moment of the last run.
pub fn parse_last_run(schedule: &Schedule) -> (r: Option<UtcTime>)
    ensures
        r == last_run_moment(*schedule),
        r matches Some(t) ==> t.is_valid(),
{
    match &schedule.last_run {
        Some(ts) => match clock::parse_rfc3339(ts.as_str()) {
            Ok(t) => Some(t),
            Err(_) => None,
        },
        None => None,
    }
}

/// The first moment of a cron expression after a moment.
pub open spec fn cron_fire_after(expr: Seq<char>, after: UtcTime) -> Option<UtcTime> {
    match clock::cron_schedule(normalized_cron(expr)) {
        Ok(table) => clock::cron_next(table, after),
        Err(_) => None,
    }
}

/// The first moment of a cron expression strictly after a moment; none for a
/// bad expression, or where no moment is left.
pub fn compute_next_fire(cron_expr: &str, after: UtcTime) -> (r: Option<UtcTime>)
    requires
        after.is_valid(),
    ensures
        r == cron_fire_after(cron_expr@, after),
        r matches Some(t) ==> after.before(t) && t.is_valid(),
        cron_error(cron_expr@) is Some ==> r is None,
{
    match clock::parse_cron(normalize_cron(cron_expr).as_str()) {
        Ok(table) => clock::next_after(&table, after),
        Err(_) => None,
    }
}

/// When a job is next due, seen from a moment. A job that runs once is due at
/// its moment until it has run, whatever moment it is seen from.
pub open spec fn due_at(s: Schedule, cursor: UtcTime) -> Option<UtcTime> {
    match s.run_at {
        Some(ts) => if s.last_run is Some {
            None
        } else {
            match run_at_moment(ts@) {
                Ok(t) => Some(t),
                Err(_) => None,
            }
        },
        None => cron_fire_after(s.cron@, cursor),
    }
}

/// When a job is next due, seen from a moment.
pub fn next_fire(schedule: &Schedule, cursor: UtcTime) -> (r: Option<UtcTime>)
    requires
        cursor.is_valid(),
    ensures
        r == due_at(*schedule, cursor),
        r matches Some(t) ==> t.is_valid(),
        schedule.run_at is None ==> (r matches Some(t) ==> cursor.before(t)),
{
    match &schedule.run_at {
        Some(ts) => {
            if schedule.last_run.is_some() {
                return None;
            }
            match parse_run_at(ts.as_str()) {
                Ok(t) => Some(t),
                Err(_) => None,
            }
        },
        None => compute_next_fire(schedule.cron.as_str(), cursor),
    }
}

/// The first `n` moments of a cron expression after a moment, or as many as
/// there are.
pub open spec fn cron_fires(expr: Seq<char>, after: UtcTime, n: nat) -> Seq<UtcTime>
    decreases n,
{
    if n == 0 {
        Seq::empty()
    } else {
        match cron_fire_after(expr, after) {
            Some(t) => seq![t] + cron_fires(expr, t, (n - 1) as nat),
            None => Seq::empty(),
        }
    }
}

/// The first `n` moments of a cron expression strictly after a moment, each
/// after the one before it.
pub fn compute_next_n_fires(cron_expr: &str, after: UtcTime, n: usize) -> (r: Vec<UtcTime>)
    requires
        after.is_valid(),
    ensures
        r@ == cron_fires(cron_expr@, after, n as nat),
        r@.len() <= n,
        forall|i: int| 0 <= i < r@.len() ==> after.before(#[trigger] r@[i]),
        forall|i: int, j: int| 0 <= i < j < r@.len() ==> (#[trigger] r@[i]).before(#[trigger] r@[j]),
{
    let mut r: Vec<UtcTime> = Vec::new();
    let table = match clock::parse_cron(normalize_cron(cron_expr).as_str()) {
        Ok(table) => table,
        Err(_) => return r,
    };
    let mut from = after;
    let mut left = n;
    while left > 0
        invariant
            from.is_valid(),
            clock::cron_schedule(normalized_cron(cron_expr@)) is Ok,
            clock::cron_schedule(normalized_cron(cron_expr@))->Ok_0 == table,
            r@ + cron_fires(cron_expr@, from, left as nat) == cron_fires(
                cron_expr@,
                after,
                n as nat,
            ),
            r@.len() + left == n,
            r@.len() == 0 ==> from == after,
            r@.len() > 0 ==> from == r@.last(),
            forall|i: int| 0 <= i < r@.len() ==> after.before(#[trigger] r@[i]),
            forall|i: int, j: int|
                0 <= i < j < r@.len() ==> (#[trigger] r@[i]).before(#[trigger] r@[j]),
        decreases left,
    {
        match clock::next_after(&table, from) {
            Some(t) => {
                proof {
                    assert(r@ + (seq![t] + cron_fires(cron_expr@, t, (left - 1) as nat)) =~= r@.push(t)
                        + cron_fires(cron_expr@, t, (left - 1) as nat));
                }
                r.push(t);
                from = t;
                left = left - 1;
            },
            None => {
                return r;
            },
        }
    }
    r
}

/// A job that runs once, and has run, is never due again.
pub proof fn one_shot_fires_once(s: Schedule, cursor: UtcTime)
    requires
        s.run_at is Some,
        s.last_run is Some,
    ensures
        due_at(s, cursor) is None,
{
}

/// A job that runs once and has not run is due at its moment from wherever it
/// is seen, so a moment that was slept through is caught up.
pub proof fn one_shot_catches_up(s: Schedule, cursor: UtcTime, now: UtcTime)
    requires
        s.run_at is Some,
        s.last_run is None,
        run_at_moment(s.run_at->0@) is Ok,
        !now.before(run_at_moment(s.run_at->0@)->Ok_0),
    ensures
        due_at(s, cursor) is Some,
        !now.before(due_at(s, cursor)->0),
{
}

// ---------------------------------------------------------------------------
// Running a job
// ---------------------------------------------------------------------------

/// What came of one run of a job.
#[derive(Debug, PartialEq, Eq)]
pub struct RunOutcome {
    pub log_path: String,
    /// None where the job was cut short, or gave no code.
    pub exit_code: Option<i32>,
    pub duration_ms: u64,
    pub timed_out: bool,
}

/// What stands in the way of running a job.
pub open spec fn run_error(s: Seq<Schedule>, id: Seq<char>, cwd_exists: bool) -> Option<
    ErrorView,
> {
    match find_schedule(s, id) {
        None => Some(ErrorView::Config("no schedule with id '"@ + id + "'"@)),
        Some(job) => if !job.enabled {
            Some(
                ErrorView::Config(
                    "schedule '"@ + id + "' is disabled — enable it before running"@,
                ),
            )
        } else if !cwd_exists {
            Some(
                ErrorView::Config(
                    "schedule '"@ + id + "' cwd does not exist: "@ + job.cwd@,
                ),
            )
        } else {
            None
        },
    }
}

/// The job with a name, where it can run: it is there and enabled, and its
/// directory exists.
pub fn runnable<'a>(store: &'a ScheduleStore, id: &str, cwd_exists: bool) -> (r: Result<
    &'a Schedule,
    Error,
>)
    ensures
        match r {
            Ok(s) => run_error(store.schedules@, id@, cwd_exists) is None && find_schedule(
                store.schedules@,
                id@,
            ) == Some(*s),
            Err(e) => run_error(store.schedules@, id@, cwd_exists) == Some(e@),
        },
{
    match store.get(id) {
        None => {
            let mut m = "no schedule with id '".to_string();
            m.append(id);
            m.append("'");
            Err(Error::Config(m))
        },
        Some(job) => {
            if !job.enabled {
                let mut m = "schedule '".to_string();
                m.append(id);
                m.append("' is disabled — enable it before running");
                return Err(Error::Config(m));
            }
            if !cwd_exists {
                let mut m = "schedule '".to_string();
                m.append(id);
                m.append("' cwd does not exist: ");
                m.append(job.cwd.as_str());
                return Err(Error::Config(m));
            }
            Ok(job)
        },
    }
}

/// The arguments that a job's process is started with.
pub open spec fn job_args_of(s: Schedule) -> Seq<Seq<char>> {
    let base = seq!["--print"@, s.prompt@];
    let with_model = match s.model {
        Some(m) => base.push("--model"@).push(m@),
        None => base,
    };
    match s.max_iterations {
        Some(n) => with_model.push("--max-iterations"@).push(text::decimal_of(n as nat)),
        None => with_model,
    }
}

/// The arguments that a job's process is started with.
pub fn job_args(schedule: &Schedule) -> (r: Vec<String>)
    ensures
        text::views(r@) == job_args_of(*schedule),
{
    broadcast use text::views_push;

    let mut r: Vec<String> = Vec::new();
    r.push("--print".to_string());
    r.push(schedule.prompt.clone());
    assert(text::views(r@) =~= seq!["--print"@, schedule.prompt@]);
    if let Some(m) = &schedule.model {
        r.push("--model".to_string());
        r.push(m.clone());
    }
    if let Some(n) = schedule.max_iterations {
        r.push("--max-iterations".to_string());
        r.push(text::decimal(n as u64));
    }
    r
}

/// Where the logs of a job are, given the home directory.
pub fn log_dir_for(home: Option<&str>, id: &str) -> (r: Result<String, Error>)
    ensures
        match home {
            Some(h) => r matches Ok(p) && p@ == paths::join_of(
                paths::join_of(h@, ".local/share/thclaws/logs"@),
                id@,
            ),
            None => r matches Err(e) && e@ == ErrorView::Config(
                "no home directory found — cannot place schedule logs"@,
            ),
        },
{
    match home {
        Some(h) => {
            let logs = paths::join(h, ".local/share/thclaws/logs");
            Ok(paths::join(logs.as_str(), id))
        },
        None => Err(
            Error::Config("no home directory found — cannot place schedule logs".to_string()),
        ),
    }
}

/// The log file of a run that starts at a moment.
pub fn log_path_for(log_dir: &str, started: UtcTime) -> (r: String)
    requires
        started.is_valid(),
    ensures
        r@ == paths::join_of(log_dir@, clock::file_stamp(started) + ".log"@),
{
    let mut name = clock::to_file_stamp(started);
    name.append(".log");
    paths::join(log_dir, name.as_str())
}

/// What to do about a process that is being waited for.
#[derive(Debug, PartialEq, Eq)]
pub enum WaitStep {
    /// It ended, with a code or without one.
    Ended(Option<i32>),
    /// Its time is up: kill it.
    Kill,
    /// Look again in a moment.
    Sleep,
}

/// What to do about a process, given how it ended if it did, how long it has
/// run, and how long it may. An end that has come counts, even a late one.
pub fn wait_step(ended: Option<Option<i32>>, ran_ms: u64, timeout_ms: Option<u64>) -> (r: WaitStep)
    ensures
        r == match ended {
            Some(code) => WaitStep::Ended(code),
            None => match timeout_ms {
                Some(t) => if ran_ms >= t {
                    WaitStep::Kill
                } else {
                    WaitStep::Sleep
                },
                None => WaitStep::Sleep,
            },
        },
{
    match ended {
        Some(code) => WaitStep::Ended(code),
        None => match timeout_ms {
            Some(t) => if ran_ms >= t {
                WaitStep::Kill
            } else {
                WaitStep::Sleep
            },
            None => WaitStep::Sleep,
        },
    }
}

/// A job before and after a run at a moment: the moment and the exit code are
/// recorded, a job that runs once is disabled, and nothing else changes.
pub open spec fn is_recorded(
    before: Schedule,
    after: Schedule,
    now: UtcTime,
    exit_code: Option<i32>,
) -> bool {
    &&& after.last_run is Some
    &&& after.last_run->0@ == clock::rfc3339_text(now)
    &&& after == Schedule {
        last_run: after.last_run,
        last_exit: exit_code,
        enabled: before.enabled && before.run_at is None,
        ..before
    }
}

/// Records a run of a job. The moment of it reads back as that moment, and a
/// job that runs once is not due any more. Where the job has gone from the
/// store in the meantime, nothing is recorded.
pub fn record_run(store: &mut ScheduleStore, id: &str, now: UtcTime, exit_code: Option<i32>)
    requires
        now.is_valid(),
    ensures
        final(store).version == old(store).version,
        match find_schedule(old(store).schedules@, id@) {
            Some(before) => {
                let i = schedule_index(old(store).schedules@, id@) as int;
                let after = final(store).schedules@[i];
                &&& is_recorded(before, after, now, exit_code)
                &&& final(store).schedules@ == old(store).schedules@.update(i, after)
                &&& now.is_common() ==> last_run_moment(after) == Some(now)
            },
            None => *final(store) == *old(store),
        },
{
    proof {
        lemma_index(store.schedules@, id@);
    }
    match store.get_mut(id) {
        Some(entry) => {
            let one_shot = entry.run_at.is_some();
            entry.last_run = Some(clock::to_rfc3339(now));
            entry.last_exit = exit_code;
            if one_shot {
                entry.enabled = false;
            }
        },
        None => {},
    }
}

/// The exit code of a run: none where it was cut short, or failed before there
/// was one.
pub open spec fn exit_code_of(run: Result<RunOutcome, Error>) -> Option<i32> {
    match run {
        Ok(o) => o.exit_code,
        Err(_) => None,
    }
}

/// Records a run of a job, whether it succeeded or failed; one that could not
/// even be started counts, without an exit code.
pub fn finish_run(
    store: &mut ScheduleStore,
    id: &str,
    now: UtcTime,
    run: &Result<RunOutcome, Error>,
)
    requires
        now.is_valid(),
    ensures
        final(store).version == old(store).version,
        match find_schedule(old(store).schedules@, id@) {
            Some(before) => {
                let i = schedule_index(old(store).schedules@, id@) as int;
                let after = final(store).schedules@[i];
                &&& is_recorded(before, after, now, exit_code_of(*run))
                &&& final(store).schedules@ == old(store).schedules@.update(i, after)
                &&& now.is_common() ==> last_run_moment(after) == Some(now)
            },
            None => *final(store) == *old(store),
        },
{
    let exit_code = match run {
        Ok(o) => o.exit_code,
        Err(_) => None,
    };
    record_run(store, id, now, exit_code)
}

proof fn lemma_index(s: Seq<Schedule>, id: Seq<char>)
    ensures
        schedule_index(s, id) <= s.len(),
        schedule_index(s, id) < s.len() <==> find_schedule(s, id) is Some,
    decreases s.len(),
{
    if s.len() > 0 {
        lemma_index(s.skip(1), id);
    }
}

/// What is said of a run, or of a failure to run.
pub open spec fn exit_text(exit_code: Option<i32>) -> Seq<char> {
    match exit_code {
        Some(c) => text::signed_decimal_of(c as int),
        None => "(timeout)"@,
    }
}

/// A duration as seconds with three decimals.
pub open spec fn seconds_of(ms: u64) -> Seq<char> {
    text::decimal_of((ms / 1_000) as nat) + "."@ + text::pad_left_of(
        text::decimal_of((ms % 1_000) as nat),
        '0',
        3,
    )
}

pub fn seconds_text(ms: u64) -> (r: String)
    ensures
        r@ == seconds_of(ms),
{
    let mut r = text::decimal(ms / 1_000);
    r.append(".");
    let millis = text::decimal(ms % 1_000);
    r.append(text::pad_left(millis.as_str(), '0', 3).as_str());
    r
}

/// The line about a run: which job, what `verb` it did, and how it ended.
pub open spec fn run_line(tag: Seq<char>, id: Seq<char>, verb: Seq<char>, o: RunOutcome) -> Seq<
    char,
> {
    "\u{1b}[36m["@ + tag + "] '"@ + id + "' "@ + verb + " — exit="@ + exit_text(o.exit_code)
        + " duration="@ + seconds_of(o.duration_ms) + "s log="@ + o.log_path@ + "\u{1b}[0m"@
}

fn outcome_line(tag: &str, id: &str, verb: &str, o: &RunOutcome) -> (r: String)
    ensures
        r@ == run_line(tag@, id@, verb@, *o),
{
    let mut m = "\u{1b}[36m[".to_string();
    m.append(tag);
    m.append("] '");
    m.append(id);
    m.append("' ");
    m.append(verb);
    m.append(" — exit=");
    let exit = match o.exit_code {
        Some(c) => text::signed_decimal(c),
        None => "(timeout)".to_string(),
    };
    m.append(exit.as_str());
    m.append(" duration=");
    m.append(seconds_text(o.duration_ms).as_str());
    m.append("s log=");
    m.append(o.log_path.as_str());
    m.append("\u{1b}[0m");
    m
}

/// The line about a run that the clock started.
pub fn fired_line(id: &str, outcome: &RunOutcome) -> (r: String)
    ensures
        r@ == run_line("schedule"@, id@, "fired"@, *outcome),
{
    outcome_line("schedule", id, "fired", outcome)
}

/// The line about a run that a changed file started.
pub fn watch_done_line(id: &str, outcome: &RunOutcome) -> (r: String)
    ensures
        r@ == run_line("watch"@, id@, "done"@, *outcome),
{
    outcome_line("watch", id, "done", outcome)
}

// ---------------------------------------------------------------------------
// What holds of triggers and runs
// ---------------------------------------------------------------------------

/// A delay counts its unit: a number of seconds, minutes, hours or days is as
/// many seconds as these have, and a number alone is seconds. A delay of
/// nothing is refused.
pub proof fn delays_count_their_unit(n: nat)
    ensures
        n == 0 ==> delay_secs(text::decimal_of(n)) is Err && delay_secs(
            text::decimal_of(n).push('h'),
        ) is Err,
        0 < n <= i64::MAX ==> delay_secs(text::decimal_of(n)) == Ok::<i64, ErrorView>(n as i64)
            && delay_secs(text::decimal_of(n).push('s')) == Ok::<i64, ErrorView>(n as i64),
        0 < n && n * 60 <= i64::MAX ==> delay_secs(text::decimal_of(n).push('m')) == Ok::<
            i64,
            ErrorView,
        >((n * 60) as i64),
        0 < n && n * 60 * 60 <= i64::MAX ==> delay_secs(text::decimal_of(n).push('h')) == Ok::<
            i64,
            ErrorView,
        >((n * 60 * 60) as i64),
        0 < n && n * 24 * 60 * 60 <= i64::MAX ==> delay_secs(text::decimal_of(n).push('d')) == Ok::<
            i64,
            ErrorView,
        >((n * 24 * 60 * 60) as i64),
{
    let d = text::decimal_of(n);
    text::numbers_are_read_back(n);
    assert(text::is_digit(d[0]));
    assert(text::is_digit(d[d.len() - 1]));
    assert(amount_text(d) == d);
    assert(unit_secs(d.last()) == Some(1int));
    assert(n as int * 1 == n);
    assert(d.push('s').last() == 's');
    assert(unit_secs('s') == Some(1int));
    lemma_delay_text(d, 's');
    lemma_delay_text(d, 'm');
    lemma_delay_text(d, 'h');
    lemma_delay_text(d, 'd');
}

proof fn lemma_delay_text(d: Seq<char>, unit: char)
    requires
        d.len() > 0,
        text::is_digit(d[0]),
        unit == 's' || unit == 'm' || unit == 'h' || unit == 'd',
    ensures
        text::trim_of(d.push(unit)) == d.push(unit),
        amount_text(d.push(unit)) == d,
{
    text::trimmed_text_stays(d.push(unit));
    assert(d.push(unit).drop_last() =~= d);
}

/// A job has exactly one trigger that can be read: a moment, or a cron
/// expression. A job with both, with neither or with one that cannot be read
/// is refused, and so is one whose name is taken; no other is.
pub proof fn jobs_have_one_trigger(s: Seq<Schedule>, new: Schedule)
    ensures
        trigger_error(new) is None <==> if new.run_at is Some {
            text::trim_of(new.cron@).len() == 0 && clock::rfc3339_moment(
                text::trim_of(new.run_at->0@),
            ) is Ok
        } else {
            text::trim_of(new.cron@).len() > 0 && clock::cron_schedule(
                normalized_cron(new.cron@),
            ) is Ok
        },
        add_error(s, new) is None <==> trigger_error(new) is None && forall|i: int|
            0 <= i < s.len() ==> (#[trigger] s[i]).id@ != new.id@,
{
    found_is_listed(s, new.id@);
}

/// What a run leaves in its job: when it was, and how it ended; a job that
/// runs once is off, any other stays on or off as it was. Nothing else of the
/// job changes.
pub proof fn runs_leave_their_mark(
    before: Schedule,
    after: Schedule,
    now: UtcTime,
    run: Result<RunOutcome, Error>,
)
    requires
        is_recorded(before, after, now, exit_code_of(run)),
    ensures
        after.last_run is Some,
        run matches Ok(o) ==> after.last_exit == o.exit_code,
        run is Err ==> after.last_exit is None,
        before.run_at is Some ==> !after.enabled,
        before.run_at is None ==> after.enabled == before.enabled,
        after.id == before.id,
        after.cron == before.cron,
        after.run_at == before.run_at,
        after.cwd == before.cwd,
        after.prompt == before.prompt,
        after.model == before.model,
        after.max_iterations == before.max_iterations,
        after.timeout_secs == before.timeout_secs,
        after.watch_workspace == before.watch_workspace,
{
}

/// A job can run where it is there, enabled, and its directory exists; in no
/// other case.
pub proof fn jobs_run_where_nothing_stands_against_it(
    s: Seq<Schedule>,
    id: Seq<char>,
    cwd_exists: bool,
)
    ensures
        run_error(s, id, cwd_exists) is None <==> find_schedule(s, id) is Some && find_schedule(
            s,
            id,
        )->0.enabled && cwd_exists,
{
}

/// A value goes behind the name of its option.
pub open spec fn has_option(args: Seq<Seq<char>>, name: Seq<char>, value: Seq<char>) -> bool {
    exists|i: int| 0 <= i && i + 1 < args.len() && #[trigger] args[i] == name && args[i + 1] == value
}

/// A job's process gets the job's prompt, and its model and its limit where it
/// has them, and nothing else.
pub proof fn processes_get_their_job(s: Schedule)
    ensures
        has_option(job_args_of(s), "--print"@, s.prompt@),
        s.model matches Some(m) ==> has_option(job_args_of(s), "--model"@, m@),
        s.max_iterations matches Some(n) ==> has_option(
            job_args_of(s),
            "--max-iterations"@,
            text::decimal_of(n as nat),
        ),
        job_args_of(s).len() == 2 + (if s.model is Some {
            2int
        } else {
            0
        }) + (if s.max_iterations is Some {
            2int
        } else {
            0
        }),
{
    let a = job_args_of(s);
    assert(a[0] == "--print"@ && a[1] == s.prompt@);
    if s.model is Some {
        assert(a[2] == "--model"@);
    }
    if s.max_iterations is Some {
        assert(a[a.len() - 2] == "--max-iterations"@);
    }
}

/// The moments that are told of a cron expression follow one another with none
/// left out: the first is the next one after the moment asked about, each
/// further one the next after it. There are as many as asked for, unless none
/// comes after the last.
pub proof fn moments_follow_one_another(expr: Seq<char>, after: UtcTime, n: nat, i: int)
    requires
        0 <= i < cron_fires(expr, after, n).len(),
    ensures
        cron_fires(expr, after, n).len() <= n,
        cron_fire_after(
            expr,
            if i == 0 {
                after
            } else {
                cron_fires(expr, after, n)[i - 1]
            },
        ) == Some(cron_fires(expr, after, n)[i]),
        cron_fires(expr, after, n).len() < n ==> cron_fire_after(
            expr,
            cron_fires(expr, after, n).last(),
        ) is None,
    decreases n,
{
    let t = cron_fire_after(expr, after)->0;
    let rest = cron_fires(expr, t, (n - 1) as nat);
    let all = cron_fires(expr, after, n);
    assert(all =~= seq![t] + rest);
    if rest.len() > 0 {
        moments_follow_one_another(expr, t, (n - 1) as nat, if i == 0 { 0 } else { i - 1 });
        assert(all.last() == rest.last());
        if i > 0 {
            assert(all[i] == rest[i - 1]);
            if i > 1 {
                assert(all[i - 1] == rest[i - 2]);
            }
        }
    } else {
        assert(all.len() == 1);
    }
}

/// Nothing is told of a cron expression only where nothing comes, or where
/// nothing was asked for.
pub proof fn nothing_is_told_where_nothing_comes(expr: Seq<char>, after: UtcTime, n: nat)
    ensures
        cron_fires(expr, after, n).len() == 0 <==> n == 0 || cron_fire_after(expr, after) is None,
{
}

/// A cron expression of five fields comes round at the full minute: it is read
/// with a field of zero seconds in front of its own. Any other is read as it
/// is, and white space around it makes no difference.
pub proof fn five_fields_mean_the_full_minute(expr: Seq<char>, after: UtcTime)
    ensures
        text::words_of(text::trim_of(expr)).len() == 5 ==> text::words_of(normalized_cron(expr))
            == seq!["0"@] + text::words_of(text::trim_of(expr)),
        text::words_of(text::trim_of(expr)).len() != 5 ==> normalized_cron(expr) == text::trim_of(
            expr,
        ),
        cron_fire_after(text::trim_of(expr), after) == cron_fire_after(expr, after),
{
    reveal_strlit("0 ");
    reveal_strlit("0");
    let t = text::trim_of(expr);
    text::trimming_takes_space_only(expr);
    text::trimmed_text_stays(t);
    let z = "0 "@;
    assert(z.drop_last() =~= "0"@);
    text::a_word_is_itself("0"@);
    assert(text::words_of(z) == text::words_of("0"@));
    text::words_stand_one_after_the_other(z, t);
}

/// A job that comes round is due at the next moment of its cron expression,
/// whether or not it has run; one that runs once is due at its own moment
/// until it has run, and never after.
pub proof fn jobs_are_due_by_their_trigger(s: Schedule, cursor: UtcTime)
    ensures
        s.run_at is None ==> due_at(s, cursor) == cron_fire_after(s.cron@, cursor),
        s.run_at matches Some(t) ==> {
            &&& s.last_run is Some ==> due_at(s, cursor) is None
            &&& s.last_run is None ==> (clock::rfc3339_moment(text::trim_of(t@)) matches Ok(m)
                ==> due_at(s, cursor) == Some(m))
        },
{
}

} // verus!
