//! The tracker domain model: one timed session (`Log`) and one named
//! accumulator of sessions (`Tracker`), with their invariants.

use vstd::prelude::*;
use crate::clock;
use crate::render::{clock_string, duration_string, join_lines, spec_clock, spec_duration,
    spec_join};

verus! {

/// Why a tracker operation failed.
#[derive(Debug)]
pub enum TrackerError {
    /// No explicit target was given and no current tracker is selected.
    NoneSelected,
    /// An explicitly named tracker is absent from the set.
    DoesNotExist(String),
    /// Creation collided with an existing title.
    AlreadyExists(String),
    /// Start was requested while the tracker's last log is still open.
    AlreadyRunning,
    /// Stop was requested while no log is open.
    IsNotRunning,
    /// Stop was requested on a tracker with no logs at all.
    NoLogs,
}

/// The view of an optional borrowed note.
pub open spec fn opt_note_view(n: Option<&str>) -> Option<Seq<char>> {
    match n {
        Some(s) => Some(s@),
        None => None,
    }
}

/// The view of an optional owned note.
pub open spec fn opt_string_view(n: Option<String>) -> Option<Seq<char>> {
    match n {
        Some(s) => Some(s@),
        None => None,
    }
}

/// One timed work session: a start, an optional end, an optional note.
pub struct Log {
    pub start_time: u64,
    pub end_time: Option<u64>,
    pub notes: Option<String>,
}

/// A status line for `log`: an open session shows its live span and note, a
/// closed one its start and end clock times and note.
pub open spec fn brief_line(log: Log, s: Seq<char>) -> bool {
    if log.is_open() {
        exists|n: nat| s == spec_duration(n) + seq![' '] + log.spec_note()
    } else {
        exists|h0: nat, m0: nat, s0: nat, h1: nat, m1: nat, s1: nat|
            s == spec_clock(h0, m0, s0) + " -> "@ + spec_clock(h1, m1, s1) + seq![' ']
                + log.spec_note()
    }
}

/// A listing line for `log`: its start and end clock times and note, the
/// end left blank while the session is still open.
pub open spec fn full_line(log: Log, s: Seq<char>) -> bool {
    if log.is_open() {
        exists|h0: nat, m0: nat, s0: nat|
            s == spec_clock(h0, m0, s0) + " -> "@ + seq![' '] + log.spec_note()
    } else {
        exists|h0: nat, m0: nat, s0: nat, h1: nat, m1: nat, s1: nat|
            s == spec_clock(h0, m0, s0) + " -> "@ + spec_clock(h1, m1, s1) + seq![' ']
                + log.spec_note()
    }
}

impl Log {
    /// An open log is a session still running: no end time yet.
    pub open spec fn is_open(self) -> bool {
        self.end_time is None
    }

    /// The end, when present, never precedes the start.
    pub open spec fn wf(self) -> bool {
        self.end_time matches Some(e) ==> self.start_time <= e
    }

    /// The note shown for this log.
    pub open spec fn spec_note(self) -> Seq<char> {
        match self.notes {
            Some(n) => n@,
            None => "<untitled>"@,
        }
    }

    /// Whole seconds covered: up to the end when closed, else up to `now`.
    /// A clock that ran backwards counts as zero.
    pub open spec fn spec_elapsed(self, now: u64) -> nat
        recommends
            self.wf(),
    {
        match self.end_time {
            Some(e) => (e - self.start_time) as nat,
            None => if now >= self.start_time {
                (now - self.start_time) as nat
            } else {
                0
            },
        }
    }

    /// Begin a session at `start_time` with the given note.
    pub fn new_at(start_time: u64, notes: Option<String>) -> (r: Log)
        ensures
            r == (Log { start_time, end_time: None, notes }),
    {
        Log { start_time, end_time: None, notes }
    }

    /// Begin a session now.
    pub fn new(notes: Option<String>) -> (r: Log)
        ensures
            r.is_open(),
            r.notes == notes,
            r.wf(),
    {
        Log::new_at(clock::now_seconds(), notes)
    }

    /// The note, or a placeholder when none was given.
    pub fn get_note(&self) -> (r: &str)
        ensures
            r@ == self.spec_note(),
    {
        match &self.notes {
            Some(n) => n.as_str(),
            None => "<untitled>",
        }
    }

    /// Whether the session is still open.
    pub fn is_running(&self) -> (r: bool)
        ensures
            r == self.is_open(),
    {
        self.end_time.is_none()
    }

    /// Close an open session at `now`, returning its rendered span; `None`
    /// if it was already closed. A clock that moved backwards is clamped so
    /// the end never precedes the start.
    pub fn stop_at(&mut self, now: u64) -> (r: Option<String>)
        ensures
            r is Some <==> old(self).is_open(),
            !old(self).is_open() ==> *final(self) == *old(self),
            old(self).is_open() ==> ({
                let end = if now >= old(self).start_time {
                    now
                } else {
                    old(self).start_time
                };
                &&& *final(self) == (Log {
                    start_time: old(self).start_time,
                    end_time: Some(end),
                    notes: old(self).notes,
                })
                &&& r matches Some(s) && s@ == spec_duration((end - old(self).start_time) as nat)
            }),
            final(self).wf() || !old(self).wf(),
    {
        if self.end_time.is_none() {
            let end = if now >= self.start_time {
                now
            } else {
                self.start_time
            };
            self.end_time = Some(end);
            Some(duration_string(end - self.start_time))
        } else {
            None
        }
    }

    /// Close an open session now.
    pub fn stop(&mut self) -> (r: Option<String>)
        ensures
            r is Some <==> old(self).is_open(),
            !old(self).is_open() ==> *final(self) == *old(self),
            old(self).is_open() ==> final(self).start_time == old(self).start_time
                && final(self).notes == old(self).notes && !final(self).is_open(),
            old(self).wf() ==> final(self).wf(),
    {
        let now = clock::now_seconds();
        self.stop_at(now)
    }

    /// Render the span covered by this session, measured against `now`
    /// while it is still open.
    pub fn duration_at(&self, now: u64) -> (r: String)
        requires
            self.wf(),
        ensures
            r@ == spec_duration(self.spec_elapsed(now)),
    {
        match self.end_time {
            Some(e) => duration_string(e - self.start_time),
            None => duration_string(
                if now >= self.start_time {
                    now - self.start_time
                } else {
                    0
                },
            ),
        }
    }

    /// Render the span covered by this session; an open session is measured
    /// against the wall clock now.
    pub fn duration(&self) -> (r: String)
        requires
            self.wf(),
        ensures
            self.end_time matches Some(e) ==> r@ == spec_duration((e - self.start_time) as nat),
            self.is_open() ==> exists|now: u64| r@ == spec_duration(self.spec_elapsed(now)),
    {
        let now = clock::now_seconds();
        let r = self.duration_at(now);
        proof {
            assert(r@ == spec_duration(self.spec_elapsed(now)));
        }
        r
    }

    /// The local wall-clock time at which this session started, `H:MM:SS`.
    pub fn time0(&self) -> (r: String)
        ensures
            exists|h: nat, m: nat, s: nat|
                h < 24 && m < 60 && s < 60 && r@ == spec_clock(h, m, s),
    {
        let (h, m, s) = match clock::local_clock_parts(self.start_time) {
            Some(p) => p,
            None => (0, 0, 0),
        };
        let r = clock_string(h as u64, m as u64, s as u64);
        proof {
            assert(r@ == spec_clock(h as nat, m as nat, s as nat));
        }
        r
    }

    /// The local wall-clock time at which this session ended, if it has.
    pub fn time1(&self) -> (r: Option<String>)
        ensures
            r is Some <==> self.end_time is Some,
            r matches Some(out) ==> exists|h: nat, m: nat, s: nat|
                h < 24 && m < 60 && s < 60 && out@ == spec_clock(h, m, s),
    {
        match self.end_time {
            Some(e) => {
                let (h, m, s) = match clock::local_clock_parts(e) {
                    Some(p) => p,
                    None => (0, 0, 0),
                };
                let out = clock_string(h as u64, m as u64, s as u64);
                proof {
                    assert(out@ == spec_clock(h as nat, m as nat, s as nat));
                }
                Some(out)
            },
            None => None,
        }
    }
}

/// A named accumulator of work sessions.
pub struct Tracker {
    pub title: String,
    pub logs: Vec<Log>,
}

impl Tracker {
    /// Every log is well formed, and every log but the last is closed: at
    /// most one session is ever open, and then it is the newest.
    pub open spec fn wf(self) -> bool {
        &&& forall|i: int| 0 <= i < self.logs@.len() ==> (#[trigger] self.logs@[i]).wf()
        &&& forall|i: int| 0 <= i < self.logs@.len() - 1 ==> !(#[trigger] self.logs@[i]).is_open()
    }

    /// Running iff the newest log exists and is open.
    pub open spec fn spec_running(self) -> bool {
        self.logs@.len() > 0 && self.logs@.last().is_open()
    }

    /// A fresh tracker with no sessions.
    pub fn new(title: &str) -> (r: Tracker)
        ensures
            r.title@ == title@,
            r.logs@ == Seq::<Log>::empty(),
            r.wf(),
            !r.spec_running(),
    {
        Tracker { title: String::from_str(title), logs: Vec::new() }
    }

    /// The tracker's title.
    pub fn get_title(&self) -> (r: &str)
        ensures
            r@ == self.title@,
    {
        self.title.as_str()
    }

    fn last_log(&self) -> (r: Option<&Log>)
        ensures
            r matches Some(l) ==> self.logs@.len() > 0 && *l == self.logs@.last(),
            r is None ==> self.logs@.len() == 0,
    {
        let len = self.logs.len();
        if len > 0 {
            Some(&self.logs[len - 1])
        } else {
            None
        }
    }

    /// Whether a session is currently open.
    pub fn is_running(&self) -> (r: bool)
        ensures
            r == self.spec_running(),
    {
        match self.last_log() {
            Some(log) => log.is_running(),
            None => false,
        }
    }

    /// Start a session at `now` with the given note: Idle to Running.
    /// Succeeds exactly when no session is open.
    pub fn up_at(&mut self, now: u64, notes: Option<String>) -> (r: Result<(), TrackerError>)
        ensures
            final(self).title == old(self).title,
            r is Ok <==> !old(self).spec_running(),
            old(self).spec_running() ==> r == Err::<(), TrackerError>(TrackerError::AlreadyRunning)
                && *final(self) == *old(self),
            !old(self).spec_running() ==> final(self).logs@ == old(self).logs@.push(
                Log { start_time: now, end_time: None, notes },
            ),
            old(self).wf() ==> final(self).wf(),
            r is Ok ==> final(self).spec_running(),
    {
        let running = self.is_running();
        if running {
            return Err(TrackerError::AlreadyRunning);
        }
        self.logs.push(Log::new_at(now, notes));
        Ok(())
    }

    /// Start a session now with the given note.
    pub fn up(&mut self, notes: Option<&str>) -> (r: Result<(), TrackerError>)
        ensures
            final(self).title == old(self).title,
            r is Ok <==> !old(self).spec_running(),
            old(self).spec_running() ==> r == Err::<(), TrackerError>(TrackerError::AlreadyRunning)
                && *final(self) == *old(self),
            !old(self).spec_running() ==> final(self).logs@.len() == old(self).logs@.len() + 1
                && final(self).logs@.drop_last() == old(self).logs@
                && final(self).logs@.last().is_open()
                && opt_string_view(final(self).logs@.last().notes) == opt_note_view(notes),
            old(self).wf() ==> final(self).wf(),
            r is Ok ==> final(self).spec_running(),
    {
        let owned: Option<String> = match notes {
            Some(s) => Some(String::from_str(s)),
            None => None,
        };
        let r = self.up_at(clock::now_seconds(), owned);
        proof {
            if !old(self).spec_running() {
                assert(self.logs@.drop_last() =~= old(self).logs@);
            }
        }
        r
    }

    /// Close the open session at `now`: Running to Idle. Succeeds exactly
    /// when a session is open, returning that session's note.
    pub fn down_at(&mut self, now: u64) -> (r: Result<String, TrackerError>)
        requires
            old(self).wf(),
        ensures
            final(self).title == old(self).title,
            final(self).wf(),
            r is Ok <==> old(self).spec_running(),
            old(self).logs@.len() == 0 ==> r == Err::<String, TrackerError>(TrackerError::NoLogs)
                && *final(self) == *old(self),
            old(self).logs@.len() > 0 && !old(self).spec_running() ==> r == Err::<
                String,
                TrackerError,
            >(TrackerError::IsNotRunning) && *final(self) == *old(self),
            old(self).spec_running() ==> ({
                let last = old(self).logs@.last();
                let end = if now >= last.start_time {
                    now
                } else {
                    last.start_time
                };
                &&& final(self).logs@ == old(self).logs@.update(
                    old(self).logs@.len() - 1,
                    Log { start_time: last.start_time, end_time: Some(end), notes: last.notes },
                )
                &&& r matches Ok(s) && s@ == last.spec_note()
            }),
    {
        let len = self.logs.len();
        if len == 0 {
            return Err(TrackerError::NoLogs);
        }
        let running = self.is_running();
        if !running {
            return Err(TrackerError::IsNotRunning);
        }
        let log = &mut self.logs[len - 1];
        let _span = log.stop_at(now);
        let note = {
            let l = &self.logs[len - 1];
            String::from_str(l.get_note())
        };
        Ok(note)
    }

    /// Close the open session now, returning its note.
    pub fn down(&mut self) -> (r: Result<String, TrackerError>)
        requires
            old(self).wf(),
        ensures
            final(self).title == old(self).title,
            final(self).wf(),
            r is Ok <==> old(self).spec_running(),
            old(self).logs@.len() == 0 ==> r == Err::<String, TrackerError>(TrackerError::NoLogs)
                && *final(self) == *old(self),
            old(self).logs@.len() > 0 && !old(self).spec_running() ==> r == Err::<
                String,
                TrackerError,
            >(TrackerError::IsNotRunning) && *final(self) == *old(self),
            old(self).spec_running() ==> final(self).logs@.len() == old(self).logs@.len()
                && final(self).logs@.drop_last() == old(self).logs@.drop_last()
                && !final(self).logs@.last().is_open()
                && final(self).logs@.last().start_time == old(self).logs@.last().start_time
                && final(self).logs@.last().notes == old(self).logs@.last().notes
                && (r matches Ok(s) && s@ == old(self).logs@.last().spec_note()),
    {
        let now = clock::now_seconds();
        let r = self.down_at(now);
        proof {
            if old(self).spec_running() {
                assert(self.logs@.drop_last() =~= old(self).logs@.drop_last());
            }
        }
        r
    }

    /// At most one log is ever open, and an open log is the newest: two
    /// open logs of a well-formed tracker are one and the same, the last.
    pub proof fn lemma_single_open_log(self, i: int, j: int)
        requires
            self.wf(),
            0 <= i < self.logs@.len(),
            0 <= j < self.logs@.len(),
            self.logs@[i].is_open(),
            self.logs@[j].is_open(),
        ensures
            i == j,
            i == self.logs@.len() - 1,
    {
        assert(i < self.logs@.len() - 1 ==> !self.logs@[i].is_open());
        assert(j < self.logs@.len() - 1 ==> !self.logs@[j].is_open());
    }

    /// Render one log for the status view.
    fn render_brief(log: &Log, now: u64) -> (r: String)
        requires
            log.wf(),
        ensures
            brief_line(*log, r@),
    {
        if log.is_running() {
            let mut out = log.duration_at(now);
            out.append(" ");
            out.append(log.get_note());
            proof {
                reveal_strlit(" ");
                assert(out@ =~= spec_duration(log.spec_elapsed(now)) + seq![' ']
                    + log.spec_note());
            }
            out
        } else {
            let t0 = log.time0();
            let t1 = match log.time1() {
                Some(s) => s,
                None => {
                    proof {
                        assert(false);
                    }
                    String::new()
                },
            };
            let ghost t0v = t0@;
            let ghost t1v = t1@;
            let mut out = t0;
            out.append(" -> ");
            out.append(t1.as_str());
            out.append(" ");
            out.append(log.get_note());
            proof {
                reveal_strlit(" ");
                let (h0, m0, s0) = choose|h0: nat, m0: nat, s0: nat|
                    h0 < 24 && m0 < 60 && s0 < 60 && t0v == spec_clock(h0, m0, s0);
                let (h1, m1, s1) = choose|h1: nat, m1: nat, s1: nat|
                    h1 < 24 && m1 < 60 && s1 < 60 && t1v == spec_clock(h1, m1, s1);
                assert(out@ =~= spec_clock(h0, m0, s0) + " -> "@ + spec_clock(h1, m1, s1)
                    + seq![' '] + log.spec_note());
                assert(brief_line(*log, out@));
            }
            out
        }
    }

    /// The number of logs shown by the status view: the newest, up to 3.
    pub open spec fn spec_brief_count(self) -> int {
        if self.logs@.len() >= 3 {
            3
        } else {
            self.logs@.len() as int
        }
    }

    /// `lines` are status lines for the newest logs, newest first.
    pub open spec fn brief_lines(self, lines: Seq<Seq<char>>) -> bool {
        &&& lines.len() == self.spec_brief_count()
        &&& forall|k: int|
            0 <= k < lines.len() ==> brief_line(
                self.logs@[self.logs@.len() - 1 - k],
                #[trigger] lines[k],
            )
    }

    /// Render the newest logs, up to 3, newest first, one line each.
    pub fn get_last_3_logs(&self) -> (r: String)
        requires
            self.wf(),
        ensures
            exists|lines: Seq<Seq<char>>| self.brief_lines(lines) && r@ == spec_join(lines),
    {
        let now = clock::now_seconds();
        let len = self.logs.len();
        let count = if len >= 3 {
            3
        } else {
            len
        };
        let mut v: Vec<String> = Vec::new();
        let mut k: usize = 0;
        while k < count
            invariant
                k <= count,
                count == self.spec_brief_count(),
                count <= len,
                len == self.logs@.len(),
                self.wf(),
                v@.len() == k,
                forall|i: int|
                    0 <= i < k ==> brief_line(self.logs@[self.logs@.len() - 1 - i], (#[trigger] v@[i])@),
            decreases count - k,
        {
            let line = Self::render_brief(&self.logs[len - 1 - k], now);
            v.push(line);
            k = k + 1;
        }
        let r = join_lines(&v);
        proof {
            let lines = v@.map_values(|s: String| s@);
            assert forall|i: int| 0 <= i < lines.len() implies brief_line(
                self.logs@[self.logs@.len() - 1 - i],
                #[trigger] lines[i],
            ) by {
                assert(lines[i] == v@[i]@);
            }
            assert(self.brief_lines(lines));
        }
        r
    }

    /// Render every log in chronological order, one line each.
    pub fn render_logs(&self) -> (r: Vec<String>)
        requires
            self.wf(),
        ensures
            r@.len() == self.logs@.len(),
            forall|i: int| 0 <= i < r@.len() ==> full_line(self.logs@[i], (#[trigger] r@[i])@),
    {
        let len = self.logs.len();
        let mut v: Vec<String> = Vec::new();
        let mut k: usize = 0;
        while k < len
            invariant
                k <= len,
                len == self.logs@.len(),
                self.wf(),
                v@.len() == k,
                forall|i: int| 0 <= i < k ==> full_line(self.logs@[i], (#[trigger] v@[i])@),
            decreases len - k,
        {
            let line = Self::render_full(&self.logs[k]);
            v.push(line);
            k = k + 1;
        }
        v
    }

    /// Render one log for the listing view: start, arrow, end (blank while
    /// open), note.
    fn render_full(log: &Log) -> (r: String)
        requires
            log.wf(),
        ensures
            full_line(*log, r@),
    {
        let t0 = log.time0();
        let ghost t0v = t0@;
        let mut out = t0;
        out.append(" -> ");
        match log.time1() {
            Some(t1) => {
                let ghost t1v = t1@;
                out.append(t1.as_str());
                out.append(" ");
                out.append(log.get_note());
                proof {
                    reveal_strlit(" ");
                    let (h0, m0, s0) = choose|h0: nat, m0: nat, s0: nat|
                        h0 < 24 && m0 < 60 && s0 < 60 && t0v == spec_clock(h0, m0, s0);
                    let (h1, m1, s1) = choose|h1: nat, m1: nat, s1: nat|
                        h1 < 24 && m1 < 60 && s1 < 60 && t1v == spec_clock(h1, m1, s1);
                    assert(out@ =~= spec_clock(h0, m0, s0) + " -> "@ + spec_clock(h1, m1, s1)
                        + seq![' '] + log.spec_note());
                    assert(full_line(*log, out@));
                }
            },
            None => {
                out.append(" ");
                out.append(log.get_note());
                proof {
                    reveal_strlit(" ");
                    let (h0, m0, s0) = choose|h0: nat, m0: nat, s0: nat|
                        h0 < 24 && m0 < 60 && s0 < 60 && t0v == spec_clock(h0, m0, s0);
                    assert(out@ =~= spec_clock(h0, m0, s0) + " -> "@ + seq![' ']
                        + log.spec_note());
                    assert(full_line(*log, out@));
                }
            },
        }
        out
    }
}

} // verus!
