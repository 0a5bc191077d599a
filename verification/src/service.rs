//! The application service: the operations a user invokes over the set of
//! trackers, the target-resolution policy and the error taxonomy.

use vstd::prelude::*;
use crate::model::{brief_line, full_line, opt_note_view, opt_string_view, Log, Tracker,
    TrackerError};
use crate::order::{lex_lt, lex_sorted, sort_strings};
use crate::render::spec_join;

verus! {

/// The root aggregate: every tracker, and the optional current selection.
///
/// The selection is a plain title, not a handle: every read through it
/// re-validates that a tracker of that title still exists.
pub struct App {
    pub trackers: Vec<Tracker>,
    pub curr: Option<String>,
}

/// A resolved target: the title to act on, and whether it came from the
/// current selection rather than from an explicit argument.
pub struct TrackerPackage(pub String, pub bool);

/// One line of the tracker listing: the title, prefixed with a marker for
/// the current tracker or with blanks.
pub open spec fn list_line(title: Seq<char>, current: bool) -> Seq<char> {
    (if current {
        "> "@
    } else {
        "  "@
    }) + title
}

impl App {
    /// Every tracker is well formed and no two share a title.
    pub open spec fn wf(self) -> bool {
        &&& forall|i: int| 0 <= i < self.trackers@.len() ==> (#[trigger] self.trackers@[i]).wf()
        &&& forall|i: int, j: int|
            0 <= i < j < self.trackers@.len() ==> self.trackers@[i].title@
                != self.trackers@[j].title@
    }

    /// Whether some tracker carries this title.
    pub open spec fn spec_has(self, title: Seq<char>) -> bool {
        exists|i: int|
            0 <= i < self.trackers@.len() && (#[trigger] self.trackers@[i]).title@ == title
    }

    /// The current selection's title, as a view.
    pub open spec fn curr_view(self) -> Option<Seq<char>> {
        match self.curr {
            Some(c) => Some(c@),
            None => None,
        }
    }

    /// `s` is the listing line of the tracker at index `i`: its title,
    /// marked when it is the current one.
    pub open spec fn line_of(self, i: int, s: Seq<char>) -> bool {
        s == list_line(
            self.trackers@[i].title@,
            self.curr_view() == Some(self.trackers@[i].title@),
        )
    }

    /// `s` is the listing line of some tracker.
    pub open spec fn line_names_tracker(self, s: Seq<char>) -> bool {
        exists|i: int| 0 <= i < self.trackers@.len() && #[trigger] self.line_of(i, s)
    }

    /// The tracker at index `i` owns one of the listing lines.
    pub open spec fn tracker_has_line(self, i: int, lines: Seq<String>) -> bool {
        exists|k: int| 0 <= k < lines.len() && self.line_of(i, (#[trigger] lines[k])@)
    }

    /// `i` is the index of the tracker an operation acts on, after
    /// resolving the optional explicit title against the current selection:
    /// an explicit title always wins.
    pub open spec fn resolves_to(self, title: Option<&str>, i: int) -> bool {
        &&& 0 <= i < self.trackers@.len()
        &&& match title {
            Some(t) => self.trackers@[i].title@ == t@,
            None => self.curr matches Some(c) && self.trackers@[i].title@ == c@,
        }
    }

    /// No explicit title and no current selection.
    pub open spec fn resolution_none(self, title: Option<&str>) -> bool {
        title is None && self.curr is None
    }

    /// Fallback to a current selection that no longer names a tracker.
    pub open spec fn resolution_stale(self, title: Option<&str>) -> bool {
        title is None && (self.curr matches Some(c) && !self.spec_has(c@))
    }

    /// An explicit title that names no tracker.
    pub open spec fn resolution_absent(self, title: Option<&str>) -> bool {
        title matches Some(t) && !self.spec_has(t@)
    }

    /// An empty application: no trackers, nothing current.
    pub fn new() -> (r: App)
        ensures
            r.trackers@ == Seq::<Tracker>::empty(),
            r.curr is None,
            r.wf(),
    {
        App { trackers: Vec::new(), curr: None }
    }

    /// Pick the title an operation acts on: an explicit title wins over the
    /// current selection; with neither, nothing is selected.
    pub fn decide_title(&self, title: Option<&str>) -> (r: Result<TrackerPackage, TrackerError>)
        ensures
            title matches Some(t) ==> (r matches Ok(p) && p.0@ == t@ && !p.1),
            title is None ==> (self.curr matches Some(c) ==> (r matches Ok(p) && p.0@ == c@
                && p.1)),
            self.resolution_none(title) <==> r == Err::<TrackerPackage, TrackerError>(
                TrackerError::NoneSelected,
            ),
    {
        match title {
            Some(t) => Ok(TrackerPackage(String::from_str(t), false)),
            None => match &self.curr {
                Some(c) => Ok(TrackerPackage(c.clone(), true)),
                None => Err(TrackerError::NoneSelected),
            },
        }
    }

    fn find_index(&self, title: &str) -> (r: Option<usize>)
        ensures
            r matches Some(i) ==> i < self.trackers@.len() && self.trackers@[i as int].title@
                == title@,
            r is None <==> !self.spec_has(title@),
    {
        let t = String::from_str(title);
        let n = self.trackers.len();
        let mut i: usize = 0;
        while i < n
            invariant
                i <= n,
                n == self.trackers@.len(),
                t@ == title@,
                forall|k: int| 0 <= k < i ==> (#[trigger] self.trackers@[k]).title@ != title@,
            decreases n - i,
        {
            if self.trackers[i].title == t {
                return Some(i);
            }
            i = i + 1;
        }
        None
    }

    /// Resolve the target of an operation to a tracker index. A stale
    /// current selection is cleared (self-healing) and reported as no
    /// selection, since the user never asked for that title; an absent
    /// explicit title is the user's own error and leaves the selection
    /// untouched.
    fn resolve_index(&mut self, title: Option<&str>) -> (r: Result<usize, TrackerError>)
        ensures
            final(self).trackers == old(self).trackers,
            r matches Ok(i) ==> old(self).resolves_to(title, i as int) && *final(self) == *old(self),
            old(self).resolution_none(title) ==> r == Err::<usize, TrackerError>(
                TrackerError::NoneSelected,
            ) && *final(self) == *old(self),
            old(self).resolution_stale(title) ==> r == Err::<usize, TrackerError>(
                TrackerError::NoneSelected,
            ) && final(self).curr is None,
            old(self).resolution_absent(title) ==> (r matches Err(e) && (e matches
                TrackerError::DoesNotExist(s) && (title matches Some(t) && s@ == t@))) && *final(self) == *old(self),
            r is Ok <==> !(old(self).resolution_none(title) || old(self).resolution_stale(title)
                || old(self).resolution_absent(title)),
    {
        let p = match self.decide_title(title) {
            Ok(p) => p,
            Err(e) => {
                return Err(e);
            },
        };
        match self.find_index(p.0.as_str()) {
            Some(i) => Ok(i),
            None => {
                if p.1 {
                    self.curr = None;
                    Err(TrackerError::NoneSelected)
                } else {
                    Err(TrackerError::DoesNotExist(p.0))
                }
            },
        }
    }

    /// Create a tracker under a fresh title, and make it current when
    /// nothing was selected; a colliding title changes nothing.
    pub fn new_tracker(&mut self, title: &str) -> (r: Result<String, TrackerError>)
        requires
            old(self).wf(),
        ensures
            final(self).wf(),
            r is Ok <==> !old(self).spec_has(title@),
            old(self).spec_has(title@) ==> (r matches Err(e) && (e matches
                TrackerError::AlreadyExists(s) && s@ == title@)) && *final(self) == *old(self),
            !old(self).spec_has(title@) ==> ({
                &&& r matches Ok(s) && s@ == title@
                &&& final(self).trackers@.len() == old(self).trackers@.len() + 1
                &&& final(self).trackers@.drop_last() == old(self).trackers@
                &&& final(self).trackers@.last().title@ == title@
                &&& final(self).trackers@.last().logs@ == Seq::<Log>::empty()
                &&& (old(self).curr is Some ==> final(self).curr == old(self).curr)
                &&& (old(self).curr is None ==> final(self).curr_view() == Some(title@))
            }),
    {
        match self.find_index(title) {
            Some(_) => Err(TrackerError::AlreadyExists(String::from_str(title))),
            None => {
                self.trackers.push(Tracker::new(title));
                if self.curr.is_none() {
                    self.curr = Some(String::from_str(title));
                }
                proof {
                    assert(self.trackers@.drop_last() =~= old(self).trackers@);
                    assert forall|i: int, j: int|
                        0 <= i < j < self.trackers@.len() implies self.trackers@[i].title@
                        != self.trackers@[j].title@ by {
                        if j == self.trackers@.len() - 1 {
                            assert(old(self).trackers@[i].title@ != title@);
                        } else {
                            assert(old(self).trackers@[i].title@
                                != old(self).trackers@[j].title@);
                        }
                    }
                }
                Ok(String::from_str(title))
            },
        }
    }

    /// Delete the resolved tracker, and clear the current selection when it
    /// pointed at the deleted title.
    pub fn del_tracker(&mut self, title: Option<&str>) -> (r: Result<String, TrackerError>)
        requires
            old(self).wf(),
        ensures
            final(self).wf(),
            old(self).resolution_none(title) ==> r == Err::<String, TrackerError>(
                TrackerError::NoneSelected,
            ) && *final(self) == *old(self),
            old(self).resolution_stale(title) ==> r == Err::<String, TrackerError>(
                TrackerError::NoneSelected,
            ) && final(self).trackers == old(self).trackers && final(self).curr is None,
            old(self).resolution_absent(title) ==> (r matches Err(e) && (e matches
                TrackerError::DoesNotExist(s) && (title matches Some(t) && s@ == t@))) && *final(self) == *old(self),
            forall|i: int|
                #[trigger] old(self).resolves_to(title, i) ==> ({
                    let gone = old(self).trackers@[i].title@;
                    &&& r matches Ok(s) && s@ == gone
                    &&& final(self).trackers@ == old(self).trackers@.remove(i)
                    &&& (old(self).curr_view() == Some(gone) ==> final(self).curr is None)
                    &&& (old(self).curr matches Some(c) && c@ != gone ==> final(self).curr == old(self).curr)
                }),
    {
        let i = match self.resolve_index(title) {
            Ok(i) => i,
            Err(e) => {
                return Err(e);
            },
        };
        let t = self.trackers.remove(i);
        let stale = match &self.curr {
            Some(c) => *c == t.title,
            None => false,
        };
        if stale {
            self.curr = None;
        }
        proof {
            assert forall|a: int, b: int|
                0 <= a < b < self.trackers@.len() implies self.trackers@[a].title@
                != self.trackers@[b].title@ by {
                let pa = if a < i as int {
                    a
                } else {
                    a + 1
                };
                let pb = if b < i as int {
                    b
                } else {
                    b + 1
                };
                assert(old(self).trackers@[pa].title@ != old(self).trackers@[pb].title@);
            }
        }
        Ok(t.title)
    }

    /// Start a session on the resolved tracker with the given note: fails
    /// when it is already running, else appends one open log.
    pub fn run_tracker(&mut self, title: Option<&str>, notes: Option<&str>) -> (r: Result<
        String,
        TrackerError,
    >)
        requires
            old(self).wf(),
        ensures
            final(self).wf(),
            old(self).resolution_none(title) ==> r == Err::<String, TrackerError>(
                TrackerError::NoneSelected,
            ) && *final(self) == *old(self),
            old(self).resolution_stale(title) ==> r == Err::<String, TrackerError>(
                TrackerError::NoneSelected,
            ) && final(self).trackers == old(self).trackers && final(self).curr is None,
            old(self).resolution_absent(title) ==> (r matches Err(e) && (e matches
                TrackerError::DoesNotExist(s) && (title matches Some(t) && s@ == t@))) && *final(self) == *old(self),
            forall|i: int|
                #[trigger] old(self).resolves_to(title, i) ==> ({
                    let t = old(self).trackers@[i];
                    &&& final(self).curr == old(self).curr
                    &&& (t.spec_running() ==> r == Err::<String, TrackerError>(
                        TrackerError::AlreadyRunning,
                    ) && *final(self) == *old(self))
                    &&& (!t.spec_running() ==> ({
                        &&& r matches Ok(s) && s@ == "Running..."@
                        &&& final(self).trackers@.len() == old(self).trackers@.len()
                        &&& (forall|j: int|
                            0 <= j < old(self).trackers@.len() && j != i
                                ==> final(self).trackers@[j] == old(self).trackers@[j])
                        &&& final(self).trackers@[i].title == t.title
                        &&& final(self).trackers@[i].logs@.len() == t.logs@.len() + 1
                        &&& final(self).trackers@[i].logs@.drop_last() == t.logs@
                        &&& final(self).trackers@[i].logs@.last().is_open()
                        &&& opt_string_view(final(self).trackers@[i].logs@.last().notes)
                            == opt_note_view(notes)
                        &&& final(self).trackers@[i].spec_running()
                    }))
                }),
    {
        let i = match self.resolve_index(title) {
            Ok(i) => i,
            Err(e) => {
                return Err(e);
            },
        };
        proof {
            assert forall|k: int| old(self).resolves_to(title, k) implies k == i as int by {
                if k != i as int {
                    let a = if k < i as int {
                        k
                    } else {
                        i as int
                    };
                    let b = if k < i as int {
                        i as int
                    } else {
                        k
                    };
                    assert(old(self).trackers@[a].title@ != old(self).trackers@[b].title@);
                }
            }
        }
        let running = {
            let t = &self.trackers[i];
            t.is_running()
        };
        if running {
            return Err(TrackerError::AlreadyRunning);
        }
        let tracker = &mut self.trackers[i];
        let res = tracker.up(notes);
        proof {
            assert forall|a: int, b: int|
                0 <= a < b < self.trackers@.len() implies self.trackers@[a].title@
                != self.trackers@[b].title@ by {
                assert(old(self).trackers@[a].title@ != old(self).trackers@[b].title@);
            }
        }
        match res {
            Ok(_) => Ok(String::from_str("Running...")),
            Err(_) => {
                proof {
                    assert(false);
                }
                Err(TrackerError::AlreadyRunning)
            },
        }
    }

    /// Close the open session on the resolved tracker: fails when it has no
    /// logs or none is open, else records the end and reports the note.
    pub fn end_tracker(&mut self, title: Option<&str>) -> (r: Result<String, TrackerError>)
        requires
            old(self).wf(),
        ensures
            final(self).wf(),
            old(self).resolution_none(title) ==> r == Err::<String, TrackerError>(
                TrackerError::NoneSelected,
            ) && *final(self) == *old(self),
            old(self).resolution_stale(title) ==> r == Err::<String, TrackerError>(
                TrackerError::NoneSelected,
            ) && final(self).trackers == old(self).trackers && final(self).curr is None,
            old(self).resolution_absent(title) ==> (r matches Err(e) && (e matches
                TrackerError::DoesNotExist(s) && (title matches Some(t) && s@ == t@))) && *final(self) == *old(self),
            forall|i: int|
                #[trigger] old(self).resolves_to(title, i) ==> ({
                    let t = old(self).trackers@[i];
                    &&& final(self).curr == old(self).curr
                    &&& (t.logs@.len() == 0 ==> r == Err::<String, TrackerError>(
                        TrackerError::NoLogs,
                    ) && *final(self) == *old(self))
                    &&& (t.logs@.len() > 0 && !t.spec_running() ==> r == Err::<
                        String,
                        TrackerError,
                    >(TrackerError::IsNotRunning) && *final(self) == *old(self))
                    &&& (t.spec_running() ==> ({
                        &&& r matches Ok(s) && s@ == "Stopping... "@ + t.logs@.last().spec_note()
                        &&& final(self).trackers@.len() == old(self).trackers@.len()
                        &&& (forall|j: int|
                            0 <= j < old(self).trackers@.len() && j != i
                                ==> final(self).trackers@[j] == old(self).trackers@[j])
                        &&& final(self).trackers@[i].title == t.title
                        &&& final(self).trackers@[i].logs@.len() == t.logs@.len()
                        &&& final(self).trackers@[i].logs@.drop_last() == t.logs@.drop_last()
                        &&& !final(self).trackers@[i].logs@.last().is_open()
                        &&& final(self).trackers@[i].logs@.last().start_time
                            == t.logs@.last().start_time
                        &&& final(self).trackers@[i].logs@.last().notes == t.logs@.last().notes
                    }))
                }),
    {
        let i = match self.resolve_index(title) {
            Ok(i) => i,
            Err(e) => {
                return Err(e);
            },
        };
        proof {
            assert forall|k: int| old(self).resolves_to(title, k) implies k == i as int by {
                if k != i as int {
                    let a = if k < i as int {
                        k
                    } else {
                        i as int
                    };
                    let b = if k < i as int {
                        i as int
                    } else {
                        k
                    };
                    assert(old(self).trackers@[a].title@ != old(self).trackers@[b].title@);
                }
            }
        }
        let empty = {
            let t = &self.trackers[i];
            t.logs.len() == 0
        };
        if empty {
            return Err(TrackerError::NoLogs);
        }
        let running = {
            let t = &self.trackers[i];
            t.is_running()
        };
        if !running {
            return Err(TrackerError::IsNotRunning);
        }
        proof {
            assert(old(self).trackers@[i as int].wf());
        }
        let tracker = &mut self.trackers[i];
        let res = tracker.down();
        proof {
            assert forall|a: int, b: int|
                0 <= a < b < self.trackers@.len() implies self.trackers@[a].title@
                != self.trackers@[b].title@ by {
                assert(old(self).trackers@[a].title@ != old(self).trackers@[b].title@);
            }
        }
        match res {
            Ok(note) => {
                let mut out = String::from_str("Stopping... ");
                out.append(note.as_str());
                Ok(out)
            },
            Err(_) => {
                proof {
                    assert(false);
                }
                Err(TrackerError::IsNotRunning)
            },
        }
    }

    /// Make an existing tracker current; an absent title changes nothing.
    pub fn swp_tracker<'a>(&'a mut self, title: &'a str) -> (r: Result<&'a str, TrackerError>)
        requires
            old(self).wf(),
        ensures
            final(self).wf(),
            final(self).trackers == old(self).trackers,
            old(self).spec_has(title@) ==> (r matches Ok(s) && s@ == title@) && final(self).curr_view() == Some(title@),
            !old(self).spec_has(title@) ==> (r matches Err(e) && (e matches
                TrackerError::DoesNotExist(s) && s@ == title@)) && final(self).curr == old(self).curr,
    {
        match self.find_index(title) {
            Some(_) => {
                self.curr = Some(String::from_str(title));
                Ok(title)
            },
            None => Err(TrackerError::DoesNotExist(String::from_str(title))),
        }
    }

    /// Compose the status summary of the resolved tracker: its title,
    /// whether it is running or idle, then its newest logs (up to 3),
    /// newest first.
    pub fn output_state_of_tracker(&mut self, title: Option<&str>) -> (r: Result<
        String,
        TrackerError,
    >)
        requires
            old(self).wf(),
        ensures
            final(self).wf(),
            final(self).trackers == old(self).trackers,
            old(self).resolution_none(title) ==> r == Err::<String, TrackerError>(
                TrackerError::NoneSelected,
            ) && *final(self) == *old(self),
            old(self).resolution_stale(title) ==> r == Err::<String, TrackerError>(
                TrackerError::NoneSelected,
            ) && final(self).curr is None,
            old(self).resolution_absent(title) ==> (r matches Err(e) && (e matches
                TrackerError::DoesNotExist(s) && (title matches Some(t) && s@ == t@))) && *final(self) == *old(self),
            forall|i: int|
                #[trigger] old(self).resolves_to(title, i) ==> ({
                    let t = old(self).trackers@[i];
                    &&& final(self).curr == old(self).curr
                    &&& r matches Ok(s) && exists|lines: Seq<Seq<char>>|
                        t.brief_lines(lines) && s@ == t.title@ + ": "@ + (if t.spec_running() {
                            "running"@
                        } else {
                            "idle"@
                        }) + seq!['\n'] + spec_join(lines)
                }),
    {
        let i = match self.resolve_index(title) {
            Ok(i) => i,
            Err(e) => {
                return Err(e);
            },
        };
        let tracker = &self.trackers[i];
        let mut out = String::from_str(tracker.get_title());
        out.append(": ");
        if tracker.is_running() {
            out.append("running");
        } else {
            out.append("idle");
        }
        out.append("\n");
        let tail = tracker.get_last_3_logs();
        out.append(tail.as_str());
        proof {
            reveal_strlit("\n");
            let t = old(self).trackers@[i as int];
            let lines = choose|lines: Seq<Seq<char>>|
                t.brief_lines(lines) && tail@ == spec_join(lines);
            if t.spec_running() {
                assert(out@ =~= t.title@ + ": "@ + "running"@ + seq!['\n'] + spec_join(lines));
            } else {
                assert(out@ =~= t.title@ + ": "@ + "idle"@ + seq!['\n'] + spec_join(lines));
            }
        }
        Ok(out)
    }

    /// All logs of the resolved tracker, in chronological order, one
    /// rendered line each.
    pub fn log_tracker(&mut self, title: Option<&str>) -> (r: Result<Vec<String>, TrackerError>)
        requires
            old(self).wf(),
        ensures
            final(self).wf(),
            final(self).trackers == old(self).trackers,
            old(self).resolution_none(title) ==> r == Err::<Vec<String>, TrackerError>(
                TrackerError::NoneSelected,
            ) && *final(self) == *old(self),
            old(self).resolution_stale(title) ==> r == Err::<Vec<String>, TrackerError>(
                TrackerError::NoneSelected,
            ) && final(self).curr is None,
            old(self).resolution_absent(title) ==> (r matches Err(e) && (e matches
                TrackerError::DoesNotExist(s) && (title matches Some(t) && s@ == t@))) && *final(self) == *old(self),
            forall|i: int|
                #[trigger] old(self).resolves_to(title, i) ==> ({
                    let t = old(self).trackers@[i];
                    &&& final(self).curr == old(self).curr
                    &&& r matches Ok(lines) && lines@.len() == t.logs@.len() && (forall|k: int|
                        0 <= k < t.logs@.len() ==> full_line(t.logs@[k], (#[trigger] lines@[k])@))
                }),
    {
        let i = match self.resolve_index(title) {
            Ok(i) => i,
            Err(e) => {
                return Err(e);
            },
        };
        let tracker = &self.trackers[i];
        Ok(tracker.render_logs())
    }

    /// Every tracker title in strictly ascending lexicographic order, the
    /// current one marked; `None` when no tracker exists, so the caller can
    /// render a dedicated message.
    #[verifier::rlimit(50)]
    pub fn list_all_trackers(&self) -> (r: Option<Vec<String>>)
        requires
            self.wf(),
        ensures
            r is None <==> self.trackers@.len() == 0,
            r matches Some(lines) ==> ({
                &&& lines@.len() == self.trackers@.len()
                &&& (forall|k: int|
                    0 <= k < lines@.len() ==> self.line_names_tracker((#[trigger] lines@[k])@))
                &&& (forall|i: int|
                    0 <= i < self.trackers@.len() ==> self.tracker_has_line(i, lines@))
                &&& (forall|p: int, q: int| #![trigger lines@[p], lines@[q]]
                    0 <= p < q < lines@.len() ==> lex_lt(lines@[p]@.skip(2), lines@[q]@.skip(2)))
            }),
    {
        let n = self.trackers.len();
        if n == 0 {
            return None;
        }
        let mut titles: Vec<String> = Vec::new();
        let mut i: usize = 0;
        while i < n
            invariant
                i <= n,
                n == self.trackers@.len(),
                titles@.len() == i,
                forall|k: int| 0 <= k < i ==> titles@[k] == (#[trigger] self.trackers@[k]).title,
            decreases n - i,
        {
            let t = self.trackers[i].title.clone();
            titles.push(t);
            i = i + 1;
        }
        let ghost titles_seq = titles@;
        let sorted = sort_strings(titles);
        proof {
            self.lemma_list_links(titles_seq, sorted@);
        }
        let mut lines: Vec<String> = Vec::new();
        let mut k: usize = 0;
        while k < sorted.len()
            invariant
                k <= sorted@.len(),
                self.wf(),
                lines@.len() == k,
                n == self.trackers@.len(),
                titles_seq.len() == n,
                sorted@.len() == n,
                forall|a: int| 0 <= a < n ==> titles_seq[a] == (#[trigger] self.trackers@[a]).title,
                forall|a: int, b: int| #![trigger sorted@[a], sorted@[b]]
                    0 <= a < b < sorted@.len() ==> lex_lt(sorted@[a]@, sorted@[b]@),
                forall|a: int| 0 <= a < sorted@.len() ==> titles_seq.contains(#[trigger] sorted@[a]),
                forall|a: int|
                    0 <= a < k ==> (#[trigger] lines@[a])@ == list_line(
                        sorted@[a]@,
                        self.curr_view() == Some(sorted@[a]@),
                    ),
            decreases sorted@.len() - k,
        {
            let current = match &self.curr {
                Some(c) => *c == sorted[k],
                None => false,
            };
            let mut line = if current {
                String::from_str("> ")
            } else {
                String::from_str("  ")
            };
            line.append(sorted[k].as_str());
            lines.push(line);
            k = k + 1;
        }
        proof {
            self.lemma_lines_forward(titles_seq, sorted@, lines@);
            self.lemma_lines_backward(titles_seq, sorted@, lines@);
            self.lemma_lines_sorted(sorted@, lines@);
        }
        Some(lines)
    }

    /// Links the sorted copy of the titles back to the trackers: the sorted
    /// entries are exactly the titles, pairwise distinct, hence strictly
    /// ascending.
    proof fn lemma_list_links(self, titles: Seq<String>, sorted: Seq<String>)
        requires
            self.wf(),
            titles.len() == self.trackers@.len(),
            forall|k: int|
                0 <= k < titles.len() ==> titles[k] == (#[trigger] self.trackers@[k]).title,
            sorted.to_multiset() == titles.to_multiset(),
            lex_sorted(sorted.map_values(|s: String| s@)),
        ensures
            sorted.len() == self.trackers@.len(),
            forall|a: int| 0 <= a < sorted.len() ==> titles.contains(#[trigger] sorted[a]),
            forall|i: int|
                0 <= i < self.trackers@.len() ==> sorted.contains(
                    (#[trigger] self.trackers@[i]).title,
                ),
            forall|a: int, b: int| #![trigger sorted[a], sorted[b]]
                0 <= a < b < sorted.len() ==> lex_lt(sorted[a]@, sorted[b]@),
    {
        vstd::seq_lib::to_multiset_len(sorted);
        vstd::seq_lib::to_multiset_len(titles);
        assert(sorted.len() == titles.len());
        self.lemma_titles_no_duplicates(titles);
        titles.lemma_multiset_has_no_duplicates();
        assert forall|x: String|
            sorted.to_multiset().contains(x) implies sorted.to_multiset().count(x) == 1 by {
            assert(titles.to_multiset().count(x) == sorted.to_multiset().count(x));
        }
        sorted.lemma_multiset_has_no_duplicates_conv();
        assert forall|a: int| 0 <= a < sorted.len() implies titles.contains(
            #[trigger] sorted[a],
        ) by {
            assert(sorted.contains(sorted[a]));
            vstd::seq_lib::to_multiset_contains(sorted, sorted[a]);
            vstd::seq_lib::to_multiset_contains(titles, sorted[a]);
        }
        assert forall|i: int|
            0 <= i < self.trackers@.len() implies sorted.contains(
            (#[trigger] self.trackers@[i]).title,
        ) by {
            assert(titles[i] == self.trackers@[i].title);
            assert(titles.contains(titles[i]));
            vstd::seq_lib::to_multiset_contains(titles, titles[i]);
            vstd::seq_lib::to_multiset_contains(sorted, titles[i]);
        }
        assert forall|a: int, b: int| #![trigger sorted[a], sorted[b]]
            0 <= a < b < sorted.len() implies lex_lt(sorted[a]@, sorted[b]@) by {
            let sv = sorted.map_values(|s: String| s@);
            assert(sv[a] == sorted[a]@ && sv[b] == sorted[b]@);
            assert(crate::order::lex_le(sv[a], sv[b]));
            if sorted[a]@ == sorted[b]@ {
                assert(sorted.no_duplicates());
                assert(sorted[a] != sorted[b]);
                let i = choose|i: int| 0 <= i < titles.len() && titles[i] == sorted[a];
                let j = choose|j: int| 0 <= j < titles.len() && titles[j] == sorted[b];
                assert(titles.contains(sorted[a]) && titles.contains(sorted[b]));
                assert(self.trackers@[i].title == sorted[a]);
                assert(self.trackers@[j].title == sorted[b]);
                assert(i != j);
                if i < j {
                    assert(self.trackers@[i].title@ != self.trackers@[j].title@);
                } else {
                    assert(self.trackers@[j].title@ != self.trackers@[i].title@);
                }
                assert(false);
            }
        }
    }

    /// No two trackers of a well-formed application ever share a title;
    /// a colliding creation fails with `AlreadyExists` and changes nothing
    /// (see `new_tracker`'s contract).
    pub proof fn lemma_titles_unique(self, i: int, j: int)
        requires
            self.wf(),
            0 <= i < self.trackers@.len(),
            0 <= j < self.trackers@.len(),
            i != j,
        ensures
            self.trackers@[i].title@ != self.trackers@[j].title@,
    {
        if i < j {
            assert(self.trackers@[i].title@ != self.trackers@[j].title@);
        } else {
            assert(self.trackers@[j].title@ != self.trackers@[i].title@);
        }
    }

    /// Every listing line is some tracker's line.
    proof fn lemma_lines_forward(
        self,
        titles: Seq<String>,
        sorted: Seq<String>,
        lines: Seq<String>,
    )
        requires
            titles.len() == self.trackers@.len(),
            forall|k: int|
                0 <= k < titles.len() ==> titles[k] == (#[trigger] self.trackers@[k]).title,
            sorted.len() == titles.len(),
            forall|a: int| 0 <= a < sorted.len() ==> titles.contains(#[trigger] sorted[a]),
            lines.len() == sorted.len(),
            forall|a: int|
                0 <= a < lines.len() ==> (#[trigger] lines[a])@ == list_line(
                    sorted[a]@,
                    self.curr_view() == Some(sorted[a]@),
                ),
        ensures
            forall|k: int|
                0 <= k < lines.len() ==> self.line_names_tracker((#[trigger] lines[k])@),
    {
        assert forall|k: int|
            0 <= k < lines.len() implies self.line_names_tracker((#[trigger] lines[k])@) by {
            assert(titles.contains(sorted[k]));
            let i = choose|i: int| 0 <= i < titles.len() && titles[i] == sorted[k];
            assert(self.trackers@[i].title == sorted[k]);
            assert(self.line_of(i, lines[k]@));
            assert(self.line_names_tracker(lines[k]@));
        }
    }

    /// Every tracker has a listing line.
    proof fn lemma_lines_backward(
        self,
        titles: Seq<String>,
        sorted: Seq<String>,
        lines: Seq<String>,
    )
        requires
            titles.len() == self.trackers@.len(),
            forall|k: int|
                0 <= k < titles.len() ==> titles[k] == (#[trigger] self.trackers@[k]).title,
            sorted.len() == titles.len(),
            forall|i: int|
                0 <= i < self.trackers@.len() ==> sorted.contains(
                    (#[trigger] self.trackers@[i]).title,
                ),
            lines.len() == sorted.len(),
            forall|a: int|
                0 <= a < lines.len() ==> (#[trigger] lines[a])@ == list_line(
                    sorted[a]@,
                    self.curr_view() == Some(sorted[a]@),
                ),
        ensures
            forall|i: int|
                0 <= i < self.trackers@.len() ==> self.tracker_has_line(i, lines),
    {
        assert forall|i: int|
            0 <= i < self.trackers@.len() implies self.tracker_has_line(i, lines) by {
            assert(titles[i] == self.trackers@[i].title);
            assert(sorted.contains(self.trackers@[i].title));
            let k = choose|k: int| 0 <= k < sorted.len() && sorted[k] == titles[i];
            assert(self.line_of(i, lines[k]@));
            assert(self.tracker_has_line(i, lines));
        }
    }

    /// The listing lines' titles ascend strictly: stripping the two marker
    /// characters recovers the sorted titles.
    proof fn lemma_lines_sorted(self, sorted: Seq<String>, lines: Seq<String>)
        requires
            forall|a: int, b: int| #![trigger sorted[a], sorted[b]]
                0 <= a < b < sorted.len() ==> lex_lt(sorted[a]@, sorted[b]@),
            lines.len() == sorted.len(),
            forall|a: int|
                0 <= a < lines.len() ==> (#[trigger] lines[a])@ == list_line(
                    sorted[a]@,
                    self.curr_view() == Some(sorted[a]@),
                ),
        ensures
            forall|p: int, q: int| #![trigger lines[p], lines[q]]
                0 <= p < q < lines.len() ==> lex_lt(lines[p]@.skip(2), lines[q]@.skip(2)),
    {
        reveal_strlit("> ");
        reveal_strlit("  ");
        assert forall|p: int, q: int| #![trigger lines[p], lines[q]]
            0 <= p < q < lines.len() implies lex_lt(lines[p]@.skip(2), lines[q]@.skip(2)) by {
            assert(lines[p]@.skip(2) =~= sorted[p]@);
            assert(lines[q]@.skip(2) =~= sorted[q]@);
            assert(lex_lt(sorted[p]@, sorted[q]@));
        }
    }

    /// No two trackers share a title value.
    proof fn lemma_titles_no_duplicates(self, titles: Seq<String>)
        requires
            self.wf(),
            titles.len() == self.trackers@.len(),
            forall|k: int|
                0 <= k < titles.len() ==> titles[k] == (#[trigger] self.trackers@[k]).title,
        ensures
            titles.no_duplicates(),
    {
        assert forall|i: int, j: int|
            0 <= i < titles.len() && 0 <= j < titles.len() && i != j implies titles[i]
            != titles[j] by {
            if i < j {
                assert(self.trackers@[i].title@ != self.trackers@[j].title@);
            } else {
                assert(self.trackers@[j].title@ != self.trackers@[i].title@);
            }
        }
    }
}

} // verus!
