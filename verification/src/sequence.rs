use vstd::prelude::*;

verus! {

/// The stages of a sequence: an inactive stage, and active stages that follow each other.
pub trait Sequences: Sized + Clone {
    /// Whether the stage is an active part of the sequence.
    spec fn active(&self) -> bool;

    /// The stage after this one, or None where the sequence is complete.
    spec fn successor(&self) -> Option<Self>;

    /// Whether this stage is an active or inactive part.
    fn is_active(&self) -> (r: bool)
        ensures
            r == self.active(),
    ;

    /// The first active stage, which starts the sequence.
    fn first() -> Self;

    /// The next stage, or None if the sequence is complete.
    fn next(&self) -> (r: Option<Self>)
        ensures
            r == self.successor(),
    ;
}

/// The state of a unit of work in a stage. It is reset when the stage completes.
#[derive(Copy, Clone, Eq, PartialEq, Debug, Structural)]
pub enum RivuletState {
    Uninit,
    InProgress,
    Finished,
}

/// Why a unit of work failed.
#[derive(Clone, Debug)]
pub struct RivuletError {
    pub err_code: String,
    pub err_text: String,
}

/// A sequence failed at a stage.
#[derive(Debug)]
pub struct SequenceFailed<S> {
    pub error: RivuletError,
    pub stage: S,
}

/// What the end of a frame does to a running sequence.
pub struct SequenceStep<S> {
    /// The failure to report, if the sequence failed.
    pub failed: Option<SequenceFailed<S>>,
    /// The stage to move to, if it changes.
    pub next: Option<S>,
    /// Whether the sequence ended: its last stage completed.
    pub ended: bool,
    /// Whether the units of work of the stage are cleared.
    pub cleared: bool,
}

/// Advance a sequence at the end of a frame, given its current stage, the stage it rests in,
/// the error reported during the stage, if any, and whether every unit of work of the stage is
/// finished (which holds where there is none). An error ends the sequence in its resting stage;
/// a completed stage moves to the next, or ends the sequence after the last.
pub fn advance_sequence_state<S: Sequences>(
    curr: &S,
    default: &S,
    error: Option<RivuletError>,
    all_finished: bool,
) -> (r: SequenceStep<S>)
    ensures
        !curr.active() ==> r.failed is None && r.next is None && !r.ended && !r.cleared,
        curr.active() ==> {
            &&& error is Some <==> r.failed is Some
            &&& (r.failed matches Some(f) ==> f.error == error.unwrap() && cloned(*curr, f.stage))
            &&& r.cleared == all_finished
            &&& r.ended == (all_finished && curr.successor() is None)
            &&& all_finished && curr.successor() is Some ==> r.next == curr.successor()
            &&& all_finished && curr.successor() is None ==> (r.next matches Some(n) && cloned(*default, n))
            &&& !all_finished && error is Some ==> (r.next matches Some(n) && cloned(*default, n))
            &&& !all_finished && error is None ==> r.next is None
        },
{
    let mut step = SequenceStep { failed: None, next: None, ended: false, cleared: false };
    if curr.is_active() {
        match error {
            Some(e) => {
                step.failed = Some(SequenceFailed { error: e, stage: curr.clone() });
                step.next = Some(default.clone());
            },
            None => {},
        }
        if all_finished {
            step.cleared = true;
            let new = match curr.next() {
                Some(state) => state,
                None => {
                    step.ended = true;
                    default.clone()
                },
            };
            step.next = Some(new);
        }
    }
    step
}

/// A unit of work within a stage of a sequence. Its progress, a fraction from 0 to 1, is kept
/// as the bits of an f32; what to show the user while it is in progress is its hint text.
#[derive(Clone, Debug)]
pub struct Rivulet {
    pub progress_bits: u32,
    pub hint_text: String,
    pub state: RivuletState,
}

/// The index of the entry with this name, if there is one.
pub open spec fn find_name(names: Seq<Seq<char>>, name: Seq<char>) -> Option<int> {
    if exists|i: int| 0 <= i < names.len() && names[i] == name {
        Some(choose|i: int| 0 <= i < names.len() && names[i] == name)
    } else {
        None
    }
}

/// The units of work of the current stage of a sequence, each under a name of its own.
pub struct Rivulets {
    entries: Vec<(String, Rivulet)>,
}

impl Rivulets {
    /// The names of the units of work, in the order they started.
    pub closed spec fn names(&self) -> Seq<Seq<char>> {
        Seq::new(self.entries@.len(), |i: int| self.entries@[i].0@)
    }

    /// The units of work, in the order they started.
    pub closed spec fn rivulets(&self) -> Seq<Rivulet> {
        Seq::new(self.entries@.len(), |i: int| self.entries@[i].1)
    }

    /// No name occurs twice.
    pub closed spec fn wf(&self) -> bool {
        forall|i: int, j: int|
            0 <= i < j < self.entries@.len() ==> #[trigger] self.entries@[i].0@ != #[trigger] self.entries@[j].0@
    }

    /// The index of the unit of work with this name.
    fn index_of(&self, name: &str) -> (r: Option<usize>)
        requires
            self.wf(),
        ensures
            match r {
                Some(i) => find_name(self.names(), name@) == Some(i as int),
                None => find_name(self.names(), name@) is None,
            },
    {
        let mut i: usize = 0;
        while i < self.entries.len()
            invariant
                self.wf(),
                i <= self.entries@.len(),
                forall|k: int| 0 <= k < i ==> self.entries@[k].0@ != name@,
            decreases self.entries@.len() - i,
        {
            if crate::fileext::same_text(self.entries[i].0.as_str(), name) {
                let ghost names = self.names();
                assert(names[i as int] == name@);
                let ghost c = choose|c: int| 0 <= c < names.len() && names[c] == name@;
                assert(c == i) by {
                    if c != i {
                        if c < i {
                            assert(self.entries@[c].0@ != name@);
                        } else {
                            assert(self.entries@[i as int].0@ != self.entries@[c].0@);
                        }
                    }
                }
                return Some(i);
            }
            i = i + 1;
        }
        proof {
            let names = self.names();
            if exists|c: int| 0 <= c < names.len() && names[c] == name@ {
                let c = choose|c: int| 0 <= c < names.len() && names[c] == name@;
                assert(self.entries@[c].0@ == name@);
            }
        }
        None
    }

    /// No units of work.
    pub fn new() -> (r: Rivulets)
        ensures
            r.wf(),
            r.names() == Seq::<Seq<char>>::empty(),
    {
        let r = Rivulets { entries: Vec::new() };
        assert(r.names() =~= Seq::<Seq<char>>::empty());
        r
    }

    /// Whether each of the named units of work exists and is finished.
    pub fn all_finished(&self, items: &[&str]) -> (r: bool)
        requires
            self.wf(),
        ensures
            r == forall|k: int|
                0 <= k < items@.len() ==> (#[trigger] find_name(self.names(), items@[k]@) matches Some(i)
                    && self.rivulets()[i].state == RivuletState::Finished),
    {
        let mut k: usize = 0;
        while k < items.len()
            invariant
                self.wf(),
                k <= items@.len(),
                forall|j: int|
                    0 <= j < k ==> (#[trigger] find_name(self.names(), items@[j]@) matches Some(i)
                        && self.rivulets()[i].state == RivuletState::Finished),
            decreases items@.len() - k,
        {
            match self.index_of(items[k]) {
                Some(i) => {
                    if self.entries[i].1.state != RivuletState::Finished {
                        return false;
                    }
                },
                None => {
                    return false;
                },
            }
            k = k + 1;
        }
        true
    }

    /// The progress bits and state of the unit of work with this name; one that does not exist
    /// is started first, uninitialised with no progress and no hint text.
    pub fn get(&mut self, name: &str) -> (r: (u32, RivuletState))
        requires
            old(self).wf(),
        ensures
            final(self).wf(),
            match find_name(old(self).names(), name@) {
                Some(i) => r == (old(self).rivulets()[i].progress_bits, old(self).rivulets()[i].state)
                    && final(self).names() == old(self).names() && final(self).rivulets()
                    == old(self).rivulets(),
                None => {
                    &&& r == (0u32, RivuletState::Uninit)
                    &&& final(self).names() == old(self).names().push(name@)
                    &&& final(self).rivulets().drop_last() == old(self).rivulets()
                    &&& final(self).rivulets().last().progress_bits == 0
                    &&& final(self).rivulets().last().hint_text@ == Seq::<char>::empty()
                    &&& final(self).rivulets().last().state == RivuletState::Uninit
                },
            },
    {
        match self.index_of(name) {
            Some(i) => (self.entries[i].1.progress_bits, self.entries[i].1.state),
            None => {
                let ghost old_entries = self.entries@;
                let rv = Rivulet { progress_bits: 0, hint_text: String::new(), state: RivuletState::Uninit };
                self.entries.push((name.to_owned(), rv));
                proof {
                    assert forall|i: int, j: int| 0 <= i < j < self.entries@.len() implies #[trigger] self.entries@[i].0@
                        != #[trigger] self.entries@[j].0@ by {
                        if j == old_entries.len() {
                            if self.entries@[i].0@ == name@ {
                                assert(old(self).names()[i] == name@);
                            }
                        } else {
                            assert(self.entries@[i] == old_entries[i]);
                            assert(self.entries@[j] == old_entries[j]);
                        }
                    }
                    assert(self.names() =~= old(self).names().push(name@));
                    assert(self.rivulets().drop_last() =~= old(self).rivulets());
                }
                (0, RivuletState::Uninit)
            },
        }
    }

    /// The progress bits of the unit of work with this name, started first if it does not exist,
    /// where it is not finished: the guard of a unit of work in progress; None where it is
    /// finished.
    pub fn get_in_progress(&mut self, name: &str) -> (r: Option<u32>)
        requires
            old(self).wf(),
        ensures
            final(self).wf(),
            match find_name(old(self).names(), name@) {
                Some(i) => final(self).names() == old(self).names() && final(self).rivulets()
                    == old(self).rivulets() && r == (if old(self).rivulets()[i].state
                    == RivuletState::Finished {
                    None
                } else {
                    Some(old(self).rivulets()[i].progress_bits)
                }),
                None => r == Some(0u32) && final(self).names() == old(self).names().push(name@),
            },
    {
        let (progress, state) = self.get(name);
        if state == RivuletState::Finished {
            None
        } else {
            Some(progress)
        }
    }

    /// Writes back the progress bits and state of the unit of work with this name, if it
    /// exists.
    pub fn store(&mut self, name: &str, progress_bits: u32, state: RivuletState)
        requires
            old(self).wf(),
        ensures
            final(self).wf(),
            final(self).names() == old(self).names(),
            match find_name(old(self).names(), name@) {
                Some(i) => final(self).rivulets() == old(self).rivulets().update(
                    i,
                    Rivulet { progress_bits, state, ..old(self).rivulets()[i] },
                ),
                None => final(self).rivulets() == old(self).rivulets(),
            },
    {
        if let Some(i) = self.index_of(name) {
            let ghost old_entries = self.entries@;
            let (n, mut rv) = self.entries.remove(i);
            rv.progress_bits = progress_bits;
            rv.state = state;
            self.entries.insert(i, (n, rv));
            proof {
                lemma_remove_insert(old_entries, self.entries@, i as int);
                assert(self.names() =~= old(self).names());
                assert(self.rivulets() =~= old(self).rivulets().update(
                    i as int,
                    Rivulet { progress_bits, state, ..old(self).rivulets()[i as int] },
                ));
            }
        }
    }

    /// Sets the hint text of the unit of work with this name, if it exists.
    pub fn set_hint_text(&mut self, name: &str, text: String)
        requires
            old(self).wf(),
        ensures
            final(self).wf(),
            final(self).names() == old(self).names(),
            match find_name(old(self).names(), name@) {
                Some(i) => final(self).rivulets().len() == old(self).rivulets().len()
                    && final(self).rivulets()[i].hint_text@ == text@
                    && final(self).rivulets()[i].progress_bits == old(self).rivulets()[i].progress_bits
                    && final(self).rivulets()[i].state == old(self).rivulets()[i].state
                    && forall|j: int| 0 <= j < old(self).rivulets().len() && j != i
                        ==> #[trigger] final(self).rivulets()[j] == old(self).rivulets()[j],
                None => final(self).rivulets() == old(self).rivulets(),
            },
    {
        if let Some(i) = self.index_of(name) {
            let ghost old_entries = self.entries@;
            let (n, mut rv) = self.entries.remove(i);
            rv.hint_text = text;
            self.entries.insert(i, (n, rv));
            proof {
                lemma_remove_insert(old_entries, self.entries@, i as int);
                assert(self.names() =~= old(self).names());
            }
        }
    }

    /// Removes every unit of work.
    pub fn clear(&mut self)
        ensures
            final(self).wf(),
            final(self).names() == Seq::<Seq<char>>::empty(),
    {
        self.entries.clear();
        assert(self.names() =~= Seq::<Seq<char>>::empty());
    }

    /// Whether every unit of work is finished, which holds where there is none.
    pub fn is_empty_or_all_finished(&self) -> (r: bool)
        ensures
            r == forall|i: int|
                0 <= i < self.rivulets().len() ==> #[trigger] self.rivulets()[i].state
                    == RivuletState::Finished,
    {
        let mut i: usize = 0;
        while i < self.entries.len()
            invariant
                i <= self.entries@.len(),
                forall|k: int| 0 <= k < i ==> #[trigger] self.rivulets()[k].state == RivuletState::Finished,
            decreases self.entries@.len() - i,
        {
            if self.entries[i].1.state != RivuletState::Finished {
                assert(self.rivulets()[i as int].state != RivuletState::Finished);
                return false;
            }
            i = i + 1;
        }
        true
    }

    /// The progress bits and state of each unit of work, in the order they started.
    pub fn states(&self) -> (r: Vec<(u32, RivuletState)>)
        ensures
            r@.len() == self.rivulets().len(),
            forall|i: int|
                0 <= i < r@.len() ==> #[trigger] r@[i] == (self.rivulets()[i].progress_bits, self.rivulets()[i].state),
    {
        let mut v: Vec<(u32, RivuletState)> = Vec::new();
        let mut i: usize = 0;
        while i < self.entries.len()
            invariant
                i <= self.entries@.len(),
                v@.len() == i,
                forall|k: int| 0 <= k < i ==> #[trigger] v@[k] == (self.rivulets()[k].progress_bits, self.rivulets()[k].state),
            decreases self.entries@.len() - i,
        {
            v.push((self.entries[i].1.progress_bits, self.entries[i].1.state));
            i = i + 1;
        }
        v
    }
}

/// Removing an entry and inserting one at the same index replaces that entry.
proof fn lemma_remove_insert(a: Seq<(String, Rivulet)>, b: Seq<(String, Rivulet)>, i: int)
    requires
        0 <= i < a.len(),
        exists|x: (String, Rivulet)| #[trigger] a.remove(i).insert(i, x) == b,
    ensures
        b.len() == a.len(),
        forall|j: int| 0 <= j < a.len() && j != i ==> #[trigger] b[j] == a[j],
{
    let x = choose|x: (String, Rivulet)| #[trigger] a.remove(i).insert(i, x) == b;
    assert(b =~= a.update(i, x));
}

} // verus!
