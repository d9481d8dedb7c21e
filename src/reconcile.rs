//! One reconciliation run over every playlist of the source store.
//!
//! The run takes both stores' playlist listings, then reconciles the source playlists
//! one after another, in the order listed. Each finished playlist leaves one entry in
//! the report; a failure ends that playlist alone, and the run goes on with the next.
use vstd::prelude::*;
use crate::model::{Playlist, SyncError, copy_text};
use crate::engine::{
    PlaylistSync, Action, Event, Outcome, Phase, begin_step, event_step, held_in_full, writes,
    present_in, merging_phase, answers_in_full, lemma_second_pass_writes_nothing,
    lemma_present_begin_writes_nothing, lemma_full_answer_writes_nothing,
};

verus! {

/// The outcome of one source playlist, under the playlist's name.
#[derive(Debug)]
pub struct PlaylistReport {
    pub name: Option<String>,
    pub outcome: Outcome,
}

/// A failed creation ends only the playlist it was for: the run reports that playlist as
/// failed under its name, and goes on while other source playlists have no entry yet.
pub proof fn lemma_failure_is_isolated(before: Reconciler, after: Reconciler, e: SyncError, r: Option<Action>)
    requires
        before.wf(),
        after.wf(),
        after.stepped(before, Event::Created(Err(e)), r),
        before.current matches Some(c) && c.phase is Creating,
    ensures
        after.report@.len() > before.report@.len(),
        after.report@[before.report@.len() as int].outcome == (Outcome::Failed { error: e }),
        after.report@[before.report@.len() as int].name == before.sources@[before.report@.len() as int].name,
        r is None <==> after.report@.len() == after.sources@.len(),
{
}

/// A run over source playlists that the target already holds in full, as a first run
/// leaves them, writes nothing: it ends as it starts, each playlist merged with none added.
pub proof fn lemma_converged_run_writes_nothing(run: Reconciler, r: Option<Action>)
    requires
        run.wf(),
        run.advanced(0, r),
        forall|k: int| 0 <= k < run.sources@.len() ==> held_in_full(#[trigger] run.sources@[k], run.targets@),
    ensures
        r is None,
        run.complete(),
        forall|k: int|
            0 <= k < run.report@.len() ==> (#[trigger] run.report@[k]).outcome == (Outcome::Merged { added: 0 }),
{
    if let Some(a) = r {
        let c = run.current->Some_0;
        assert(held_in_full(run.sources@[run.report@.len() as int], run.targets@));
        lemma_second_pass_writes_nothing(c.source, run.targets@, c.phase, a);
    }
    assert forall|k: int| 0 <= k < run.report@.len() implies (#[trigger] run.report@[k]).outcome == (
    Outcome::Merged { added: 0 }) by {
        let o = run.report@[k].outcome;
        assert(held_in_full(run.sources@[k], run.targets@));
        lemma_second_pass_writes_nothing(run.sources@[k], run.targets@, Phase::Done { outcome: o }, Action::Finish { outcome: o });
    }
}

/// A second run starts without a write: when every source playlist is already present on
/// the target, the first action, if any, writes nothing, and the playlist in progress is
/// an existing one.
pub proof fn lemma_present_run_starts_quietly(run: Reconciler, r: Option<Action>)
    requires
        run.wf(),
        run.advanced(0, r),
        run.all_present(),
    ensures
        run.quiet(),
        match r {
            Some(a) => !writes(a),
            None => true,
        },
{
    if let Some(a) = r {
        let c = run.current->Some_0;
        assert(present_in(run.sources@[run.report@.len() as int], run.targets@));
        lemma_present_begin_writes_nothing(c.source, run.targets@, c.phase, a);
    }
}

/// A second run goes on without a write: when every source playlist is already present on
/// the target and the stores answer each fetch with videos that leave nothing missing,
/// each step's action writes nothing, and the run stays so for its next step. With the
/// start above, a whole run over such stores asks for no write.
pub proof fn lemma_present_run_steps_quietly(before: Reconciler, event: Event, after: Reconciler, r: Option<Action>)
    requires
        before.wf(),
        after.wf(),
        after.stepped(before, event, r),
        before.all_present(),
        before.quiet(),
        match before.current {
            Some(c) => answers_in_full(c.phase, event),
            None => true,
        },
    ensures
        after.all_present(),
        after.quiet(),
        match r {
            Some(a) => !writes(a),
            None => true,
        },
{
    if let Some(c) = before.current {
        let same = match after.current {
            Some(d) => d.source == c.source && after.report@.len() == before.report@.len(),
            None => false,
        };
        if same {
            let d = after.current->Some_0;
            lemma_full_answer_writes_nothing(c.source, c.phase, event, d.phase, r->Some_0);
        } else if let Some(a) = r {
            let d = after.current->Some_0;
            assert(present_in(after.sources@[after.report@.len() as int], after.targets@));
            lemma_present_begin_writes_nothing(d.source, after.targets@, d.phase, a);
        }
    }
}

/// Nameless source playlists never reach a store: each one that starting the next
/// playlists went past is reported as skipped, and the playlist left in progress has a name.
pub proof fn lemma_nameless_never_reach_store(run: Reconciler, from: int, r: Option<Action>)
    requires
        run.wf(),
        run.advanced(from, r),
    ensures
        forall|k: int|
            from <= k < run.report@.len() && run.sources@[k].name is None ==> (#[trigger] run.report@[k]).outcome
                == (Outcome::Skipped { reason: SyncError::PlaylistNoName }),
        match run.current {
            Some(c) => c.source.name is Some,
            None => true,
        },
{
}

/// The state of a run from a source store towards a target store.
pub struct Reconciler {
    /// The source playlists, as listed when the run started.
    pub sources: Ghost<Seq<Playlist>>,
    /// The target playlists, as listed when the run started.
    pub targets: Vec<Playlist>,
    /// The source playlists not yet started, in order.
    pub pending: Vec<Playlist>,
    /// The playlist in progress, if any.
    pub current: Option<PlaylistSync>,
    /// One entry per finished source playlist, in order.
    pub report: Vec<PlaylistReport>,
}

/// Whether `p`, begun against `targets`, is finished at once with `outcome`.
pub open spec fn finishes_at_once(p: Playlist, targets: Seq<Playlist>, outcome: Outcome) -> bool {
    begin_step(p, targets, Phase::Done { outcome }, Action::Finish { outcome })
}

impl Reconciler {
    /// How many source playlists have been started.
    pub open spec fn started(&self) -> int {
        self.report@.len() + if self.current is Some { 1int } else { 0int }
    }

    pub open spec fn wf(&self) -> bool {
        &&& self.started() + self.pending@.len() == self.sources@.len()
        &&& self.pending@ == self.sources@.skip(self.started())
        &&& forall|k: int|
            0 <= k < self.report@.len() ==> (#[trigger] self.report@[k]).name == self.sources@[k].name
        &&& match self.current {
            Some(c) => c.source == self.sources@[self.report@.len() as int] && !(c.phase is Done),
            None => self.pending@.len() == 0,
        }
    }

    /// Whether every source playlist of the run is already present on the target.
    pub open spec fn all_present(&self) -> bool {
        forall|k: int| 0 <= k < self.sources@.len() ==> present_in(#[trigger] self.sources@[k], self.targets@)
    }

    /// Whether the playlist in progress, if any, is one that exists on the target.
    pub open spec fn quiet(&self) -> bool {
        match self.current {
            Some(c) => merging_phase(c.phase),
            None => true,
        }
    }

    /// Whether every source playlist has its entry in the report.
    pub open spec fn complete(&self) -> bool {
        self.report@.len() == self.sources@.len()
    }

    /// What starting the next playlists did: those that finished at once were reported,
    /// and the first that needs a store is in progress with the action returned.
    pub open spec fn advanced(&self, from: int, r: Option<Action>) -> bool {
        &&& forall|k: int|
            from <= k < self.report@.len() ==> finishes_at_once(
                self.sources@[k],
                self.targets@,
                (#[trigger] self.report@[k]).outcome,
            )
        &&& (r is None <==> self.complete())
        &&& match r {
            Some(a) => match self.current {
                Some(c) => begin_step(c.source, self.targets@, c.phase, a),
                None => false,
            },
            None => true,
        }
    }

    /// What one step of the run did on `event`, from `before` to `self`.
    pub open spec fn stepped(&self, before: Reconciler, event: Event, r: Option<Action>) -> bool {
        &&& self.sources == before.sources
        &&& self.targets@ == before.targets@
        &&& self.report@.take(before.report@.len() as int) == before.report@
        &&& match before.current {
            None => self.report@ == before.report@ && r is None,
            Some(c) => match self.current {
                Some(d) if d.source == c.source && self.report@.len() == before.report@.len() => {
                    &&& r matches Some(a)
                    &&& event_step(c.source, c.phase, event, d.phase, a)
                },
                _ => {
                    &&& self.report@.len() > before.report@.len()
                    &&& event_step(
                        c.source,
                        c.phase,
                        event,
                        Phase::Done { outcome: self.report@[before.report@.len() as int].outcome },
                        Action::Finish { outcome: self.report@[before.report@.len() as int].outcome },
                    )
                    &&& self.advanced(before.report@.len() + 1int, r)
                },
            },
        }
    }

    /// Starts the playlists that wait, in order, until one needs a store.
    fn advance(&mut self) -> (r: Option<Action>)
        requires
            old(self).current is None,
            old(self).report@.len() + old(self).pending@.len() == old(self).sources@.len(),
            old(self).pending@ == old(self).sources@.skip(old(self).report@.len() as int),
            forall|k: int|
                0 <= k < old(self).report@.len() ==> (#[trigger] old(self).report@[k]).name
                    == old(self).sources@[k].name,
        ensures
            final(self).wf(),
            final(self).sources == old(self).sources,
            final(self).targets@ == old(self).targets@,
            final(self).report@.len() >= old(self).report@.len(),
            final(self).report@.take(old(self).report@.len() as int) == old(self).report@,
            final(self).advanced(old(self).report@.len() as int, r),
    {
        let ghost start = self.report@.len();
        while self.pending.len() > 0
            invariant
                self.current is None,
                self.sources == old(self).sources,
                self.targets@ == old(self).targets@,
                start == old(self).report@.len(),
                start <= self.report@.len(),
                self.report@.take(start as int) == old(self).report@,
                self.report@.len() + self.pending@.len() == self.sources@.len(),
                self.pending@ == self.sources@.skip(self.report@.len() as int),
                forall|k: int|
                    0 <= k < self.report@.len() ==> (#[trigger] self.report@[k]).name
                        == self.sources@[k].name,
                forall|k: int|
                    start <= k < self.report@.len() ==> finishes_at_once(
                        self.sources@[k],
                        self.targets@,
                        (#[trigger] self.report@[k]).outcome,
                    ),
            decreases self.pending.len(),
        {
            let ghost n = self.report@.len() as int;
            let ghost before = self.report@;
            let p = self.pending.remove(0);
            proof {
                assert(p == self.sources@[n]);
                assert(self.pending@ =~= self.sources@.skip(n + 1));
            }
            let name = copy_text(&p.name);
            let (sync, action) = PlaylistSync::begin(p, &self.targets);
            if let Action::Finish { outcome } = action {
                self.report.push(PlaylistReport { name, outcome });
                proof {
                    assert(self.report@.take(start as int) =~= before.take(start as int));
                    assert(self.report@[n] == PlaylistReport { name, outcome });
                    assert forall|k: int| start <= k < self.report@.len() implies finishes_at_once(
                        self.sources@[k],
                        self.targets@,
                        (#[trigger] self.report@[k]).outcome,
                    ) by {
                        if k < n {
                            assert(self.report@[k] == before[k]);
                        }
                    }
                }
            } else {
                self.current = Some(sync);
                proof {
                    assert(self.pending@ =~= self.sources@.skip(self.started()));
                }
                return Some(action);
            }
        }
        None
    }

    /// Starts a run from the source store's playlists `sources` towards the target store's
    /// playlists `targets`, and returns the first action, or `None` when no playlist needs
    /// a store. A failed listing of either store ends the run before it starts.
    pub fn start(
        sources: Result<Vec<Playlist>, SyncError>,
        targets: Result<Vec<Playlist>, SyncError>,
    ) -> (r: Result<(Reconciler, Option<Action>), SyncError>)
        ensures
            match (sources, targets) {
                (Err(e), _) => r == Err::<(Reconciler, Option<Action>), SyncError>(e),
                (Ok(_), Err(e)) => r == Err::<(Reconciler, Option<Action>), SyncError>(e),
                (Ok(s), Ok(t)) => match r {
                    Ok((run, a)) => {
                        &&& run.wf()
                        &&& run.sources@ == s@
                        &&& run.targets@ == t@
                        &&& run.advanced(0, a)
                    },
                    Err(_) => false,
                },
            },
    {
        let sources = match sources {
            Ok(s) => s,
            Err(e) => return Err(e),
        };
        let targets = match targets {
            Ok(t) => t,
            Err(e) => return Err(e),
        };
        let ghost all = sources@;
        let mut run = Reconciler {
            sources: Ghost(all),
            targets,
            pending: sources,
            current: None,
            report: Vec::new(),
        };
        proof {
            assert(run.pending@ =~= all.skip(0));
        }
        let a = run.advance();
        Ok((run, a))
    }

    /// Hands the answer to the last action to the playlist in progress. When that playlist
    /// finishes, whether it succeeded or failed, its outcome is reported and the run goes
    /// on with the next playlists. Returns the next action, or `None` once every source
    /// playlist has its entry in the report.
    pub fn step(&mut self, event: Event) -> (r: Option<Action>)
        requires
            old(self).wf(),
        ensures
            final(self).wf(),
            final(self).stepped(*old(self), event, r),
    {
        let mut current: Option<PlaylistSync> = None;
        core::mem::swap(&mut current, &mut self.current);
        match current {
            None => {
                proof {
                    assert(self.report@.take(self.report@.len() as int) =~= self.report@);
                }
                None
            },
            Some(mut sync) => {
                let action = sync.on_event(event);
                if let Action::Finish { outcome } = action {
                    let ghost before = self.report@;
                    let name = copy_text(&sync.source.name);
                    self.report.push(PlaylistReport { name, outcome });
                    proof {
                        assert(self.report@.take(before.len() as int) =~= before);
                        assert(self.pending@ =~= self.sources@.skip(self.report@.len() as int));
                    }
                    let ghost mid = self.report@;
                    let r = self.advance();
                    proof {
                        assert(self.report@[before.len() as int] == mid[before.len() as int]);
                        assert(self.report@.take(before.len() as int) =~= before);
                    }
                    r
                } else {
                    self.current = Some(sync);
                    proof {
                        assert(self.report@.take(self.report@.len() as int) =~= self.report@);
                    }
                    Some(action)
                }
            },
        }
    }

    /// The entries of the report so far, one per finished source playlist.
    pub fn report(&self) -> (r: &Vec<PlaylistReport>)
        ensures
            r@ == self.report@,
    {
        &self.report
    }
}

} // verus!
