//! The reconciliation of one source playlist against the target store.
//!
//! Each source playlist goes through a small state machine. `PlaylistSync::begin` looks
//! the playlist up among the target's playlists and returns the first action; every
//! answer of a store comes back through `PlaylistSync::on_event`, which returns the next
//! action. `Action::Finish` carries the playlist's outcome. The machine performs no I/O.
use vstd::prelude::*;
use crate::model::{Video, Playlist, SyncError, url_seq, text_seq, loaded_videos, copy_videos};
use crate::diff::{missing_urls, has_match, is_first_match, diff, video_ids, find_match, lemma_present_by_url};

verus! {

/// The terminal result of one source playlist.
#[derive(Debug, Clone, Copy, PartialEq, Eq, Structural)]
pub enum Outcome {
    /// A playlist was created on the target and `added` videos were appended to it.
    Created { added: usize },
    /// A playlist of the same name existed on the target; `added` videos were appended.
    Merged { added: usize },
    /// The playlist was left alone, for the reason given.
    Skipped { reason: SyncError },
    /// A store failed; the playlist's remaining steps were abandoned.
    Failed { error: SyncError },
}

/// What the caller must do next for the playlist.
#[derive(Debug)]
pub enum Action {
    /// Create a playlist of this name on the target; answer with `Event::Created`.
    CreatePlaylist { name: String },
    /// Fetch the videos of this source playlist; answer with `Event::Fetched`.
    FetchSourceVideos { playlist: Playlist },
    /// Fetch the videos of this target playlist; answer with `Event::Fetched`.
    FetchTargetVideos { playlist: Playlist },
    /// Append these videos, by identifier, to this target playlist; answer with `Event::Added`.
    AddVideos { playlist: Playlist, video_ids: Vec<String> },
    /// Nothing is left to do for the playlist.
    Finish { outcome: Outcome },
}

/// A store's answer to the last action.
#[derive(Debug)]
pub enum Event {
    Created(Result<Playlist, SyncError>),
    Fetched(Result<Vec<Video>, SyncError>),
    Added(Result<(), SyncError>),
}

/// Where the playlist stands.
#[derive(Debug)]
pub enum Phase {
    /// The target was asked to create the playlist.
    Creating,
    /// The source's videos were asked for; `dest` is the target playlist that receives
    /// them, and `merging` tells whether it existed before.
    LoadingSource { dest: Playlist, merging: bool },
    /// The videos of the existing target playlist `dest` were asked for.
    LoadingTarget { dest: Playlist, source_videos: Vec<Video> },
    /// Videos were handed to the target to append.
    Appending { created: bool, count: usize },
    /// Nothing is left to do.
    Done { outcome: Outcome },
}

/// The reconciliation of one source playlist.
#[derive(Debug)]
pub struct PlaylistSync {
    pub source: Playlist,
    pub phase: Phase,
}

/// The outcome that an append of `count` videos gives on success.
pub open spec fn appended(created: bool, count: usize) -> Outcome {
    if created {
        Outcome::Created { added: count }
    } else {
        Outcome::Merged { added: count }
    }
}

/// The step that appends the identifiers `ids` to `dest`. A playlist just created is
/// always given its videos, even none; an existing one is given none when none are
/// missing.
pub open spec fn append_step(
    phase: Phase,
    action: Action,
    dest: Playlist,
    created: bool,
    ids: Seq<Seq<char>>,
) -> bool {
    if !created && ids.len() == 0 {
        &&& phase == (Phase::Done { outcome: Outcome::Merged { added: 0 } })
        &&& action == (Action::Finish { outcome: Outcome::Merged { added: 0 } })
    } else {
        &&& phase == (Phase::Appending { created, count: ids.len() as usize })
        &&& match action {
            Action::AddVideos { playlist, video_ids } => {
                &&& playlist.id == dest.id
                &&& playlist.name == dest.name
                &&& text_seq(video_ids@) == ids
            },
            _ => false,
        }
    }
}

/// The step once the source's videos `sv` are at hand, for the target playlist `dest`.
/// A new playlist receives every source video. An existing one receives those it lacks,
/// once its own videos are at hand too.
pub open spec fn with_source_step(
    phase: Phase,
    action: Action,
    dest: Playlist,
    merging: bool,
    sv: Seq<Video>,
) -> bool {
    if !merging {
        append_step(phase, action, dest, true, url_seq(sv))
    } else {
        match loaded_videos(dest) {
            Some(tv) => append_step(phase, action, dest, false, missing_urls(sv, tv)),
            None => {
                &&& match phase {
                    Phase::LoadingTarget { dest: d, source_videos } => {
                        &&& d.id == dest.id
                        &&& d.name == dest.name
                        &&& loaded_videos(d) == loaded_videos(dest)
                        &&& source_videos@ == sv
                    },
                    _ => false,
                }
                &&& match action {
                    Action::FetchTargetVideos { playlist } => {
                        &&& playlist.id == dest.id
                        &&& playlist.name == dest.name
                    },
                    _ => false,
                }
            },
        }
    }
}

/// The step once `dest` is known to receive the source's videos: with the source's videos
/// loaded it goes on at once, else they are fetched first.
pub open spec fn with_dest_step(
    source: Playlist,
    phase: Phase,
    action: Action,
    dest: Playlist,
    merging: bool,
) -> bool {
    match loaded_videos(source) {
        Some(sv) => with_source_step(phase, action, dest, merging, sv),
        None => {
            &&& match phase {
                Phase::LoadingSource { dest: d, merging: m } => {
                    &&& d.id == dest.id
                    &&& d.name == dest.name
                    &&& loaded_videos(d) == loaded_videos(dest)
                    &&& m == merging
                },
                _ => false,
            }
            &&& match action {
                Action::FetchSourceVideos { playlist } => {
                    &&& playlist.id == source.id
                    &&& playlist.name == source.name
                },
                _ => false,
            }
        },
    }
}

/// The first step for `source` against the target's playlists `targets`.
pub open spec fn begin_step(
    source: Playlist,
    targets: Seq<Playlist>,
    phase: Phase,
    action: Action,
) -> bool {
    match source.name {
        None => {
            &&& phase == (Phase::Done { outcome: Outcome::Skipped { reason: SyncError::PlaylistNoName } })
            &&& action == (Action::Finish { outcome: Outcome::Skipped { reason: SyncError::PlaylistNoName } })
        },
        Some(n) => if !has_match(targets, n@) {
            &&& phase == Phase::Creating
            &&& action matches Action::CreatePlaylist { name } && name@ == n@
        } else {
            exists|i: int| #[trigger] is_first_match(targets, n@, i)
                && with_dest_step(source, phase, action, targets[i], true)
        },
    }
}

/// An action finishes the playlist exactly when the playlist is done, with its outcome.
pub open spec fn consistent(phase: Phase, action: Action) -> bool {
    match action {
        Action::Finish { outcome } => phase == (Phase::Done { outcome }),
        _ => !(phase is Done),
    }
}

/// Whether an action asks a store for a change.
pub open spec fn writes(action: Action) -> bool {
    action is CreatePlaylist || action is AddVideos
}

/// The step taken from `phase` on the answer `event`. A failed request ends the playlist
/// with that failure; an answer that fits no pending request ends it as a store failure;
/// a finished playlist stays finished.
pub open spec fn event_step(
    source: Playlist,
    phase: Phase,
    event: Event,
    next: Phase,
    action: Action,
) -> bool {
    match (phase, event) {
        (Phase::Done { outcome }, _) => {
            &&& next == (Phase::Done { outcome })
            &&& action == (Action::Finish { outcome })
        },
        (Phase::Creating, Event::Created(Ok(created))) => if created.id is None {
            &&& next == (Phase::Done { outcome: Outcome::Failed { error: SyncError::StoreUnavailable } })
            &&& action == (Action::Finish { outcome: Outcome::Failed { error: SyncError::StoreUnavailable } })
        } else {
            with_dest_step(source, next, action, created, false)
        },
        (Phase::LoadingSource { dest, merging }, Event::Fetched(Ok(sv))) =>
            with_source_step(next, action, dest, merging, sv@),
        (Phase::LoadingTarget { dest, source_videos }, Event::Fetched(Ok(tv))) =>
            append_step(next, action, dest, false, missing_urls(source_videos@, tv@)),
        (Phase::Appending { created, count }, Event::Added(Ok(()))) => {
            &&& next == (Phase::Done { outcome: appended(created, count) })
            &&& action == (Action::Finish { outcome: appended(created, count) })
        },
        (Phase::Creating, Event::Created(Err(e)))
        | (Phase::LoadingSource { .. }, Event::Fetched(Err(e)))
        | (Phase::LoadingTarget { .. }, Event::Fetched(Err(e)))
        | (Phase::Appending { .. }, Event::Added(Err(e))) => {
            &&& next == (Phase::Done { outcome: Outcome::Failed { error: e } })
            &&& action == (Action::Finish { outcome: Outcome::Failed { error: e } })
        },
        _ => {
            &&& next == (Phase::Done { outcome: Outcome::Failed { error: SyncError::StoreUnavailable } })
            &&& action == (Action::Finish { outcome: Outcome::Failed { error: SyncError::StoreUnavailable } })
        },
    }
}

/// A playlist without a name is skipped as such, and nothing is asked of any store.
pub proof fn lemma_nameless_is_skipped(source: Playlist, targets: Seq<Playlist>, phase: Phase, action: Action)
    requires
        begin_step(source, targets, phase, action),
        source.name is None,
    ensures
        action == (Action::Finish { outcome: Outcome::Skipped { reason: SyncError::PlaylistNoName } }),
        !writes(action),
{
}

/// Whether the target playlists `targets` already hold `source` in full: it has a name,
/// its videos are at hand, and so are those of the first target playlist of that name,
/// among which every source video's identifier occurs.
pub open spec fn held_in_full(source: Playlist, targets: Seq<Playlist>) -> bool {
    &&& source.name matches Some(n) && has_match(targets, n@)
    &&& loaded_videos(source) is Some
    &&& forall|i: int| #[trigger]
        is_first_match(targets, source.name->Some_0@, i) ==> match loaded_videos(targets[i]) {
            Some(tv) => forall|k: int|
                0 <= k < loaded_videos(source)->Some_0.len() ==> url_seq(tv).contains(
                    #[trigger] loaded_videos(source)->Some_0[k].url@,
                ),
            None => false,
        }
}

/// A second pass over a playlist writes nothing once the target playlist of its name
/// holds every one of its videos, as the first pass leaves it: with both sides' videos
/// at hand the playlist is merged at once with none added.
pub proof fn lemma_second_pass_writes_nothing(
    source: Playlist,
    targets: Seq<Playlist>,
    phase: Phase,
    action: Action,
)
    requires
        begin_step(source, targets, phase, action),
        held_in_full(source, targets),
    ensures
        action == (Action::Finish { outcome: Outcome::Merged { added: 0 } }),
        phase == (Phase::Done { outcome: Outcome::Merged { added: 0 } }),
        !writes(action),
{
    let n = source.name->Some_0;
    let i = choose|i: int| #[trigger] is_first_match(targets, n@, i)
        && with_dest_step(source, phase, action, targets[i], true);
    let sv = loaded_videos(source)->Some_0;
    let tv = loaded_videos(targets[i])->Some_0;
    lemma_present_by_url(sv, tv);
}

/// Once the target playlist's videos come in and hold every source video, the playlist
/// is merged with none added: nothing is written.
pub proof fn lemma_fetched_complete_writes_nothing(
    source: Playlist,
    phase: Phase,
    tv: Vec<Video>,
    next: Phase,
    action: Action,
)
    requires
        phase is LoadingTarget,
        event_step(source, phase, Event::Fetched(Ok(tv)), next, action),
        forall|k: int|
            0 <= k < phase->LoadingTarget_source_videos@.len() ==> url_seq(tv@).contains(
                #[trigger] phase->LoadingTarget_source_videos@[k].url@,
            ),
    ensures
        action == (Action::Finish { outcome: Outcome::Merged { added: 0 } }),
        !writes(action),
{
    lemma_present_by_url(phase->LoadingTarget_source_videos@, tv@);
}

/// Whether every identifier of `sv` occurs among those of `tv`.
pub open spec fn covers(sv: Seq<Video>, tv: Seq<Video>) -> bool {
    forall|k: int| 0 <= k < sv.len() ==> url_seq(tv).contains(#[trigger] sv[k].url@)
}

/// Whether `source` is already present among the target playlists `targets`: it has a
/// name that a target playlist carries, and where the listings carry both sides' videos,
/// the first such playlist holds every source video. Videos not listed are fetched later.
pub open spec fn present_in(source: Playlist, targets: Seq<Playlist>) -> bool {
    &&& source.name matches Some(n) && has_match(targets, n@)
    &&& forall|i: int| #[trigger]
        is_first_match(targets, source.name->Some_0@, i) ==> match (
            loaded_videos(source),
            loaded_videos(targets[i]),
        ) {
            (Some(sv), Some(tv)) => covers(sv, tv),
            _ => true,
        }
}

/// The phases of a playlist that already exists on the target: waiting for videos, or done.
pub open spec fn merging_phase(phase: Phase) -> bool {
    match phase {
        Phase::LoadingSource { merging, .. } => merging,
        Phase::LoadingTarget { .. } => true,
        Phase::Done { .. } => true,
        _ => false,
    }
}

/// Whether `event` answers a fetch of `phase` with videos that leave nothing missing.
pub open spec fn answers_in_full(phase: Phase, event: Event) -> bool {
    match (phase, event) {
        (Phase::LoadingSource { dest, .. }, Event::Fetched(Ok(sv))) => match loaded_videos(dest) {
            Some(tv) => covers(sv@, tv),
            None => true,
        },
        (Phase::LoadingTarget { source_videos, .. }, Event::Fetched(Ok(tv))) => covers(
            source_videos@,
            tv@,
        ),
        _ => true,
    }
}

/// A playlist already present on the target is begun without a write, as an existing
/// playlist.
pub proof fn lemma_present_begin_writes_nothing(
    source: Playlist,
    targets: Seq<Playlist>,
    phase: Phase,
    action: Action,
)
    requires
        begin_step(source, targets, phase, action),
        present_in(source, targets),
    ensures
        !writes(action),
        merging_phase(phase),
{
    let n = source.name->Some_0;
    let i = choose|i: int| #[trigger] is_first_match(targets, n@, i)
        && with_dest_step(source, phase, action, targets[i], true);
    if let (Some(sv), Some(tv)) = (loaded_videos(source), loaded_videos(targets[i])) {
        lemma_present_by_url(sv, tv);
    }
}

/// An existing playlist whose fetched videos leave nothing missing goes on without a write.
pub proof fn lemma_full_answer_writes_nothing(
    source: Playlist,
    phase: Phase,
    event: Event,
    next: Phase,
    action: Action,
)
    requires
        event_step(source, phase, event, next, action),
        merging_phase(phase),
        answers_in_full(phase, event),
    ensures
        !writes(action),
        merging_phase(next),
{
    match (phase, event) {
        (Phase::LoadingSource { dest, .. }, Event::Fetched(Ok(sv))) => {
            if let Some(tv) = loaded_videos(dest) {
                lemma_present_by_url(sv@, tv);
            }
        },
        (Phase::LoadingTarget { source_videos, .. }, Event::Fetched(Ok(tv))) => {
            lemma_present_by_url(source_videos@, tv@);
        },
        _ => {},
    }
}

/// Appends `ids` to `dest`, or, for an existing playlist, finishes at once when there is
/// nothing to append.
fn append(dest: Playlist, created: bool, ids: Vec<String>) -> (r: (Phase, Action))
    ensures
        consistent(r.0, r.1),
        append_step(r.0, r.1, dest, created, text_seq(ids@)),
{
    if !created && ids.len() == 0 {
        let outcome = Outcome::Merged { added: 0 };
        (Phase::Done { outcome }, Action::Finish { outcome })
    } else {
        let count = ids.len();
        (Phase::Appending { created, count }, Action::AddVideos { playlist: dest, video_ids: ids })
    }
}

/// Goes on once the source's videos are at hand.
fn with_source(dest: Playlist, merging: bool, sv: Vec<Video>) -> (r: (Phase, Action))
    ensures
        consistent(r.0, r.1),
        with_source_step(r.0, r.1, dest, merging, sv@),
{
    if !merging {
        let ids = video_ids(&sv);
        append(dest, true, ids)
    } else {
        match &dest.videos {
            Some(tv) => {
                let ids = diff(&sv, tv);
                append(dest, false, ids)
            },
            None => {
                let request = dest.copy();
                (Phase::LoadingTarget { dest, source_videos: sv }, Action::FetchTargetVideos { playlist: request })
            },
        }
    }
}

/// Goes on once the playlist `dest` that receives the source's videos is known.
fn with_dest(source: &Playlist, dest: Playlist, merging: bool) -> (r: (Phase, Action))
    ensures
        consistent(r.0, r.1),
        with_dest_step(*source, r.0, r.1, dest, merging),
{
    match &source.videos {
        Some(sv) => with_source(dest, merging, copy_videos(sv)),
        None => (Phase::LoadingSource { dest, merging }, Action::FetchSourceVideos { playlist: source.copy() }),
    }
}

impl PlaylistSync {
    /// Starts the reconciliation of `source` against the target's playlists `targets`.
    ///
    /// A playlist without a name is skipped. One whose name no target playlist carries is
    /// created on the target. One whose name a target playlist carries is merged into the
    /// first such playlist. Videos that a playlist already holds are used as they are;
    /// others are fetched.
    pub fn begin(source: Playlist, targets: &Vec<Playlist>) -> (r: (PlaylistSync, Action))
        ensures
            r.0.source == source,
            consistent(r.0.phase, r.1),
            begin_step(source, targets@, r.0.phase, r.1),
    {
        let first = match &source.name {
            None => {
                let outcome = Outcome::Skipped { reason: SyncError::PlaylistNoName };
                return (PlaylistSync { source, phase: Phase::Done { outcome } }, Action::Finish { outcome });
            },
            Some(n) => (find_match(n, targets), n.clone()),
        };
        let (found, name) = first;
        match found {
            None => (PlaylistSync { source, phase: Phase::Creating }, Action::CreatePlaylist { name }),
            Some(i) => {
                let (phase, action) = with_dest(&source, targets[i].copy(), true);
                proof {
                    let n = source.name->Some_0;
                    assert(is_first_match(targets@, n@, i as int));
                }
                (PlaylistSync { source, phase }, action)
            },
        }
    }

    /// Takes the answer to the last action and returns the next one.
    pub fn on_event(&mut self, event: Event) -> (r: Action)
        ensures
            final(self).source == old(self).source,
            consistent(final(self).phase, r),
            event_step(old(self).source, old(self).phase, event, final(self).phase, r),
    {
        let mut phase = Phase::Creating;
        core::mem::swap(&mut phase, &mut self.phase);
        let (next, action) = match (phase, event) {
            (Phase::Done { outcome }, _) => (Phase::Done { outcome }, Action::Finish { outcome }),
            (Phase::Creating, Event::Created(Ok(created))) => {
                if created.id.is_none() {
                    let outcome = Outcome::Failed { error: SyncError::StoreUnavailable };
                    (Phase::Done { outcome }, Action::Finish { outcome })
                } else {
                    with_dest(&self.source, created, false)
                }
            },
            (Phase::LoadingSource { dest, merging }, Event::Fetched(Ok(sv))) => with_source(dest, merging, sv),
            (Phase::LoadingTarget { dest, source_videos }, Event::Fetched(Ok(tv))) => {
                let ids = diff(&source_videos, &tv);
                append(dest, false, ids)
            },
            (Phase::Appending { created, count }, Event::Added(Ok(()))) => {
                let outcome = if created {
                    Outcome::Created { added: count }
                } else {
                    Outcome::Merged { added: count }
                };
                (Phase::Done { outcome }, Action::Finish { outcome })
            },
            (Phase::Creating, Event::Created(Err(e)))
            | (Phase::LoadingSource { .. }, Event::Fetched(Err(e)))
            | (Phase::LoadingTarget { .. }, Event::Fetched(Err(e)))
            | (Phase::Appending { .. }, Event::Added(Err(e))) => {
                let outcome = Outcome::Failed { error: e };
                (Phase::Done { outcome }, Action::Finish { outcome })
            },
            _ => {
                let outcome = Outcome::Failed { error: SyncError::StoreUnavailable };
                (Phase::Done { outcome }, Action::Finish { outcome })
            },
        };
        self.phase = next;
        action
    }
}

} // verus!
