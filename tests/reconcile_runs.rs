use pimsync::diff::{diff, find_match, video_ids, contains_url};
use pimsync::engine::{Action, Event, Outcome, PlaylistSync};
use pimsync::model::{Playlist, SyncError, Video};
use pimsync::reconcile::Reconciler;

fn video(url: &str, title: &str, uploader: &str) -> Video {
    Video { title: title.to_string(), url: url.to_string(), uploader: uploader.to_string() }
}

fn v(url: &str) -> Video {
    video(url, &format!("title of {}", url), "someone")
}

fn playlist(id: Option<&str>, name: Option<&str>, videos: Option<Vec<Video>>) -> Playlist {
    Playlist {
        id: id.map(|s| s.to_string()),
        name: name.map(|s| s.to_string()),
        videos,
        url: None,
    }
}

/// A target store held in memory, with a log of the writes it received.
struct MemStore {
    playlists: Vec<(String, String, Vec<String>)>,
    creates: Vec<String>,
    adds: Vec<(String, Vec<String>)>,
    fail_create_for: Option<String>,
    next_id: usize,
}

impl MemStore {
    fn new() -> MemStore {
        MemStore { playlists: Vec::new(), creates: Vec::new(), adds: Vec::new(), fail_create_for: None, next_id: 0 }
    }

    fn with(mut self, name: &str, urls: &[&str]) -> MemStore {
        let id = format!("id{}", self.next_id);
        self.next_id += 1;
        self.playlists.push((id, name.to_string(), urls.iter().map(|u| u.to_string()).collect()));
        self
    }

    fn listing(&self) -> Vec<Playlist> {
        self.playlists.iter().map(|(id, name, _)| playlist(Some(id), Some(name), None)).collect()
    }

    fn videos_of(&self, id: &str) -> Vec<String> {
        self.playlists.iter().find(|p| p.0 == id).map(|p| p.2.clone()).unwrap_or_default()
    }

    fn writes(&self) -> usize {
        self.creates.len() + self.adds.len()
    }
}

/// Runs one reconciliation from `source` towards `target`, answering every action.
fn run(source: &[Playlist], target: &mut MemStore) -> Vec<(Option<String>, Outcome)> {
    let listed: Vec<Playlist> = source.iter().map(|p| p.copy()).collect();
    let (mut rec, mut next) = Reconciler::start(Ok(listed), Ok(target.listing())).unwrap();
    while let Some(action) = next {
        let event = match action {
            Action::CreatePlaylist { name } => {
                if target.fail_create_for.as_deref() == Some(name.as_str()) {
                    Event::Created(Err(SyncError::DuplicateName))
                } else {
                    let id = format!("id{}", target.next_id);
                    target.next_id += 1;
                    target.creates.push(name.clone());
                    target.playlists.push((id.clone(), name.clone(), Vec::new()));
                    Event::Created(Ok(playlist(Some(&id), Some(&name), None)))
                }
            }
            Action::FetchSourceVideos { playlist } => {
                let found = source.iter().find(|p| p.name == playlist.name);
                match found.and_then(|p| p.videos.as_ref()) {
                    Some(vs) => Event::Fetched(Ok(vs.iter().map(|x| x.copy()).collect())),
                    None => Event::Fetched(Err(SyncError::PlaylistNoVideos)),
                }
            }
            Action::FetchTargetVideos { playlist } => {
                let id = playlist.id.clone().unwrap();
                Event::Fetched(Ok(target.videos_of(&id).iter().map(|u| video(u, "as the target has it", "?")).collect()))
            }
            Action::AddVideos { playlist, video_ids } => {
                let id = playlist.id.clone().unwrap();
                target.adds.push((id.clone(), video_ids.clone()));
                let entry = target.playlists.iter_mut().find(|p| p.0 == id).unwrap();
                entry.2.extend(video_ids);
                Event::Added(Ok(()))
            }
            Action::Finish { .. } => panic!("a run hands out no finish action"),
        };
        next = rec.step(event);
    }
    rec.report().iter().map(|e| (e.name.clone(), e.outcome)).collect()
}

#[test]
fn create_path_adds_every_video() {
    let source = vec![playlist(None, Some("Road Trip"), Some(vec![v("v1")]))];
    let mut target = MemStore::new().with("Other", &["x"]);
    let report = run(&source, &mut target);
    assert_eq!(report, vec![(Some("Road Trip".to_string()), Outcome::Created { added: 1 })]);
    assert_eq!(target.creates, vec!["Road Trip".to_string()]);
    let created = target.playlists.iter().find(|p| p.1 == "Road Trip").unwrap();
    assert_eq!(created.2, vec!["v1".to_string()]);
}

#[test]
fn merge_path_appends_only_missing() {
    let source = vec![playlist(None, Some("Chill"), Some(vec![v("v1"), v("v2")]))];
    let mut target = MemStore::new().with("Chill", &["v1"]);
    let report = run(&source, &mut target);
    assert_eq!(report, vec![(Some("Chill".to_string()), Outcome::Merged { added: 1 })]);
    assert!(target.creates.is_empty());
    assert_eq!(target.adds, vec![("id0".to_string(), vec!["v2".to_string()])]);
    assert_eq!(target.videos_of("id0"), vec!["v1".to_string(), "v2".to_string()]);
}

#[test]
fn second_run_writes_nothing() {
    let source = vec![
        playlist(None, Some("Road Trip"), Some(vec![v("v1"), v("v3")])),
        playlist(None, Some("Chill"), Some(vec![v("v1"), v("v2")])),
    ];
    let mut target = MemStore::new().with("Chill", &["v1"]);
    run(&source, &mut target);
    let writes_after_first = target.writes();
    assert_eq!(writes_after_first, 3);
    let report = run(&source, &mut target);
    assert_eq!(target.writes(), writes_after_first);
    assert_eq!(
        report,
        vec![
            (Some("Road Trip".to_string()), Outcome::Merged { added: 0 }),
            (Some("Chill".to_string()), Outcome::Merged { added: 0 }),
        ]
    );
}

#[test]
fn nameless_playlist_is_skipped_and_run_goes_on() {
    let source = vec![
        playlist(None, None, Some(vec![v("a")])),
        playlist(None, Some("Later"), Some(vec![v("b")])),
    ];
    let mut target = MemStore::new();
    let report = run(&source, &mut target);
    assert_eq!(
        report,
        vec![
            (None, Outcome::Skipped { reason: SyncError::PlaylistNoName }),
            (Some("Later".to_string()), Outcome::Created { added: 1 }),
        ]
    );
    assert_eq!(target.creates, vec!["Later".to_string()]);
}

#[test]
fn failed_create_is_isolated() {
    let source = vec![
        playlist(None, Some("First"), Some(vec![v("a")])),
        playlist(None, Some("Broken"), Some(vec![v("b")])),
        playlist(None, Some("Third"), Some(vec![v("c")])),
    ];
    let mut target = MemStore::new();
    target.fail_create_for = Some("Broken".to_string());
    let report = run(&source, &mut target);
    assert_eq!(
        report,
        vec![
            (Some("First".to_string()), Outcome::Created { added: 1 }),
            (Some("Broken".to_string()), Outcome::Failed { error: SyncError::DuplicateName }),
            (Some("Third".to_string()), Outcome::Created { added: 1 }),
        ]
    );
    assert_eq!(target.creates, vec!["First".to_string(), "Third".to_string()]);
}

#[test]
fn source_videos_are_fetched_when_not_loaded() {
    let source = vec![playlist(Some("s1"), Some("Lazy"), None)];
    let mut target = MemStore::new();
    let report = run(&source, &mut target);
    assert_eq!(report, vec![(Some("Lazy".to_string()), Outcome::Failed { error: SyncError::PlaylistNoVideos })]);
    assert_eq!(target.creates, vec!["Lazy".to_string()]);
    assert!(target.adds.is_empty());
}

#[test]
fn failed_listing_ends_the_run() {
    let r = Reconciler::start(Err(SyncError::StoreUnavailable), Ok(Vec::new()));
    assert!(matches!(r, Err(SyncError::StoreUnavailable)));
    let r = Reconciler::start(Ok(Vec::new()), Err(SyncError::StoreUnavailable));
    assert!(matches!(r, Err(SyncError::StoreUnavailable)));
    let (rec, next) = Reconciler::start(Ok(Vec::new()), Ok(Vec::new())).unwrap();
    assert!(next.is_none());
    assert!(rec.report().is_empty());
}

#[test]
fn diff_compares_identifiers_only() {
    let source = vec![video("v1", "Song", "Band"), video("v2", "Other", "Band")];
    let target = vec![video("v1", "SONG (official)", "Band - Topic")];
    assert_eq!(diff(&source, &target), vec!["v2".to_string()]);
}

#[test]
fn diff_keeps_source_order_and_handles_edges() {
    let source = vec![v("c"), v("a"), v("b")];
    assert_eq!(diff(&source, &Vec::new()), vec!["c".to_string(), "a".to_string(), "b".to_string()]);
    assert!(diff(&Vec::new(), &source).is_empty());
    let target = vec![v("a"), v("a"), v("a")];
    assert_eq!(diff(&source, &target), vec!["c".to_string(), "b".to_string()]);
    assert!(diff(&source, &source).is_empty());
}

#[test]
fn ids_and_membership() {
    let vs = vec![v("x"), v("y")];
    assert_eq!(video_ids(&vs), vec!["x".to_string(), "y".to_string()]);
    assert!(contains_url(&vs, &"y".to_string()));
    assert!(!contains_url(&vs, &"z".to_string()));
}

#[test]
fn match_is_exact_and_first() {
    let targets = vec![
        playlist(Some("0"), Some("chill"), None),
        playlist(Some("1"), None, None),
        playlist(Some("2"), Some("Chill"), None),
        playlist(Some("3"), Some("Chill"), None),
    ];
    assert_eq!(find_match(&"Chill".to_string(), &targets), Some(2));
    assert_eq!(find_match(&"chill".to_string(), &targets), Some(0));
    assert_eq!(find_match(&" Chill".to_string(), &targets), None);
}

#[test]
fn machine_merge_with_both_sides_loaded() {
    let source = playlist(None, Some("Chill"), Some(vec![v("v1"), v("v2")]));
    let targets = vec![playlist(Some("t"), Some("Chill"), Some(vec![v("v1")]))];
    let (mut sync, action) = PlaylistSync::begin(source, &targets);
    match action {
        Action::AddVideos { playlist, video_ids } => {
            assert_eq!(playlist.id, Some("t".to_string()));
            assert_eq!(video_ids, vec!["v2".to_string()]);
        }
        other => panic!("unexpected action {:?}", other),
    }
    match sync.on_event(Event::Added(Err(SyncError::StoreUnavailable))) {
        Action::Finish { outcome } => assert_eq!(outcome, Outcome::Failed { error: SyncError::StoreUnavailable }),
        other => panic!("unexpected action {:?}", other),
    }
    match sync.on_event(Event::Added(Ok(()))) {
        Action::Finish { outcome } => assert_eq!(outcome, Outcome::Failed { error: SyncError::StoreUnavailable }),
        other => panic!("unexpected action {:?}", other),
    }
}

#[test]
fn machine_fetches_target_then_merges_nothing() {
    let source = playlist(None, Some("Chill"), Some(vec![v("v1")]));
    let targets = vec![playlist(Some("t"), Some("Chill"), None)];
    let (mut sync, action) = PlaylistSync::begin(source, &targets);
    assert!(matches!(action, Action::FetchTargetVideos { .. }));
    match sync.on_event(Event::Fetched(Ok(vec![video("v1", "other title", "other uploader")]))) {
        Action::Finish { outcome } => assert_eq!(outcome, Outcome::Merged { added: 0 }),
        other => panic!("unexpected action {:?}", other),
    }
}

#[test]
fn machine_unexpected_answer_fails_the_playlist() {
    let source = playlist(None, Some("New"), Some(vec![v("v1")]));
    let (mut sync, action) = PlaylistSync::begin(source, &Vec::new());
    assert!(matches!(action, Action::CreatePlaylist { ref name } if name == "New"));
    match sync.on_event(Event::Added(Ok(()))) {
        Action::Finish { outcome } => assert_eq!(outcome, Outcome::Failed { error: SyncError::StoreUnavailable }),
        other => panic!("unexpected action {:?}", other),
    }
}

#[test]
fn created_playlist_with_no_videos_gets_an_empty_append() {
    let source = playlist(None, Some("Empty"), Some(Vec::new()));
    let (mut sync, _) = PlaylistSync::begin(source, &Vec::new());
    match sync.on_event(Event::Created(Ok(playlist(Some("n"), Some("Empty"), None)))) {
        Action::AddVideos { playlist, video_ids } => {
            assert_eq!(playlist.id, Some("n".to_string()));
            assert!(video_ids.is_empty());
        }
        other => panic!("unexpected action {:?}", other),
    }
    match sync.on_event(Event::Added(Ok(()))) {
        Action::Finish { outcome } => assert_eq!(outcome, Outcome::Created { added: 0 }),
        other => panic!("unexpected action {:?}", other),
    }
}

#[test]
fn created_playlist_without_id_fails() {
    let source = playlist(None, Some("New"), Some(vec![v("v1")]));
    let (mut sync, _) = PlaylistSync::begin(source, &Vec::new());
    match sync.on_event(Event::Created(Ok(playlist(None, Some("New"), None)))) {
        Action::Finish { outcome } => assert_eq!(outcome, Outcome::Failed { error: SyncError::StoreUnavailable }),
        other => panic!("unexpected action {:?}", other),
    }
}
