//! Videos and playlists as both stores report them.
use vstd::prelude::*;

verus! {

/// A music video. `url` is the only attribute stable across stores; `title` and
/// `uploader` are display metadata.
#[derive(Debug)]
pub struct Video {
    pub title: String,
    pub url: String,
    pub uploader: String,
}

/// A playlist of one store. `videos` is `None` while the videos have not been loaded.
#[derive(Debug)]
pub struct Playlist {
    pub id: Option<String>,
    pub name: Option<String>,
    pub videos: Option<Vec<Video>>,
    pub url: Option<String>,
}

/// Errors of the stores and of the reconciliation of one playlist.
#[derive(Debug, Clone, Copy, PartialEq, Eq, Structural)]
pub enum SyncError {
    /// The playlist has no name, the only key by which playlists are matched.
    PlaylistNoName,
    /// A store returned no video data for a playlist.
    PlaylistNoVideos,
    /// A store does not know the playlist.
    PlaylistNotFound,
    /// The target refused to create a playlist of that name.
    DuplicateName,
    /// A store could not be reached, or failed while serving the request.
    StoreUnavailable,
}

/// The identifiers of a sequence of videos, in order.
pub open spec fn url_seq(videos: Seq<Video>) -> Seq<Seq<char>> {
    videos.map_values(|v: Video| v.url@)
}

/// The text of a sequence of strings.
pub open spec fn text_seq(strs: Seq<String>) -> Seq<Seq<char>> {
    strs.map_values(|s: String| s@)
}

/// Whether `p` carries exactly the name `name`.
pub open spec fn has_name(p: Playlist, name: Seq<char>) -> bool {
    match p.name {
        Some(n) => n@ == name,
        None => false,
    }
}

/// The videos of `p` as loaded, if they are.
pub open spec fn loaded_videos(p: Playlist) -> Option<Seq<Video>> {
    match p.videos {
        Some(v) => Some(v@),
        None => None,
    }
}

/// A copy of an optional text.
pub fn copy_text(s: &Option<String>) -> (r: Option<String>)
    ensures
        r == *s,
{
    match s {
        Some(t) => Some(t.clone()),
        None => None,
    }
}

impl Video {
    /// A field-by-field copy.
    pub fn copy(&self) -> (r: Video)
        ensures
            r == *self,
    {
        Video { title: self.title.clone(), url: self.url.clone(), uploader: self.uploader.clone() }
    }
}

/// A copy of every video of `videos`, in order.
pub fn copy_videos(videos: &Vec<Video>) -> (r: Vec<Video>)
    ensures
        r@ == videos@,
{
    let mut out: Vec<Video> = Vec::new();
    let mut i: usize = 0;
    while i < videos.len()
        invariant
            i <= videos.len(),
            out@ == videos@.take(i as int),
        decreases videos.len() - i,
    {
        out.push(videos[i].copy());
        proof {
            assert(videos@.take(i + 1) =~= videos@.take(i as int).push(videos@[i as int]));
        }
        i += 1;
    }
    proof {
        assert(videos@.take(videos.len() as int) =~= videos@);
    }
    out
}

impl Playlist {
    /// A field-by-field copy.
    pub fn copy(&self) -> (r: Playlist)
        ensures
            r.id == self.id,
            r.name == self.name,
            r.url == self.url,
            loaded_videos(r) == loaded_videos(*self),
    {
        let videos = match &self.videos {
            Some(v) => Some(copy_videos(v)),
            None => None,
        };
        Playlist {
            id: copy_text(&self.id),
            name: copy_text(&self.name),
            videos,
            url: copy_text(&self.url),
        }
    }
}

} // verus!
