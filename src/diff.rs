//! Identity of videos and playlists across stores, and the difference of two video lists.
use vstd::prelude::*;
use crate::model::{Video, Playlist, url_seq, text_seq, has_name};

verus! {

/// Whether an identifier is absent from the identifiers of `target`.
pub open spec fn absent_from(target: Seq<Video>) -> spec_fn(Seq<char>) -> bool {
    |u: Seq<char>| !url_seq(target).contains(u)
}

/// The identifiers of the videos of `source` that `target` does not hold, in source order.
/// Videos are compared by identifier alone: title and uploader play no part.
pub open spec fn missing_urls(source: Seq<Video>, target: Seq<Video>) -> Seq<Seq<char>> {
    url_seq(source).filter(absent_from(target))
}

/// Whether some playlist of `targets` carries the name `name`.
pub open spec fn has_match(targets: Seq<Playlist>, name: Seq<char>) -> bool {
    exists|i: int| 0 <= i < targets.len() && has_name(#[trigger] targets[i], name)
}

/// Whether `i` is the first position of `targets` whose playlist carries the name `name`.
pub open spec fn is_first_match(targets: Seq<Playlist>, name: Seq<char>, i: int) -> bool {
    &&& 0 <= i < targets.len()
    &&& has_name(targets[i], name)
    &&& forall|j: int| 0 <= j < i ==> !has_name(#[trigger] targets[j], name)
}

proof fn lemma_url_seq_push(videos: Seq<Video>, v: Video)
    ensures
        url_seq(videos.push(v)) == url_seq(videos).push(v.url@),
{
    assert(url_seq(videos.push(v)) =~= url_seq(videos).push(v.url@));
}

proof fn lemma_url_seq_add(a: Seq<Video>, b: Seq<Video>)
    ensures
        url_seq(a + b) == url_seq(a) + url_seq(b),
{
    assert(url_seq(a + b) =~= url_seq(a) + url_seq(b));
}

/// Videos are told apart by identifier alone: when every identifier of `source` occurs in
/// `target`, nothing is missing, whatever titles and uploaders either side reports.
pub proof fn lemma_present_by_url(source: Seq<Video>, target: Seq<Video>)
    requires
        forall|i: int| 0 <= i < source.len() ==> url_seq(target).contains(#[trigger] source[i].url@),
    ensures
        missing_urls(source, target) == Seq::<Seq<char>>::empty(),
    decreases source.len(),
{
    if source.len() == 0 {
        url_seq(source).lemma_filter_len(absent_from(target));
        assert(missing_urls(source, target) =~= Seq::<Seq<char>>::empty());
    } else {
        let rest = source.drop_last();
        let v = source.last();
        assert forall|i: int| 0 <= i < rest.len() implies url_seq(target).contains(#[trigger] rest[i].url@) by {
            assert(rest[i] == source[i]);
        }
        lemma_present_by_url(rest, target);
        assert(source =~= rest.push(v));
        lemma_url_seq_push(rest, v);
        url_seq(rest).lemma_filter_push(v.url@, absent_from(target));
        assert(url_seq(target).contains(source[source.len() - 1].url@));
    }
}

/// Appending to `target` videos whose identifiers are what `diff` reported leaves nothing
/// missing: a second diff of the same source is empty. With an empty `target`, this is
/// the playlist that was created and given every source video.
pub proof fn lemma_append_completes(source: Seq<Video>, target: Seq<Video>, appended: Seq<Video>)
    requires
        url_seq(appended) == missing_urls(source, target),
    ensures
        missing_urls(source, target + appended) == Seq::<Seq<char>>::empty(),
{
    lemma_url_seq_add(target, appended);
    assert forall|i: int| 0 <= i < source.len() implies url_seq(target + appended).contains(
        #[trigger] source[i].url@,
    ) by {
        let u = source[i].url@;
        assert(url_seq(source)[i] == u);
        if url_seq(target).contains(u) {
            let k = choose|k: int| 0 <= k < url_seq(target).len() && url_seq(target)[k] == u;
            assert((url_seq(target) + url_seq(appended))[k] == u);
        } else {
            url_seq(source).lemma_filter_contains(absent_from(target), i);
            let k = choose|k: int| 0 <= k < url_seq(appended).len() && url_seq(appended)[k] == u;
            assert((url_seq(target) + url_seq(appended))[url_seq(target).len() + k] == u);
        }
    }
    lemma_present_by_url(source, target + appended);
}

/// Whether a video with identifier `url` is among `videos`.
pub fn contains_url(videos: &Vec<Video>, url: &String) -> (r: bool)
    ensures
        r == url_seq(videos@).contains(url@),
{
    let mut i: usize = 0;
    while i < videos.len()
        invariant
            i <= videos.len(),
            forall|j: int| 0 <= j < i ==> (#[trigger] videos@[j]).url@ != url@,
        decreases videos.len() - i,
    {
        if videos[i].url == *url {
            proof {
                assert(url_seq(videos@)[i as int] == url@);
            }
            return true;
        }
        i += 1;
    }
    proof {
        if url_seq(videos@).contains(url@) {
            let k = choose|k: int| 0 <= k < url_seq(videos@).len() && url_seq(videos@)[k] == url@;
            assert(videos@[k].url@ == url@);
        }
    }
    false
}

/// The identifiers of all videos of `videos`, in order.
pub fn video_ids(videos: &Vec<Video>) -> (r: Vec<String>)
    ensures
        text_seq(r@) == url_seq(videos@),
{
    let mut out: Vec<String> = Vec::new();
    let mut i: usize = 0;
    while i < videos.len()
        invariant
            i <= videos.len(),
            text_seq(out@) == url_seq(videos@.take(i as int)),
        decreases videos.len() - i,
    {
        let ghost before = out@;
        out.push(videos[i].url.clone());
        proof {
            assert(videos@.take(i + 1) =~= videos@.take(i as int).push(videos@[i as int]));
            lemma_url_seq_push(videos@.take(i as int), videos@[i as int]);
            assert(text_seq(out@) =~= text_seq(before).push(videos@[i as int].url@));
        }
        i += 1;
    }
    proof {
        assert(videos@.take(videos.len() as int) =~= videos@);
    }
    out
}

/// The identifiers of the videos of `source` whose identifier `target` does not hold, in
/// source order. A target that holds an identifier several times holds it all the same.
pub fn diff(source: &Vec<Video>, target: &Vec<Video>) -> (r: Vec<String>)
    ensures
        text_seq(r@) == missing_urls(source@, target@),
{
    let mut out: Vec<String> = Vec::new();
    let mut i: usize = 0;
    while i < source.len()
        invariant
            i <= source.len(),
            text_seq(out@) == url_seq(source@.take(i as int)).filter(absent_from(target@)),
        decreases source.len() - i,
    {
        let ghost before = out@;
        let present = contains_url(target, &source[i].url);
        if !present {
            out.push(source[i].url.clone());
            proof {
                assert(text_seq(out@) =~= text_seq(before).push(source@[i as int].url@));
            }
        }
        proof {
            let v = source@[i as int];
            assert(source@.take(i + 1) =~= source@.take(i as int).push(v));
            lemma_url_seq_push(source@.take(i as int), v);
            url_seq(source@.take(i as int)).lemma_filter_push(v.url@, absent_from(target@));
        }
        i += 1;
    }
    proof {
        assert(source@.take(source.len() as int) =~= source@);
    }
    out
}

/// The position of the first playlist of `targets` named exactly `name`, if any.
/// Names are compared as they stand: case counts, nothing is trimmed.
pub fn find_match(name: &String, targets: &Vec<Playlist>) -> (r: Option<usize>)
    ensures
        match r {
            Some(i) => is_first_match(targets@, name@, i as int),
            None => !has_match(targets@, name@),
        },
{
    let mut i: usize = 0;
    while i < targets.len()
        invariant
            i <= targets.len(),
            forall|j: int| 0 <= j < i ==> !has_name(#[trigger] targets@[j], name@),
        decreases targets.len() - i,
    {
        let found = match &targets[i].name {
            Some(n) => *n == *name,
            None => false,
        };
        if found {
            return Some(i);
        }
        i += 1;
    }
    None
}

} // verus!
