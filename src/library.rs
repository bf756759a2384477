//! Listing titles, checking a requested title against the root, and putting
//! a title's episodes together.
use crate::asset_url::{asset_url, asset_url_injective, is_asset_path, is_within, path_is_within, relative_to, segments_view};
use crate::error::LibraryError;
use crate::model::{TitleLong, TitleShort, VideoContent};
use crate::order::{lemma_lex_total, lemma_lex_trans, lex_le, str_le};
use crate::sidecar::{
    episode_from_fields, fields_of, is_sidecar, is_sidecar_name, json_str_member, json_u64_member,
    json_suffix, mpd_suffix, number_tags, opt_view, stem, read_sidecar, sidecar_valid, tags_view, thumbnail_path, video_path,
};
use vstd::prelude::*;

verus! {

broadcast use vstd::seq_lib::group_to_multiset_ensures;

/// `/assets/<name>/poster.jpg`, the poster of a title in the overview.
pub open spec fn summary_poster_url(name: Seq<char>) -> Seq<char> {
    "/assets/"@ + name + "/poster.jpg"@
}

/// `assets/<name>/poster.jpg`, the poster of a title on its own page.
pub open spec fn detail_poster_url(name: Seq<char>) -> Seq<char> {
    "assets/"@ + name + "/poster.jpg"@
}

/// `assets/<name>/banner.jpg`.
pub open spec fn detail_banner_url(name: Seq<char>) -> Seq<char> {
    "assets/"@ + name + "/banner.jpg"@
}

/// One summary for each entry of the asset root, in the order given.
pub fn titles(names: &Vec<String>) -> (r: Vec<TitleShort>)
    ensures
        r@.len() == names@.len(),
        forall|i: int|
            0 <= i < r@.len() ==> r@[i].title@ == names@[i]@ && r@[i].poster_url@
                == summary_poster_url(names@[i]@),
{
    let mut r: Vec<TitleShort> = Vec::new();
    let mut i: usize = 0;
    while i < names.len()
        invariant
            i <= names@.len(),
            r@.len() == i,
            forall|j: int|
                0 <= j < i ==> r@[j].title@ == names@[j]@ && r@[j].poster_url@
                    == summary_poster_url(names@[j]@),
        decreases names@.len() - i,
    {
        let mut poster = String::from_str("/assets/");
        poster.append(names[i].as_str());
        poster.append("/poster.jpg");
        r.push(TitleShort { title: names[i].clone(), poster_url: poster });
        i = i + 1;
    }
    r
}

/// Accepts the resolved directory of a requested title only where it is the
/// root or lies below it. `resolved` is `None` where the joined path could not
/// be resolved.
pub fn resolve_title_dir(root: &Vec<Vec<u8>>, resolved: Option<Vec<Vec<u8>>>) -> (r: Result<
    Vec<Vec<u8>>,
    LibraryError,
>)
    ensures
        match resolved {
            None => r == Err::<Vec<Vec<u8>>, LibraryError>(LibraryError::NotFound),
            Some(p) => if is_within(segments_view(root@), segments_view(p@)) {
                r == Ok::<Vec<Vec<u8>>, LibraryError>(p)
            } else {
                r == Err::<Vec<Vec<u8>>, LibraryError>(LibraryError::PathTraversal)
            },
        },
{
    match resolved {
        None => Err(LibraryError::NotFound),
        Some(p) => {
            if path_is_within(root, &p) {
                Ok(p)
            } else {
                Err(LibraryError::PathTraversal)
            }
        },
    }
}

/// Episodes in ascending order of video URL.
pub open spec fn url_sorted(s: Seq<VideoContent>) -> bool {
    forall|i: int, j: int| 0 <= i < j < s.len() ==> lex_le(s[i].video_url@, s[j].video_url@)
}

/// The same episodes, ordered by video URL.
pub fn sort_by_video_url(v: Vec<VideoContent>) -> (r: Vec<VideoContent>)
    ensures
        url_sorted(r@),
        r@.to_multiset() == v@.to_multiset(),
{
    let ghost orig = v@;
    let mut rest = v;
    let mut out: Vec<VideoContent> = Vec::new();
    assert(out@.to_multiset().add(rest@.to_multiset()) =~= orig.to_multiset());
    while rest.len() > 0
        invariant
            url_sorted(out@),
            out@.to_multiset().add(rest@.to_multiset()) == orig.to_multiset(),
        decreases rest@.len(),
    {
        let ghost old_rest = rest@;
        let x = rest.pop().unwrap();
        assert(old_rest =~= rest@.push(x));
        let mut p: usize = 0;
        while p < out.len() && str_le(out[p].video_url.as_str(), x.video_url.as_str())
            invariant
                p <= out@.len(),
                forall|k: int| 0 <= k < p ==> lex_le(out@[k].video_url@, x.video_url@),
            decreases out@.len() - p,
        {
            p = p + 1;
        }
        let ghost old_out = out@;
        proof {
            if p < old_out.len() {
                lemma_lex_total(old_out[p as int].video_url@, x.video_url@);
            }
        }
        out.insert(p, x);
        proof {
            let n = out@;
            assert(n.remove(p as int) =~= old_out);
            assert(n[p as int] == x);
            assert(n.to_multiset() =~= old_out.to_multiset().insert(x)) by {
                broadcast use vstd::multiset::group_multiset_axioms;
                assert(n.to_multiset().count(x) > 0);
            }
            assert(out@.to_multiset().add(rest@.to_multiset()) =~= orig.to_multiset()) by {
                broadcast use vstd::multiset::group_multiset_axioms;
            }
            assert forall|i: int, j: int| 0 <= i < j < n.len() implies lex_le(
                n[i].video_url@,
                n[j].video_url@,
            ) by {
                if j < p {
                } else if j == p {
                } else if i < p {
                    assert(n[j] == old_out[j - 1]);
                } else if i == p {
                    assert(n[j] == old_out[j - 1]);
                    if j - 1 > p {
                        lemma_lex_trans(
                            x.video_url@,
                            old_out[p as int].video_url@,
                            old_out[j - 1].video_url@,
                        );
                    }
                } else {
                    assert(n[i] == old_out[i - 1]);
                    assert(n[j] == old_out[j - 1]);
                }
            }
        }
    }
    assert(rest@ =~= Seq::<VideoContent>::empty());
    assert(out@.to_multiset() =~= orig.to_multiset()) by {
        broadcast use vstd::multiset::group_multiset_axioms;
    }
    out
}

/// An entry of a season directory: the directory's path, the entry's file
/// name, and the entry's text where it is a sidecar that could be read.
#[derive(PartialEq, Eq, Debug, Clone)]
pub struct SeasonEntry {
    pub dir: Vec<Vec<u8>>,
    pub name: Vec<u8>,
    pub text: Option<String>,
}

/// A sidecar entry whose video and thumbnail are both asset paths of the root.
pub open spec fn entry_in_root(root: Seq<Seq<u8>>, e: SeasonEntry) -> bool {
    is_asset_path(root, video_path(segments_view(e.dir@), e.name@)) && is_asset_path(
        root,
        thumbnail_path(segments_view(e.dir@), e.name@),
    )
}

/// An entry that does not stop a title: no sidecar, or a sidecar that was
/// read, makes an episode, and whose files lie in the root.
pub open spec fn entry_ok(root: Seq<Seq<u8>>, e: SeasonEntry) -> bool {
    is_sidecar(e.name@) ==> e.text is Some && sidecar_valid(e.text->Some_0@) && entry_in_root(root, e)
}

/// An episode as plain values.
pub struct EpisodeView {
    pub title: Seq<char>,
    pub video_url: Seq<char>,
    pub thumbnail_url: Seq<char>,
    pub description: Seq<char>,
    pub source: Option<Seq<char>>,
    pub metadata: Seq<(Seq<char>, Seq<char>)>,
}

pub open spec fn episode_view(v: VideoContent) -> EpisodeView {
    EpisodeView {
        title: v.title@,
        video_url: v.video_url@,
        thumbnail_url: v.thumbnail_url@,
        description: v.description@,
        source: opt_view(v.source),
        metadata: tags_view(v.metadata@),
    }
}

/// The episode that a valid sidecar entry describes.
pub open spec fn sidecar_episode(root: Seq<Seq<u8>>, e: SeasonEntry) -> EpisodeView {
    let t = e.text->Some_0@;
    EpisodeView {
        title: json_str_member(t, "title"@)->Some_0,
        video_url: asset_url(relative_to(root, video_path(segments_view(e.dir@), e.name@))),
        thumbnail_url: asset_url(relative_to(root, thumbnail_path(segments_view(e.dir@), e.name@))),
        description: json_str_member(t, "plot"@)->Some_0,
        source: json_str_member(t, "source"@),
        metadata: number_tags(json_u64_member(t, "episode"@), json_u64_member(t, "season"@)),
    }
}

/// One episode for each sidecar among the entries, in the entries' order.
pub open spec fn expected_episodes(root: Seq<Seq<u8>>, entries: Seq<SeasonEntry>) -> Seq<EpisodeView>
    decreases entries.len(),
{
    if entries.len() == 0 {
        Seq::empty()
    } else {
        let rest = expected_episodes(root, entries.drop_last());
        if is_sidecar(entries.last().name@) {
            rest.push(sidecar_episode(root, entries.last()))
        } else {
            rest
        }
    }
}

/// The page of title `name`. `title_dir` is the resolved directory of the
/// title (`None` where it could not be resolved): `NotFound` without one,
/// `PathTraversal` where it lies outside the root. `entries` are those of its
/// season directories; entries that are no sidecar are passed over. A sidecar
/// that could not be read, that does not give a title and a plot, or whose
/// video or thumbnail lies outside the root fails the whole call with
/// `InvalidContent`. Otherwise there is exactly one episode per sidecar,
/// ordered by video URL.
pub fn title(
    asset_dir: &Vec<Vec<u8>>,
    name: &str,
    title_dir: Option<Vec<Vec<u8>>>,
    entries: &Vec<SeasonEntry>,
) -> (r: Result<TitleLong, LibraryError>)
    ensures
        ({
            let root = segments_view(asset_dir@);
            match title_dir {
                None => r == Err::<TitleLong, LibraryError>(LibraryError::NotFound),
                Some(p) => if !is_within(root, segments_view(p@)) {
                    r == Err::<TitleLong, LibraryError>(LibraryError::PathTraversal)
                } else {
                    &&& (r is Ok <==> forall|m: int|
                        0 <= m < entries@.len() ==> entry_ok(root, #[trigger] entries@[m]))
                    &&& (r is Err ==> r->Err_0 == LibraryError::InvalidContent)
                    &&& (r is Ok ==> {
                        let t = r->Ok_0;
                        &&& t.title@ == name@
                        &&& t.poster_url@ == detail_poster_url(name@)
                        &&& t.banner_url@ == detail_banner_url(name@)
                        &&& t.metadata@.len() == 0
                        &&& url_sorted(t.content@)
                        &&& exists|s: Seq<VideoContent>|
                            s.map_values(|v: VideoContent| episode_view(v)) == expected_episodes(
                                root,
                                entries@,
                            ) && t.content@.to_multiset() == #[trigger] s.to_multiset()
                    })
                },
            }
        }),
{
    let ghost td = title_dir;
    match resolve_title_dir(asset_dir, title_dir) {
        Err(e) => {
            return Err(e);
        },
        Ok(_) => {},
    }
    let ghost root = segments_view(asset_dir@);
    assert(td is Some && is_within(root, segments_view(td->Some_0@)));
    let mut found: Vec<VideoContent> = Vec::new();
    let mut i: usize = 0;
    assert(entries@.take(0) =~= Seq::<SeasonEntry>::empty());
    assert(found@.map_values(|v: VideoContent| episode_view(v)) =~= Seq::<EpisodeView>::empty());
    while i < entries.len()
        invariant
            i <= entries@.len(),
            root == segments_view(asset_dir@),
            td == title_dir,
            td is Some && is_within(root, segments_view(td->Some_0@)),
            found@.map_values(|v: VideoContent| episode_view(v)) == expected_episodes(
                root,
                entries@.take(i as int),
            ),
            forall|m: int| 0 <= m < i ==> entry_ok(root, #[trigger] entries@[m]),
        decreases entries@.len() - i,
    {
        let entry = &entries[i];
        assert(entries@.take(i + 1).drop_last() =~= entries@.take(i as int));
        assert(entries@.take(i + 1).last() == entries@[i as int]);
        if is_sidecar_name(entry.name.as_slice()) {
            let fields = match &entry.text {
                Some(text) => {
                    assert(entries@[i as int].text == Some(*text));
                    read_sidecar(text.as_str())
                },
                None => {
                    assert(entries@[i as int].text is None);
                    assert(is_sidecar(entries@[i as int].name@));
                    assert(!entry_ok(root, entries@[i as int]));
                    return Err(LibraryError::InvalidContent);
                },
            };
            let f = match fields {
                Some(f) => f,
                None => {
                    assert(!entry_ok(root, entries@[i as int]));
                    return Err(LibraryError::InvalidContent);
                },
            };
            let ghost text = entry.text->Some_0@;
            assert(fields_of(f, text));
            let episode = episode_from_fields(asset_dir, &entry.dir, entry.name.as_slice(), f);
            match episode {
                Some(v) => {
                    let ghost before = found@;
                    assert(episode_view(v) == sidecar_episode(root, entries@[i as int]));
                    found.push(v);
                    assert(found@.map_values(|v: VideoContent| episode_view(v)) =~= before.map_values(
                        |v: VideoContent| episode_view(v),
                    ).push(episode_view(v)));
                },
                None => {
                    assert(!entry_ok(root, entries@[i as int]));
                    return Err(LibraryError::InvalidContent);
                },
            }
        }
        i = i + 1;
    }
    assert(entries@.take(i as int) =~= entries@);
    let ghost unsorted = found@;
    let content = sort_by_video_url(found);
    let mut poster_url = String::from_str("assets/");
    poster_url.append(name);
    poster_url.append("/poster.jpg");
    let mut banner_url = String::from_str("assets/");
    banner_url.append(name);
    banner_url.append("/banner.jpg");
    let r = TitleLong {
        title: String::from_str(name),
        poster_url,
        banner_url,
        metadata: Vec::new(),
        content,
    };
    assert(unsorted.map_values(|v: VideoContent| episode_view(v)) == expected_episodes(root, entries@)
        && r.content@.to_multiset() == unsorted.to_multiset());
    Ok(r)
}

proof fn lemma_expected_from_entries(root: Seq<Seq<u8>>, es: Seq<SeasonEntry>)
    ensures
        forall|k: int|
            0 <= k < expected_episodes(root, es).len() ==> exists|m: int|
                0 <= m < es.len() && is_sidecar(es[m].name@) && #[trigger] expected_episodes(
                    root,
                    es,
                )[k] == sidecar_episode(root, es[m]),
    decreases es.len(),
{
    if es.len() > 0 {
        let init = es.drop_last();
        lemma_expected_from_entries(root, init);
        assert forall|k: int| 0 <= k < expected_episodes(root, es).len() implies exists|m: int|
            0 <= m < es.len() && is_sidecar(es[m].name@) && #[trigger] expected_episodes(root, es)[k]
                == sidecar_episode(root, es[m]) by {
            if k < expected_episodes(root, init).len() {
                let m = choose|m: int|
                    0 <= m < init.len() && is_sidecar(init[m].name@) && #[trigger] expected_episodes(
                        root,
                        init,
                    )[k] == sidecar_episode(root, init[m]);
                assert(es[m] == init[m]);
            } else {
                assert(es[es.len() - 1] == es.last());
            }
        }
    }
}

proof fn lemma_video_path_injective(root: Seq<Seq<u8>>, e1: SeasonEntry, e2: SeasonEntry)
    requires
        is_sidecar(e1.name@),
        is_sidecar(e2.name@),
        entry_in_root(root, e1),
        entry_in_root(root, e2),
        segments_view(e1.dir@) != segments_view(e2.dir@) || e1.name@ != e2.name@,
    ensures
        sidecar_episode(root, e1).video_url != sidecar_episode(root, e2).video_url,
{
    let p1 = video_path(segments_view(e1.dir@), e1.name@);
    let p2 = video_path(segments_view(e2.dir@), e2.name@);
    if p1 != p2 {
        asset_url_injective(root, p1, p2);
    } else {
        assert(p1.drop_last() =~= segments_view(e1.dir@));
        assert(p2.drop_last() =~= segments_view(e2.dir@));
        let l1 = stem(e1.name@) + mpd_suffix();
        let l2 = stem(e2.name@) + mpd_suffix();
        assert(l1 == p1.last() && l2 == p2.last());
        assert(stem(e1.name@) =~= l1.take(l1.len() - 4));
        assert(stem(e2.name@) =~= l2.take(l2.len() - 4));
        assert(e1.name@ =~= stem(e1.name@) + json_suffix());
        assert(e2.name@ =~= stem(e2.name@) + json_suffix());
    }
}

/// Sidecars that differ in directory or name give episodes with different
/// video URLs: where every entry is sound and no sidecar stands twice, the
/// episodes of a title have pairwise distinct video URLs, so sorting orders
/// them strictly.
pub proof fn episode_urls_distinct(root: Seq<Seq<u8>>, entries: Seq<SeasonEntry>)
    requires
        forall|m: int| 0 <= m < entries.len() ==> entry_ok(root, #[trigger] entries[m]),
        forall|a: int, b: int|
            0 <= a < b < entries.len() && is_sidecar(entries[a].name@) && is_sidecar(
                entries[b].name@,
            ) ==> segments_view(#[trigger] entries[a].dir@) != segments_view(
                #[trigger] entries[b].dir@,
            ) || entries[a].name@ != entries[b].name@,
    ensures
        forall|i: int, j: int|
            0 <= i < j < expected_episodes(root, entries).len() ==> (#[trigger] expected_episodes(
                root,
                entries,
            )[i]).video_url != (#[trigger] expected_episodes(root, entries)[j]).video_url,
    decreases entries.len(),
{
    if entries.len() > 0 {
        let init = entries.drop_last();
        let last = entries.last();
        assert forall|m: int| 0 <= m < init.len() implies entry_ok(root, #[trigger] init[m]) by {
            assert(init[m] == entries[m]);
        }
        assert forall|a: int, b: int|
            0 <= a < b < init.len() && is_sidecar(init[a].name@) && is_sidecar(init[b].name@) implies segments_view(
                #[trigger] init[a].dir@,
            ) != segments_view(#[trigger] init[b].dir@) || init[a].name@ != init[b].name@ by {
            assert(init[a] == entries[a] && init[b] == entries[b]);
        }
        episode_urls_distinct(root, init);
        if is_sidecar(last.name@) {
            lemma_expected_from_entries(root, init);
            let ex = expected_episodes(root, entries);
            let ei = expected_episodes(root, init);
            assert(entry_ok(root, entries[entries.len() - 1]));
            assert forall|i: int, j: int| 0 <= i < j < ex.len() implies (#[trigger] ex[i]).video_url != (
            #[trigger] ex[j]).video_url by {
                if j < ei.len() {
                    assert(ex[i] == ei[i] && ex[j] == ei[j]);
                } else {
                    assert(ex[i] == ei[i]);
                    let m = choose|m: int|
                        0 <= m < init.len() && is_sidecar(init[m].name@) && #[trigger] expected_episodes(
                            root,
                            init,
                        )[i] == sidecar_episode(root, init[m]);
                    assert(init[m] == entries[m]);
                    assert(entry_ok(root, entries[m]));
                    assert(segments_view(entries[m].dir@) != segments_view(entries[entries.len() - 1].dir@)
                        || entries[m].name@ != entries[entries.len() - 1].name@);
                    lemma_video_path_injective(root, init[m], last);
                }
            }
        }
    }
}

} // verus!
