//! Merging a provider's track history into an episode's stored playlist:
//! a track already stored under its provider id is updated; else the latest
//! polled row with the same artist and title (and no provider id) is
//! upgraded to it; else the track is inserted after the stored rows.
use vstd::prelude::*;
use crate::commands::{provider_source, provider_source_spec};
use crate::rethink::recent_view;
use crate::text::str_eq;
use crate::wfmu::{clone_opt, opt_view, ParsedRecentTrack, RecentTrackModel};

verus! {

/// A stored playlist row, as the merge reads it.
pub struct TrackRow {
    pub id: i64,
    pub seq: i64,
    pub artist: Option<String>,
    pub title: Option<String>,
    pub source_id: Option<String>,
}

/// A row the merge works on: a stored row by its id, or the `n`-th row the
/// merge itself inserted.
#[derive(Debug, Clone, Copy, PartialEq, Eq, Structural)]
pub enum RowRef {
    Stored(i64),
    Added(usize),
}

/// What the merge knows of a row.
pub struct RowModel {
    pub key: RowRef,
    pub seq: int,
    pub artist: Option<Seq<char>>,
    pub title: Option<Seq<char>>,
    pub source: Option<Seq<char>>,
}

/// The model of a stored row.
pub open spec fn row_model(r: TrackRow) -> RowModel {
    RowModel {
        key: RowRef::Stored(r.id),
        seq: r.seq as int,
        artist: opt_view(r.artist),
        title: opt_view(r.title),
        source: opt_view(r.source_id),
    }
}

/// The models of stored rows.
pub open spec fn rows_view(v: Seq<TrackRow>) -> Seq<RowModel> {
    v.map_values(|r: TrackRow| row_model(r))
}

/// One write of the merge: update a row with history track `track`, or
/// insert history track `track` at position `seq`.
#[derive(Debug, Clone, Copy, PartialEq, Eq, Structural)]
pub enum ProviderStep {
    Update { row: RowRef, track: usize },
    Insert { seq: i64, track: usize },
}

/// The first row from `i` on stored under provider id `src`.
pub open spec fn first_source_from(rows: Seq<RowModel>, src: Seq<char>, i: int) -> Option<int>
    decreases rows.len() - i,
{
    if i < 0 || i >= rows.len() {
        None
    } else if rows[i].source == Some(src) {
        Some(i)
    } else {
        first_source_from(rows, src, i + 1)
    }
}

/// A polled row that a history track may upgrade: no provider id, the same
/// artist and title.
pub open spec fn local_match(r: RowModel, artist: Option<Seq<char>>, title: Option<Seq<char>>) -> bool {
    r.source is None && r.artist == artist && r.title == title
}

/// From `i` on, the matching polled row with the greatest position (the
/// first of equals), `best` being the best one before `i`.
pub open spec fn latest_local_from(
    rows: Seq<RowModel>,
    artist: Option<Seq<char>>,
    title: Option<Seq<char>>,
    i: int,
    best: Option<int>,
) -> Option<int>
    decreases rows.len() - i,
{
    if i < 0 || i >= rows.len() {
        best
    } else if local_match(rows[i], artist, title) && (best is None || rows[i].seq > rows[best->0].seq) {
        latest_local_from(rows, artist, title, i + 1, Some(i))
    } else {
        latest_local_from(rows, artist, title, i + 1, best)
    }
}

/// Row `j` after history track `t`, under provider id `src`, landed on it.
pub open spec fn update_row(rows: Seq<RowModel>, j: int, t: RecentTrackModel, src: Seq<char>) -> Seq<RowModel> {
    rows.update(
        j,
        RowModel { key: rows[j].key, seq: rows[j].seq, artist: t.artist, title: t.title, source: Some(src) },
    )
}

/// One history track merged: its step, the rows after it, the next free
/// position and the number of rows inserted so far.
pub open spec fn merge_one(
    rows: Seq<RowModel>,
    src: Seq<char>,
    t: RecentTrackModel,
    k: int,
    next_seq: int,
    added: nat,
) -> (ProviderStep, Seq<RowModel>, int, nat) {
    match first_source_from(rows, src, 0) {
        Some(j) => (
            ProviderStep::Update { row: rows[j].key, track: k as usize },
            update_row(rows, j, t, src),
            next_seq,
            added,
        ),
        None => match latest_local_from(rows, t.artist, t.title, 0, None) {
            Some(j) => (
                ProviderStep::Update { row: rows[j].key, track: k as usize },
                update_row(rows, j, t, src),
                next_seq,
                added,
            ),
            None => (
                ProviderStep::Insert { seq: next_seq as i64, track: k as usize },
                rows.push(
                    RowModel {
                        key: RowRef::Added(added as usize),
                        seq: next_seq,
                        artist: t.artist,
                        title: t.title,
                        source: Some(src),
                    },
                ),
                next_seq + 1,
                added + 1,
            ),
        },
    }
}

/// The history tracks from `k` on merged in order: the steps, and the rows
/// they leave.
pub open spec fn merge_from(
    rows: Seq<RowModel>,
    provider: Seq<char>,
    tracks: Seq<RecentTrackModel>,
    k: int,
    next_seq: int,
    added: nat,
) -> (Seq<ProviderStep>, Seq<RowModel>)
    decreases tracks.len() - k,
{
    if k < 0 || k >= tracks.len() {
        (Seq::empty(), rows)
    } else {
        let (st, r2, n2, a2) = merge_one(
            rows,
            provider_source_spec(provider, tracks[k].source_id),
            tracks[k],
            k,
            next_seq,
            added,
        );
        let (rest, fin) = merge_from(r2, provider, tracks, k + 1, n2, a2);
        (seq![st] + rest, fin)
    }
}

/// The steps of merging `tracks` of `provider` into the stored rows, new
/// rows taking positions from `next_seq` on.
pub open spec fn provider_sync_spec(
    rows: Seq<RowModel>,
    provider: Seq<char>,
    tracks: Seq<RecentTrackModel>,
    next_seq: int,
) -> Seq<ProviderStep> {
    merge_from(rows, provider, tracks, 0, next_seq, 0).0
}

struct WorkRow {
    key: RowRef,
    seq: i64,
    artist: Option<String>,
    title: Option<String>,
    source: Option<String>,
}

spec fn work_model(w: WorkRow) -> RowModel {
    RowModel {
        key: w.key,
        seq: w.seq as int,
        artist: opt_view(w.artist),
        title: opt_view(w.title),
        source: opt_view(w.source),
    }
}

spec fn works_view(v: Seq<WorkRow>) -> Seq<RowModel> {
    v.map_values(|w: WorkRow| work_model(w))
}

fn opt_eq(a: &Option<String>, b: &Option<String>) -> (r: bool)
    ensures
        r == (opt_view(*a) == opt_view(*b)),
{
    match (a, b) {
        (Some(x), Some(y)) => str_eq(x.as_str(), y.as_str()),
        (None, None) => true,
        _ => false,
    }
}

fn source_is(w: &WorkRow, src: &String) -> (r: bool)
    ensures
        r == (work_model(*w).source == Some(src@)),
{
    match &w.source {
        Some(s) => str_eq(s.as_str(), src.as_str()),
        None => false,
    }
}

fn find_source(work: &Vec<WorkRow>, src: &String) -> (r: Option<usize>)
    ensures
        r matches Some(j) ==> j < work.len(),
        match r {
            Some(j) => first_source_from(works_view(work@), src@, 0) == Some(j as int),
            None => first_source_from(works_view(work@), src@, 0) is None,
        },
{
    let ghost v = works_view(work@);
    let mut i: usize = 0;
    while i < work.len()
        invariant
            i <= work.len(),
            v == works_view(work@),
            first_source_from(v, src@, 0) == first_source_from(v, src@, i as int),
        decreases work.len() - i,
    {
        assert(v[i as int] == work_model(work@[i as int]));
        if source_is(&work[i], src) {
            return Some(i);
        }
        i = i + 1;
    }
    None
}

fn find_local(work: &Vec<WorkRow>, artist: &Option<String>, title: &Option<String>) -> (r: Option<usize>)
    ensures
        r matches Some(j) ==> j < work.len(),
        match r {
            Some(j) => latest_local_from(works_view(work@), opt_view(*artist), opt_view(*title), 0, None)
                == Some(j as int),
            None => latest_local_from(works_view(work@), opt_view(*artist), opt_view(*title), 0, None)
                is None,
        },
{
    let ghost v = works_view(work@);
    let ghost (a, t) = (opt_view(*artist), opt_view(*title));
    let mut best: Option<usize> = None;
    let mut i: usize = 0;
    while i < work.len()
        invariant
            i <= work.len(),
            v == works_view(work@),
            a == opt_view(*artist),
            t == opt_view(*title),
            best matches Some(b) ==> b < i,
            latest_local_from(v, a, t, 0, None) == latest_local_from(
                v,
                a,
                t,
                i as int,
                match best {
                    Some(b) => Some(b as int),
                    None => None,
                },
            ),
        decreases work.len() - i,
    {
        assert(v[i as int] == work_model(work@[i as int]));
        let w = &work[i];
        let no_source = match &w.source {
            Some(_) => false,
            None => true,
        };
        let matches = no_source && opt_eq(&w.artist, artist) && opt_eq(&w.title, title);
        let better = match best {
            None => true,
            Some(b) => {
                assert(v[b as int] == work_model(work@[b as int]));
                w.seq > work[b].seq
            },
        };
        assert(matches == local_match(v[i as int], a, t));
        assert(better == (best is None || v[i as int].seq > v[best->0 as int].seq));
        let ghost gb = match best {
            Some(b) => Some(b as int),
            None => None::<int>,
        };
        assert(latest_local_from(v, a, t, i as int, gb) == if matches && better {
            latest_local_from(v, a, t, i + 1, Some(i as int))
        } else {
            latest_local_from(v, a, t, i + 1, gb)
        });
        if matches && better {
            best = Some(i);
        }
        i = i + 1;
    }
    best
}

/// Plans the merge of a provider's history `tracks` into an episode's
/// stored `rows`, new rows taking positions from `next_seq` on, as
/// [`provider_sync_spec`] says.
pub fn provider_sync_plan(rows: &[TrackRow], provider: &str, tracks: &[ParsedRecentTrack], next_seq: i64) -> (r: Vec<
    ProviderStep,
>)
    requires
        next_seq + tracks.len() <= i64::MAX,
    ensures
        r@ == provider_sync_spec(rows_view(rows@), provider@, recent_view(tracks@), next_seq as int),
{
    let ghost rv = rows_view(rows@);
    let ghost tv = recent_view(tracks@);
    let mut work: Vec<WorkRow> = Vec::new();
    let mut i: usize = 0;
    while i < rows.len()
        invariant
            i <= rows.len(),
            rv == rows_view(rows@),
            works_view(work@) =~= rv.take(i as int),
        decreases rows.len() - i,
    {
        let r = &rows[i];
        let w = WorkRow {
            key: RowRef::Stored(r.id),
            seq: r.seq,
            artist: clone_opt(&r.artist),
            title: clone_opt(&r.title),
            source: clone_opt(&r.source_id),
        };
        let ghost before = work@;
        work.push(w);
        assert(works_view(work@) =~= works_view(before).push(work_model(w)));
        assert(rv.take(i + 1) =~= rv.take(i as int).push(rv[i as int]));
        i = i + 1;
    }
    assert(rv.take(rows.len() as int) =~= rv);
    let mut steps: Vec<ProviderStep> = Vec::new();
    let mut next: i64 = next_seq;
    let mut added: usize = 0;
    let mut k: usize = 0;
    while k < tracks.len()
        invariant
            k <= tracks.len(),
            tv == recent_view(tracks@),
            added <= k,
            next == next_seq + added,
            next_seq + tracks.len() <= i64::MAX,
            merge_from(rv, provider@, tv, 0, next_seq as int, 0).0 == steps@ + merge_from(
                works_view(work@),
                provider@,
                tv,
                k as int,
                next as int,
                added as nat,
            ).0,
        decreases tracks.len() - k,
    {
        let t = &tracks[k];
        assert(tv[k as int] == t@);
        let src = provider_source(provider, t.source_id.as_str());
        let ghost cur = works_view(work@);
        let ghost one = merge_one(cur, src@, t@, k as int, next as int, added as nat);
        assert(merge_from(cur, provider@, tv, k as int, next as int, added as nat).0 == seq![one.0]
            + merge_from(one.1, provider@, tv, k + 1, one.2, one.3).0);
        let target = match find_source(&work, &src) {
            Some(j) => Some(j),
            None => find_local(&work, &t.artist, &t.title),
        };
        match target {
            Some(j) => {
                proof {
                    if first_source_from(cur, src@, 0) is None {
                        assert(latest_local_from(cur, t@.artist, t@.title, 0, None) == Some(j as int));
                    }
                }
                assert(cur[j as int] == work_model(work@[j as int]));
                let key = work[j].key;
                let seq = work[j].seq;
                let w = WorkRow {
                    key,
                    seq,
                    artist: clone_opt(&t.artist),
                    title: clone_opt(&t.title),
                    source: Some(src),
                };
                let ghost wm = work_model(w);
                work.set(j, w);
                assert(works_view(work@) =~= cur.update(j as int, wm));
                assert(works_view(work@) =~= one.1);
                steps.push(ProviderStep::Update { row: key, track: k });
            },
            None => {
                let w = WorkRow {
                    key: RowRef::Added(added),
                    seq: next,
                    artist: clone_opt(&t.artist),
                    title: clone_opt(&t.title),
                    source: Some(src),
                };
                let ghost wm = work_model(w);
                work.push(w);
                assert(works_view(work@) =~= cur.push(wm));
                assert(works_view(work@) =~= one.1);
                steps.push(ProviderStep::Insert { seq: next, track: k });
                next = next + 1;
                added = added + 1;
            },
        }
        k = k + 1;
    }
    steps
}

/// Whether some row is stored under provider id `src`.
pub open spec fn has_source(rows: Seq<RowModel>, src: Seq<char>) -> bool {
    exists|j: int| 0 <= j < rows.len() && (#[trigger] rows[j]).source == Some(src)
}

proof fn lemma_first_source(rows: Seq<RowModel>, src: Seq<char>, i: int)
    requires
        0 <= i,
    ensures
        first_source_from(rows, src, i) matches Some(j) ==> i <= j < rows.len() && rows[j].source
            == Some(src),
        (exists|j: int| i <= j < rows.len() && (#[trigger] rows[j]).source == Some(src))
            ==> first_source_from(rows, src, i) is Some,
    decreases rows.len() - i,
{
    if i < rows.len() {
        lemma_first_source(rows, src, i + 1);
        if rows[i].source != Some(src) && exists|j: int|
            i <= j < rows.len() && (#[trigger] rows[j]).source == Some(src) {
            let j = choose|j: int| i <= j < rows.len() && (#[trigger] rows[j]).source == Some(src);
            assert(j != i);
            assert(i + 1 <= j);
        }
    }
}

proof fn lemma_latest_local(
    rows: Seq<RowModel>,
    artist: Option<Seq<char>>,
    title: Option<Seq<char>>,
    i: int,
    best: Option<int>,
)
    requires
        0 <= i,
        best matches Some(b) ==> 0 <= b < rows.len() && local_match(rows[b], artist, title),
    ensures
        latest_local_from(rows, artist, title, i, best) matches Some(j) ==> 0 <= j < rows.len()
            && local_match(rows[j], artist, title),
    decreases rows.len() - i,
{
    if i < rows.len() {
        if local_match(rows[i], artist, title) && (best is None || rows[i].seq > rows[best->0].seq) {
            lemma_latest_local(rows, artist, title, i + 1, Some(i));
        } else {
            lemma_latest_local(rows, artist, title, i + 1, best);
        }
    }
}

proof fn lemma_merge_one_keeps_sources(
    rows: Seq<RowModel>,
    src: Seq<char>,
    t: RecentTrackModel,
    k: int,
    next_seq: int,
    added: nat,
)
    ensures
        has_source(merge_one(rows, src, t, k, next_seq, added).1, src),
        forall|s: Seq<char>| has_source(rows, s) ==> #[trigger] has_source(
            merge_one(rows, src, t, k, next_seq, added).1,
            s,
        ),
        merge_one(rows, src, t, k, next_seq, added).2 >= next_seq,
{
    let out = merge_one(rows, src, t, k, next_seq, added).1;
    lemma_first_source(rows, src, 0);
    lemma_latest_local(rows, t.artist, t.title, 0, None);
    match first_source_from(rows, src, 0) {
        Some(j) => {
            assert(out[j].source == Some(src));
            assert forall|s: Seq<char>| has_source(rows, s) implies #[trigger] has_source(out, s) by {
                let m = choose|m: int| 0 <= m < rows.len() && (#[trigger] rows[m]).source == Some(s);
                if m == j {
                    assert(out[j].source == Some(s));
                } else {
                    assert(out[m] == rows[m]);
                }
            }
        },
        None => match latest_local_from(rows, t.artist, t.title, 0, None) {
            Some(j) => {
                assert(out[j].source == Some(src));
                assert forall|s: Seq<char>| has_source(rows, s) implies #[trigger] has_source(out, s) by {
                    let m = choose|m: int| 0 <= m < rows.len() && (#[trigger] rows[m]).source == Some(s);
                    assert(m != j);
                    assert(out[m] == rows[m]);
                }
            },
            None => {
                assert(out[rows.len() as int].source == Some(src));
                assert forall|s: Seq<char>| has_source(rows, s) implies #[trigger] has_source(out, s) by {
                    let m = choose|m: int| 0 <= m < rows.len() && (#[trigger] rows[m]).source == Some(s);
                    assert(out[m] == rows[m]);
                }
            },
        },
    }
}

/// After merging the tracks from `k` on, every one of them is stored under
/// its provider id, and every provider id stored before still is.
proof fn lemma_merge_stores_sources(
    rows: Seq<RowModel>,
    provider: Seq<char>,
    tracks: Seq<RecentTrackModel>,
    k: int,
    next_seq: int,
    added: nat,
)
    requires
        0 <= k,
    ensures
        forall|s: Seq<char>| has_source(rows, s) ==> #[trigger] has_source(
            merge_from(rows, provider, tracks, k, next_seq, added).1,
            s,
        ),
        forall|m: int|
            k <= m < tracks.len() ==> has_source(
                merge_from(rows, provider, tracks, k, next_seq, added).1,
                provider_source_spec(provider, (#[trigger] tracks[m]).source_id),
            ),
    decreases tracks.len() - k,
{
    if k < tracks.len() {
        let src = provider_source_spec(provider, tracks[k].source_id);
        let one = merge_one(rows, src, tracks[k], k, next_seq, added);
        lemma_merge_one_keeps_sources(rows, src, tracks[k], k, next_seq, added);
        lemma_merge_stores_sources(one.1, provider, tracks, k + 1, one.2, one.3);
        let fin = merge_from(rows, provider, tracks, k, next_seq, added).1;
        assert(fin == merge_from(one.1, provider, tracks, k + 1, one.2, one.3).1);
        assert(has_source(fin, src));
    }
}

/// Merging tracks that are all stored under their provider ids only
/// updates rows.
proof fn lemma_merge_only_updates(
    rows: Seq<RowModel>,
    provider: Seq<char>,
    tracks: Seq<RecentTrackModel>,
    k: int,
    next_seq: int,
    added: nat,
)
    requires
        0 <= k,
        forall|m: int|
            k <= m < tracks.len() ==> has_source(
                rows,
                provider_source_spec(provider, (#[trigger] tracks[m]).source_id),
            ),
    ensures
        forall|i: int|
            0 <= i < merge_from(rows, provider, tracks, k, next_seq, added).0.len()
                ==> (#[trigger] merge_from(rows, provider, tracks, k, next_seq, added).0[i]) is Update,
    decreases tracks.len() - k,
{
    if k < tracks.len() {
        let src = provider_source_spec(provider, tracks[k].source_id);
        let one = merge_one(rows, src, tracks[k], k, next_seq, added);
        assert(has_source(rows, src));
        let j0 = choose|j: int| 0 <= j < rows.len() && (#[trigger] rows[j]).source == Some(src);
        lemma_first_source(rows, src, 0);
        assert(first_source_from(rows, src, 0) is Some);
        lemma_merge_one_keeps_sources(rows, src, tracks[k], k, next_seq, added);
        assert forall|m: int| k + 1 <= m < tracks.len() implies has_source(
            one.1,
            provider_source_spec(provider, (#[trigger] tracks[m]).source_id),
        ) by {
            assert(has_source(rows, provider_source_spec(provider, tracks[m].source_id)));
        }
        lemma_merge_only_updates(one.1, provider, tracks, k + 1, one.2, one.3);
        let all = merge_from(rows, provider, tracks, k, next_seq, added).0;
        let rest = merge_from(one.1, provider, tracks, k + 1, one.2, one.3).0;
        assert(all == seq![one.0] + rest);
        assert forall|i: int| 0 <= i < all.len() implies (#[trigger] all[i]) is Update by {
            if i > 0 {
                assert(all[i] == rest[i - 1]);
            }
        }
    }
}

/// Merging the same history again is idempotent in what it writes: once
/// the tracks are merged, merging them again (from any next position)
/// inserts nothing and only updates rows.
pub proof fn provider_history_merges_once(
    rows: Seq<RowModel>,
    provider: Seq<char>,
    tracks: Seq<RecentTrackModel>,
    next_seq: int,
    later_next_seq: int,
)
    ensures
        forall|i: int|
            0 <= i < provider_sync_spec(
                merge_from(rows, provider, tracks, 0, next_seq, 0).1,
                provider,
                tracks,
                later_next_seq,
            ).len() ==> (#[trigger] provider_sync_spec(
                merge_from(rows, provider, tracks, 0, next_seq, 0).1,
                provider,
                tracks,
                later_next_seq,
            )[i]) is Update,
{
    let after = merge_from(rows, provider, tracks, 0, next_seq, 0).1;
    lemma_merge_stores_sources(rows, provider, tracks, 0, next_seq, 0);
    lemma_merge_only_updates(after, provider, tracks, 0, later_next_seq, 0);
}

} // verus!
