//! The rows the library keeps, and the plans by which freshly parsed pages
//! are merged into them. The storage itself lives with the application;
//! what to keep, what to replace and in which order is decided here.
use vstd::prelude::*;
use crate::wfmu::{opt_view, tracks_view, ParsedTrack, TrackModel};
use crate::text::{chars_of, push_all, string_from_chars};

verus! {

/// A show of the catalogue, as stored.
#[derive(Debug, Clone)]
pub struct Show {
    pub id: String,
    pub name: String,
    pub dj: Option<String>,
    pub description: Option<String>,
    pub on_air: bool,
    pub episode_count: i64,
    pub favourite: bool,
    pub last_scraped: Option<i64>,
}

/// An episode, as stored.
#[derive(Debug, Clone)]
pub struct Episode {
    pub id: i64,
    pub show_id: String,
    pub air_date: Option<String>,
    pub title: Option<String>,
    pub archive_id: Option<i64>,
    pub audio_url: Option<String>,
    pub has_audio: bool,
    pub favourite: bool,
    pub downloaded: bool,
    pub download_path: Option<String>,
    pub track_count: i64,
    pub resume_sec: Option<i64>,
    pub duration_sec: Option<i64>,
    pub completed: bool,
    /// Seconds of archive pre-roll before the show's playlist timeline;
    /// audio position = playlist start + offset.
    pub offset_sec: Option<i64>,
    /// Scheduled length of the broadcast, without pre-roll and post-roll.
    pub broadcast_duration_sec: Option<i64>,
}

/// A playlist row, as stored.
#[derive(Debug, Clone)]
pub struct Track {
    pub id: i64,
    pub episode_id: i64,
    pub seq: i64,
    pub artist: Option<String>,
    pub title: Option<String>,
    pub album: Option<String>,
    pub label: Option<String>,
    pub comments: Option<String>,
    pub start_sec: Option<i64>,
    pub source_id: Option<String>,
    pub played_at: Option<i64>,
    pub favourite: bool,
}

/// A download, as stored.
#[derive(Debug, Clone)]
pub struct Download {
    pub episode_id: i64,
    pub path: String,
    pub bytes: i64,
    pub total: i64,
    pub status: String,
}

/// How parsed tracks are merged into an episode's playlist: a snapshot is
/// the whole playlist; observations are single polled songs.
#[derive(Debug, Clone, Copy, PartialEq, Eq, Structural)]
pub enum TrackSyncMode {
    Snapshot,
    AppendObservations,
}

/// `s` without repeats, each value kept where it first occurs.
pub open spec fn first_occurrences(s: Seq<i64>) -> Seq<i64>
    decreases s.len(),
{
    if s.len() == 0 {
        s
    } else {
        let init = first_occurrences(s.drop_last());
        if s.drop_last().contains(s.last()) {
            init
        } else {
            init.push(s.last())
        }
    }
}

/// The order of a show's episodes after a refresh: the freshly parsed ids
/// first, in page order, then the cached ids that the page no longer shows,
/// in their cached order; each id once.
pub open spec fn episode_order_spec(parsed: Seq<i64>, existing: Seq<i64>) -> Seq<i64> {
    first_occurrences(parsed + existing)
}

proof fn lemma_first_occurrences(s: Seq<i64>)
    ensures
        forall|x: i64| first_occurrences(s).contains(x) <==> s.contains(x),
        first_occurrences(s).no_duplicates(),
    decreases s.len(),
{
    if s.len() > 0 {
        let p = s.drop_last();
        let c = s.last();
        lemma_first_occurrences(p);
        let f = first_occurrences(p);
        assert forall|x: i64| s.contains(x) <==> (p.contains(x) || x == c) by {
            if s.contains(x) {
                let k = choose|k: int| 0 <= k < s.len() && s[k] == x;
                if k < p.len() {
                    assert(p[k] == x);
                }
            }
            if p.contains(x) {
                let k = choose|k: int| 0 <= k < p.len() && p[k] == x;
                assert(s[k] == x);
            }
            if x == c {
                assert(s[s.len() - 1] == x);
            }
        }
        if p.contains(c) {
            assert(first_occurrences(s) == f);
        } else {
            let q = f.push(c);
            assert(first_occurrences(s) == q);
            assert forall|x: i64| q.contains(x) <==> (f.contains(x) || x == c) by {
                if q.contains(x) {
                    let k = choose|k: int| 0 <= k < q.len() && q[k] == x;
                    if k < f.len() {
                        assert(f[k] == x);
                    }
                }
                if f.contains(x) {
                    let k = choose|k: int| 0 <= k < f.len() && f[k] == x;
                    assert(q[k] == x);
                }
                if x == c {
                    assert(q[q.len() - 1] == x);
                }
            }
            assert forall|i: int, j: int| 0 <= i < q.len() && 0 <= j < q.len() && i != j implies q[i]
                != q[j] by {
                if i == q.len() - 1 {
                    assert(q[j] == f[j]);
                    assert(f.contains(q[j]));
                } else if j == q.len() - 1 {
                    assert(q[i] == f[i]);
                    assert(f.contains(q[i]));
                } else {
                    assert(q[i] == f[i]);
                    assert(q[j] == f[j]);
                }
            }
        }
    }
}

/// Appends `x` unless it is already there.
fn push_new(out: &mut Vec<i64>, x: i64, ghost_seen: Ghost<Seq<i64>>)
    requires
        old(out)@ == first_occurrences(ghost_seen@),
    ensures
        final(out)@ == first_occurrences(ghost_seen@.push(x)),
{
    proof {
        lemma_first_occurrences(ghost_seen@);
        assert(ghost_seen@.push(x).drop_last() =~= ghost_seen@);
    }
    if !crate::text::contains_i64(out, x) {
        out.push(x);
    }
}

/// The new `seq` order of a show's episodes after a refresh.
pub fn episode_order(parsed: &[i64], existing: &[i64]) -> (r: Vec<i64>)
    ensures
        r@ == episode_order_spec(parsed@, existing@),
{
    let mut out: Vec<i64> = Vec::new();
    let mut i: usize = 0;
    while i < parsed.len()
        invariant
            i <= parsed.len(),
            out@ == first_occurrences(parsed@.take(i as int)),
        decreases parsed.len() - i,
    {
        assert(parsed@.take(i as int).push(parsed@[i as int]) =~= parsed@.take(i + 1));
        push_new(&mut out, parsed[i], Ghost(parsed@.take(i as int)));
        i = i + 1;
    }
    assert(parsed@.take(parsed.len() as int) =~= parsed@);
    let mut j: usize = 0;
    while j < existing.len()
        invariant
            j <= existing.len(),
            out@ == first_occurrences(parsed@ + existing@.take(j as int)),
        decreases existing.len() - j,
    {
        assert((parsed@ + existing@.take(j as int)).push(existing@[j as int]) =~= parsed@
            + existing@.take(j + 1));
        push_new(&mut out, existing[j], Ghost(parsed@ + existing@.take(j as int)));
        j = j + 1;
    }
    assert(existing@.take(existing.len() as int) =~= existing@);
    out
}

/// Refreshing a show keeps every episode it knew and every episode the page
/// shows, each exactly once, with the page's episodes first and in page
/// order.
pub proof fn refreshed_order_keeps_history(parsed: Seq<i64>, existing: Seq<i64>)
    ensures
        episode_order_spec(parsed, existing).no_duplicates(),
        forall|x: i64|
            episode_order_spec(parsed, existing).contains(x) <==> (parsed.contains(x)
                || existing.contains(x)),
        episode_order_spec(parsed, existing).take(first_occurrences(parsed).len() as int)
            == first_occurrences(parsed),
{
    lemma_first_occurrences(parsed + existing);
    assert forall|x: i64| (parsed + existing).contains(x) <==> (parsed.contains(x)
        || existing.contains(x)) by {
        if parsed.contains(x) {
            let k = choose|k: int| 0 <= k < parsed.len() && parsed[k] == x;
            assert((parsed + existing)[k] == x);
        }
        if existing.contains(x) {
            let k = choose|k: int| 0 <= k < existing.len() && existing[k] == x;
            assert((parsed + existing)[parsed.len() + k] == x);
        }
        if (parsed + existing).contains(x) {
            let k = choose|k: int| 0 <= k < (parsed + existing).len() && (parsed + existing)[k] == x;
            if k < parsed.len() {
                assert(parsed[k] == x);
            } else {
                assert(existing[k - parsed.len()] == x);
            }
        }
    }
    lemma_prefix_occurrences(parsed, existing);
}

proof fn lemma_prefix_occurrences(parsed: Seq<i64>, existing: Seq<i64>)
    ensures
        first_occurrences(parsed + existing).len() >= first_occurrences(parsed).len(),
        first_occurrences(parsed + existing).take(first_occurrences(parsed).len() as int)
            == first_occurrences(parsed),
    decreases existing.len(),
{
    if existing.len() == 0 {
        assert(parsed + existing =~= parsed);
        assert(first_occurrences(parsed).take(first_occurrences(parsed).len() as int)
            =~= first_occurrences(parsed));
    } else {
        let e = existing.drop_last();
        lemma_prefix_occurrences(parsed, e);
        assert((parsed + existing).drop_last() =~= parsed + e);
        let f = first_occurrences(parsed + e);
        let n = first_occurrences(parsed).len() as int;
        if !(parsed + e).contains(existing.last()) {
            assert(f.push(existing.last()).take(n) =~= f.take(n));
        }
    }
}

/// The id of the first cached row (`(seq, id)`) at position `s`.
pub open spec fn row_at(existing: Seq<(i64, i64)>, s: int) -> Option<i64>
    decreases existing.len(),
{
    if existing.len() == 0 {
        None
    } else if existing[0].0 == s {
        Some(existing[0].1)
    } else {
        row_at(existing.drop_first(), s)
    }
}

/// The ids of cached rows at position `count` or later, in order.
pub open spec fn rows_from(existing: Seq<(i64, i64)>, count: int) -> Seq<i64>
    decreases existing.len(),
{
    if existing.len() == 0 {
        Seq::empty()
    } else if existing.last().0 >= count {
        rows_from(existing.drop_last(), count).push(existing.last().1)
    } else {
        rows_from(existing.drop_last(), count)
    }
}

/// How a playlist snapshot of `count` rows lands on the cached rows: row
/// `i` reuses the cached row at position `i` when there is one (else a new
/// row is inserted); a non-empty snapshot removes the cached rows past its
/// end, while an empty one removes nothing.
pub struct SnapshotPlan {
    pub reuse: Vec<Option<i64>>,
    pub remove: Vec<i64>,
}

/// What [`snapshot_plan`] decides.
pub open spec fn snapshot_plan_spec(existing: Seq<(i64, i64)>, count: nat) -> (Seq<Option<i64>>, Seq<i64>) {
    (
        Seq::new(count, |i: int| row_at(existing, i)),
        if count > 0 {
            rows_from(existing, count as int)
        } else {
            Seq::empty()
        },
    )
}

fn row_at_exec(existing: &[(i64, i64)], s: i64) -> (r: Option<i64>)
    ensures
        r == row_at(existing@, s as int),
{
    let mut k: usize = 0;
    assert(existing@.skip(0) =~= existing@);
    while k < existing.len()
        invariant
            k <= existing.len(),
            row_at(existing@, s as int) == row_at(existing@.skip(k as int), s as int),
        decreases existing.len() - k,
    {
        assert(existing@.skip(k as int)[0] == existing@[k as int]);
        assert(existing@.skip(k as int).drop_first() =~= existing@.skip(k + 1));
        if existing[k].0 == s {
            return Some(existing[k].1);
        }
        k = k + 1;
    }
    None
}

/// Plans the merge of a playlist snapshot of `count` rows into the cached
/// rows `(seq, id)` of an episode.
pub fn snapshot_plan(existing: &[(i64, i64)], count: usize) -> (r: SnapshotPlan)
    requires
        count <= i64::MAX,
    ensures
        (r.reuse@, r.remove@) == snapshot_plan_spec(existing@, count as nat),
{
    let mut reuse: Vec<Option<i64>> = Vec::new();
    let mut i: usize = 0;
    while i < count
        invariant
            i <= count <= i64::MAX,
            reuse@ =~= Seq::new(i as nat, |j: int| row_at(existing@, j)),
        decreases count - i,
    {
        reuse.push(row_at_exec(existing, i as i64));
        i = i + 1;
    }
    let mut remove: Vec<i64> = Vec::new();
    if count > 0 {
        let mut k: usize = 0;
        while k < existing.len()
            invariant
                k <= existing.len(),
                count <= i64::MAX,
                remove@ == rows_from(existing@.take(k as int), count as int),
            decreases existing.len() - k,
        {
            assert(existing@.take(k + 1).drop_last() =~= existing@.take(k as int));
            if existing[k].0 >= count as i64 {
                remove.push(existing[k].1);
            }
            k = k + 1;
        }
        assert(existing@.take(existing.len() as int) =~= existing@);
    }
    SnapshotPlan { reuse, remove }
}

proof fn lemma_row_at(existing: Seq<(i64, i64)>, s: int)
    ensures
        row_at(existing, s) matches Some(id) ==> exists|k: int|
            0 <= k < existing.len() && existing[k].0 == s && existing[k].1 == id,
    decreases existing.len(),
{
    if existing.len() > 0 && existing[0].0 != s {
        lemma_row_at(existing.drop_first(), s);
        if row_at(existing, s) is Some {
            let k = choose|k: int|
                0 <= k < existing.drop_first().len() && existing.drop_first()[k].0 == s
                    && existing.drop_first()[k].1 == row_at(existing, s)->0;
            assert(existing[k + 1] == existing.drop_first()[k]);
        }
    } else if existing.len() > 0 {
        assert(existing[0].0 == s);
    }
}

proof fn lemma_rows_from(existing: Seq<(i64, i64)>, count: int, id: i64)
    requires
        rows_from(existing, count).contains(id),
    ensures
        exists|k: int| 0 <= k < existing.len() && existing[k].0 >= count && existing[k].1 == id,
    decreases existing.len(),
{
    let p = existing.drop_last();
    if existing.last().0 >= count && existing.last().1 == id {
        assert(existing[existing.len() - 1] == existing.last());
    } else {
        let r = rows_from(p, count);
        if existing.last().0 >= count {
            let j = choose|j: int| 0 <= j < r.push(existing.last().1).len() && r.push(existing.last().1)[j] == id;
            assert(r[j] == id);
        }
        assert(r.contains(id));
        lemma_rows_from(p, count, id);
        let k = choose|k: int| 0 <= k < p.len() && p[k].0 >= count && p[k].1 == id;
        assert(existing[k] == p[k]);
    }
}

/// A snapshot never deletes the rows it keeps: when every cached row has
/// its own id, no reused id is also removed. An empty snapshot removes
/// nothing at all.
pub proof fn snapshot_keeps_reused_rows(existing: Seq<(i64, i64)>, count: nat)
    requires
        forall|a: int, b: int|
            0 <= a < existing.len() && 0 <= b < existing.len() && a != b ==> (#[trigger] existing[a]).1
                != (#[trigger] existing[b]).1,
    ensures
        count == 0 ==> snapshot_plan_spec(existing, count).1.len() == 0,
        forall|i: int|
            0 <= i < count && (#[trigger] snapshot_plan_spec(existing, count).0[i]) is Some
                ==> !snapshot_plan_spec(existing, count).1.contains(
                snapshot_plan_spec(existing, count).0[i]->0,
            ),
{
    let plan = snapshot_plan_spec(existing, count);
    assert forall|i: int|
        0 <= i < count && (#[trigger] plan.0[i]) is Some implies !plan.1.contains(plan.0[i]->0) by {
        let id = plan.0[i]->0;
        lemma_row_at(existing, i);
        let a = choose|k: int| 0 <= k < existing.len() && existing[k].0 == i && existing[k].1 == id;
        if plan.1.contains(id) {
            lemma_rows_from(existing, count as int, id);
            let b = choose|k: int|
                0 <= k < existing.len() && existing[k].0 >= count && existing[k].1 == id;
            assert(a != b);
        }
    }
}

proof fn lemma_row_at_positions(existing: Seq<(i64, i64)>, base: int, s: int)
    requires
        forall|k: int| 0 <= k < existing.len() ==> (#[trigger] existing[k]).0 == base + k,
    ensures
        row_at(existing, s) == if base <= s < base + existing.len() {
            Some(existing[s - base].1)
        } else {
            None::<i64>
        },
    decreases existing.len(),
{
    if existing.len() > 0 {
        let t = existing.drop_first();
        assert forall|k: int| 0 <= k < t.len() implies (#[trigger] t[k]).0 == (base + 1) + k by {
            assert(t[k] == existing[k + 1]);
        }
        lemma_row_at_positions(t, base + 1, s);
        assert(existing[0].0 == base);
        if s != base && base + 1 <= s < base + existing.len() {
            assert(t[s - (base + 1)] == existing[s - base]);
        }
    }
}

proof fn lemma_rows_from_positions(existing: Seq<(i64, i64)>, count: int)
    requires
        count >= 0,
        forall|k: int| 0 <= k < existing.len() ==> (#[trigger] existing[k]).0 == k,
    ensures
        rows_from(existing, count) == existing.skip(
            if count < existing.len() {
                count
            } else {
                existing.len() as int
            },
        ).map_values(|p: (i64, i64)| p.1),
    decreases existing.len(),
{
    let n = existing.len() as int;
    if n == 0 {
        assert(existing.skip(0).map_values(|p: (i64, i64)| p.1) =~= Seq::<i64>::empty());
    } else {
        let e = existing.drop_last();
        assert forall|k: int| 0 <= k < e.len() implies (#[trigger] e[k]).0 == k by {
            assert(e[k] == existing[k]);
        }
        lemma_rows_from_positions(e, count);
        assert(existing.last().0 == n - 1);
        if n - 1 >= count {
            assert(existing.skip(count).map_values(|p: (i64, i64)| p.1) =~= e.skip(count).map_values(
                |p: (i64, i64)| p.1,
            ).push(existing.last().1));
        } else {
            assert(existing.skip(n).map_values(|p: (i64, i64)| p.1) =~= e.skip(n - 1).map_values(
                |p: (i64, i64)| p.1,
            ));
        }
    }
}

/// When the cached rows sit at positions 0, 1, 2, … (each at its own
/// index), a snapshot keeps the row at each position it still fills, inserts
/// a row for each position past the cached ones, and (unless it is empty)
/// removes exactly the cached rows past its end, in order.
pub proof fn snapshot_reuses_rows_by_position(existing: Seq<(i64, i64)>, count: nat)
    requires
        forall|k: int| 0 <= k < existing.len() ==> (#[trigger] existing[k]).0 == k,
    ensures
        snapshot_plan_spec(existing, count).0.len() == count,
        forall|i: int|
            0 <= i < count ==> #[trigger] snapshot_plan_spec(existing, count).0[i] == if i
                < existing.len() {
                Some(existing[i].1)
            } else {
                None::<i64>
            },
        count > 0 ==> snapshot_plan_spec(existing, count).1 == existing.skip(
            if count < existing.len() {
                count as int
            } else {
                existing.len() as int
            },
        ).map_values(|p: (i64, i64)| p.1),
{
    assert forall|i: int| 0 <= i < count implies #[trigger] snapshot_plan_spec(existing, count).0[i]
        == if i < existing.len() {
        Some(existing[i].1)
    } else {
        None::<i64>
    } by {
        lemma_row_at_positions(existing, 0, i);
    }
    if count > 0 {
        lemma_rows_from_positions(existing, count as int);
    }
}

/// The playlist position and song of the last observation recorded.
pub open spec fn observed(t: TrackModel) -> (Option<Seq<char>>, Option<Seq<char>>) {
    (t.artist, t.title)
}

/// The observations worth recording from `tracks`, from index `k` on, as
/// `(seq, index)` pairs: a song is skipped when it repeats the previous
/// one's artist and title; otherwise it takes the next position.
pub open spec fn observations(
    previous: Option<(int, Option<Seq<char>>, Option<Seq<char>>)>,
    tracks: Seq<TrackModel>,
    k: int,
) -> Seq<(int, int)>
    decreases tracks.len() - k,
{
    if k < 0 || k >= tracks.len() {
        Seq::empty()
    } else {
        let t = tracks[k];
        match previous {
            Some(p) if p.1 == t.artist && p.2 == t.title => observations(previous, tracks, k + 1),
            _ => {
                let seq = match previous {
                    Some(p) => p.0 + 1,
                    None => 0,
                };
                seq![(seq, k)] + observations(Some((seq, t.artist, t.title)), tracks, k + 1)
            },
        }
    }
}

/// The `(seq, index)` pairs as numbers.
pub open spec fn plan_view(v: Seq<(i64, usize)>) -> Seq<(int, int)> {
    v.map_values(|p: (i64, usize)| (p.0 as int, p.1 as int))
}

/// The view of the last cached playlist row: its position, artist and title.
pub open spec fn previous_view(p: Option<(i64, Option<String>, Option<String>)>) -> Option<(int, Option<Seq<char>>, Option<Seq<char>>)> {
    match p {
        Some(t) => Some((t.0 as int, opt_view(t.1), opt_view(t.2))),
        None => None,
    }
}

fn same_opt(a: &Option<String>, b: &Option<String>) -> (r: bool)
    ensures
        r == (opt_view(*a) == opt_view(*b)),
{
    match (a, b) {
        (Some(x), Some(y)) => {
            let xc = chars_of(x.as_str());
            let yc = chars_of(y.as_str());
            let e = crate::text::chars_eq(xc.as_slice(), yc.as_slice());
            e
        },
        (None, None) => true,
        _ => false,
    }
}

/// Plans which polled songs to append to an episode's playlist, after the
/// last cached row `previous`, and at which positions.
pub fn observation_plan(
    previous: Option<(i64, Option<String>, Option<String>)>,
    tracks: &[ParsedTrack],
) -> (r: Vec<(i64, usize)>)
    requires
        previous matches Some(p) ==> p.0 + tracks.len() < i64::MAX,
        tracks.len() < i64::MAX,
    ensures
        plan_view(r@) == observations(previous_view(previous), tracks_view(tracks@), 0),
{
    let ghost tv = tracks_view(tracks@);
    let ghost start = previous_view(previous);
    let mut prev: Option<(i64, Option<String>, Option<String>)> = previous;
    let mut out: Vec<(i64, usize)> = Vec::new();
    let mut k: usize = 0;
    while k < tracks.len()
        invariant
            k <= tracks.len() < i64::MAX,
            tv == tracks_view(tracks@),
            plan_view(out@) + observations(previous_view(prev), tv, k as int) == observations(
                start,
                tv,
                0,
            ),
            prev matches Some(p) ==> p.0 + (tracks.len() - k) < i64::MAX,
        decreases tracks.len() - k,
    {
        let t = &tracks[k];
        assert(tv[k as int] == t@);
        let dup = match &prev {
            Some(p) => same_opt(&p.1, &t.artist) && same_opt(&p.2, &t.title),
            None => false,
        };
        if !dup {
            let seq: i64 = match &prev {
                Some(p) => p.0 + 1,
                None => 0,
            };
            let ghost before = out@;
            out.push((seq, k));
            assert(plan_view(out@) =~= plan_view(before).push((seq as int, k as int)));
            assert(plan_view(out@) + observations(
                Some((seq as int, t@.artist, t@.title)),
                tv,
                k + 1,
            ) =~= plan_view(before) + (seq![(seq as int, k as int)] + observations(
                Some((seq as int, t@.artist, t@.title)),
                tv,
                k + 1,
            )));
            prev = Some((seq, clone_opt_string(&t.artist), clone_opt_string(&t.title)));
        }
        k = k + 1;
    }
    assert(plan_view(out@) + Seq::<(int, int)>::empty() =~= plan_view(out@));
    out
}

fn clone_opt_string(o: &Option<String>) -> (r: Option<String>)
    ensures
        opt_view(r) == opt_view(*o),
{
    crate::wfmu::clone_opt(o)
}

/// The song recorded just before entry `j` of an observation plan `o`.
pub open spec fn song_before(
    previous: Option<(int, Option<Seq<char>>, Option<Seq<char>>)>,
    tracks: Seq<TrackModel>,
    o: Seq<(int, int)>,
    j: int,
) -> Option<(int, Option<Seq<char>>, Option<Seq<char>>)> {
    if j == 0 {
        previous
    } else {
        Some((o[j - 1].0, tracks[o[j - 1].1].artist, tracks[o[j - 1].1].title))
    }
}

/// Entry `j` of the plan follows the song before it: a different song, at
/// the next position.
pub open spec fn follows(
    previous: Option<(int, Option<Seq<char>>, Option<Seq<char>>)>,
    tracks: Seq<TrackModel>,
    o: Seq<(int, int)>,
    j: int,
) -> bool {
    let t = tracks[o[j].1];
    &&& 0 <= o[j].1 < tracks.len()
    &&& match song_before(previous, tracks, o, j) {
        Some(p) => (p.1, p.2) != (t.artist, t.title) && o[j].0 == p.0 + 1,
        None => o[j].0 == 0,
    }
}

proof fn lemma_observations_follow(
    previous: Option<(int, Option<Seq<char>>, Option<Seq<char>>)>,
    tracks: Seq<TrackModel>,
    k: int,
)
    requires
        0 <= k,
    ensures
        forall|j: int|
            0 <= j < observations(previous, tracks, k).len() ==> follows(
                previous,
                tracks,
                observations(previous, tracks, k),
                j,
            ) && k <= (#[trigger] observations(previous, tracks, k)[j]).1,
    decreases tracks.len() - k,
{
    if k < tracks.len() {
        let t = tracks[k];
        let o = observations(previous, tracks, k);
        match previous {
            Some(p) if p.1 == t.artist && p.2 == t.title => {
                lemma_observations_follow(previous, tracks, k + 1);
                assert(o == observations(previous, tracks, k + 1));
            },
            _ => {
                let seq = match previous {
                    Some(p) => p.0 + 1,
                    None => 0,
                };
                let prev2 = Some((seq, t.artist, t.title));
                let o2 = observations(prev2, tracks, k + 1);
                lemma_observations_follow(prev2, tracks, k + 1);
                assert(o == seq![(seq, k)] + o2);
                assert forall|j: int| 0 <= j < o.len() implies follows(previous, tracks, o, j) && k
                    <= (#[trigger] o[j]).1 by {
                    if j == 0 {
                        assert(o[0] == (seq, k));
                        match previous {
                            Some(p) => {
                                assert(!(p.1 == t.artist && p.2 == t.title));
                            },
                            None => {},
                        }
                    }
                    if j > 0 {
                        assert(o[j] == o2[j - 1]);
                        assert(follows(prev2, tracks, o2, j - 1));
                        if j > 1 {
                            assert(o[j - 1] == o2[j - 2]);
                        }
                    }
                }
            },
        }
    }
}

/// Polled songs are only recorded when they change: every recorded
/// observation differs in artist or title from the row before it, and takes
/// the position right after it.
pub proof fn observations_only_record_changes(
    previous: Option<(int, Option<Seq<char>>, Option<Seq<char>>)>,
    tracks: Seq<TrackModel>,
)
    ensures
        forall|j: int|
            0 <= j < observations(previous, tracks, 0).len() ==> #[trigger] follows(
                previous,
                tracks,
                observations(previous, tracks, 0),
                j,
            ),
{
    lemma_observations_follow(previous, tracks, 0);
    assert forall|j: int| 0 <= j < observations(previous, tracks, 0).len() implies #[trigger] follows(
        previous,
        tracks,
        observations(previous, tracks, 0),
        j,
    ) by {
        assert(0 <= observations(previous, tracks, 0)[j].1);
    }
}

/// Whether an episode's cached playlist needs a refresh: never scraped, or
/// scraped at least `max_age_seconds` ago (the age saturating at the `i64`
/// bounds).
pub open spec fn tracks_stale_spec(last_scraped: Option<i64>, now: i64, max_age_seconds: i64) -> bool {
    match last_scraped {
        Some(t) => {
            let age = now - t;
            let capped = if age > i64::MAX {
                i64::MAX as int
            } else if age < i64::MIN {
                i64::MIN as int
            } else {
                age
            };
            capped >= max_age_seconds
        },
        None => true,
    }
}

/// Decides whether an episode's cached playlist needs a refresh.
pub fn tracks_stale(last_scraped: Option<i64>, now: i64, max_age_seconds: i64) -> (r: bool)
    ensures
        r == tracks_stale_spec(last_scraped, now, max_age_seconds),
{
    match last_scraped {
        Some(t) => {
            let age: i128 = now as i128 - t as i128;
            let capped: i64 = if age > i64::MAX as i128 {
                i64::MAX
            } else if age < i64::MIN as i128 {
                i64::MIN
            } else {
                age as i64
            };
            capped >= max_age_seconds
        },
        None => true,
    }
}

} // verus!
