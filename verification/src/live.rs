//! Decisions behind the live pages: which programme is which, the line-up
//! of a station's day, synthetic episodes for unattended streams, and what a
//! status poll records.
use vstd::prelude::*;
use vstd::utf8::encode_utf8;
use crate::dates::{chars_eq_ignore_case, eq_ignore_ascii_case};
use crate::text::{chars_of, ends_with};
use crate::wfmu::{
    clone_opt, clone_program, opt_program_view, opt_status_view, opt_view, programs_view,
    ParsedLiveProgram, ParsedLiveStatus, ParsedTrack, ProgramModel, LiveStatusModel, TrackModel,
};

verus! {

/// Two programmes are the same when both carry a show id and the ids agree
/// up to ASCII case; otherwise when their names agree up to ASCII case.
pub open spec fn same_program_spec(left: ProgramModel, right: ProgramModel) -> bool {
    match (left.show_id, right.show_id) {
        (Some(a), Some(b)) => eq_ignore_ascii_case(a, b),
        _ => eq_ignore_ascii_case(left.name, right.name),
    }
}

/// Whether two schedule entries describe the same programme.
pub fn same_program(left: &ParsedLiveProgram, right: &ParsedLiveProgram) -> (r: bool)
    ensures
        r == same_program_spec(left@, right@),
{
    match (&left.show_id, &right.show_id) {
        (Some(a), Some(b)) => {
            let ac = chars_of(a.as_str());
            let bc = chars_of(b.as_str());
            chars_eq_ignore_case(ac.as_slice(), bc.as_slice())
        },
        _ => {
            let ac = chars_of(left.name.as_str());
            let bc = chars_of(right.name.as_str());
            chars_eq_ignore_case(ac.as_slice(), bc.as_slice())
        },
    }
}

/// The first index, from `i` on, of `programs` holding the same programme
/// as `target`.
pub open spec fn same_from(programs: Seq<ProgramModel>, target: ProgramModel, i: int) -> Option<int>
    decreases programs.len() - i,
{
    if i < 0 || i >= programs.len() {
        None
    } else if same_program_spec(programs[i], target) {
        Some(i)
    } else {
        same_from(programs, target, i + 1)
    }
}

/// The first index of `programs` holding the same programme as `target`.
pub open spec fn first_same(programs: Seq<ProgramModel>, target: ProgramModel) -> Option<int> {
    same_from(programs, target, 0)
}

proof fn lemma_same_from_bounds(programs: Seq<ProgramModel>, target: ProgramModel, i: int)
    ensures
        same_from(programs, target, i) matches Some(k) ==> i <= k < programs.len()
            && same_program_spec(programs[k], target),
    decreases programs.len() - i,
{
    if 0 <= i < programs.len() && !same_program_spec(programs[i], target) {
        lemma_same_from_bounds(programs, target, i + 1);
    }
}

/// Where `target` appears in `programs`.
pub fn matching_program_index(programs: &[ParsedLiveProgram], target: &ParsedLiveProgram) -> (r:
    Option<usize>)
    ensures
        match r {
            Some(i) => first_same(programs_view(programs@), target@) == Some(i as int),
            None => first_same(programs_view(programs@), target@) is None,
        },
{
    let ghost pv = programs_view(programs@);
    let mut i: usize = 0;
    while i < programs.len()
        invariant
            i <= programs.len(),
            pv == programs_view(programs@),
            first_same(pv, target@) == same_from(pv, target@, i as int),
        decreases programs.len() - i,
    {
        if same_program(&programs[i], target) {
            return Some(i);
        }
        i = i + 1;
    }
    None
}

/// `program` with its description and show id filled from the first
/// matching schedule entry where it has none of its own.
pub open spec fn enriched(program: ProgramModel, schedule: Seq<ProgramModel>) -> ProgramModel {
    match first_same(schedule, program) {
        Some(i) => {
            let m = schedule[i];
            ProgramModel {
                description: if program.description is None {
                    m.description
                } else {
                    program.description
                },
                show_id: if program.show_id is None {
                    m.show_id
                } else {
                    program.show_id
                },
                ..program
            }
        },
        None => program,
    }
}

/// The index of the first schedule entry that is the same programme as
/// `program` (matched in that order).
fn first_candidate(schedule: &[ParsedLiveProgram], program: &ParsedLiveProgram) -> (r: Option<
    usize,
>)
    ensures
        match r {
            Some(i) => first_same(programs_view(schedule@), program@) == Some(i as int) && i
                < schedule.len(),
            None => first_same(programs_view(schedule@), program@) is None,
        },
{
    let ghost pv = programs_view(schedule@);
    let mut i: usize = 0;
    while i < schedule.len()
        invariant
            i <= schedule.len(),
            pv == programs_view(schedule@),
            first_same(pv, program@) == same_from(pv, program@, i as int),
        decreases schedule.len() - i,
    {
        if same_program(&schedule[i], program) {
            return Some(i);
        }
        i = i + 1;
    }
    None
}

/// Fills a programme's missing description and show id from the schedule.
pub fn enrich_program(program: &mut ParsedLiveProgram, schedule: &[ParsedLiveProgram])
    ensures
        final(program)@ == enriched(old(program)@, programs_view(schedule@)),
{
    match first_candidate(schedule, program) {
        Some(i) => {
            let m = &schedule[i];
            assert(programs_view(schedule@)[i as int] == m@);
            if program.description.is_none() {
                program.description = clone_opt(&m.description);
            }
            if program.show_id.is_none() {
                program.show_id = clone_opt(&m.show_id);
            }
        },
        None => {},
    }
}

/// A show name worth displaying: the status's show name, unless it is a
/// generic stream label (ending in " Radio Stream", or exactly "WFMU").
pub open spec fn useful_name_spec(status: Option<LiveStatusModel>) -> Option<Seq<char>> {
    match status {
        Some(s) => match s.show_name {
            Some(n) => if n.len() >= " Radio Stream"@.len() && n.skip(
                n.len() - " Radio Stream"@.len(),
            ) == " Radio Stream"@ || n == "WFMU"@ {
                None
            } else {
                Some(n)
            },
            None => None,
        },
        None => None,
    }
}

/// The status's show name, when it names a programme rather than the stream.
pub fn useful_live_show_name(status: Option<&ParsedLiveStatus>) -> (r: Option<String>)
    ensures
        opt_view(r) == useful_name_spec(
            match status {
                Some(s) => Some(s@),
                None => None,
            },
        ),
{
    proof {
        reveal_strlit(" Radio Stream");
        reveal_strlit("WFMU");
    }
    match status {
        Some(s) => match &s.show_name {
            Some(n) => {
                let nc = chars_of(n.as_str());
                let suffix = chars_of(" Radio Stream");
                let wfmu = chars_of("WFMU");
                if ends_with(nc.as_slice(), suffix.as_slice()) || crate::text::chars_eq(
                    nc.as_slice(),
                    wfmu.as_slice(),
                ) {
                    None
                } else {
                    Some(n.clone())
                }
            },
            None => None,
        },
        None => None,
    }
}

/// The playlist row a status poll observes: its artist and title, when it
/// carries either.
pub open spec fn polled_track_spec(status: LiveStatusModel) -> Option<TrackModel> {
    if status.artist is None && status.title is None {
        None
    } else {
        Some(
            TrackModel {
                artist: status.artist,
                title: status.title,
                album: None,
                label: None,
                comments: None,
                start_sec: None,
            },
        )
    }
}

/// The track that a live status poll observed.
pub fn polled_live_track(status: &ParsedLiveStatus) -> (r: Option<ParsedTrack>)
    ensures
        match r {
            Some(t) => polled_track_spec(status@) == Some(t@),
            None => polled_track_spec(status@) is None,
        },
{
    if status.artist.is_none() && status.title.is_none() {
        return None;
    }
    Some(
        ParsedTrack {
            artist: clone_opt(&status.artist),
            title: clone_opt(&status.title),
            album: None,
            label: None,
            comments: None,
            start_sec: None,
        },
    )
}

/// The 64-bit multiplicative hash of a stream id's bytes: each step
/// multiplies by 16777619 and adds the byte, both wrapping.
pub open spec fn stream_hash(bytes: Seq<u8>) -> u64
    decreases bytes.len(),
{
    if bytes.len() == 0 {
        0
    } else {
        vstd::wrapping::u64_specs::wrapping_add(
            vstd::wrapping::u64_specs::wrapping_mul(stream_hash(bytes.drop_last()), 16777619),
            bytes.last() as u64,
        )
    }
}

/// The episode id that groups a stream's unattended tracks for one UTC day:
/// negative, so it never meets a real WFMU episode id.
pub open spec fn synthetic_episode_id_spec(stream_id: Seq<char>, timestamp: int) -> int {
    -((timestamp / 86400) * 1_000_000 + (stream_hash(encode_utf8(stream_id)) % 1_000_000) + 1)
}

/// Timestamps whose day number, times a million, leaves room for the
/// channel in an `i64`.
pub open spec fn synthetic_id_in_range(timestamp: int) -> bool {
    i64::MIN <= (timestamp / 86400) * 1_000_000 && (timestamp / 86400) * 1_000_000 + 1_000_000
        <= i64::MAX
}

/// One synthetic episode per UTC day and channel, for stream-only tracks.
pub fn synthetic_live_episode_id(stream_id: &str, timestamp: i64) -> (r: i64)
    requires
        synthetic_id_in_range(timestamp as int),
    ensures
        r as int == synthetic_episode_id_spec(stream_id@, timestamp as int),
{
    let bytes = stream_id.as_bytes();
    let mut hash: u64 = 0;
    let mut i: usize = 0;
    while i < bytes.len()
        invariant
            i <= bytes.len(),
            bytes@ == encode_utf8(stream_id@),
            hash == stream_hash(bytes@.take(i as int)),
        decreases bytes.len() - i,
    {
        assert(bytes@.take(i + 1).drop_last() =~= bytes@.take(i as int));
        hash = hash.wrapping_mul(16777619).wrapping_add(bytes[i] as u64);
        i = i + 1;
    }
    assert(bytes@.take(bytes.len() as int) =~= bytes@);
    let channel = hash % 1_000_000;
    let days = match timestamp.checked_div_euclid(86400) {
        Some(d) => d,
        None => {
            proof {
                assert(false);
            }
            0
        },
    };
    assert(days * 1_000_000 <= i64::MAX);
    -(days * 1_000_000 + channel as i64 + 1)
}

/// Synthetic live episodes group by UTC day: one station keeps one id for
/// a whole day, ids of different days never meet (whatever the stations),
/// and from 1970 on they are negative, so they cannot collide with the
/// archive's own episode ids.
pub proof fn synthetic_ids_group_by_day(s1: Seq<char>, t1: int, s2: Seq<char>, t2: int)
    ensures
        t1 / 86400 == t2 / 86400 ==> synthetic_episode_id_spec(s1, t1)
            == synthetic_episode_id_spec(s1, t2),
        t1 / 86400 != t2 / 86400 ==> synthetic_episode_id_spec(s1, t1)
            != synthetic_episode_id_spec(s2, t2),
        t1 >= 0 ==> synthetic_episode_id_spec(s1, t1) < 0,
{
    let c1 = (stream_hash(encode_utf8(s1)) % 1_000_000) as int;
    let c2 = (stream_hash(encode_utf8(s2)) % 1_000_000) as int;
    let d1 = t1 / 86400;
    let d2 = t2 / 86400;
    assert(0 <= c1 < 1_000_000 && 0 <= c2 < 1_000_000);
    if d1 < d2 {
        assert(d1 * 1_000_000 + c1 < d2 * 1_000_000 + c2) by (nonlinear_arith)
            requires
                d1 < d2,
                0 <= c1 < 1_000_000,
                0 <= c2,
        ;
    } else if d2 < d1 {
        assert(d2 * 1_000_000 + c2 < d1 * 1_000_000 + c1) by (nonlinear_arith)
            requires
                d2 < d1,
                0 <= c2 < 1_000_000,
                0 <= c1,
        ;
    }
    if t1 >= 0 {
        assert(d1 >= 0);
        assert(d1 * 1_000_000 >= 0) by (nonlinear_arith)
            requires
                d1 >= 0,
        ;
    }
}

/// The day to show a station's schedule for: the provider's current
/// programme's day, else the day of the first programme flagged current,
/// else the first programme's day.
pub open spec fn lineup_day(current: Option<ProgramModel>, schedule: Seq<ProgramModel>) -> Option<Seq<char>> {
    let a = match current {
        Some(p) => p.day,
        None => None,
    };
    let b = match first_current(schedule) {
        Some(i) => schedule[i].day,
        None => None,
    };
    let c = if schedule.len() > 0 {
        schedule[0].day
    } else {
        None
    };
    if a is Some {
        a
    } else if b is Some {
        b
    } else {
        c
    }
}

/// The first index, from `i` on, of a programme flagged current.
pub open spec fn current_from(s: Seq<ProgramModel>, i: int) -> Option<int>
    decreases s.len() - i,
{
    if i < 0 || i >= s.len() {
        None
    } else if s[i].current {
        Some(i)
    } else {
        current_from(s, i + 1)
    }
}

/// The index of the first programme flagged current.
pub open spec fn first_current(s: Seq<ProgramModel>) -> Option<int> {
    current_from(s, 0)
}

proof fn lemma_current_from_bounds(s: Seq<ProgramModel>, i: int)
    ensures
        current_from(s, i) matches Some(k) ==> i <= k < s.len() && s[k].current,
    decreases s.len() - i,
{
    if 0 <= i < s.len() && !s[i].current {
        lemma_current_from_bounds(s, i + 1);
    }
}

/// Whether a programme belongs to the chosen day: its day matches up to
/// ASCII case when both are known, otherwise it is kept only when flagged
/// current.
pub open spec fn on_day(day: Option<Seq<char>>, p: ProgramModel) -> bool {
    match (day, p.day) {
        (Some(w), Some(a)) => eq_ignore_ascii_case(w, a),
        _ => p.current,
    }
}

/// The programmes of `s` that belong to `day`, in order.
pub open spec fn programs_on_day(day: Option<Seq<char>>, s: Seq<ProgramModel>) -> Seq<ProgramModel>
    decreases s.len(),
{
    if s.len() == 0 {
        s
    } else if on_day(day, s.last()) {
        programs_on_day(day, s.drop_last()).push(s.last())
    } else {
        programs_on_day(day, s.drop_last())
    }
}

/// Appends, in order, each programme of `rest` that is not flagged current
/// and is not already among those kept.
pub open spec fn add_upcoming(acc: Seq<ProgramModel>, rest: Seq<ProgramModel>) -> Seq<ProgramModel>
    decreases rest.len(),
{
    if rest.len() == 0 {
        acc
    } else {
        let p = rest[0];
        let dup = exists|k: int| 0 <= k < acc.len() && same_program_spec(#[trigger] acc[k], p);
        add_upcoming(
            if !p.current && !dup {
                acc.push(p)
            } else {
                acc
            },
            rest.drop_first(),
        )
    }
}

/// What a station page shows as on now and coming up next.
pub struct LineUp {
    pub current: Option<ParsedLiveProgram>,
    pub upcoming: Vec<ParsedLiveProgram>,
}

/// The line-up of a station's day: the provider's current programme (or
/// the schedule's), then the provider's next programme and the rest of the
/// day's schedule after it, without repeats.
pub open spec fn lineup_spec(
    current: Option<ProgramModel>,
    next: Option<ProgramModel>,
    schedule: Seq<ProgramModel>,
) -> (Option<ProgramModel>, Seq<ProgramModel>) {
    let today = programs_on_day(lineup_day(current, schedule), schedule);
    let now = match current {
        Some(p) => Some(p),
        None => match first_current(today) {
            Some(i) => Some(today[i]),
            None => None,
        },
    };
    let start = lineup_start(next, today);
    let head = match next {
        Some(n) => seq![enriched(n, today)],
        None => Seq::empty(),
    };
    (
        match now {
            Some(p) => Some(enriched(p, today)),
            None => None,
        },
        add_upcoming(head, today.skip(start)),
    )
}

fn first_current_index(s: &Vec<ParsedLiveProgram>) -> (r: Option<usize>)
    ensures
        match r {
            Some(i) => first_current(programs_view(s@)) == Some(i as int) && i < s.len(),
            None => first_current(programs_view(s@)) is None,
        },
{
    let ghost pv = programs_view(s@);
    let mut i: usize = 0;
    while i < s.len()
        invariant
            i <= s.len(),
            pv == programs_view(s@),
            first_current(pv) == current_from(pv, i as int),
        decreases s.len() - i,
    {
        if s[i].current {
            return Some(i);
        }
        i = i + 1;
    }
    None
}

fn programs_on_day_exec(day: &Option<String>, schedule: &Vec<ParsedLiveProgram>) -> (r: Vec<ParsedLiveProgram>)
    ensures
        programs_view(r@) == programs_on_day(opt_view(*day), programs_view(schedule@)),
{
    let ghost d = opt_view(*day);
    let mut out: Vec<ParsedLiveProgram> = Vec::new();
    let mut i: usize = 0;
    while i < schedule.len()
        invariant
            i <= schedule.len(),
            d == opt_view(*day),
            programs_view(out@) == programs_on_day(d, programs_view(schedule@).take(i as int)),
        decreases schedule.len() - i,
    {
        let p = &schedule[i];
        let ghost t = programs_view(schedule@).take(i + 1);
        assert(t.drop_last() =~= programs_view(schedule@).take(i as int));
        assert(t.last() == p@);
        let keep = match (day, &p.day) {
            (Some(w), Some(a)) => {
                let wc = chars_of(w.as_str());
                let ac = chars_of(a.as_str());
                chars_eq_ignore_case(wc.as_slice(), ac.as_slice())
            },
            _ => p.current,
        };
        if keep {
            let ghost before = out@;
            out.push(clone_program(p));
            assert(programs_view(out@) =~= programs_view(before).push(p@));
        }
        i = i + 1;
    }
    assert(programs_view(schedule@).take(schedule.len() as int) =~= programs_view(schedule@));
    out
}

fn lineup_day_exec(current: &Option<ParsedLiveProgram>, schedule: &Vec<ParsedLiveProgram>) -> (r:
    Option<String>)
    ensures
        opt_view(r) == lineup_day(opt_program_view(*current), programs_view(schedule@)),
{
    let ghost sv = programs_view(schedule@);
    let fc = first_current_index(schedule);
    proof {
        match fc {
            Some(i) => assert(sv[i as int] == schedule@[i as int]@),
            None => {},
        }
        if schedule.len() > 0 {
            assert(sv[0] == schedule@[0]@);
        }
    }
    match current {
        Some(p) if p.day.is_some() => clone_opt(&p.day),
        _ => match fc {
            Some(i) if schedule[i].day.is_some() => clone_opt(&schedule[i].day),
            _ => if schedule.len() > 0 {
                clone_opt(&schedule[0].day)
            } else {
                None
            },
        },
    }
}

/// Where the rest of the day's schedule starts: at the provider's next
/// programme, else after the programme flagged current, else nowhere.
pub open spec fn lineup_start(next: Option<ProgramModel>, today: Seq<ProgramModel>) -> int {
    let after_current = match first_current(today) {
        Some(i) => i + 1,
        None => today.len() as int,
    };
    match next {
        Some(n) => match first_same(today, n) {
            Some(i) => i,
            None => after_current,
        },
        None => after_current,
    }
}

proof fn lemma_first_same_bounds(s: Seq<ProgramModel>, t: ProgramModel)
    ensures
        first_same(s, t) matches Some(i) ==> 0 <= i < s.len(),
        first_current(s) matches Some(i) ==> 0 <= i < s.len(),
{
    lemma_same_from_bounds(s, t, 0);
    lemma_current_from_bounds(s, 0);
}

fn lineup_start_exec(next: &Option<ParsedLiveProgram>, today: &Vec<ParsedLiveProgram>) -> (r: usize)
    ensures
        r as int == lineup_start(opt_program_view(*next), programs_view(today@)),
        r <= today.len(),
{
    let tc = first_current_index(today);
    let after: usize = match tc {
        Some(i) => i + 1,
        None => today.len(),
    };
    match next {
        Some(n) => match matching_program_index(today.as_slice(), n) {
            Some(i) => {
                proof {
                    lemma_first_same_bounds(programs_view(today@), n@);
                }
                i
            },
            None => after,
        },
        None => after,
    }
}

fn upcoming_from(head: Vec<ParsedLiveProgram>, today: &Vec<ParsedLiveProgram>, start: usize) -> (r:
    Vec<ParsedLiveProgram>)
    requires
        start <= today.len(),
    ensures
        programs_view(r@) == add_upcoming(programs_view(head@), programs_view(today@).skip(
            start as int,
        )),
{
    let ghost tv = programs_view(today@);
    let ghost h = programs_view(head@);
    let mut upcoming = head;
    let mut i: usize = start;
    while i < today.len()
        invariant
            start <= i <= today.len(),
            tv == programs_view(today@),
            add_upcoming(h, tv.skip(start as int)) == add_upcoming(
                programs_view(upcoming@),
                tv.skip(i as int),
            ),
        decreases today.len() - i,
    {
        let p = &today[i];
        assert(tv.skip(i as int)[0] == p@);
        assert(tv.skip(i as int).drop_first() =~= tv.skip(i + 1));
        let mut dup = false;
        let mut k: usize = 0;
        while k < upcoming.len()
            invariant
                k <= upcoming.len(),
                dup <==> exists|j: int|
                    0 <= j < k && same_program_spec(#[trigger] programs_view(upcoming@)[j], p@),
            decreases upcoming.len() - k,
        {
            assert(programs_view(upcoming@)[k as int] == upcoming@[k as int]@);
            if same_program(&upcoming[k], p) {
                dup = true;
            }
            k = k + 1;
        }
        if !p.current && !dup {
            let ghost before = programs_view(upcoming@);
            upcoming.push(clone_program(p));
            assert(programs_view(upcoming@) =~= before.push(p@));
        }
        i = i + 1;
    }
    upcoming
}

/// Assembles the line-up of a station's day from the provider's current
/// and next programmes and the station's weekly schedule.
pub fn live_lineup(
    current: Option<ParsedLiveProgram>,
    next: Option<ParsedLiveProgram>,
    schedule: Vec<ParsedLiveProgram>,
) -> (r: LineUp)
    ensures
        (opt_program_view(r.current), programs_view(r.upcoming@)) == lineup_spec(
            opt_program_view(current),
            opt_program_view(next),
            programs_view(schedule@),
        ),
{
    let day = lineup_day_exec(&current, &schedule);
    let today = programs_on_day_exec(&day, &schedule);
    let ghost tv = programs_view(today@);
    let tc = first_current_index(&today);
    let now: Option<ParsedLiveProgram> = match current {
        Some(p) => Some(p),
        None => match tc {
            Some(i) => {
                assert(tv[i as int] == today@[i as int]@);
                Some(clone_program(&today[i]))
            },
            None => None,
        },
    };
    let now = match now {
        Some(mut p) => {
            enrich_program(&mut p, today.as_slice());
            Some(p)
        },
        None => None,
    };
    let start = lineup_start_exec(&next, &today);
    let mut head: Vec<ParsedLiveProgram> = Vec::new();
    match next {
        Some(mut n) => {
            enrich_program(&mut n, today.as_slice());
            head.push(n);
        },
        None => {},
    }
    assert(programs_view(head@) =~= match opt_program_view(next) {
        Some(n) => seq![enriched(n, tv)],
        None => Seq::<ProgramModel>::empty(),
    });
    let upcoming = upcoming_from(head, &today, start);
    LineUp { current: now, upcoming }
}

/// No programme in `s` is the same as an earlier one.
pub open spec fn no_repeats(s: Seq<ProgramModel>) -> bool {
    forall|i: int, j: int| 0 <= i < j < s.len() ==> !same_program_spec(#[trigger] s[i], #[trigger] s[j])
}

proof fn lemma_add_upcoming_no_repeats(acc: Seq<ProgramModel>, rest: Seq<ProgramModel>)
    requires
        no_repeats(acc),
    ensures
        no_repeats(add_upcoming(acc, rest)),
    decreases rest.len(),
{
    if rest.len() > 0 {
        let p = rest[0];
        let dup = exists|k: int| 0 <= k < acc.len() && same_program_spec(#[trigger] acc[k], p);
        if !p.current && !dup {
            let acc2 = acc.push(p);
            assert forall|i: int, j: int| 0 <= i < j < acc2.len() implies !same_program_spec(
                #[trigger] acc2[i],
                #[trigger] acc2[j],
            ) by {
                if j == acc.len() {
                    assert(acc2[i] == acc[i]);
                    assert(!same_program_spec(acc[i], p));
                } else {
                    assert(acc2[i] == acc[i]);
                    assert(acc2[j] == acc[j]);
                }
            }
            lemma_add_upcoming_no_repeats(acc2, rest.drop_first());
        } else {
            lemma_add_upcoming_no_repeats(acc, rest.drop_first());
        }
    }
}

/// The programmes coming up on a station page never repeat one another.
pub proof fn lineup_never_repeats(
    current: Option<ProgramModel>,
    next: Option<ProgramModel>,
    schedule: Seq<ProgramModel>,
)
    ensures
        no_repeats(lineup_spec(current, next, schedule).1),
{
    let today = programs_on_day(lineup_day(current, schedule), schedule);
    let head: Seq<ProgramModel> = match next {
        Some(n) => seq![enriched(n, today)],
        None => Seq::empty(),
    };
    lemma_add_upcoming_no_repeats(head, today.skip(lineup_start(next, today)));
}

} // verus!
