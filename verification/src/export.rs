//! CSV export: cells that a spreadsheet would read as a formula are
//! neutralized before they are written through the `csv` crate.
use vstd::prelude::*;
use crate::dates::{ts_to_iso, ts_to_iso_spec};
use crate::num::{i64_chars, int_decimal, nat_digits, u64_chars};
use crate::text::{chars_of, str_eq, string_from_chars};
use crate::wfmu::{clone_opt, opt_view};

verus! {

/// A CSV writer into memory (`csv::Writer<Vec<u8>>` with default settings).
#[verifier::external_body]
pub struct CsvBuffer {
    writer: csv::Writer<Vec<u8>>,
}

/// Everything a CSV writer into memory has accepted so far, whether still
/// in its buffer or already in its vector.
pub uninterp spec fn csv_accepted(w: CsvBuffer) -> Seq<u8>;

/// The bytes of one record with the writer's default settings: fields
/// quoted where needed, separated by commas, ended by a newline.
pub uninterp spec fn csv_record(fields: Seq<Seq<char>>) -> Seq<u8>;

/// The field count that the writer's first record fixed, if it has written
/// one.
pub uninterp spec fn csv_first_count(w: CsvBuffer) -> Option<nat>;

/// Whether the writer holds fields of a record that it never ended (what a
/// refused record leaves behind).
pub uninterp spec fn csv_mid_record(w: CsvBuffer) -> bool;

/// Whether a record of `n` fields may follow: a writer with default
/// settings is not flexible, so every record has its first record's count.
pub open spec fn record_fits(first: Option<nat>, n: nat) -> bool {
    match first {
        Some(k) => k == n,
        None => true,
    }
}

/// `csv::Writer::from_writer(Vec::new())`: nothing accepted, no record yet.
#[verifier::external_body]
fn csv_buffer_new() -> (r: CsvBuffer)
    ensures
        csv_accepted(r) == Seq::<u8>::empty(),
        csv_first_count(r) is None,
        !csv_mid_record(r),
{
    CsvBuffer { writer: csv::Writer::from_writer(Vec::new()) }
}

/// Flushes the writer and hands back its bytes (`csv::Writer::into_inner`).
/// `into_inner` only flushes the buffer into the vector, which appending to
/// memory cannot refuse, so it succeeds, with exactly what was accepted.
#[verifier::external_body]
fn csv_buffer_bytes(b: CsvBuffer) -> (r: Result<Vec<u8>, String>)
    ensures
        r is Ok,
        r matches Ok(v) ==> v@ == csv_accepted(b),
{
    b.writer.into_inner().map_err(|e| e.to_string())
}

/// Writes one record (`csv::Writer::write_record`) on a writer that holds
/// no unfinished record. It writes the fields, then checks the count
/// against the first record's and fails when they differ; writing into
/// memory fails in no other way. On success the writer has accepted the
/// record's bytes after what it held, and the first record's count is
/// fixed; after a failure the contract states nothing of the writer.
#[verifier::external_body]
fn csv_write_record(b: &mut CsvBuffer, fields: &Vec<String>) -> (r: Result<(), String>)
    requires
        !csv_mid_record(*old(b)),
    ensures
        (r is Ok) == record_fits(csv_first_count(*old(b)), fields.len() as nat),
        r is Ok ==> csv_accepted(*final(b)) == csv_accepted(*old(b)) + csv_record(
            fields@.map_values(|s: String| s@),
        ),
        r is Ok ==> csv_first_count(*final(b)) == Some(fields.len() as nat),
        r is Ok ==> !csv_mid_record(*final(b)),
{
    b.writer.write_record(fields.iter().map(|f| f.as_bytes())).map_err(|e| e.to_string())
}

/// A CSV writer into memory that refuses further records once one failed.
pub struct CsvSink {
    buffer: CsvBuffer,
    failed: bool,
}

impl CsvSink {
    /// The sink's invariant: unless a write failed, no record is unfinished.
    pub closed spec fn wf(self) -> bool {
        !self.failed ==> !csv_mid_record(self.buffer)
    }

    /// Whether a write on this sink failed.
    pub closed spec fn has_failed(self) -> bool {
        self.failed
    }

    /// Everything the sink has accepted.
    pub closed spec fn accepted(self) -> Seq<u8> {
        csv_accepted(self.buffer)
    }

    /// The field count fixed by the sink's first record.
    pub closed spec fn first_count(self) -> Option<nat> {
        csv_first_count(self.buffer)
    }

    /// A sink with nothing written.
    pub fn new() -> (r: CsvSink)
        ensures
            r.wf(),
            !r.has_failed(),
            r.accepted() == Seq::<u8>::empty(),
            r.first_count() is None,
    {
        CsvSink { buffer: csv_buffer_new(), failed: false }
    }

    /// Whether a write on this sink failed; such a sink takes no more records.
    pub fn failed(&self) -> (r: bool)
        ensures
            r == self.has_failed(),
    {
        self.failed
    }

    /// Flushes the sink and hands back its bytes: it always succeeds, with
    /// exactly what it accepted.
    pub fn into_bytes(self) -> (r: Result<Vec<u8>, String>)
        ensures
            r is Ok,
            r matches Ok(b) ==> b@ == self.accepted(),
    {
        csv_buffer_bytes(self.buffer)
    }
}

/// A first character with which a spreadsheet starts a formula (or which
/// it strips before one).
pub open spec fn formula_lead(c: char) -> bool {
    c == '=' || c == '+' || c == '-' || c == '@' || c == '\t' || c == '\r' || c == '\n'
}

/// A cell as exported: prefixed with `'` when it could start a formula.
pub open spec fn neutralized(value: Seq<char>) -> Seq<char> {
    if value.len() > 0 && formula_lead(value[0]) {
        seq!['\''] + value
    } else {
        value
    }
}

/// Neutralizes a CSV cell that a spreadsheet could read as a formula.
pub fn neutralize_csv_cell(value: &str) -> (r: String)
    ensures
        r@ == neutralized(value@),
{
    let cs = chars_of(value);
    if cs.len() > 0 && (cs[0] == '=' || cs[0] == '+' || cs[0] == '-' || cs[0] == '@' || cs[0]
        == '\t' || cs[0] == '\r' || cs[0] == '\n') {
        let mut out: Vec<char> = Vec::new();
        out.push('\'');
        crate::text::push_all(&mut out, cs.as_slice());
        assert(out@ =~= seq!['\''] + value@);
        string_from_chars(out.as_slice())
    } else {
        string_from_chars(cs.as_slice())
    }
}

/// A neutralized cell never starts a formula, still ends with the value it
/// was given, and neutralizing it again changes nothing.
pub proof fn neutralized_cells_are_inert(value: Seq<char>)
    ensures
        neutralized(value).len() > 0 ==> !formula_lead(neutralized(value)[0]),
        neutralized(value).skip(neutralized(value).len() - value.len()) == value,
        neutralized(neutralized(value)) == neutralized(value),
{
    if value.len() > 0 && formula_lead(value[0]) {
        assert((seq!['\''] + value).skip(1) =~= value);
    } else {
        assert(value.skip(0) =~= value);
    }
}

/// The header row of each export.
pub open spec fn export_header_spec(kind: Seq<char>) -> Seq<Seq<char>> {
    if kind == "favourites"@ {
        seq!["kind"@, "name"@, "detail"@, "show"@, "date_added"@]
    } else if kind == "listens"@ {
        seq![
            "session"@,
            "show"@,
            "episode_date"@,
            "episode_title"@,
            "started_at"@,
            "seconds"@,
            "completed"@,
        ]
    } else {
        seq!["rank"@, "show"@, "seconds_listened"@, "hours"@, "plays"@]
    }
}

/// The views of a row of cells.
pub open spec fn cells_view(v: Seq<String>) -> Seq<Seq<char>> {
    v.map_values(|s: String| s@)
}

fn strings_of(items: &[&str]) -> (r: Vec<String>)
    ensures
        cells_view(r@) == items@.map_values(|s: &str| s@),
{
    let mut out: Vec<String> = Vec::new();
    let mut i: usize = 0;
    while i < items.len()
        invariant
            i <= items.len(),
            cells_view(out@) == items@.take(i as int).map_values(|s: &str| s@),
        decreases items.len() - i,
    {
        let ghost before = out@;
        out.push(items[i].to_string());
        assert(cells_view(out@) =~= cells_view(before).push(items@[i as int]@));
        assert(items@.take(i + 1) =~= items@.take(i as int).push(items@[i as int]));
        assert(cells_view(out@) =~= items@.take(i + 1).map_values(|s: &str| s@));
        i = i + 1;
    }
    assert(items@.take(items.len() as int) =~= items@);
    out
}

/// The header row of the export `kind` ("favourites", "listens" or, for
/// any other kind, "stats").
pub fn export_header(kind: &str) -> (r: Vec<String>)
    ensures
        cells_view(r@) == export_header_spec(kind@),
{
    proof {
        reveal_strlit("favourites");
        reveal_strlit("listens");
    }
    if str_eq(kind, "favourites") {
        let r = strings_of(&["kind", "name", "detail", "show", "date_added"]);
        assert(cells_view(r@) =~= export_header_spec(kind@));
        r
    } else if str_eq(kind, "listens") {
        let r = strings_of(
            &["session", "show", "episode_date", "episode_title", "started_at", "seconds", "completed"],
        );
        assert(cells_view(r@) =~= export_header_spec(kind@));
        r
    } else {
        let r = strings_of(&["rank", "show", "seconds_listened", "hours", "plays"]);
        assert(cells_view(r@) =~= export_header_spec(kind@));
        r
    }
}

/// What the library holds of a favourite's subject, looked up by its kind:
/// a show's name and DJ, an episode's title, air date and show name, a
/// track's artist, title and show name; or nothing, when the subject is gone.
pub enum FavouriteSubject {
    Show { name: String, dj: Option<String> },
    Episode { title: Option<String>, air_date: Option<String>, show: String },
    Track { artist: Option<String>, title: Option<String>, show: String },
    Missing,
}

/// An absent text as the empty cell.
pub open spec fn or_empty(o: Option<Seq<char>>) -> Seq<char> {
    match o {
        Some(s) => s,
        None => Seq::empty(),
    }
}

/// The name, detail and show cells of a favourite: a show gives its name
/// and DJ, an episode its title and air date, a track its title and artist
/// (each with the show's name); a missing subject gives its reference id.
pub open spec fn favourite_cells(ref_id: Seq<char>, subject: FavouriteSubject) -> (Seq<char>, Seq<char>, Seq<char>) {
    match subject {
        FavouriteSubject::Show { name, dj } => (name@, or_empty(opt_view(dj)), Seq::empty()),
        FavouriteSubject::Episode { title, air_date, show } => (
            or_empty(opt_view(title)),
            or_empty(opt_view(air_date)),
            show@,
        ),
        FavouriteSubject::Track { artist, title, show } => (
            or_empty(opt_view(title)),
            or_empty(opt_view(artist)),
            show@,
        ),
        FavouriteSubject::Missing => (ref_id, Seq::empty(), Seq::empty()),
    }
}

/// The exported row of one favourite.
pub open spec fn favourite_row_spec(kind: Seq<char>, ref_id: Seq<char>, added_at: int, subject: FavouriteSubject) -> Seq<Seq<char>> {
    let (name, detail, show) = favourite_cells(ref_id, subject);
    seq![kind, name, detail, show, ts_to_iso_spec(added_at)]
}

/// A favourite's row follows the header `kind, name, detail, show,
/// date_added`: a show gives its name and DJ; an episode its title and air
/// date, then its show; a track its title and artist, then its show; a
/// subject that is gone gives its reference id as the name. The kind and
/// the time it was added lead and close the row.
pub proof fn favourite_rows_follow_the_header(kind: Seq<char>, ref_id: Seq<char>, added_at: int, subject: FavouriteSubject)
    ensures
        favourite_row_spec(kind, ref_id, added_at, subject).len() == export_header_spec("favourites"@).len(),
        favourite_row_spec(kind, ref_id, added_at, subject)[0] == kind,
        favourite_row_spec(kind, ref_id, added_at, subject)[4] == ts_to_iso_spec(added_at),
        subject matches FavouriteSubject::Show { name, dj } ==> favourite_row_spec(kind, ref_id, added_at, subject)[1]
            == name@ && favourite_row_spec(kind, ref_id, added_at, subject)[2] == or_empty(opt_view(dj))
            && favourite_row_spec(kind, ref_id, added_at, subject)[3] == Seq::<char>::empty(),
        subject matches FavouriteSubject::Episode { title, air_date, show } ==> favourite_row_spec(
            kind,
            ref_id,
            added_at,
            subject,
        )[1] == or_empty(opt_view(title)) && favourite_row_spec(kind, ref_id, added_at, subject)[2]
            == or_empty(opt_view(air_date)) && favourite_row_spec(kind, ref_id, added_at, subject)[3]
            == show@,
        subject matches FavouriteSubject::Track { artist, title, show } ==> favourite_row_spec(
            kind,
            ref_id,
            added_at,
            subject,
        )[1] == or_empty(opt_view(title)) && favourite_row_spec(kind, ref_id, added_at, subject)[2]
            == or_empty(opt_view(artist)) && favourite_row_spec(kind, ref_id, added_at, subject)[3]
            == show@,
        subject is Missing ==> favourite_row_spec(kind, ref_id, added_at, subject)[1] == ref_id,
{
    reveal_strlit("favourites");
}

fn text_or_empty(o: Option<String>) -> (r: String)
    ensures
        r@ == or_empty(opt_view(o)),
{
    match o {
        Some(s) => s,
        None => String::new(),
    }
}

/// The row a favourite is exported as: kind, name, detail, show, and the
/// time it was added.
pub fn favourite_row(kind: &str, ref_id: &str, added_at: i64, subject: FavouriteSubject) -> (r: Vec<String>)
    ensures
        cells_view(r@) == favourite_row_spec(kind@, ref_id@, added_at as int, subject),
{
    let ghost s = subject;
    let (name, detail, show) = match subject {
        FavouriteSubject::Show { name, dj } => (name, text_or_empty(dj), String::new()),
        FavouriteSubject::Episode { title, air_date, show } => (
            text_or_empty(title),
            text_or_empty(air_date),
            show,
        ),
        FavouriteSubject::Track { artist, title, show } => (
            text_or_empty(title),
            text_or_empty(artist),
            show,
        ),
        FavouriteSubject::Missing => (ref_id.to_string(), String::new(), String::new()),
    };
    assert((name@, detail@, show@) == favourite_cells(ref_id@, s));
    let r = vec![kind.to_string(), name, detail, show, ts_to_iso(added_at)];
    assert(cells_view(r@) =~= favourite_row_spec(kind@, ref_id@, added_at as int, s));
    r
}

/// The exported row of one listen.
pub open spec fn listen_row_spec(
    session: Seq<char>,
    show: Seq<char>,
    air_date: Option<Seq<char>>,
    title: Option<Seq<char>>,
    started_at: int,
    seconds: int,
    completed: int,
) -> Seq<Seq<char>> {
    seq![
        session,
        show,
        or_empty(air_date),
        or_empty(title),
        ts_to_iso_spec(started_at),
        int_decimal(seconds),
        if completed != 0 {
            "true"@
        } else {
            "false"@
        },
    ]
}

/// The row a listen is exported as: session, show, episode date and title,
/// start time, seconds and whether it completed.
pub fn listen_row(
    session: String,
    show: String,
    air_date: Option<String>,
    title: Option<String>,
    started_at: i64,
    seconds: i64,
    completed: i64,
) -> (r: Vec<String>)
    ensures
        cells_view(r@) == listen_row_spec(
            session@,
            show@,
            opt_view(air_date),
            opt_view(title),
            started_at as int,
            seconds as int,
            completed as int,
        ),
{
    let ghost (ad, ti) = (opt_view(air_date), opt_view(title));
    let secs = string_from_chars(i64_chars(seconds).as_slice());
    let done = if completed != 0 {
        "true".to_string()
    } else {
        "false".to_string()
    };
    let r = vec![
        session,
        show,
        text_or_empty(air_date),
        text_or_empty(title),
        ts_to_iso(started_at),
        secs,
        done,
    ];
    proof {
        reveal_strlit("true");
        reveal_strlit("false");
    }
    assert(cells_view(r@) =~= listen_row_spec(
        r@[0]@,
        r@[1]@,
        ad,
        ti,
        started_at as int,
        seconds as int,
        completed as int,
    ));
    r
}

/// The exported row of one show's listening total, at 0-based position
/// `index` of the ranking; `hours` is written by the caller.
pub open spec fn stats_row_spec(index: nat, show: Seq<char>, seconds: int, hours: Seq<char>, plays: int) -> Seq<Seq<char>> {
    seq![nat_digits(index + 1), show, int_decimal(seconds), hours, int_decimal(plays)]
}

/// The row a show's listening total is exported as: its rank (from 1),
/// name, seconds, hours and plays.
pub fn stats_row(index: usize, show: String, seconds: i64, hours: String, plays: i64) -> (r: Vec<String>)
    requires
        index < usize::MAX,
    ensures
        cells_view(r@) == stats_row_spec(index as nat, show@, seconds as int, hours@, plays as int),
{
    let rank = string_from_chars(u64_chars((index + 1) as u64).as_slice());
    let secs = string_from_chars(i64_chars(seconds).as_slice());
    let count = string_from_chars(i64_chars(plays).as_slice());
    let r = vec![rank, show, secs, hours, count];
    assert(cells_view(r@) =~= stats_row_spec(index as nat, r@[1]@, seconds as int, r@[3]@, plays as int));
    r
}

/// Writes one CSV record with every cell neutralized, on a sink where no
/// write failed: it succeeds exactly when the record has as many cells as
/// the sink's first record (any count, for the first), and then the sink
/// has accepted the neutralized record after what it held. A failed write
/// leaves the sink failed.
pub fn write_csv_record(writer: &mut CsvSink, record: &[&str]) -> (r: Result<(), String>)
    requires
        old(writer).wf(),
        !old(writer).has_failed(),
    ensures
        final(writer).wf(),
        (r is Ok) == record_fits(old(writer).first_count(), record.len() as nat),
        r is Ok ==> final(writer).accepted() == old(writer).accepted() + csv_record(
            record@.map_values(|s: &str| neutralized(s@)),
        ),
        r is Ok ==> final(writer).first_count() == Some(record.len() as nat),
        r is Ok ==> !final(writer).has_failed(),
        r is Err ==> final(writer).has_failed(),
{
    let mut cells: Vec<String> = Vec::new();
    let mut i: usize = 0;
    while i < record.len()
        invariant
            i <= record.len(),
            cells@.map_values(|s: String| s@) == record@.take(i as int).map_values(
                |s: &str| neutralized(s@),
            ),
        decreases record.len() - i,
    {
        let c = neutralize_csv_cell(record[i]);
        let ghost before = cells@;
        cells.push(c);
        assert(cells@.map_values(|s: String| s@) =~= before.map_values(|s: String| s@).push(c@));
        assert(record@.take(i + 1) =~= record@.take(i as int).push(record@[i as int]));
        assert(cells@.map_values(|s: String| s@) =~= record@.take(i + 1).map_values(
            |s: &str| neutralized(s@),
        ));
        i = i + 1;
    }
    assert(record@.take(record.len() as int) =~= record@);
    let r = csv_write_record(&mut writer.buffer, &cells);
    if r.is_err() {
        writer.failed = true;
    }
    r
}

/// The exports that exist.
pub open spec fn export_kind_spec(kind: Seq<char>) -> bool {
    kind == "favourites"@ || kind == "listens"@ || kind == "stats"@
}

/// Whether `kind` names an export; any other is refused before a file is
/// touched.
pub fn is_export_kind(kind: &str) -> (r: bool)
    ensures
        r == export_kind_spec(kind@),
{
    str_eq(kind, "favourites") || str_eq(kind, "listens") || str_eq(kind, "stats")
}

/// The things that can be favourites.
pub open spec fn favourite_kind_spec(kind: Seq<char>) -> bool {
    kind == "show"@ || kind == "episode"@ || kind == "track"@
}

/// Whether `kind` names something that can be a favourite.
pub fn is_favourite_kind(kind: &str) -> (r: bool)
    ensures
        r == favourite_kind_spec(kind@),
{
    str_eq(kind, "show") || str_eq(kind, "episode") || str_eq(kind, "track")
}

/// The error for an export of an unknown kind.
pub fn unknown_export_kind(kind: &str) -> (r: String)
    ensures
        r@ == "unknown export kind: "@ + kind@,
{
    crate::text::concat_str("unknown export kind: ", kind)
}

/// The error for a favourite of an unknown kind.
pub fn bad_favourite_kind(kind: &str) -> (r: String)
    ensures
        r@ == "bad favourite kind: "@ + kind@,
{
    crate::text::concat_str("bad favourite kind: ", kind)
}

} // verus!
