//! The daily log files: their names, and which of them are kept.
use vstd::prelude::*;
use crate::order::{sort_ranked, Ranked};
use crate::order;
use crate::text;

verus! {

/// How many daily log files are kept besides the active one.
pub const RETAIN_DAILY_LOG_FILES: usize = 2;

/// The name of the log in JSON.
pub const JSON_LOG_NAME: &'static str = "service.jsonl";

/// A day of the calendar.
#[derive(Debug, Clone, Copy, PartialEq, Eq, Structural)]
pub struct LogDay {
    pub year: i32,
    pub month: u32,
    pub day: u32,
}

/// How many days a month has.
pub open spec fn days_in(year: int, month: int) -> int {
    if month == 2 {
        if year % 4 == 0 && (year % 100 != 0 || year % 400 == 0) {
            29
        } else {
            28
        }
    } else if month == 4 || month == 6 || month == 9 || month == 11 {
        30
    } else {
        31
    }
}

impl LogDay {
    /// Whether the calendar has the day.
    pub open spec fn wf(self) -> bool {
        &&& -262_143 <= self.year <= 262_142
        &&& 1 <= self.month <= 12
        &&& 1 <= self.day <= days_in(self.year as int, self.month as int)
    }

    /// Whether the day comes before another.
    pub open spec fn before(self, other: LogDay) -> bool {
        self.year < other.year || (self.year == other.year && (self.month < other.month || (
        self.month == other.month && self.day < other.day)))
    }

    /// Whether the day comes before another.
    pub fn is_before(&self, other: &LogDay) -> (r: bool)
        ensures
            r == self.before(*other),
    {
        self.year < other.year || (self.year == other.year && (self.month < other.month || (
        self.month == other.month && self.day < other.day)))
    }
}

impl Ranked for LogDay {
    open spec fn rank(&self) -> int {
        self.year * 0x1_0000_0000_0000_0000 + self.month * 0x1_0000_0000 + self.day
    }

    fn at_most(&self, other: &Self) -> (r: bool) {
        self.year < other.year || (self.year == other.year && (self.month < other.month || (
        self.month == other.month && self.day <= other.day)))
    }
}

/// How the day stands in the name of a daily log file.
pub const LOG_DAY_FORMAT: &'static str = "%Y-%m-%d";

/// The day that `chrono::NaiveDate::parse_from_str` reads in a text with a format: its year, month
/// and day of the month.
pub uninterp spec fn parsed_day(input: Seq<char>, format: Seq<char>) -> Option<(int, int, int)>;

/// What `chrono::NaiveDate::format` writes for a day with a format.
pub uninterp spec fn written_day(year: int, month: int, day: int, format: Seq<char>) -> Seq<char>;

/// What an optional day says.
pub open spec fn opt_day(day: Option<LogDay>) -> Option<(int, int, int)> {
    match day {
        Some(day) => Some((day.year as int, day.month as int, day.day as int)),
        None => None,
    }
}

/// Whether a text is read as a day.
pub open spec fn reads_as_day(written: Seq<char>, day: LogDay) -> bool {
    parsed_day(written, LOG_DAY_FORMAT@) == opt_day(Some(day))
}

/// `chrono::NaiveDate::parse_from_str`.  What it reads depends on the text and the format alone,
/// and is named; it reads days of the calendar.
#[verifier::external_body]
fn read_day(input: &str, format: &str) -> (r: Option<LogDay>)
    ensures
        opt_day(r) == parsed_day(input@, format@),
        r is Some ==> r->0.wf(),
{
    let date = chrono::NaiveDate::parse_from_str(input, format).ok()?;
    Some(
        LogDay {
            year: chrono::Datelike::year(&date),
            month: chrono::Datelike::month(&date),
            day: chrono::Datelike::day(&date),
        },
    )
}

/// `chrono::NaiveDate::format`.  What it writes depends on the day and the format alone, and is
/// named; with a year of four digits it is read back as the day.  With a format that does not fit a
/// day it would panic, so it is given the one of the log files.
#[verifier::external_body]
fn write_day(day: LogDay, format: &str) -> (r: String)
    requires
        day.wf(),
        format@ == LOG_DAY_FORMAT@,
    ensures
        r@ == written_day(day.year as int, day.month as int, day.day as int, format@),
        0 <= day.year <= 9999 ==> reads_as_day(r@, day),
{
    chrono::NaiveDate::from_ymd_opt(day.year, day.month, day.day).unwrap().format(
        format,
    ).to_string()
}

/// The name of the log file of a day.
pub open spec fn dated_name(name: Option<Seq<char>>, day: LogDay) -> Seq<char> {
    (match name {
        Some(name) => name,
        None => "service.log"@,
    }) + "."@ + written_day(day.year as int, day.month as int, day.day as int, LOG_DAY_FORMAT@)
}

/// The name of the log file of a day.
pub fn dated_log_name(name: Option<&str>, day: LogDay) -> (r: String)
    requires
        day.wf(),
    ensures
        r@ == dated_name(
            match name {
                Some(name) => Some(name@),
                None => None,
            },
            day,
        ),
        0 <= day.year <= 9999 ==> exists|date: Seq<char>|
            #![trigger reads_as_day(date, day)]
            reads_as_day(date, day) && r@ == (match name {
                Some(name) => name@,
                None => "service.log"@,
            }) + "."@ + date,
{
    let base = match name {
        Some(name) => name,
        None => "service.log",
    };
    let date = write_day(day, LOG_DAY_FORMAT);
    text::concat3(base, ".", date.as_str())
}

/// The day that a name belongs to, given what stands before the date.
pub open spec fn day_of_name(prefix: Seq<char>, name: Seq<char>) -> Option<(int, int, int)> {
    if text::starts_with(name, prefix) {
        parsed_day(name.skip(prefix.len() as int), LOG_DAY_FORMAT@)
    } else {
        None
    }
}

/// A day that was read.
pub open spec fn day_of(parts: (int, int, int)) -> LogDay {
    LogDay { year: parts.0 as i32, month: parts.1 as u32, day: parts.2 as u32 }
}

/// The daily log files among the names in a directory.
pub open spec fn daily(base_name: Seq<char>, names: Seq<Seq<char>>) -> Seq<(LogDay, Seq<char>)>
    decreases names.len(),
{
    if names.len() == 0 {
        Seq::empty()
    } else {
        let before = daily(base_name, names.drop_last());
        match day_of_name(base_name + "."@, names.last()) {
            Some(parts) => before.push((day_of(parts), names.last())),
            None => before,
        }
    }
}

/// Files with their days.
pub open spec fn file_views(files: Seq<(LogDay, String)>) -> Seq<(LogDay, Seq<char>)> {
    Seq::new(files.len(), |i: int| (files[i].0, files[i].1@))
}

/// The daily log files among the names in a directory.
pub fn list_daily_log_files(base_name: &str, names: &Vec<String>) -> (r: Vec<(LogDay, String)>)
    ensures
        file_views(r@) == daily(base_name@, text::views(names@)),
{
    let prefix = text::concat2(base_name, ".");
    let prefix_chars = text::chars_of(prefix.as_str());
    let ghost all = text::views(names@);
    let mut out: Vec<(LogDay, String)> = Vec::new();
    let mut i: usize = 0;
    assert(all.take(0) =~= Seq::<Seq<char>>::empty());
    assert(file_views(out@) =~= Seq::<(LogDay, Seq<char>)>::empty());
    while i < names.len()
        invariant
            i <= names@.len(),
            all == text::views(names@),
            prefix@ == base_name@ + "."@,
            prefix_chars@ == prefix@,
            file_views(out@) == daily(base_name@, all.take(i as int)),
        decreases names@.len() - i,
    {
        let ghost before = file_views(out@);
        proof {
            assert(all.take(i + 1).drop_last() =~= all.take(i as int));
            assert(all.take(i + 1).last() == names@[i as int]@);
        }
        let name = names[i].as_str();
        if text::begins_with(name, prefix.as_str()) {
            let chars = text::chars_of(name);
            let raw_date = text::string_of_range(&chars, prefix_chars.len(), chars.len());
            assert(raw_date@ =~= name@.skip(prefix@.len() as int));
            if let Some(day) = read_day(raw_date.as_str(), LOG_DAY_FORMAT) {
                out.push((day, names[i].clone()));
                assert(file_views(out@) =~= before.push((day, names@[i as int]@)));
            }
        }
        i = i + 1;
    }
    assert(all.take(all.len() as int) =~= all);
    out
}

/// The names of files in the order of their days.
pub open spec fn names_by_day(files: Seq<(LogDay, Seq<char>)>) -> Seq<Seq<char>> {
    Seq::new(files.len(), |i: int| order::ranked(files)[i].1)
}

/// The names of files in the order of their days.
fn sorted_names(files: Vec<(LogDay, String)>) -> (r: Vec<String>)
    ensures
        text::views(r@) == names_by_day(file_views(files@)),
{
    let ghost unsorted = files@;
    let ghost given = file_views(unsorted);
    let sorted = sort_ranked(files);
    proof {
        order::lemma_ranked_keys(unsorted, given, |name: String| name@);
        order::law_ranking_orders(unsorted);
    }
    let ghost wanted = names_by_day(given);
    let mut names: Vec<String> = Vec::new();
    let mut i: usize = 0;
    while i < sorted.len()
        invariant
            i <= sorted@.len(),
            wanted.len() == sorted@.len(),
            forall|k: int| 0 <= k < sorted@.len() ==> #[trigger] wanted[k] == sorted@[k].1@,
            text::views(names@) =~= wanted.take(i as int),
        decreases sorted@.len() - i,
    {
        let ghost before = text::views(names@);
        names.push(sorted[i].1.clone());
        assert(text::views(names@) =~= before.push(wanted[i as int]));
        i = i + 1;
    }
    assert(wanted.take(wanted.len() as int) =~= wanted);
    names
}

/// How many daily log files are removed.
pub open spec fn surplus(count: int, retain_daily_files: int) -> int {
    if count <= retain_daily_files {
        0
    } else {
        count - retain_daily_files
    }
}

/// The daily log files that are removed: the oldest, so that no more than wanted stay.
pub open spec fn pruned(
    base_name: Seq<char>,
    names: Seq<Seq<char>>,
    retain_daily_files: int,
) -> Seq<Seq<char>> {
    let files = daily(base_name, names);
    names_by_day(files).take(surplus(files.len() as int, retain_daily_files))
}

/// The daily log files that are removed.
pub fn prune_daily_logs(base_name: &str, names: &Vec<String>, retain_daily_files: usize) -> (r: Vec<
    String,
>)
    ensures
        text::views(r@) == pruned(base_name@, text::views(names@), retain_daily_files as int),
{
    let files = list_daily_log_files(base_name, names);
    let count: usize = files.len();
    let mut sorted = sorted_names(files);
    let ghost all = text::views(sorted@);
    let keep: usize = if count <= retain_daily_files {
        0
    } else {
        count - retain_daily_files
    };
    sorted.truncate(keep);
    assert(text::views(sorted@) =~= all.take(keep as int));
    sorted
}

/// The log files in the order in which they were written, the active one last.
pub open spec fn history(base_name: Seq<char>, names: Seq<Seq<char>>, active_exists: bool) -> Seq<
    Seq<char>,
> {
    let past = names_by_day(daily(base_name, names));
    if active_exists {
        past.push(base_name)
    } else {
        past
    }
}

/// The log files in the order in which they were written, the active one last.
pub fn collect_log_history(base_name: &str, names: &Vec<String>, active_exists: bool) -> (r: Vec<
    String,
>)
    ensures
        text::views(r@) == history(base_name@, text::views(names@), active_exists),
{
    let files = list_daily_log_files(base_name, names);
    let mut out = sorted_names(files);
    if active_exists {
        let ghost before = text::views(out@);
        out.push(base_name.to_owned());
        assert(text::views(out@) =~= before.push(base_name@));
    }
    out
}

/// No day that is removed is later than one that stays, and no more days stay than wanted.
pub proof fn law_the_latest_days_stay(
    base_name: Seq<char>,
    names: Seq<Seq<char>>,
    retain_daily_files: int,
    i: int,
    j: int,
)
    requires
        retain_daily_files >= 0,
        ({
            let files = daily(base_name, names);
            0 <= i < surplus(files.len() as int, retain_daily_files) <= j < files.len()
        }),
    ensures
        ({
            let files = daily(base_name, names);
            &&& order::ranked(files)[i].0.rank() <= order::ranked(files)[j].0.rank()
            &&& pruned(base_name, names, retain_daily_files)[i] == order::ranked(files)[i].1
            &&& files.len() - pruned(base_name, names, retain_daily_files).len()
                <= retain_daily_files
        }),
{
    let files = daily(base_name, names);
    order::law_ranking_orders(files);
    assert(order::ordered(order::ranked(files)));
}

/// The day that the active log belongs to, where it has to be put away before writing goes on.
pub fn stale_day(exists: bool, len: u64, modified_day: LogDay, today: LogDay) -> (r: Option<LogDay>)
    ensures
        r == if exists && len > 0 && modified_day.before(today) {
            Some(modified_day)
        } else {
            None
        },
{
    if exists && len > 0 && modified_day.is_before(&today) {
        Some(modified_day)
    } else {
        None
    }
}

/// How the active log is put away.
#[derive(Debug, Clone, Copy, PartialEq, Eq, Structural)]
pub enum RotateStep {
    /// There is no active log.
    Nothing,
    /// The active log is added to the file of the day, and removed.
    Append,
    /// The active log becomes the file of the day.
    Rename,
}

/// How the active log is put away.
pub fn rotate_step(active_exists: bool, target_exists: bool) -> (r: RotateStep)
    ensures
        r == if !active_exists {
            RotateStep::Nothing
        } else if target_exists {
            RotateStep::Append
        } else {
            RotateStep::Rename
        },
{
    if !active_exists {
        RotateStep::Nothing
    } else if target_exists {
        RotateStep::Append
    } else {
        RotateStep::Rename
    }
}

/// The log that is written to, day by day.
#[derive(Debug, Clone, Copy, PartialEq, Eq, Structural)]
pub struct RotatingLogState {
    pub current_day: LogDay,
    pub retain_daily_files: usize,
}

impl RotatingLogState {
    /// The day that the active log is put away under, where a new day has begun.
    pub fn rotate_if_needed(&self, today: LogDay) -> (r: Option<LogDay>)
        ensures
            r == if today == self.current_day {
                None
            } else {
                Some(self.current_day)
            },
    {
        if today == self.current_day {
            None
        } else {
            Some(self.current_day)
        }
    }

    /// Writing goes on under a new day.
    pub fn rotated(&mut self, today: LogDay)
        ensures
            *final(self) == (RotatingLogState { current_day: today, ..*old(self) }),
    {
        self.current_day = today;
    }
}

/// As many daily logs stay as are to be kept, and no more; of fewer none goes.  What goes is a daily
/// log that is there.
pub proof fn law_as_many_days_stay_as_are_kept(
    base_name: Seq<char>,
    names: Seq<Seq<char>>,
    retain_daily_files: int,
    i: int,
)
    requires
        retain_daily_files >= 0,
    ensures
        ({
            let there = daily(base_name, names).len();
            let gone = pruned(base_name, names, retain_daily_files);
            &&& there <= retain_daily_files ==> gone.len() == 0
            &&& there > retain_daily_files ==> gone.len() == there - retain_daily_files
            &&& 0 <= i < gone.len() ==> names.contains(gone[i])
        }),
{
    let files = daily(base_name, names);
    order::law_ranking_orders(files);
    let gone = pruned(base_name, names, retain_daily_files);
    if 0 <= i < gone.len() {
        let sorted = order::ranked(files);
        assert(gone[i] == sorted[i].1);
        broadcast use vstd::seq_lib::group_to_multiset_ensures;

        assert(sorted.to_multiset().count(sorted[i]) > 0) by {
            assert(sorted.contains(sorted[i]));
        }
        assert(files.to_multiset().count(sorted[i]) > 0);
        assert(files.contains(sorted[i]));
        let k = choose|k: int| 0 <= k < files.len() && files[k] == sorted[i];
        lemma_daily_names(base_name, names, k);
    }
}

/// A daily log is one of the files, and its day is the one in its name.
proof fn lemma_daily_names(base_name: Seq<char>, names: Seq<Seq<char>>, k: int)
    requires
        0 <= k < daily(base_name, names).len(),
    ensures
        names.contains(daily(base_name, names)[k].1),
        day_of_name(base_name + "."@, daily(base_name, names)[k].1) is Some,
        daily(base_name, names)[k].0 == day_of(
            day_of_name(base_name + "."@, daily(base_name, names)[k].1)->Some_0,
        ),
    decreases names.len(),
{
    let before = names.drop_last();
    let known = daily(base_name, before);
    if k < known.len() {
        lemma_daily_names(base_name, before, k);
        assert(daily(base_name, names)[k] == known[k]);
        let i = choose|i: int| 0 <= i < before.len() && before[i] == known[k].1;
        assert(names[i] == known[k].1);
    } else {
        assert(names[names.len() - 1] == names.last());
    }
}

/// The daily logs are the files that are named like the log with a day behind it.
pub proof fn law_daily_logs_are_named_by_their_day(
    base_name: Seq<char>,
    names: Seq<Seq<char>>,
    date: Seq<char>,
    k: int,
)
    requires
        0 <= k < names.len(),
        names[k] == base_name + "."@ + date,
    ensures
        parsed_day(date, LOG_DAY_FORMAT@) is Some <==> exists|i: int|
            0 <= i < daily(base_name, names).len() && (#[trigger] daily(base_name, names)[i]).1
                == names[k],
    decreases names.len(),
{
    let before = names.drop_last();
    let start = base_name + "."@;
    assert(names[k].subrange(0, start.len() as int) =~= start);
    assert(names[k].skip(start.len() as int) =~= date);
    assert(day_of_name(start, names[k]) == parsed_day(date, LOG_DAY_FORMAT@));
    let all = daily(base_name, names);
    let known = daily(base_name, before);
    if exists|i: int| 0 <= i < all.len() && (#[trigger] all[i]).1 == names[k] {
        let i = choose|i: int| 0 <= i < all.len() && (#[trigger] all[i]).1 == names[k];
        lemma_daily_names(base_name, names, i);
    }
    if parsed_day(date, LOG_DAY_FORMAT@) is Some {
        if k < before.len() {
            law_daily_logs_are_named_by_their_day(base_name, before, date, k);
            let i = choose|i: int| 0 <= i < known.len() && (#[trigger] known[i]).1 == before[k];
            assert(all[i].1 == names[k]);
        } else {
            assert(names.last() == names[k]);
            assert(all[known.len() as int].1 == names[k]);
        }
    }
}

/// The history of a log is its days, the earliest first, and the log that is written last.
pub proof fn law_histories_end_with_the_log(base_name: Seq<char>, names: Seq<Seq<char>>, i: int, j: int)
    ensures
        ({
            let past = daily(base_name, names);
            &&& history(base_name, names, true) == history(base_name, names, false).push(base_name)
            &&& history(base_name, names, false).len() == past.len()
            &&& 0 <= i <= j < past.len() ==> order::ranked(past)[i].0.rank() <= order::ranked(
                past,
            )[j].0.rank()
            &&& 0 <= i < past.len() ==> history(base_name, names, false)[i] == order::ranked(
                past,
            )[i].1
        }),
{
    order::law_ranking_orders(daily(base_name, names));
}

/// Days stand in the order of the calendar.
pub proof fn law_days_are_ranked_by_the_calendar(a: LogDay, b: LogDay)
    ensures
        a.rank() < b.rank() <==> a.before(b),
        a.before(b) <==> a.year < b.year || (a.year == b.year && a.month < b.month) || (a.year
            == b.year && a.month == b.month && a.day < b.day),
        a.rank() == b.rank() <==> a == b,
{
}

/// A log is put away where it is there, holds something and is of an earlier day; a day that is over
/// is put away once the next begins.
pub proof fn law_old_logs_are_put_away(
    exists: bool,
    len: u64,
    modified_day: LogDay,
    today: LogDay,
    r: Option<LogDay>,
    state: RotatingLogState,
    over: Option<LogDay>,
)
    requires
        call_ensures(stale_day, (exists, len, modified_day, today), r),
        call_ensures(RotatingLogState::rotate_if_needed, (&state, today), over),
    ensures
        r is Some <==> exists && len > 0 && modified_day.before(today),
        r is Some ==> r->Some_0 == modified_day,
        over is Some <==> today != state.current_day,
        over is Some ==> over->Some_0 == state.current_day,
{
}

/// A log that is put away is added to the one of its day where there is one, and takes its name
/// otherwise.
pub proof fn law_logs_are_never_overwritten(active: bool, target: bool, r: RotateStep)
    requires
        call_ensures(rotate_step, (active, target), r),
    ensures
        r == RotateStep::Rename <==> active && !target,
        r == RotateStep::Append <==> active && target,
        r == RotateStep::Nothing <==> !active,
{
}

/// Months have their days, and the second one has a day more in every fourth year, but for those of
/// a century that is no fourth.
pub proof fn law_months_have_their_days(year: int)
    ensures
        days_in(year, 1) == 31 && days_in(year, 3) == 31 && days_in(year, 5) == 31 && days_in(
            year,
            7,
        ) == 31 && days_in(year, 8) == 31 && days_in(year, 10) == 31 && days_in(year, 12) == 31,
        days_in(year, 4) == 30 && days_in(year, 6) == 30 && days_in(year, 9) == 30 && days_in(
            year,
            11,
        ) == 30,
        year % 4 != 0 ==> days_in(year, 2) == 28,
        year % 400 == 0 ==> days_in(year, 2) == 29,
        year % 100 == 0 && year % 400 != 0 ==> days_in(year, 2) == 28,
        year % 4 == 0 && year % 100 != 0 ==> days_in(year, 2) == 29,
{
}

/// A log that was put away goes on with the new day, and keeps as many days as before.
pub proof fn law_new_days_are_noted(state: &mut RotatingLogState, today: LogDay)
    requires
        call_ensures(RotatingLogState::rotated, (state, today), ()),
    ensures
        final(state).current_day == today,
        final(state).retain_daily_files == old(state).retain_daily_files,
{
}

/// A log that is put away is named by itself and its day, and by its usual name where it has none.
pub proof fn law_logs_are_put_away_under_their_day(name: Seq<char>, day: LogDay)
    ensures
        dated_name(Some(name), day) == name + "."@ + written_day(
            day.year as int,
            day.month as int,
            day.day as int,
            LOG_DAY_FORMAT@,
        ),
        dated_name(None, day) == dated_name(Some("service.log"@), day),
{
}

} // verus!
