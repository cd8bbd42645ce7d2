//! Dated session discovery. The transcripts are authoritative; there is no index.
use vstd::prelude::*;
use vstd::string::*;

use crate::ids::{is_id, uuid_text};
use crate::list::{group_lists, views};
use crate::paths::{
    components, file_name, is_path_at_most, lemma_components_total, lemma_components_transitive,
    parent, path_at_most, path_name, path_parent, path_renamed, path_retyped, same_path,
    with_extension, with_file_name,
};
use crate::session::Recorded;
use crate::ranking::{in_rank, ranked, ranking_puts_in_order};
use crate::text::{
    all_digits, chars_of, digit_char, digits_value, is_char, is_digit, lemma_index_where_unique,
    opt_view, parse_number, pieces, same, split,
};

verus! {

broadcast use group_lists;

// ---- dates ------------------------------------------------------------------

/// A calendar date.
#[derive(Debug, Clone, Copy, PartialEq, Eq, Structural, PartialOrd, Ord)]
pub struct Date {
    pub year: u32,
    pub month: u32,
    pub day: u32,
}

/// How many days a year has.
pub open spec fn days_in_year(year: int) -> int {
    if year % 4 == 0 && (year % 100 != 0 || year % 400 == 0) {
        366
    } else {
        365
    }
}

/// How many days a month has.
pub open spec fn days_in_month(year: int, month: int) -> int {
    if month == 2 {
        if days_in_year(year) == 366 {
            29
        } else {
            28
        }
    } else if month == 4 || month == 6 || month == 9 || month == 11 {
        30
    } else {
        31
    }
}

/// A date of the calendar, in the years that are supported.
pub open spec fn valid_date(d: Date) -> bool {
    &&& 1970 <= d.year <= 9999
    &&& 1 <= d.month <= 12
    &&& 1 <= d.day <= days_in_month(d.year as int, d.month as int)
}

/// How many days there are from the start of 1970 to the start of a year.
pub open spec fn days_before_year(year: int) -> int
    decreases year,
{
    if year <= 1970 {
        0
    } else {
        days_before_year(year - 1) + days_in_year(year - 1)
    }
}

/// How many days there are from the start of a year to the start of a month.
pub open spec fn days_before_month(year: int, month: int) -> int
    decreases month,
{
    if month <= 1 {
        0
    } else {
        days_before_month(year, month - 1) + days_in_month(year, month - 1)
    }
}

/// How many days there are from the start of 1970 to a date.
pub open spec fn day_number(d: Date) -> int {
    days_before_year(d.year as int) + days_before_month(d.year as int, d.month as int) + d.day - 1
}

/// The last second of the year 9999.
pub const LAST_SECOND: u64 = 253_402_300_799;

proof fn lemma_year_sum(year: int)
    requires
        year >= 1970,
    ensures
        days_before_year(year) == 365 * (year - 1970) + ((year - 1) / 4 - (year - 1) / 100 + (year - 1)
            / 400) - 477,
    decreases year,
{
    if year > 1970 {
        lemma_year_sum(year - 1);
    }
}

proof fn lemma_month_sum(year: int)
    ensures
        days_before_month(year, 13) == days_in_year(year),
{
    reveal_with_fuel(days_before_month, 14);
}

proof fn lemma_years_grow(a: int, b: int)
    requires
        a <= b,
    ensures
        days_before_year(a) <= days_before_year(b),
    decreases b - a,
{
    if a < b {
        lemma_years_grow(a, b - 1);
    }
}

proof fn lemma_months_grow(year: int, a: int, b: int)
    requires
        a <= b,
    ensures
        days_before_month(year, a) <= days_before_month(year, b),
    decreases b - a,
{
    if a < b {
        lemma_months_grow(year, a, b - 1);
    }
}

/// How many days a year has.
fn year_days(year: u32) -> (r: u32)
    ensures
        r == days_in_year(year as int),
        365 <= r <= 366,
{
    if year % 4 == 0 && (year % 100 != 0 || year % 400 == 0) {
        366
    } else {
        365
    }
}

/// How many days a month has.
fn month_days(year: u32, month: u32) -> (r: u32)
    ensures
        r == days_in_month(year as int, month as int),
        28 <= r <= 31,
{
    match month {
        2 => if year_days(year) == 366 {
            29
        } else {
            28
        },
        4 | 6 | 9 | 11 => 30,
        _ => 31,
    }
}

/// A number in decimal, with zeros before it up to a width.
pub open spec fn padded(n: nat, width: nat) -> Seq<char>
    decreases width,
{
    if width == 0 {
        seq![]
    } else {
        padded(n / 10, (width - 1) as nat).push(digit_char(n % 10))
    }
}

fn push_padded(s: &mut String, n: u32, width: u32)
    ensures
        final(s)@ == old(s)@ + padded(n as nat, width as nat),
    decreases width,
{
    let ghost before = s@;
    if width > 0 {
        push_padded(s, n / 10, width - 1);
        s.push((48 + (n % 10) as u8) as char);
        assert(s@ =~= before + padded(n as nat, width as nat));
    } else {
        assert(s@ =~= before + padded(n as nat, width as nat));
    }
}

/// A date in text, with a separator between its parts.
pub open spec fn date_text(d: Date, sep: Seq<char>) -> Seq<char> {
    padded(d.year as nat, 4) + sep + padded(d.month as nat, 2) + sep + padded(d.day as nat, 2)
}

/// The date that a text spells as `YYYY-MM-DD`, or why it does not.
pub open spec fn date_read(text: Seq<char>) -> Result<Date, Seq<char>> {
    let parts = split(text, '-');
    if parts.len() == 3 && parts[0].len() == 4 && parts[1].len() == 2 && parts[2].len() == 2
        && all_digits(parts[0]) && all_digits(parts[1]) && all_digits(parts[2]) {
        let d = Date {
            year: digits_value(parts[0]) as u32,
            month: digits_value(parts[1]) as u32,
            day: digits_value(parts[2]) as u32,
        };
        if valid_date(d) {
            Ok(d)
        } else {
            Err("invalid date"@)
        }
    } else {
        Err("expected YYYY-MM-DD"@)
    }
}

proof fn lemma_digits_bound(s: Seq<char>)
    requires
        forall|i: int| 0 <= i < s.len() ==> is_digit(#[trigger] s[i]),
        s.len() <= 4,
    ensures
        digits_value(s) <= 9999,
{
    reveal_with_fuel(digits_value, 5);
    if s.len() > 0 {
        assert(is_digit(s[s.len() - 1]));
        let a = s.drop_last();
        if a.len() > 0 {
            assert(is_digit(s[a.len() - 1]));
            let b = a.drop_last();
            if b.len() > 0 {
                assert(is_digit(s[b.len() - 1]));
                let c = b.drop_last();
                if c.len() > 0 {
                    assert(is_digit(s[c.len() - 1]));
                }
            }
        }
    }
}

fn number_part(s: &str, width: usize) -> (r: Option<u32>)
    requires
        width <= 4,
    ensures
        match r {
            Some(n) => s@.len() == width && all_digits(s@) && n == digits_value(s@) && n <= 9999,
            None => s@.len() != width || !all_digits(s@),
        },
{
    if s.unicode_len() != width {
        return None;
    }
    let v = chars_of(s);
    if width == 0 || !('0' <= v[0] && v[0] <= '9') {
        assert(width > 0 ==> !is_digit(s@[0]));
        return None;
    }
    assert(s@[0] != '+');
    match parse_number(s, u64::MAX) {
        Some(n) => {
            proof {
                lemma_digits_bound(s@);
            }
            Some(n as u32)
        },
        None => {
            proof {
                if all_digits(s@) {
                    lemma_digits_bound(s@);
                }
            }
            None
        },
    }
}

impl Date {
    /// Read a date.
    pub fn parse(text: &str) -> (r: Result<Date, String>)
        ensures
            match date_read(text@) {
                Ok(d) => r matches Ok(x) && x == d,
                Err(e) => r matches Err(t) && t@ == e,
            },
    {
        let parts = pieces(text, '-');
        assert(forall|i: int| 0 <= i < parts@.len() ==> views(parts@)[i] == parts@[i]@);
        if parts.len() != 3 {
            return Err("expected YYYY-MM-DD".to_owned());
        }
        let year = number_part(parts[0].as_str(), 4);
        let month = number_part(parts[1].as_str(), 2);
        let day = number_part(parts[2].as_str(), 2);
        match (year, month, day) {
            (Some(year), Some(month), Some(day)) => {
                if 1970 <= year && year <= 9999 && 1 <= month && month <= 12 && 1 <= day && day
                    <= month_days(year, month) {
                    Ok(Date { year, month, day })
                } else {
                    Err("invalid date".to_owned())
                }
            },
            _ => Err("expected YYYY-MM-DD".to_owned()),
        }
    }

    /// The date of a moment, in seconds since the start of 1970. A moment beyond the
    /// supported years counts as the last one in them.
    pub fn from_unix(seconds: u64) -> (r: Date)
        ensures
            valid_date(r),
            day_number(r) == if seconds <= LAST_SECOND {
                seconds as int / 86400
            } else {
                LAST_SECOND as int / 86400
            },
    {
        let bounded: u64 = if seconds <= LAST_SECOND {
            seconds
        } else {
            LAST_SECOND
        };
        let mut days: u64 = bounded / 86400;
        let ghost total = days as int;
        let mut year: u32 = 1970;
        proof {
            lemma_year_sum(10000);
        }
        while days >= year_days(year) as u64
            invariant
                1970 <= year <= 9999,
                total < days_before_year(10000),
                days + days_before_year(year as int) == total,
            decreases days,
        {
            days = days - year_days(year) as u64;
            proof {
                assert(days_before_year(year + 1) == days_before_year(year as int) + days_in_year(
                    year as int,
                ));
                if year == 9999 {
                    assert(days_before_year(10000) <= total);
                }
            }
            year = year + 1;
        }
        let ghost rest = days as int;
        let mut month: u32 = 1;
        proof {
            lemma_month_sum(year as int);
        }
        while days >= month_days(year, month) as u64
            invariant
                1 <= month <= 12,
                1970 <= year <= 9999,
                rest < days_before_month(year as int, 13),
                days + days_before_month(year as int, month as int) == rest,
            decreases days,
        {
            days = days - month_days(year, month) as u64;
            proof {
                assert(days_before_month(year as int, month + 1) == days_before_month(
                    year as int,
                    month as int,
                ) + days_in_month(year as int, month as int));
                if month == 12 {
                    assert(days_before_month(year as int, 13) <= rest);
                }
            }
            month = month + 1;
        }
        Date { year, month, day: days as u32 + 1 }
    }

    /// The directory of a date: `YYYY/MM/DD`.
    pub fn directory(self) -> (r: String)
        ensures
            r@ == date_text(self, "/"@),
    {
        self.text_with("/")
    }

    /// The date as `YYYY-MM-DD`.
    pub fn text(self) -> (r: String)
        ensures
            r@ == date_text(self, "-"@),
    {
        self.text_with("-")
    }

    fn text_with(self, sep: &str) -> (r: String)
        ensures
            r@ == date_text(self, sep@),
    {
        let mut s = String::new();
        push_padded(&mut s, self.year, 4);
        assert(s@ =~= padded(self.year as nat, 4));
        s.append(sep);
        push_padded(&mut s, self.month, 2);
        s.append(sep);
        push_padded(&mut s, self.day, 2);
        s
    }
}

/// Does one date come before another, or are they the same?
pub open spec fn not_after(a: Date, b: Date) -> bool {
    a.year < b.year || (a.year == b.year && (a.month < b.month || (a.month == b.month && a.day
        <= b.day)))
}

fn is_not_after(a: Date, b: Date) -> (r: bool)
    ensures
        r == not_after(a, b),
{
    a.year < b.year || (a.year == b.year && (a.month < b.month || (a.month == b.month && a.day
        <= b.day)))
}

/// A range of dates, open at either end.
#[derive(Debug, Clone, Copy, PartialEq, Eq, Structural)]
pub struct DateRange {
    pub from: Option<Date>,
    pub to: Option<Date>,
}

impl Default for DateRange {
    fn default() -> (r: DateRange)
        ensures
            r.from is None,
            r.to is None,
    {
        DateRange { from: None, to: None }
    }
}

/// What an optional date spells.
pub open spec fn opt_date_read(text: Option<Seq<char>>) -> Result<Option<Date>, Seq<char>> {
    match text {
        Some(t) => match date_read(t) {
            Ok(d) => Ok(Some(d)),
            Err(e) => Err(e),
        },
        None => Ok(None),
    }
}

/// The range between two dates, or why there is none.
pub open spec fn range_read(from: Option<Seq<char>>, to: Option<Seq<char>>) -> Result<
    DateRange,
    Seq<char>,
> {
    match opt_date_read(from) {
        Err(e) => Err(e),
        Ok(a) => match opt_date_read(to) {
            Err(e) => Err(e),
            Ok(b) => if a is Some && b is Some && !not_after(a->0, b->0) {
                Err("--from must not be after --to"@)
            } else {
                Ok(DateRange { from: a, to: b })
            },
        },
    }
}

/// Does a date lie in a range?
pub open spec fn in_range(r: DateRange, d: Date) -> bool {
    &&& r.from matches Some(f) ==> not_after(f, d)
    &&& r.to matches Some(t) ==> not_after(d, t)
}

/// The text of an optional argument.
pub open spec fn opt_str(o: Option<&str>) -> Option<Seq<char>> {
    match o {
        Some(s) => Some(s@),
        None => None,
    }
}

fn parse_opt(text: Option<&str>) -> (r: Result<Option<Date>, String>)
    ensures
        match opt_date_read(opt_str(text)) {
            Ok(d) => r matches Ok(x) && x == d,
            Err(e) => r matches Err(t) && t@ == e,
        },
{
    match text {
        Some(t) => match Date::parse(t) {
            Ok(d) => Ok(Some(d)),
            Err(e) => Err(e),
        },
        None => Ok(None),
    }
}

impl DateRange {
    /// Read a range.
    pub fn new(from: Option<&str>, to: Option<&str>) -> (r: Result<DateRange, String>)
        ensures
            match range_read(opt_str(from), opt_str(to)) {
                Ok(d) => r matches Ok(x) && x == d,
                Err(e) => r matches Err(t) && t@ == e,
            },
    {
        let a = match parse_opt(from) {
            Ok(a) => a,
            Err(e) => {
                return Err(e);
            },
        };
        let b = match parse_opt(to) {
            Ok(b) => b,
            Err(e) => {
                return Err(e);
            },
        };
        if let (Some(x), Some(y)) = (a, b) {
            if !is_not_after(x, y) {
                return Err("--from must not be after --to".to_owned());
            }
        }
        Ok(DateRange { from: a, to: b })
    }

    /// Does a date lie in this range?
    pub fn contains(self, date: Date) -> (r: bool)
        ensures
            r == in_range(self, date),
    {
        let late = match self.from {
            Some(f) => is_not_after(f, date),
            None => true,
        };
        let early = match self.to {
            Some(t) => is_not_after(date, t),
            None => true,
        };
        late && early
    }
}

// ---- the layout -------------------------------------------------------------

/// Small listing metadata.
#[derive(Debug, Clone)]
pub struct Metadata {
    pub id: String,
    pub cwd: String,
    pub created: u64,
    pub title: String,
}

/// A session in a listing. The time of its last change is in nanoseconds since the
/// start of 1970.
#[derive(Debug)]
pub struct Listing {
    pub metadata: Metadata,
    pub path: String,
    pub modified: u128,
}

/// The index of the first entry, from `i` on, that says where a session runs, or the
/// length.
pub open spec fn meta_index(es: Seq<(u64, Recorded)>, i: nat) -> nat
    decreases es.len() - i,
{
    if i >= es.len() {
        es.len()
    } else if es[i as int].1 is Meta {
        i
    } else {
        meta_index(es, i + 1)
    }
}

/// What a transcript says of its session: the id, where it runs, and when it was begun;
/// or why it does not say.
pub open spec fn described(path: Seq<char>, es: Seq<(u64, Recorded)>) -> Result<
    (Seq<char>, Seq<char>, u64),
    Seq<char>,
> {
    let k = meta_index(es, 0);
    if k >= es.len() {
        Err("session has no metadata: "@ + path)
    } else {
        match es[k as int].1 {
            Recorded::Meta { cwd, id } => match (opt_view(id), opt_view(cwd)) {
                (None, _) => Err("session has no id"@),
                (_, None) => Err("session has no project"@),
                (Some(i), Some(c)) => Ok((i, c, es[k as int].0)),
            },
            _ => Err("session has no metadata: "@ + path),
        }
    }
}

/// The metadata of a session as its transcript has it, given the entries with their
/// times. It has no title.
pub fn metadata(path: &str, entries: &Vec<(u64, Recorded)>) -> (r: Result<Metadata, String>)
    ensures
        match r {
            Ok(m) => described(path@, entries@) == Ok::<(Seq<char>, Seq<char>, u64), Seq<char>>(
                (m.id@, m.cwd@, m.created),
            ) && m.title@ == Seq::<char>::empty(),
            Err(e) => described(path@, entries@) == Err::<(Seq<char>, Seq<char>, u64), Seq<char>>(
                e@,
            ),
        },
{
    let mut k: usize = 0;
    while k < entries.len()
        invariant
            k <= entries@.len(),
            meta_index(entries@, 0) == meta_index(entries@, k as nat),
        decreases entries.len() - k,
    {
        if let Recorded::Meta { cwd, id } = &entries[k].1 {
            return match (id, cwd) {
                (None, _) => Err("session has no id".to_owned()),
                (_, None) => Err("session has no project".to_owned()),
                (Some(i), Some(c)) => Ok(
                    Metadata {
                        id: i.clone(),
                        cwd: c.clone(),
                        created: entries[k].0,
                        title: String::new(),
                    },
                ),
            };
        }
        k = k + 1;
    }
    let mut e = "session has no metadata: ".to_owned();
    e.append(path);
    Err(e)
}

/// Does a path name a session's transcript in its own directory, named by an id?
pub open spec fn managed(path: Seq<char>) -> bool {
    path_name(path) == Some("transcript.jsonl"@) && match path_parent(path) {
        Some(dir) => match path_name(dir) {
            Some(id) => uuid_text(id) is Some,
            None => false,
        },
        None => false,
    }
}

/// Does a path name a session's transcript in its own directory?
pub fn is_managed(path: &str) -> (r: bool)
    ensures
        r == managed(path@),
{
    let named = match file_name(path) {
        Some(n) => same(n.as_str(), "transcript.jsonl"),
        None => false,
    };
    if !named {
        return false;
    }
    match parent(path) {
        Some(dir) => match file_name(dir.as_str()) {
            Some(id) => is_id(id.as_str()),
            None => false,
        },
        None => false,
    }
}

/// Where a session keeps something of its own: in its directory, where it has one,
/// else beside the transcript, under another extension.
pub open spec fn artifact(session: Seq<char>, name: Seq<char>, extension: Seq<char>) -> Seq<char> {
    if managed(session) {
        path_renamed(session, name)
    } else {
        path_retyped(session, extension)
    }
}

/// Where a session keeps something of its own.
pub fn artifact_path(session: &str, name: &str, legacy_extension: &str) -> (r: String)
    requires
        !legacy_extension@.contains('/'),
    ensures
        r@ == artifact(session@, name@, legacy_extension@),
{
    if is_managed(session) {
        with_file_name(session, name)
    } else {
        with_extension(session, legacy_extension)
    }
}

/// Is a name made of so many digits?
pub fn digits_named(name: &str, digits: usize) -> (r: bool)
    ensures
        r == (name@.len() == digits && forall|i: int|
            0 <= i < name@.len() ==> is_digit(#[trigger] name@[i])),
{
    let v = chars_of(name);
    if v.len() != digits {
        return false;
    }
    let mut i: usize = 0;
    while i < v.len()
        invariant
            i <= v@.len(),
            v@ == name@,
            forall|j: int| 0 <= j < i ==> is_digit(#[trigger] v@[j]),
        decreases v.len() - i,
    {
        if !('0' <= v[i] && v[i] <= '9') {
            assert(!is_digit(name@[i as int]));
            return false;
        }
        i = i + 1;
    }
    true
}

/// Is a transcript that stands by itself wanted, given when it was begun, where that
/// is known?
pub fn legacy_wanted(range: DateRange, created: Option<u64>) -> (r: bool)
    ensures
        range.from is None && range.to is None ==> r,
        !(range.from is None && range.to is None) && created is None ==> !r,
        !(range.from is None && range.to is None) && created is Some ==> r == exists|d: Date|
            valid_date(d) && #[trigger] day_number(d) == (if created->0 <= LAST_SECOND {
                created->0 as int / 86400
            } else {
                LAST_SECOND as int / 86400
            }) && in_range(range, d),
{
    if range.from.is_none() && range.to.is_none() {
        return true;
    }
    match created {
        Some(t) => {
            let d = Date::from_unix(t);
            proof {
                assert forall|e: Date| valid_date(e) && #[trigger] day_number(e) == day_number(d) implies e
                    == d by {
                    a_day_number_names_one_date(d, e);
                }
            }
            range.contains(d)
        },
        None => false,
    }
}

/// Is a day's directory wanted, given its three parts put together with hyphens?
pub fn day_wanted(range: DateRange, text: &str) -> (r: bool)
    ensures
        r == match date_read(text@) {
            Ok(d) => in_range(range, d),
            Err(_) => false,
        },
{
    match Date::parse(text) {
        Ok(d) => range.contains(d),
        Err(_) => false,
    }
}

/// Is a session one of a project's, given where it says it ran, and where that is
/// once resolved? Paths are compared by their components.
pub fn in_project(recorded: &str, resolved: Option<&str>, project: Option<&str>) -> (r: bool)
    ensures
        r == match project {
            Some(p) => components(recorded@) == components(p@) || (resolved matches Some(c)
                && components(c@) == components(p@)),
            None => true,
        },
{
    match project {
        Some(p) => {
            if same_path(recorded, p) {
                return true;
            }
            match resolved {
                Some(c) => same_path(c, p),
                None => false,
            }
        },
        None => true,
    }
}

// ---- the listing ------------------------------------------------------------

/// Does one session come before another in a listing? The one that changed last comes
/// first; among equals the path decides.
pub open spec fn listed_before() -> spec_fn(Listing, Listing) -> bool {
    |a: Listing, b: Listing|
        a.modified > b.modified || (a.modified == b.modified && !path_at_most(b.path@, a.path@))
}

/// The same sessions, the one that changed last first; among equals the path decides.
pub fn list(sessions: Vec<Listing>) -> (r: Vec<Listing>)
    ensures
        r@ == ranked(sessions@, listed_before()),
{
    in_rank(
        sessions,
        |a: &Listing, b: &Listing| -> (c: bool) ensures c == listed_before()(*a, *b) { a.modified > b.modified || (a.modified == b.modified && !is_path_at_most(b.path.as_str(), a.path.as_str())) },
        Ghost(listed_before()),
    )
}

// ---- searching --------------------------------------------------------------

/// How many transcripts are searched at a time.
pub const SEARCH_CHUNK: usize = 64;

/// The pieces of `b` between its zero bytes.
pub open spec fn zero_pieces(b: Seq<u8>) -> Seq<Seq<u8>>
    decreases b.len(),
{
    if b.contains(0u8) {
        let i = b.index_of_first(0u8)->0;
        if 0 <= i < b.len() {
            seq![b.take(i)] + zero_pieces(b.skip(i + 1))
        } else {
            seq![b]
        }
    } else {
        seq![b]
    }
}

fn bytes_same(a: &[u8], from: usize, to: usize, b: &[u8]) -> (r: bool)
    requires
        from <= to <= a@.len(),
    ensures
        r == (a@.subrange(from as int, to as int) == b@),
{
    if to - from != b.len() {
        assert(a@.subrange(from as int, to as int).len() != b@.len());
        return false;
    }
    let mut i: usize = 0;
    while i < b.len()
        invariant
            i <= b@.len(),
            from <= to <= a@.len(),
            to - from == b@.len(),
            forall|j: int| 0 <= j < i ==> a@[from + j] == b@[j],
        decreases b.len() - i,
    {
        if a[from + i] != b[i] {
            assert(a@.subrange(from as int, to as int)[i as int] != b@[i as int]);
            return false;
        }
        i = i + 1;
    }
    assert(a@.subrange(from as int, to as int) =~= b@);
    true
}

/// Is `name` one of the pieces of `out` between its zero bytes?
pub fn names_file(out: &[u8], name: &[u8]) -> (r: bool)
    ensures
        r == zero_pieces(out@).contains(name@),
{
    let ghost all = zero_pieces(out@);
    let n = out.len();
    let mut start: usize = 0;
    let mut i: usize = 0;
    let ghost mut done: Seq<Seq<u8>> = seq![];
    assert(out@.skip(0) =~= out@);
    assert(done + zero_pieces(out@.skip(0)) =~= all);
    while i < n
        invariant
            start <= i <= n == out@.len(),
            all == zero_pieces(out@),
            forall|j: int| start <= j < i ==> out@[j] != 0u8,
            done + zero_pieces(out@.skip(start as int)) == all,
            forall|j: int| 0 <= j < done.len() ==> #[trigger] done[j] != name@,
        decreases n - i,
    {
        if out[i] == 0 {
            let ghost rest = out@.skip(start as int);
            proof {
                assert(rest[i - start] == 0u8);
                rest.index_of_first_ensures(0u8);
                let f = rest.index_of_first(0u8)->0;
                assert(rest[f] == out@[start + f]);
                if f < i - start {
                    assert(out@[start + f] != 0u8);
                }
                assert(f == i - start);
                assert(rest.take(f) =~= out@.subrange(start as int, i as int));
                assert(rest.skip(f + 1) =~= out@.skip(i + 1));
                assert(zero_pieces(rest) == seq![rest.take(f)] + zero_pieces(out@.skip(i + 1)));
            }
            if bytes_same(out, start, i, name) {
                assert(all[done.len() as int] == name@);
                return true;
            }
            proof {
                let piece = out@.subrange(start as int, i as int);
                assert(done.push(piece) + zero_pieces(out@.skip(i + 1)) =~= done + zero_pieces(
                    rest,
                ));
                done = done.push(piece);
            }
            start = i + 1;
        }
        i = i + 1;
    }
    let ghost rest = out@.skip(start as int);
    proof {
        assert(!rest.contains(0u8)) by {
            if rest.contains(0u8) {
                let j = choose|j: int| 0 <= j < rest.len() && rest[j] == 0u8;
                assert(out@[start + j] == 0u8);
            }
        }
        assert(rest =~= out@.subrange(start as int, n as int));
        assert(zero_pieces(rest) == seq![rest]);
        assert(all =~= done.push(rest));
    }
    if bytes_same(out, start, n, name) {
        assert(all[done.len() as int] == name@);
        return true;
    }
    assert(!all.contains(name@)) by {
        if all.contains(name@) {
            let j = choose|j: int| 0 <= j < all.len() && all[j] == name@;
            if j < done.len() {
                assert(done[j] == name@);
            }
        }
    }
    false
}

/// Was a session found, given what the searches of the chunks printed?
pub open spec fn found_in(s: Listing, i: int, outputs: Seq<Vec<u8>>) -> bool {
    let k = i / SEARCH_CHUNK as int;
    k < outputs.len() && zero_pieces(outputs[k]@).contains(vstd::utf8::encode_utf8(s.path@))
}

/// The sessions among the first `n` that were found, in their order.
pub open spec fn found(sessions: Seq<Listing>, outputs: Seq<Vec<u8>>, n: nat) -> Seq<Listing>
    decreases n,
{
    if n == 0 {
        seq![]
    } else if found_in(sessions[n - 1], n - 1, outputs) {
        found(sessions, outputs, (n - 1) as nat).push(sessions[n - 1])
    } else {
        found(sessions, outputs, (n - 1) as nat)
    }
}

/// The indices of the sessions that were found, each once and in order, given what
/// the searches of the chunks printed: the paths with a match, each before a zero
/// byte.
pub fn search(sessions: &Vec<Listing>, outputs: &Vec<Vec<u8>>) -> (r: Vec<usize>)
    ensures
        r@.len() == found(sessions@, outputs@, sessions@.len()).len(),
        forall|j: int|
            0 <= j < r@.len() ==> r@[j] < sessions@.len() && sessions@[(#[trigger] r@[j]) as int]
                == found(sessions@, outputs@, sessions@.len())[j],
        forall|a: int, b: int| 0 <= a < b < r@.len() ==> r@[a] < r@[b],
{
    let mut r: Vec<usize> = Vec::new();
    let mut i: usize = 0;
    while i < sessions.len()
        invariant
            i <= sessions@.len(),
            r@.len() == found(sessions@, outputs@, i as nat).len(),
            forall|j: int|
                0 <= j < r@.len() ==> r@[j] < i && sessions@[(#[trigger] r@[j]) as int] == found(
                    sessions@,
                    outputs@,
                    i as nat,
                )[j],
            forall|a: int, b: int| 0 <= a < b < r@.len() ==> r@[a] < r@[b],
        decreases sessions.len() - i,
    {
        let k: usize = i / SEARCH_CHUNK;
        if k < outputs.len() && names_file(
            outputs[k].as_slice(),
            sessions[i].path.as_str().as_bytes(),
        ) {
            r.push(i);
        }
        i = i + 1;
    }
    r
}

/// Did a search succeed, and if not, why? An exit code of 1 means that nothing was
/// found.
pub fn search_failed(code: Option<i32>, stderr: &str) -> (r: Option<String>)
    ensures
        opt_view(r) == if code == Some(0i32) || code == Some(1i32) {
            None
        } else {
            Some("ripgrep: "@ + stderr@)
        },
{
    match code {
        Some(0) | Some(1) => None,
        _ => {
            let mut e = "ripgrep: ".to_owned();
            e.append(stderr);
            Some(e)
        },
    }
}

// ---- laws -------------------------------------------------------------------

/// A listing holds every session once, and none stands behind one that changed earlier.
pub proof fn the_latest_is_listed_first(sessions: Seq<Listing>)
    ensures
        ({
            let r = ranked(sessions, listed_before());
            &&& r.to_multiset() == sessions.to_multiset()
            &&& r.len() == sessions.len()
            &&& forall|i: int, j: int|
                0 <= i < j < r.len() ==> (#[trigger] r[i]).modified > (#[trigger] r[j]).modified || (
                r[i].modified == r[j].modified && path_at_most(r[i].path@, r[j].path@))
        }),
{
    let before = listed_before();
    assert forall|a: Listing, b: Listing| #[trigger] before(a, b) implies !before(b, a) by {
        lemma_components_total(components(a.path@), components(b.path@));
    }
    assert forall|a: Listing, b: Listing, c: Listing|
        !(#[trigger] before(a, b)) && !(#[trigger] before(b, c)) implies !before(a, c) by {
        if path_at_most(b.path@, a.path@) && path_at_most(c.path@, b.path@) {
            lemma_components_transitive(
                components(c.path@),
                components(b.path@),
                components(a.path@),
            );
        }
    }
    ranking_puts_in_order(sessions, before);
    let r = ranked(sessions, before);
    assert forall|i: int, j: int| 0 <= i < j < r.len() implies (#[trigger] r[i]).modified > (
    #[trigger] r[j]).modified || (r[i].modified == r[j].modified && path_at_most(
        r[i].path@,
        r[j].path@,
    )) by {
        assert(!before(r[j], r[i]));
    }
}

/// No two dates have the same day number, so a moment has one date.
pub proof fn a_day_number_names_one_date(a: Date, b: Date)
    requires
        valid_date(a),
        valid_date(b),
        day_number(a) == day_number(b),
    ensures
        a == b,
{
    lemma_date_in_year(a);
    lemma_date_in_year(b);
    if a.year < b.year {
        lemma_years_grow(a.year + 1, b.year as int);
    } else if b.year < a.year {
        lemma_years_grow(b.year + 1, a.year as int);
    } else if a.month < b.month {
        lemma_months_grow(a.year as int, a.month + 1, b.month as int);
    } else if b.month < a.month {
        lemma_months_grow(a.year as int, b.month + 1, a.month as int);
    }
}

proof fn lemma_date_in_year(d: Date)
    requires
        valid_date(d),
    ensures
        0 <= days_before_month(d.year as int, d.month as int) + d.day - 1 < days_in_year(
            d.year as int,
        ),
        days_before_year(d.year + 1) == days_before_year(d.year as int) + days_in_year(
            d.year as int,
        ),
        days_before_month(d.year as int, d.month + 1) == days_before_month(
            d.year as int,
            d.month as int,
        ) + days_in_month(d.year as int, d.month as int),
{
    lemma_month_sum(d.year as int);
    lemma_months_grow(d.year as int, d.month + 1, 13);
    lemma_months_grow(d.year as int, 1, d.month as int);
}

/// Earlier dates have smaller day numbers.
pub proof fn day_numbers_keep_the_order(a: Date, b: Date)
    requires
        valid_date(a),
        valid_date(b),
    ensures
        not_after(a, b) <==> day_number(a) <= day_number(b),
{
    lemma_date_in_year(a);
    lemma_date_in_year(b);
    if a.year < b.year {
        lemma_years_grow(a.year + 1, b.year as int);
    } else if b.year < a.year {
        lemma_years_grow(b.year + 1, a.year as int);
    } else if a.month < b.month {
        lemma_months_grow(a.year as int, a.month + 1, b.month as int);
    } else if b.month < a.month {
        lemma_months_grow(a.year as int, b.month + 1, a.month as int);
    }
}

proof fn lemma_padded(n: nat, width: nat)
    requires
        width <= 4,
        n < 10000,
        width == 2 ==> n < 100,
        width == 3 ==> n < 1000,
        width == 1 ==> n < 10,
        width == 0 ==> n == 0,
    ensures
        padded(n, width).len() == width,
        forall|i: int| 0 <= i < width ==> is_digit(#[trigger] padded(n, width)[i]),
        digits_value(padded(n, width)) == n,
    decreases width,
{
    if width > 0 {
        let m = n / 10;
        lemma_padded(m, (width - 1) as nat);
        let p = padded(m, (width - 1) as nat);
        let c = digit_char(n % 10);
        assert(is_digit(c));
        assert(p.push(c).drop_last() =~= p);
        assert(c as nat - 48 == n % 10);
        assert(m * 10 + n % 10 == n);
    }
}

/// The text of a date reads back as that date.
pub proof fn a_date_reads_back(d: Date)
    requires
        valid_date(d),
    ensures
        date_read(date_text(d, "-"@)) == Ok::<Date, Seq<char>>(d),
{
    reveal_strlit("-");
    let y = padded(d.year as nat, 4);
    let m = padded(d.month as nat, 2);
    let a = padded(d.day as nat, 2);
    lemma_padded(d.year as nat, 4);
    lemma_padded(d.month as nat, 2);
    lemma_padded(d.day as nat, 2);
    let t = date_text(d, "-"@);
    assert(t =~= y + seq!['-'] + m + seq!['-'] + a);
    let p = is_char('-');
    assert forall|i: int| 0 <= i < 4 implies !p(t[i]) by {
        assert(is_digit(y[i]));
    }
    lemma_index_where_unique(t, p, 4);
    let t2 = t.skip(5);
    assert forall|i: int| 0 <= i < 2 implies !p(t2[i]) by {
        assert(is_digit(m[i]));
        assert(t2[i] == m[i]);
    }
    assert(t2[2] == '-');
    lemma_index_where_unique(t2, p, 2);
    let t3 = t2.skip(3);
    assert(t3 =~= a);
    assert forall|i: int| 0 <= i < 2 implies !p(t3[i]) by {
        assert(is_digit(a[i]));
    }
    lemma_index_where_unique(t3, p, 2);
    assert(t.take(4) =~= y);
    assert(t2.take(2) =~= m);
    assert(split(t3, '-') =~= seq![a]);
    assert(split(t2, '-') =~= seq![m] + split(t3, '-'));
    assert(split(t, '-') =~= seq![y, m, a]);
    assert(all_digits(y));
    assert(all_digits(m));
    assert(all_digits(a));
}

/// A range holds just the days from its first to its last one, by their place in the
/// calendar; an end that is not given bounds nothing.
pub proof fn a_range_holds_the_days_between(r: DateRange, d: Date)
    requires
        valid_date(d),
        r.from matches Some(f) ==> valid_date(f),
        r.to matches Some(t) ==> valid_date(t),
    ensures
        in_range(r, d) <==> (r.from matches Some(f) ==> day_number(f) <= day_number(d)) && (
        r.to matches Some(t) ==> day_number(d) <= day_number(t)),
{
    if let Some(f) = r.from {
        day_numbers_keep_the_order(f, d);
    }
    if let Some(t) = r.to {
        day_numbers_keep_the_order(d, t);
    }
}

/// A range is read from its two ends, each as a date of its own, and is refused just where
/// one of them is none or the first comes after the last.
pub proof fn a_range_reads_as_its_ends(from: Date, to: Date)
    requires
        valid_date(from),
        valid_date(to),
    ensures
        ({
            let a = date_text(from, "-"@);
            let b = date_text(to, "-"@);
            &&& range_read(None, None) == Ok::<DateRange, Seq<char>>(
                DateRange { from: None, to: None },
            )
            &&& range_read(Some(a), None) == Ok::<DateRange, Seq<char>>(
                DateRange { from: Some(from), to: None },
            )
            &&& range_read(None, Some(b)) == Ok::<DateRange, Seq<char>>(
                DateRange { from: None, to: Some(to) },
            )
            &&& day_number(from) <= day_number(to) ==> range_read(Some(a), Some(b)) == Ok::<
                DateRange,
                Seq<char>,
            >(DateRange { from: Some(from), to: Some(to) })
            &&& day_number(from) > day_number(to) ==> range_read(Some(a), Some(b)) is Err
        }),
{
    a_date_reads_back(from);
    a_date_reads_back(to);
    day_numbers_keep_the_order(from, to);
}

/// The day after a day is the next one of the month, or the first of the next month, or the
/// first of the next year.
pub proof fn the_calendar_goes_on_day_by_day(d: Date)
    requires
        valid_date(d),
    ensures
        d.day < days_in_month(d.year as int, d.month as int) ==> day_number(
            Date { day: (d.day + 1) as u32, ..d },
        ) == day_number(d) + 1,
        d.day == days_in_month(d.year as int, d.month as int) && d.month < 12 ==> day_number(
            Date { day: 1, month: (d.month + 1) as u32, ..d },
        ) == day_number(d) + 1,
        d.day == 31 && d.month == 12 && d.year < 9999 ==> day_number(
            Date { day: 1, month: 1, year: (d.year + 1) as u32 },
        ) == day_number(d) + 1,
        day_number(Date { year: 1970, month: 1, day: 1 }) == 0,
{
    let y = d.year as int;
    if d.day == 31 && d.month == 12 {
        lemma_months_of_a_year(y);
    }
}

proof fn lemma_months_of_a_year(year: int)
    ensures
        days_before_month(year, 12) + 31 == days_in_year(year),
{
    reveal_with_fuel(days_before_month, 13);
}

/// A session is described by the first of its entries that tells of it, and by nothing
/// else.
pub proof fn the_first_description_counts(path: Seq<char>, es: Seq<(u64, Recorded)>, k: int)
    requires
        0 <= k < es.len(),
        es[k].1 is Meta,
        forall|i: int| 0 <= i < k ==> !((#[trigger] es[i]).1 is Meta),
    ensures
        es[k].1 matches Recorded::Meta { cwd: Some(c), id: Some(i) } ==> described(path, es)
            == Ok::<(Seq<char>, Seq<char>, u64), Seq<char>>((i@, c@, es[k].0)),
        es[k].1 matches Recorded::Meta { cwd, id } ==> (cwd is None || id is None ==> described(
            path,
            es,
        ) is Err),
{
    lemma_meta_index_at(es, 0, k);
}

proof fn lemma_meta_index_at(es: Seq<(u64, Recorded)>, i: nat, k: int)
    requires
        i <= k < es.len(),
        es[k].1 is Meta,
        forall|j: int| 0 <= j < k ==> !((#[trigger] es[j]).1 is Meta),
    ensures
        meta_index(es, i) == k,
    decreases k - i,
{
    if i < k {
        lemma_meta_index_at(es, i + 1, k);
    }
}

/// A session whose text is found is listed once, in its place, and no other is.
pub proof fn what_is_found_is_listed(sessions: Seq<Listing>, outputs: Seq<Vec<u8>>, n: nat)
    requires
        0 < n <= sessions.len(),
    ensures
        found_in(sessions[n - 1], n - 1, outputs) ==> found(sessions, outputs, n) == found(
            sessions,
            outputs,
            (n - 1) as nat,
        ).push(sessions[n - 1]),
        !found_in(sessions[n - 1], n - 1, outputs) ==> found(sessions, outputs, n) == found(
            sessions,
            outputs,
            (n - 1) as nat,
        ),
        found(sessions, outputs, 0).len() == 0,
        found_in(sessions[n - 1], n - 1, outputs) ==> zero_pieces(
            outputs[(n - 1) / SEARCH_CHUNK as int]@,
        ).contains(vstd::utf8::encode_utf8(sessions[n - 1].path@)),
{
}

} // verus!
