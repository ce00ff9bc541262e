//! The timetable document: its day, period-time and teacher records.
use vstd::prelude::*;
use crate::plan::WilliHeader;
use crate::records::{csv_records, read_records, record_view};
use crate::text::{alpha_prefix_len, chars_of, decode_windows_1252, windows_1252_text, find_char, id_value, number_or_zero, parse_number, parse_unsigned,
    position_of_char, split_type, string_of, strings, substring};

verus! {

/// Why one record of a document cannot be read.
#[derive(Clone, Copy, Debug, PartialEq, Eq, Structural)]
pub enum LineError {
    /// The record has no type field.
    MissingType,
    /// The record's id is not valid.
    BadId,
    /// The record has too few fields.
    TooShort,
    /// A time range is not written as `hh.mm-hh.mm`.
    BadTime,
    /// A number in a time range is not a number from 0 to 255.
    BadNumber,
}

/// The kind of a period of the day.
#[derive(Clone, Copy, Debug, PartialEq, Eq, Structural)]
pub enum WilliPeriodKind {
    /// Morning ("Vormittag").
    V,
    /// Afternoon ("Nachmittag").
    N,
    /// Lunch break ("Mittagspause").
    M,
    Unknown,
}

#[derive(Clone, Copy, Debug, PartialEq, Eq, Structural)]
pub struct WilliPeriod {
    pub kind: WilliPeriodKind,
    /// Whether a short break comes before this period.
    pub break_before: bool,
}

#[derive(Clone, Debug)]
pub struct WilliDay {
    /// Two-letter short code.
    pub short: String,
    /// Full name of the day.
    pub long: String,
    pub periods: Vec<WilliPeriod>,
}

/// Start and end of a period, each as `(hour, minute)`.
#[derive(Clone, Copy, Debug)]
pub struct WilliTimeSlot {
    pub start: (u8, u8),
    pub end: (u8, u8),
}

/// A teacher's role.
#[derive(Clone, Copy, Debug, PartialEq, Eq, Structural)]
pub enum WilliTeacherFunction {
    /// Staff council ("Personalrat").
    P,
    /// Directorate ("Direktorat").
    D,
    /// Seminar teacher ("Seminarlehrer").
    S,
    /// Trainee teacher ("Referendar").
    R,
}

#[derive(Clone, Debug)]
pub struct WilliTeacher {
    pub kuerzel: String,
    pub kurzname: String,
    pub name: String,
    pub vorname: Option<String>,
    pub anrede: Option<String>,
    pub sollwochenstunden: usize,
    pub funktion: Option<WilliTeacherFunction>,
    pub luecken: usize,
    pub gew_block: usize,
    pub gew_verteilung: usize,
    pub gew_frueh: usize,
    pub gew_spaet: usize,
    pub max_hohlstunden: usize,
    pub max_aufsichten: usize,
    pub nachmittag_beruecksichtigen: bool,
    pub max_stundenzahl: usize,
    pub max_verfuegungsstd: usize,
    pub max_nachmittag: usize,
}

/// A timetable document: its header, days, default period times and teachers.
#[derive(Clone, Debug)]
pub struct WilliDocument {
    pub header: WilliHeader,
    pub days: Vec<WilliDay>,
    pub default_timetable: Vec<WilliTimeSlot>,
    pub teachers: Vec<WilliTeacher>,
}

/// Why a document cannot be read.
#[derive(Debug)]
pub enum DocumentError {
    /// There is no line break after the header line.
    MissingHeader,
    /// The header line does not give a version.
    InvalidHeader,
    /// The comma-separated body cannot be read.
    Csv(csv::Error),
    /// These records (as their fields) could not be read, each for this reason.
    BadLines(Vec<(Vec<String>, LineError)>),
}

pub open spec fn period_kind(c: char) -> WilliPeriodKind {
    if c == 'V' {
        WilliPeriodKind::V
    } else if c == 'N' {
        WilliPeriodKind::N
    } else if c == 'M' || c == 'n' {
        WilliPeriodKind::M
    } else {
        WilliPeriodKind::Unknown
    }
}

/// The periods of a day: one per pair of flag and break characters, up to the first
/// flag 'X' or the end of either string.
pub open spec fn periods_of(p: Seq<char>, b: Seq<char>) -> Seq<WilliPeriod>
    decreases p.len(),
{
    if p.len() == 0 || b.len() == 0 || p[0] == 'X' {
        Seq::empty()
    } else {
        seq![WilliPeriod { kind: period_kind(p[0]), break_before: b[0] == 'P' }] + periods_of(p.drop_first(), b.drop_first())
    }
}

/// The time `hh.mm`.
pub open spec fn time_of(s: Seq<char>) -> Result<(u8, u8), LineError> {
    match find_char(s, '.') {
        None => Err(LineError::BadTime),
        Some(i) => match parse_unsigned(s.subrange(0, i), 255) {
            None => Err(LineError::BadNumber),
            Some(h) => match parse_unsigned(s.subrange(i + 1, s.len() as int), 255) {
                None => Err(LineError::BadNumber),
                Some(m) => Ok((h as u8, m as u8)),
            },
        },
    }
}

/// The time range `hh.mm-hh.mm`.
pub open spec fn slot_of(s: Seq<char>) -> Result<WilliTimeSlot, LineError> {
    match find_char(s, '-') {
        None => Err(LineError::BadTime),
        Some(i) => match time_of(s.subrange(0, i)) {
            Err(e) => Err(e),
            Ok(start) => match time_of(s.subrange(i + 1, s.len() as int)) {
                Err(e) => Err(e),
                Ok(end) => Ok(WilliTimeSlot { start, end }),
            },
        },
    }
}

pub open spec fn function_of(s: Seq<char>) -> Option<WilliTeacherFunction> {
    if s == seq!['P'] {
        Some(WilliTeacherFunction::P)
    } else if s == seq!['D'] {
        Some(WilliTeacherFunction::D)
    } else if s == seq!['S'] {
        Some(WilliTeacherFunction::S)
    } else if s == seq!['R'] {
        Some(WilliTeacherFunction::R)
    } else {
        None
    }
}

/// A field that is left empty reads as `None`.
pub open spec fn optional(o: Option<String>, s: Seq<char>) -> bool {
    match o {
        Some(v) => s.len() > 0 && v@ == s,
        None => s.len() == 0,
    }
}

pub open spec fn day_matches(d: WilliDay, rec: Seq<Seq<char>>) -> bool {
    &&& d.short@ == rec[1]
    &&& d.long@ == rec[2]
    &&& d.periods@ == periods_of(rec[3], rec[4])
}

pub open spec fn teacher_matches(t: WilliTeacher, rec: Seq<Seq<char>>) -> bool {
    &&& t.kuerzel@ == rec[1]
    &&& t.kurzname@ == rec[2]
    &&& t.name@ == rec[3]
    &&& optional(t.vorname, rec[4])
    &&& optional(t.anrede, rec[5])
    &&& t.sollwochenstunden == id_value(rec[11])
    &&& t.funktion == function_of(rec[13])
    &&& t.luecken == id_value(rec[14])
    &&& t.gew_block == id_value(rec[17])
    &&& t.gew_verteilung == id_value(rec[18])
    &&& t.gew_frueh == id_value(rec[19])
    &&& t.gew_spaet == id_value(rec[20])
    &&& t.max_hohlstunden == id_value(rec[21])
    &&& t.max_aufsichten == id_value(rec[22])
    &&& t.nachmittag_beruecksichtigen == (rec[23] == seq!['N'])
    &&& t.max_stundenzahl == id_value(rec[28])
    &&& t.max_verfuegungsstd == id_value(rec[29])
    &&& t.max_nachmittag == id_value(rec[33])
}

/// What one record contributes to a document.
pub enum RecordKind {
    Day,
    TimeSlot(WilliTimeSlot),
    Teacher,
    Ignored,
}

/// The type of a record: the leading letters of its first field.
pub open spec fn record_type(rec: Seq<Seq<char>>) -> Seq<char> {
    rec[0].subrange(0, alpha_prefix_len(rec[0]))
}

/// What a record contributes, or why it cannot be read. A teacher record has 34 fields.
pub open spec fn record_outcome(rec: Seq<Seq<char>>) -> Result<RecordKind, LineError> {
    if rec.len() == 0 {
        Err(LineError::MissingType)
    } else if record_type(rec) == seq!['T'] {
        if rec.len() < 5 {
            Err(LineError::TooShort)
        } else {
            Ok(RecordKind::Day)
        }
    } else if record_type(rec) == seq!['S'] {
        if rec.len() < 3 {
            Err(LineError::TooShort)
        } else {
            match slot_of(rec[2]) {
                Err(e) => Err(e),
                Ok(t) => Ok(RecordKind::TimeSlot(t)),
            }
        }
    } else if record_type(rec) == seq!['L'] {
        if rec.len() < 34 {
            Err(LineError::TooShort)
        } else {
            Ok(RecordKind::Teacher)
        }
    } else {
        Ok(RecordKind::Ignored)
    }
}

pub open spec fn unchanged(old: WilliDocument, new: WilliDocument) -> bool {
    &&& new.header == old.header
    &&& new.days@ == old.days@
    &&& new.default_timetable@ == old.default_timetable@
    &&& new.teachers@ == old.teachers@
}

/// How reading a record changed (or left) the document.
pub open spec fn record_applied(old: WilliDocument, new: WilliDocument, rec: Seq<Seq<char>>) -> bool {
    &&& new.header == old.header
    &&& match record_outcome(rec) {
        Ok(RecordKind::Day) => {
            &&& new.days@.len() == old.days@.len() + 1
            &&& new.days@.subrange(0, old.days@.len() as int) == old.days@
            &&& day_matches(new.days@.last(), rec)
            &&& new.default_timetable@ == old.default_timetable@
            &&& new.teachers@ == old.teachers@
        },
        Ok(RecordKind::TimeSlot(t)) => {
            &&& new.days@ == old.days@
            &&& new.default_timetable@ == old.default_timetable@.push(t)
            &&& new.teachers@ == old.teachers@
        },
        Ok(RecordKind::Teacher) => {
            &&& new.days@ == old.days@
            &&& new.default_timetable@ == old.default_timetable@
            &&& new.teachers@.len() == old.teachers@.len() + 1
            &&& new.teachers@.subrange(0, old.teachers@.len() as int) == old.teachers@
            &&& teacher_matches(new.teachers@.last(), rec)
        },
        _ => {
            &&& new.days@ == old.days@
            &&& new.default_timetable@ == old.default_timetable@
            &&& new.teachers@ == old.teachers@
        },
    }
}

fn field(record: &Vec<String>, i: usize) -> (r: Vec<char>)
    requires
        i < record@.len(),
    ensures
        r@ == record@[i as int]@,
{
    chars_of(record[i].as_str())
}

fn is_code(v: &Vec<char>, a: char) -> (r: bool)
    ensures
        r == (v@ == seq![a]),
{
    let r = v.len() == 1 && v[0] == a;
    proof {
        if v@.len() == 1 && v@[0] == a {
            assert(v@ =~= seq![a]);
        }
    }
    r
}

fn optional_field(record: &Vec<String>, i: usize) -> (r: Option<String>)
    requires
        i < record@.len(),
    ensures
        optional(r, record@[i as int]@),
{
    if record[i].as_str().is_empty() {
        None
    } else {
        Some(record[i].clone())
    }
}

fn read_time(s: &Vec<char>) -> (r: Result<(u8, u8), LineError>)
    ensures
        r == time_of(s@),
{
    match position_of_char(s, '.') {
        None => Err(LineError::BadTime),
        Some(i) => {
            let n = s.len();
            assert(i < n);
            let hour = chars_of(substring(s, 0, i).as_str());
            let minute = chars_of(substring(s, i + 1, n).as_str());
            match parse_number(&hour, 255) {
                None => Err(LineError::BadNumber),
                Some(h) => match parse_number(&minute, 255) {
                    None => Err(LineError::BadNumber),
                    Some(m) => Ok((h as u8, m as u8)),
                },
            }
        },
    }
}

fn read_slot(s: &Vec<char>) -> (r: Result<WilliTimeSlot, LineError>)
    ensures
        r == slot_of(s@),
{
    match position_of_char(s, '-') {
        None => Err(LineError::BadTime),
        Some(i) => {
            let n = s.len();
            assert(i < n);
            let start = chars_of(substring(s, 0, i).as_str());
            let end = chars_of(substring(s, i + 1, n).as_str());
            match read_time(&start) {
                Err(e) => Err(e),
                Ok(st) => match read_time(&end) {
                    Err(e) => Err(e),
                    Ok(en) => Ok(WilliTimeSlot { start: st, end: en }),
                },
            }
        },
    }
}

fn read_periods(p: &Vec<char>, b: &Vec<char>) -> (r: Vec<WilliPeriod>)
    ensures
        r@ == periods_of(p@, b@),
{
    let mut r: Vec<WilliPeriod> = Vec::new();
    let mut i: usize = 0;
    assert(p@.subrange(0, p@.len() as int) == p@);
    assert(b@.subrange(0, b@.len() as int) == b@);
    assert(r@ + periods_of(p@, b@) == periods_of(p@, b@));
    while i < p.len() && i < b.len() && p[i] != 'X'
        invariant
            i <= p@.len(),
            i <= b@.len(),
            periods_of(p@, b@) == r@ + periods_of(p@.subrange(i as int, p@.len() as int), b@.subrange(i as int, b@.len() as int)),
        decreases p@.len() - i,
    {
        let pc = p[i];
        let bc = b[i];
        let kind = if pc == 'V' {
            WilliPeriodKind::V
        } else if pc == 'N' {
            WilliPeriodKind::N
        } else if pc == 'M' || pc == 'n' {
            WilliPeriodKind::M
        } else {
            WilliPeriodKind::Unknown
        };
        let ghost ps = p@.subrange(i as int, p@.len() as int);
        let ghost bs = b@.subrange(i as int, b@.len() as int);
        assert(ps.drop_first() == p@.subrange(i + 1, p@.len() as int));
        assert(bs.drop_first() == b@.subrange(i + 1, b@.len() as int));
        r.push(WilliPeriod { kind, break_before: bc == 'P' });
        i += 1;
        assert(periods_of(p@, b@) =~= r@ + periods_of(p@.subrange(i as int, p@.len() as int), b@.subrange(i as int, b@.len() as int)));
    }
    assert(periods_of(p@.subrange(i as int, p@.len() as int), b@.subrange(i as int, b@.len() as int)) == Seq::<WilliPeriod>::empty());
    assert(r@ =~= periods_of(p@, b@));
    r
}

impl WilliDocument {
    /// Reads a day record: short code, long name, period flags, break marks. A record of
    /// fewer than 5 fields is too short.
    #[allow(non_snake_case)]
    fn parse_T(&mut self, index: usize, record: &Vec<String>) -> (r: Result<(), LineError>)
        ensures
            strings(record@).len() < 5 ==> r == Err::<(), LineError>(LineError::TooShort) && unchanged(*old(self), *final(self)),
            strings(record@).len() >= 5 ==> {
                &&& r is Ok
                &&& final(self).header == old(self).header
                &&& final(self).days@.len() == old(self).days@.len() + 1
                &&& final(self).days@.subrange(0, old(self).days@.len() as int) == old(self).days@
                &&& day_matches(final(self).days@.last(), strings(record@))
                &&& final(self).default_timetable@ == old(self).default_timetable@
                &&& final(self).teachers@ == old(self).teachers@
            },
    {
        if record.len() < 5 {
            return Err(LineError::TooShort);
        }
        let p = field(record, 3);
        let b = field(record, 4);
        let periods = read_periods(&p, &b);
        let day = WilliDay { short: record[1].clone(), long: record[2].clone(), periods };
        self.days.push(day);
        assert(self.days@.subrange(0, old(self).days@.len() as int) =~= old(self).days@);
        Ok(())
    }

    /// Reads a period-time record: its third field is the time range. A record of fewer
    /// than 3 fields is too short.
    #[allow(non_snake_case)]
    fn parse_S(&mut self, index: usize, record: &Vec<String>) -> (r: Result<(), LineError>)
        ensures
            strings(record@).len() < 3 ==> r == Err::<(), LineError>(LineError::TooShort)
                && final(self).default_timetable@ == old(self).default_timetable@,
            strings(record@).len() >= 3 ==> match slot_of(strings(record@)[2]) {
                Ok(t) => r is Ok && final(self).default_timetable@ == old(self).default_timetable@.push(t),
                Err(e) => r == Err::<(), LineError>(e) && final(self).default_timetable@ == old(self).default_timetable@,
            },
            final(self).header == old(self).header,
            final(self).days@ == old(self).days@,
            final(self).teachers@ == old(self).teachers@,
    {
        if record.len() < 3 {
            return Err(LineError::TooShort);
        }
        let s = field(record, 2);
        match read_slot(&s) {
            Err(e) => Err(e),
            Ok(t) => {
                self.default_timetable.push(t);
                Ok(())
            },
        }
    }

    /// Reads a teacher record of 34 fields; a shorter record is too short.
    #[allow(non_snake_case)]
    fn parse_L(&mut self, index: usize, record: &Vec<String>) -> (r: Result<(), LineError>)
        ensures
            strings(record@).len() < 34 ==> r == Err::<(), LineError>(LineError::TooShort) && unchanged(*old(self), *final(self)),
            strings(record@).len() >= 34 ==> {
                &&& r is Ok
                &&& final(self).header == old(self).header
                &&& final(self).days@ == old(self).days@
                &&& final(self).default_timetable@ == old(self).default_timetable@
                &&& final(self).teachers@.len() == old(self).teachers@.len() + 1
                &&& final(self).teachers@.subrange(0, old(self).teachers@.len() as int) == old(self).teachers@
                &&& teacher_matches(final(self).teachers@.last(), strings(record@))
            },
    {
        if record.len() < 34 {
            return Err(LineError::TooShort);
        }
        let f = field(record, 13);
        let funktion = if is_code(&f, 'P') {
            Some(WilliTeacherFunction::P)
        } else if is_code(&f, 'D') {
            Some(WilliTeacherFunction::D)
        } else if is_code(&f, 'S') {
            Some(WilliTeacherFunction::S)
        } else if is_code(&f, 'R') {
            Some(WilliTeacherFunction::R)
        } else {
            None
        };
        let teacher = WilliTeacher {
            kuerzel: record[1].clone(),
            kurzname: record[2].clone(),
            name: record[3].clone(),
            vorname: optional_field(record, 4),
            anrede: optional_field(record, 5),
            sollwochenstunden: number_or_zero(&field(record, 11)),
            funktion,
            luecken: number_or_zero(&field(record, 14)),
            gew_block: number_or_zero(&field(record, 17)),
            gew_verteilung: number_or_zero(&field(record, 18)),
            gew_frueh: number_or_zero(&field(record, 19)),
            gew_spaet: number_or_zero(&field(record, 20)),
            max_hohlstunden: number_or_zero(&field(record, 21)),
            max_aufsichten: number_or_zero(&field(record, 22)),
            nachmittag_beruecksichtigen: is_code(&field(record, 23), 'N'),
            max_stundenzahl: number_or_zero(&field(record, 28)),
            max_verfuegungsstd: number_or_zero(&field(record, 29)),
            max_nachmittag: number_or_zero(&field(record, 33)),
        };
        self.teachers.push(teacher);
        assert(self.teachers@.subrange(0, old(self).teachers@.len() as int) =~= old(self).teachers@);
        Ok(())
    }

    /// Reads one record into the document, by the type that its first field names.
    pub fn parse_record(&mut self, record: &Vec<String>) -> (r: Result<(), LineError>)
        ensures
            match record_outcome(strings(record@)) {
                Err(e) => r == Err::<(), LineError>(e) && unchanged(*old(self), *final(self)),
                Ok(_) => r is Ok && record_applied(*old(self), *final(self), strings(record@)),
            },
    {
        if record.len() == 0 {
            return Err(LineError::MissingType);
        }
        let head = field(record, 0);
        let (typ, id) = split_type(&head);
        assert(typ@ == record_type(strings(record@)));
        if is_code(&typ, 'T') {
            self.parse_T(id, record)
        } else if is_code(&typ, 'S') {
            self.parse_S(id, record)
        } else if is_code(&typ, 'L') {
            self.parse_L(id, record)
        } else {
            Ok(())
        }
    }
}

/// The fields of `s` between single spaces, as `str::split(' ')` gives them.
pub open spec fn words(s: Seq<char>) -> Seq<Seq<char>>
    decreases s.len(),
{
    if s.len() == 0 {
        seq![Seq::<char>::empty()]
    } else {
        let w = words(s.drop_last());
        if s.last() == ' ' {
            w.push(Seq::<char>::empty())
        } else {
            w.update(w.len() - 1, w.last().push(s.last()))
        }
    }
}

proof fn lemma_words_len(s: Seq<char>)
    ensures
        words(s).len() >= 1,
    decreases s.len(),
{
    if s.len() > 0 {
        lemma_words_len(s.drop_last());
    }
}

pub open spec fn version_tag() -> Seq<char> {
    seq!['V', 'e', 'r', 's', 'i', 'o', 'n', ':']
}

/// The version that a header line gives: its fifth space-separated field, after a fourth
/// field `Version:`.
pub open spec fn header_version(s: Seq<char>) -> Option<nat> {
    let w = words(s);
    if w.len() >= 5 && w[3] == version_tag() {
        parse_unsigned(w[4], usize::MAX as nat)
    } else {
        None
    }
}

fn split_words(s: &Vec<char>) -> (r: Vec<Vec<char>>)
    ensures
        r@.map_values(|w: Vec<char>| w@) == words(s@),
{
    let mut done: Vec<Vec<char>> = Vec::new();
    let mut cur: Vec<char> = Vec::new();
    let mut i: usize = 0;
    while i < s.len()
        invariant
            i <= s@.len(),
            done@.map_values(|w: Vec<char>| w@).push(cur@) == words(s@.subrange(0, i as int)),
        decreases s@.len() - i,
    {
        let c = s[i];
        let ghost before = done@.map_values(|w: Vec<char>| w@).push(cur@);
        assert(s@.subrange(0, i + 1).drop_last() == s@.subrange(0, i as int));
        if c == ' ' {
            let w = cur;
            done.push(w);
            cur = Vec::new();
            assert(done@.map_values(|w: Vec<char>| w@).push(cur@) =~= before.push(Seq::<char>::empty()));
        } else {
            cur.push(c);
            assert(done@.map_values(|w: Vec<char>| w@).push(cur@) =~= before.update(before.len() - 1, before.last().push(c)));
        }
        i += 1;
    }
    assert(s@.subrange(0, i as int) == s@);
    let ghost before = done@.map_values(|w: Vec<char>| w@);
    done.push(cur);
    assert(done@.map_values(|w: Vec<char>| w@) =~= before.push(done@.last()@));
    done
}

fn is_version_tag(v: &Vec<char>) -> (r: bool)
    ensures
        r == (v@ == version_tag()),
{
    let r = v.len() == 8 && v[0] == 'V' && v[1] == 'e' && v[2] == 'r' && v[3] == 's' && v[4] == 'i' && v[5] == 'o'
        && v[6] == 'n' && v[7] == ':';
    proof {
        if r {
            assert(v@ =~= version_tag());
        }
    }
    r
}

impl WilliHeader {
    /// Reads a header line such as `WILLI2 export 2024 Version: 7`.
    pub fn parse_line(s: &str) -> (r: Option<WilliHeader>)
        ensures
            match header_version(s@) {
                Some(v) => r == Some(WilliHeader { version: v as usize }),
                None => r is None,
            },
    {
        let chars = chars_of(s);
        let w = split_words(&chars);
        proof {
            lemma_words_len(s@);
        }
        if w.len() < 5 {
            return None;
        }
        if !is_version_tag(&w[3]) {
            return None;
        }
        match parse_number(&w[4], usize::MAX as u64) {
            Some(v) => Some(WilliHeader { version: v as usize }),
            None => None,
        }
    }
}

/// The position of the first line break "\r\n".
pub open spec fn first_crlf(s: Seq<char>) -> Option<int>
    decreases s.len(),
{
    if s.len() < 2 {
        None
    } else {
        match first_crlf(s.drop_last()) {
            Some(i) => Some(i),
            None => if s[s.len() - 2] == '\r' && s[s.len() - 1] == '\n' {
                Some(s.len() - 2)
            } else {
                None
            },
        }
    }
}

proof fn lemma_first_crlf(s: Seq<char>, i: int)
    requires
        0 <= i,
        i + 1 <= s.len(),
        forall|k: int| 0 <= k < i ==> !(#[trigger] s[k] == '\r' && s[k + 1] == '\n'),
    ensures
        i + 2 <= s.len() && s[i] == '\r' && s[i + 1] == '\n' ==> first_crlf(s) == Some(i),
        i + 1 == s.len() ==> first_crlf(s) is None,
    decreases s.len(),
{
    if s.len() >= 2 {
        if i + 2 <= s.len() {
            lemma_first_crlf(s.drop_last(), i);
        } else {
            lemma_first_crlf(s.drop_last(), i - 1);
        }
    }
}

pub(crate) fn find_crlf(s: &Vec<char>) -> (r: Option<usize>)
    ensures
        match r {
            Some(i) => first_crlf(s@) == Some(i as int) && i + 2 <= s@.len(),
            None => first_crlf(s@) is None,
        },
{
    if s.len() < 2 {
        return None;
    }
    let mut i: usize = 0;
    while i < s.len() - 1
        invariant
            i + 1 <= s@.len(),
            forall|k: int| 0 <= k < i ==> !(#[trigger] s@[k] == '\r' && s@[k + 1] == '\n'),
        decreases s@.len() - i,
    {
        if s[i] == '\r' && s[i + 1] == '\n' {
            proof {
                lemma_first_crlf(s@, i as int);
            }
            return Some(i);
        }
        i += 1;
    }
    proof {
        lemma_first_crlf(s@, i as int);
    }
    None
}

/// The records that describe days, in order.
pub open spec fn day_records(recs: Seq<Seq<Seq<char>>>) -> Seq<Seq<Seq<char>>>
    decreases recs.len(),
{
    if recs.len() == 0 {
        Seq::empty()
    } else {
        let rest = day_records(recs.drop_last());
        match record_outcome(recs.last()) {
            Ok(RecordKind::Day) => rest.push(recs.last()),
            _ => rest,
        }
    }
}

/// The records that describe teachers, in order.
pub open spec fn teacher_records(recs: Seq<Seq<Seq<char>>>) -> Seq<Seq<Seq<char>>>
    decreases recs.len(),
{
    if recs.len() == 0 {
        Seq::empty()
    } else {
        let rest = teacher_records(recs.drop_last());
        match record_outcome(recs.last()) {
            Ok(RecordKind::Teacher) => rest.push(recs.last()),
            _ => rest,
        }
    }
}

/// The period times that the records give, in order.
pub open spec fn record_slots(recs: Seq<Seq<Seq<char>>>) -> Seq<WilliTimeSlot>
    decreases recs.len(),
{
    if recs.len() == 0 {
        Seq::empty()
    } else {
        let rest = record_slots(recs.drop_last());
        match record_outcome(recs.last()) {
            Ok(RecordKind::TimeSlot(t)) => rest.push(t),
            _ => rest,
        }
    }
}

/// The records that cannot be read, each with its reason, in order.
pub open spec fn bad_lines(recs: Seq<Seq<Seq<char>>>) -> Seq<(Seq<Seq<char>>, LineError)>
    decreases recs.len(),
{
    if recs.len() == 0 {
        Seq::empty()
    } else {
        let rest = bad_lines(recs.drop_last());
        match record_outcome(recs.last()) {
            Err(e) => rest.push((recs.last(), e)),
            _ => rest,
        }
    }
}

pub open spec fn lines_view(v: Seq<(Vec<String>, LineError)>) -> Seq<(Seq<Seq<char>>, LineError)> {
    v.map_values(|p: (Vec<String>, LineError)| (strings(p.0@), p.1))
}

/// The document holds exactly what the records describe.
pub open spec fn document_matches(doc: WilliDocument, recs: Seq<Seq<Seq<char>>>) -> bool {
    &&& doc.days@.len() == day_records(recs).len()
    &&& forall|j: int| 0 <= j < doc.days@.len() ==> day_matches(#[trigger] doc.days@[j], day_records(recs)[j])
    &&& doc.default_timetable@ == record_slots(recs)
    &&& doc.teachers@.len() == teacher_records(recs).len()
    &&& forall|j: int| 0 <= j < doc.teachers@.len() ==> teacher_matches(#[trigger] doc.teachers@[j], teacher_records(recs)[j])
}

pub open spec fn all_read(recs: Seq<Option<Seq<Seq<char>>>>) -> bool {
    forall|k: int| 0 <= k < recs.len() ==> (#[trigger] recs[k]) is Some
}

pub open spec fn unwrap_all(recs: Seq<Option<Seq<Seq<char>>>>) -> Seq<Seq<Seq<char>>> {
    recs.map_values(|o: Option<Seq<Seq<char>>>| o->Some_0)
}

/// What reading `source` as a document gives: the first of these that applies.
pub open spec fn document_result(source: Seq<char>, r: Result<WilliDocument, DocumentError>) -> bool {
    match first_crlf(source) {
        None => r matches Err(DocumentError::MissingHeader),
        Some(i) => {
            let header = source.subrange(0, i);
            let body = source.subrange(i + 2, source.len() as int);
            if header_version(header) is None {
                r matches Err(DocumentError::InvalidHeader)
            } else if !all_read(csv_records(body)) {
                r matches Err(DocumentError::Csv(_))
            } else if bad_lines(unwrap_all(csv_records(body))).len() > 0 {
                match r {
                    Err(DocumentError::BadLines(l)) => lines_view(l@) == bad_lines(unwrap_all(csv_records(body))),
                    _ => false,
                }
            } else {
                match r {
                    Ok(doc) => doc.header.version == header_version(header)->Some_0
                        && document_matches(doc, unwrap_all(csv_records(body))),
                    _ => false,
                }
            }
        },
    }
}

fn copy_strings(v: &Vec<String>) -> (r: Vec<String>)
    ensures
        strings(r@) == strings(v@),
{
    let mut r: Vec<String> = Vec::new();
    let mut i: usize = 0;
    while i < v.len()
        invariant
            i <= v@.len(),
            strings(r@) == strings(v@).subrange(0, i as int),
        decreases v@.len() - i,
    {
        let ghost prev = r@;
        r.push(v[i].clone());
        assert(strings(r@) =~= strings(prev).push(v@[i as int]@));
        i += 1;
        assert(strings(r@) =~= strings(v@).subrange(0, i as int));
    }
    assert(strings(r@) =~= strings(v@));
    r
}

impl WilliDocument {
    /// Reads a document: a header line, a line break "\r\n", then comma-separated records.
    /// Every record is read; if any cannot be, all such records are returned with their
    /// reasons.
    pub fn parse_document(source: &str) -> (r: Result<WilliDocument, DocumentError>)
        ensures
            document_result(source@, r),
    {
        let chars = chars_of(source);
        let i = match find_crlf(&chars) {
            None => return Err(DocumentError::MissingHeader),
            Some(i) => i,
        };
        let n = chars.len();
        assert(i + 2 <= n);
        let raw_header = substring(&chars, 0, i);
        let body = substring(&chars, i + 2, n);
        let header = match WilliHeader::parse_line(raw_header.as_str()) {
            None => return Err(DocumentError::InvalidHeader),
            Some(h) => h,
        };
        let mut records = read_records(body.as_str());
        let ghost recs = csv_records(body@);
        let ghost facts = i + 2 <= source@.len() && first_crlf(source@) == Some(i as int) && body@ == source@.subrange(i + 2, source@.len() as int)
            && header_version(source@.subrange(0, i as int)) == Some(header.version as nat);
        assert(facts);
        assert(recs.len() == records@.len());
        let mut k: usize = 0;
        while k < records.len()
            invariant
                k <= records@.len(),
                records@.map_values(|x: Result<Vec<String>, csv::Error>| record_view(x)) == recs,
                forall|j: int| 0 <= j < k ==> (#[trigger] recs[j]) is Some,
                facts,
                facts == (i + 2 <= source@.len() && first_crlf(source@) == Some(i as int) && body@ == source@.subrange(i + 2, source@.len() as int)
                    && header_version(source@.subrange(0, i as int)) == Some(header.version as nat)),
                recs == csv_records(body@),
            decreases records@.len() - k,
        {
            if records[k].is_err() {
                assert(recs[k as int] is None);
                let bad = records.remove(k);
                match bad {
                    Err(e) => return Err(DocumentError::Csv(e)),
                    Ok(_) => {},
                }
            }
            k += 1;
        }
        assert(all_read(recs));
        let ghost all = unwrap_all(recs);
        let mut doc = WilliDocument { header, days: Vec::new(), default_timetable: Vec::new(), teachers: Vec::new() };
        let mut line_errors: Vec<(Vec<String>, LineError)> = Vec::new();
        let mut k: usize = 0;
        while k < records.len()
            invariant
                k <= records@.len(),
                records@.map_values(|x: Result<Vec<String>, csv::Error>| record_view(x)) == recs,
                all_read(recs),
                all == unwrap_all(recs),
                doc.header == header,
                facts,
                facts == (i + 2 <= source@.len() && first_crlf(source@) == Some(i as int) && body@ == source@.subrange(i + 2, source@.len() as int)
                    && header_version(source@.subrange(0, i as int)) == Some(header.version as nat)),
                recs == csv_records(body@),
                document_matches(doc, all.subrange(0, k as int)),
                lines_view(line_errors@) == bad_lines(all.subrange(0, k as int)),
            decreases records@.len() - k,
        {
            let ghost sub = all.subrange(0, k + 1);
            assert(sub.drop_last() == all.subrange(0, k as int));
            assert(recs[k as int] is Some);
            match &records[k] {
                Ok(rec) => {
                    assert(sub.last() == strings(rec@));
                    let ghost old_doc = doc;
                    let ghost old_errors = line_errors@;
                    match doc.parse_record(rec) {
                        Ok(()) => {},
                        Err(e) => {
                            line_errors.push((copy_strings(rec), e));
                            assert(lines_view(line_errors@) =~= lines_view(old_errors).push((strings(rec@), e)));
                        },
                    }
                    assert forall|j: int| 0 <= j < doc.days@.len() implies day_matches(#[trigger] doc.days@[j], day_records(sub)[j]) by {
                        if j < old_doc.days@.len() {
                            assert(doc.days@[j] == old_doc.days@[j]);
                        }
                    }
                    assert forall|j: int| 0 <= j < doc.teachers@.len() implies teacher_matches(#[trigger] doc.teachers@[j], teacher_records(sub)[j]) by {
                        if j < old_doc.teachers@.len() {
                            assert(doc.teachers@[j] == old_doc.teachers@[j]);
                        }
                    }
                },
                Err(_) => {},
            }
            k += 1;
        }
        assert(all.subrange(0, k as int) == all);
        if line_errors.len() > 0 {
            Err(DocumentError::BadLines(line_errors))
        } else {
            Ok(doc)
        }
    }
}

impl WilliDocument {
    /// Reads a document from the bytes of a Windows-1252 file.
    pub fn parse_bytes(bytes: &Vec<u8>) -> (r: Result<WilliDocument, DocumentError>)
        ensures
            document_result(windows_1252_text(bytes@), r),
    {
        let text = decode_windows_1252(bytes.as_slice());
        WilliDocument::parse_document(text.as_str())
    }
}

impl std::str::FromStr for WilliHeader {
    type Err = DocumentError;

    fn from_str(s: &str) -> Result<WilliHeader, DocumentError> {
        match WilliHeader::parse_line(s) {
            Some(h) => Ok(h),
            None => Err(DocumentError::InvalidHeader),
        }
    }
}

impl std::str::FromStr for WilliDocument {
    type Err = DocumentError;

    fn from_str(source: &str) -> Result<WilliDocument, DocumentError> {
        WilliDocument::parse_document(source)
    }
}

} // verus!
