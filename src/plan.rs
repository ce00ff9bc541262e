//! The tables of a parsed timetable that planning reads: days, periods, classes and
//! the scheduled lessons.
use vstd::prelude::*;
use crate::document::{find_crlf, first_crlf, header_version};
use crate::records::{csv_records, read_records, record_view};
use crate::tables::{FachZeile, KlassenZeile, LehrkraftZeile, SchuldatenZeile, UnterrichtsZeile, fach_matches, fach_ok, fach_rel,
    field_or_empty, klasse_matches, klasse_ok, klasse_rel, lehrkraft_ok, lehrkraft_rel, opt_field, optional_field, read_fach,
    read_klasse, read_lehrkraft, read_schule, read_unterricht, schule_matches, schule_ok, unterricht_ok, unterricht_rel};
use crate::text::{alpha_prefix_len, chars_of, decode_windows_1252, windows_1252_text, find_char, id_value, position_of_char, split_type, strings, substring};

verus! {

/// A vector indexed by record id, with holes where no record has that id.
#[derive(Clone, Debug)]
pub struct SparseVec<T> {
    pub slots: Vec<Option<T>>,
}

/// The records of a sparse vector in id order, each with its id.
pub open spec fn present<T>(s: Seq<Option<T>>) -> Seq<(int, T)>
    decreases s.len(),
{
    if s.len() == 0 {
        Seq::empty()
    } else {
        let rest = present(s.drop_last());
        match s.last() {
            Some(x) => rest.push((s.len() - 1, x)),
            None => rest,
        }
    }
}

impl<T> SparseVec<T> {
    pub fn new() -> (r: SparseVec<T>)
        ensures
            r.slots@.len() == 0,
    {
        SparseVec { slots: Vec::new() }
    }

    /// Stores `val` under `idx` and returns what was stored there before.
    pub fn insert(&mut self, idx: usize, val: T) -> (r: Option<T>)
        ensures
            old(self).slots@.len() > idx ==> r == old(self).slots@[idx as int]
                && final(self).slots@ == old(self).slots@.update(idx as int, Some(val)),
            old(self).slots@.len() <= idx ==> r is None
                && final(self).slots@ == old(self).slots@ + Seq::new((idx - old(self).slots@.len()) as nat, |_i: int| None::<T>) + seq![Some(val)],
            final(self).slots@ == sparse_insert(old(self).slots@, idx as int, val),
    {
        if self.slots.len() > idx {
            let mut v = Some(val);
            self.slots.set_and_swap(idx, &mut v);
            return v;
        }
        let ghost start = self.slots@;
        while self.slots.len() < idx
            invariant
                start.len() <= self.slots@.len() <= idx,
                self.slots@ == start + Seq::new((self.slots@.len() - start.len()) as nat, |_i: int| None::<T>),
            decreases idx - self.slots@.len(),
        {
            self.slots.push(None);
            assert(self.slots@ =~= start + Seq::new((self.slots@.len() - start.len()) as nat, |_i: int| None::<T>));
        }
        self.slots.push(Some(val));
        None
    }

    /// The stored records with their ids, in id order.
    pub fn iter(&self) -> (r: Vec<(usize, &T)>)
        ensures
            r@.len() == present(self.slots@).len(),
            forall|i: int| 0 <= i < r@.len() ==> (#[trigger] r@[i]).0 == present(self.slots@)[i].0 && *r@[i].1 == present(self.slots@)[i].1,
    {
        let ghost all = self.slots@;
        let mut r: Vec<(usize, &T)> = Vec::new();
        let mut i: usize = 0;
        while i < self.slots.len()
            invariant
                i <= all.len(),
                all == self.slots@,
                r@.len() == present(all.subrange(0, i as int)).len(),
                forall|k: int| 0 <= k < r@.len() ==> (#[trigger] r@[k]).0 == present(all.subrange(0, i as int))[k].0
                    && *r@[k].1 == present(all.subrange(0, i as int))[k].1,
            decreases all.len() - i,
        {
            assert(all.subrange(0, i + 1).drop_last() == all.subrange(0, i as int));
            if let Some(x) = &self.slots[i] {
                r.push((i, x));
            }
            i += 1;
        }
        assert(all.subrange(0, i as int) == all);
        r
    }

    /// The record stored under `idx`, if any.
    pub fn get(&self, idx: usize) -> (r: Option<&T>)
        ensures
            r == (if idx < self.slots@.len() {
                match self.slots@[idx as int] {
                    Some(x) => Some(&x),
                    None => None,
                }
            } else {
                None
            }),
    {
        if idx < self.slots.len() {
            match &self.slots[idx] {
                Some(x) => Some(x),
                None => None,
            }
        } else {
            None
        }
    }
}

/// A day record ("T" line).
#[derive(Clone, Debug)]
pub struct TagZeile {
    pub id: String,
    /// Short code, e.g. "Mo".
    pub kurz: String,
    pub lang: String,
    /// One flag character per period of the day; 'V' marks a morning period.
    pub stundenmerkmale: String,
    pub pausen: String,
    pub stundenzeiten: Option<String>,
}

/// A period record ("S" line).
#[derive(Clone, Debug)]
pub struct StundenZeile {
    pub id: String,
    pub kurz: String,
    pub lang: String,
    pub von: String,
    pub bis: String,
}

/// Day and period of a scheduled lesson, e.g. "Mo 3".
#[derive(Clone, Debug)]
pub struct TagStunde {
    pub tag: String,
    pub stunde: String,
}

/// One scheduled lesson of a teacher ("PL" line).
#[derive(Clone, Debug)]
pub struct LehrerStundenZeile {
    pub id: String,
    pub tag_stunde: TagStunde,
    pub lehrkraft: String,
    pub klasse: String,
    pub fach: String,
    pub raum: Option<String>,
    pub fixierung: Option<String>,
}

/// The header line's version number.
#[derive(Clone, Copy, Debug, PartialEq, Eq, Structural)]
pub struct WilliHeader {
    pub version: usize,
}

/// A parsed timetable.
#[derive(Clone, Debug)]
pub struct WilliStundenplan {
    pub header: Option<WilliHeader>,
    /// The school record, the last one read.
    pub schuldaten: Option<SchuldatenZeile>,
    pub faecher: SparseVec<FachZeile>,
    pub unterrichtseinheiten: SparseVec<UnterrichtsZeile>,
    pub lehrkraefte: SparseVec<LehrkraftZeile>,
    pub klassen: SparseVec<KlassenZeile>,
    pub tage: SparseVec<TagZeile>,
    pub stunden: SparseVec<StundenZeile>,
    pub stunden_lehrerplan: Vec<LehrerStundenZeile>,
}

impl WilliStundenplan {
    pub fn faecher(&self) -> (r: &SparseVec<FachZeile>)
        ensures
            r == &self.faecher,
    {
        &self.faecher
    }

    pub fn unterrichte(&self) -> (r: &SparseVec<UnterrichtsZeile>)
        ensures
            r == &self.unterrichtseinheiten,
    {
        &self.unterrichtseinheiten
    }

    pub fn lehrkraefte(&self) -> (r: &SparseVec<LehrkraftZeile>)
        ensures
            r == &self.lehrkraefte,
    {
        &self.lehrkraefte
    }

    pub fn klassen(&self) -> (r: &SparseVec<KlassenZeile>)
        ensures
            r == &self.klassen,
    {
        &self.klassen
    }

    pub fn tage(&self) -> (r: &SparseVec<TagZeile>)
        ensures
            r == &self.tage,
    {
        &self.tage
    }

    pub fn lehrerstunden(&self) -> (r: &Vec<LehrerStundenZeile>)
        ensures
            r == &self.stunden_lehrerplan,
    {
        &self.stunden_lehrerplan
    }

    pub fn stunden(&self) -> (r: &SparseVec<StundenZeile>)
        ensures
            r == &self.stunden,
    {
        &self.stunden
    }

    /// The version that the header line gave, if there was a valid header.
    pub fn willi_version(&self) -> (r: Option<usize>)
        ensures
            r == (match self.header {
                Some(h) => Some(h.version),
                None => None,
            }),
    {
        match self.header {
            Some(h) => Some(h.version),
            None => None,
        }
    }
}

/// Why part of a timetable cannot be read.
#[derive(Debug)]
pub enum ParseError {
    /// The header line does not give a version.
    InvalidHeader,
    /// A record has no type field.
    MissingType,
    /// A record cannot be read as comma-separated text.
    Unreadable(csv::Error),
    /// A record (these fields) lacks a field that its table needs, or a number or code
    /// field of it does not read.
    BadLine(Vec<String>),
}

/// What a `ParseError` says, without the `csv` error's details.
pub enum ParseFailure {
    InvalidHeader,
    MissingType,
    Unreadable,
    BadLine(Seq<Seq<char>>),
}

pub open spec fn failure_of(e: ParseError) -> ParseFailure {
    match e {
        ParseError::InvalidHeader => ParseFailure::InvalidHeader,
        ParseError::MissingType => ParseFailure::MissingType,
        ParseError::Unreadable(_) => ParseFailure::Unreadable,
        ParseError::BadLine(r) => ParseFailure::BadLine(strings(r@)),
    }
}

/// Stores `v` under `idx`, padding with holes.
pub open spec fn sparse_insert<A>(s: Seq<Option<A>>, idx: int, v: A) -> Seq<Option<A>> {
    if idx < s.len() {
        s.update(idx, Some(v))
    } else {
        s + Seq::new((idx - s.len()) as nat, |_i: int| None::<A>) + seq![Some(v)]
    }
}

pub open spec fn tag_matches(t: TagZeile, rec: Seq<Seq<char>>) -> bool {
    &&& t.id@ == rec[0] && t.kurz@ == rec[1] && t.lang@ == rec[2]
    &&& t.stundenmerkmale@ == rec[3] && t.pausen@ == rec[4]
    &&& optional_field(t.stundenzeiten, rec, 5)
}

pub open spec fn stunde_matches(t: StundenZeile, rec: Seq<Seq<char>>) -> bool {
    t.id@ == rec[0] && t.kurz@ == rec[1] && t.lang@ == rec[2] && t.von@ == rec[3] && t.bis@ == rec[4]
}

/// A lesson's second field is day and period separated by the first space: "Mo 3".
pub open spec fn lesson_matches(l: LehrerStundenZeile, rec: Seq<Seq<char>>) -> bool {
    let sp = find_char(rec[1], ' ')->Some_0;
    &&& l.id@ == rec[0]
    &&& l.tag_stunde.tag@ == rec[1].subrange(0, sp)
    &&& l.tag_stunde.stunde@ == rec[1].subrange(sp + 1, rec[1].len() as int)
    &&& l.lehrkraft@ == rec[2] && l.klasse@ == rec[3] && l.fach@ == rec[4]
    &&& optional_field(l.raum, rec, 5) && optional_field(l.fixierung, rec, 6)
}

pub open spec fn code1(a: char) -> Seq<char> {
    seq![a]
}

/// The type of a record: the leading letters of its first field.
pub open spec fn table_of(rec: Seq<Seq<char>>) -> Seq<char> {
    rec[0].subrange(0, alpha_prefix_len(rec[0]))
}

/// The record's id: the number after the type letters, or zero.
pub open spec fn id_of(rec: Seq<Seq<char>>) -> int {
    id_value(rec[0].subrange(alpha_prefix_len(rec[0]), rec[0].len() as int)) as int
}

/// Whether a record has the fields that its table needs.
pub open spec fn row_complete(rec: Seq<Seq<char>>) -> bool {
    let t = table_of(rec);
    if t == code1('T') || t == code1('S') {
        rec.len() >= 5
    } else if t == code1('K') {
        klasse_ok(rec)
    } else if t == code1('F') {
        fach_ok(rec)
    } else if t == code1('U') {
        unterricht_ok(rec)
    } else if t == code1('L') {
        lehrkraft_ok(rec)
    } else if t == code1('W') {
        schule_ok(rec)
    } else if t == seq!['P', 'L'] {
        rec.len() >= 5 && find_char(rec[1], ' ') is Some
    } else {
        true
    }
}

/// The records of table `t`, each under its id, after the first `n` records.
pub open spec fn table_model(recs: Seq<Option<Seq<Seq<char>>>>, t: Seq<char>, n: int) -> Seq<Option<Seq<Seq<char>>>>
    decreases n,
{
    if n <= 0 {
        Seq::empty()
    } else {
        let rest = table_model(recs, t, n - 1);
        match recs[n - 1] {
            Some(rec) => if rec.len() > 0 && table_of(rec) == t && row_complete(rec) {
                sparse_insert(rest, id_of(rec), rec)
            } else {
                rest
            },
            None => rest,
        }
    }
}

/// The last complete record of table `t` among the first `n` records.
pub open spec fn last_model(recs: Seq<Option<Seq<Seq<char>>>>, t: Seq<char>, n: int) -> Option<Seq<Seq<char>>>
    decreases n,
{
    if n <= 0 {
        None
    } else {
        match recs[n - 1] {
            Some(rec) => if rec.len() > 0 && table_of(rec) == t && row_complete(rec) {
                Some(rec)
            } else {
                last_model(recs, t, n - 1)
            },
            None => last_model(recs, t, n - 1),
        }
    }
}

/// The lesson records after the first `n` records, in order.
pub open spec fn lesson_model(recs: Seq<Option<Seq<Seq<char>>>>, n: int) -> Seq<Seq<Seq<char>>>
    decreases n,
{
    if n <= 0 {
        Seq::empty()
    } else {
        let rest = lesson_model(recs, n - 1);
        match recs[n - 1] {
            Some(rec) => if rec.len() > 0 && table_of(rec) == seq!['P', 'L'] && row_complete(rec) {
                rest.push(rec)
            } else {
                rest
            },
            None => rest,
        }
    }
}

/// The errors of the first `n` records, each with its record number (counted from one).
pub open spec fn error_model(recs: Seq<Option<Seq<Seq<char>>>>, n: int) -> Seq<(int, ParseFailure)>
    decreases n,
{
    if n <= 0 {
        Seq::empty()
    } else {
        let rest = error_model(recs, n - 1);
        match recs[n - 1] {
            Some(rec) => if rec.len() == 0 {
                rest.push((n, ParseFailure::MissingType))
            } else if !row_complete(rec) {
                rest.push((n, ParseFailure::BadLine(rec)))
            } else {
                rest
            },
            None => rest.push((n, ParseFailure::Unreadable)),
        }
    }
}

pub open spec fn sparse_matches<A>(s: Seq<Option<A>>, model: Seq<Option<Seq<Seq<char>>>>, m: spec_fn(A, Seq<Seq<char>>) -> bool) -> bool {
    &&& s.len() == model.len()
    &&& forall|i: int| 0 <= i < s.len() ==> match (#[trigger] s[i], model[i]) {
        (Some(a), Some(r)) => m(a, r),
        (None, None) => true,
        _ => false,
    }
}

pub open spec fn tag_rel() -> spec_fn(TagZeile, Seq<Seq<char>>) -> bool {
    |t: TagZeile, r: Seq<Seq<char>>| tag_matches(t, r)
}

pub open spec fn stunde_rel() -> spec_fn(StundenZeile, Seq<Seq<char>>) -> bool {
    |t: StundenZeile, r: Seq<Seq<char>>| stunde_matches(t, r)
}

proof fn lemma_sparse_insert<A>(s: Seq<Option<A>>, model: Seq<Option<Seq<Seq<char>>>>, m: spec_fn(A, Seq<Seq<char>>) -> bool, idx: int, a: A, rec: Seq<Seq<char>>)
    requires
        sparse_matches(s, model, m),
        m(a, rec),
        idx >= 0,
    ensures
        sparse_matches(sparse_insert(s, idx, a), sparse_insert(model, idx, rec), m),
{
    let s2 = sparse_insert(s, idx, a);
    let m2 = sparse_insert(model, idx, rec);
    assert forall|i: int| 0 <= i < s2.len() implies match (#[trigger] s2[i], m2[i]) {
        (Some(x), Some(r)) => m(x, r),
        (None, None) => true,
        _ => false,
    } by {
        if i < s.len() && i != idx {
            assert(s2[i] == s[i] && m2[i] == model[i]);
        }
    }
}

pub open spec fn errors_view(v: Seq<(usize, ParseError)>) -> Seq<(int, ParseFailure)> {
    v.map_values(|p: (usize, ParseError)| (p.0 as int, failure_of(p.1)))
}

/// The header and body of a source: split at the first "\r\n", or no header.
pub open spec fn split_source(s: Seq<char>) -> (Option<Seq<char>>, Seq<char>) {
    match first_crlf(s) {
        Some(i) => (Some(s.subrange(0, i)), s.subrange(i + 2, s.len() as int)),
        None => (None, s),
    }
}

/// The plan holds exactly the tables that the records give.
pub open spec fn plan_matches(p: WilliStundenplan, recs: Seq<Option<Seq<Seq<char>>>>, n: int) -> bool {
    &&& sparse_matches(p.klassen.slots@, table_model(recs, code1('K'), n), klasse_rel())
    &&& sparse_matches(p.faecher.slots@, table_model(recs, code1('F'), n), fach_rel())
    &&& sparse_matches(p.unterrichtseinheiten.slots@, table_model(recs, code1('U'), n), unterricht_rel())
    &&& sparse_matches(p.lehrkraefte.slots@, table_model(recs, code1('L'), n), lehrkraft_rel())
    &&& match last_model(recs, code1('W'), n) {
        Some(r) => p.schuldaten is Some && schule_matches(p.schuldaten->Some_0, r),
        None => p.schuldaten is None,
    }
    &&& sparse_matches(p.tage.slots@, table_model(recs, code1('T'), n), tag_rel())
    &&& sparse_matches(p.stunden.slots@, table_model(recs, code1('S'), n), stunde_rel())
    &&& p.stunden_lehrerplan@.len() == lesson_model(recs, n).len()
    &&& forall|i: int| 0 <= i < p.stunden_lehrerplan@.len() ==> lesson_matches(#[trigger] p.stunden_lehrerplan@[i], lesson_model(recs, n)[i])
}

/// The errors that the header line gives: one if it is there and invalid.
pub open spec fn header_errors(h: Option<Seq<char>>) -> Seq<(int, ParseFailure)> {
    match h {
        Some(hs) => if header_version(hs) is None {
            seq![(0int, ParseFailure::InvalidHeader)]
        } else {
            Seq::empty()
        },
        None => Seq::empty(),
    }
}

pub open spec fn header_of(h: Option<Seq<char>>) -> Option<WilliHeader> {
    match h {
        Some(hs) => match header_version(hs) {
            Some(v) => Some(WilliHeader { version: v as usize }),
            None => None,
        },
        None => None,
    }
}

/// What parsing `source` gives: the header, the tables, and the errors in record order.
pub open spec fn parsed_from(source: Seq<char>, plan: WilliStundenplan, errors: Seq<(usize, ParseError)>) -> bool {
    let (h, body) = split_source(source);
    let recs = csv_records(body);
    &&& plan.header == header_of(h)
    &&& plan_matches(plan, recs, recs.len() as int)
    &&& errors_view(errors) == header_errors(h) + error_model(recs, recs.len() as int)
}

fn is_table(v: &Vec<char>, a: char, b: Option<char>) -> (r: bool)
    ensures
        r == (match b {
            Some(c) => v@ == seq![a, c],
            None => v@ == code1(a),
        }),
{
    match b {
        Some(c) => {
            let r = v.len() == 2 && v[0] == a && v[1] == c;
            proof {
                if r {
                    assert(v@ =~= seq![a, c]);
                }
            }
            r
        },
        None => {
            let r = v.len() == 1 && v[0] == a;
            proof {
                if r {
                    assert(v@ =~= code1(a));
                }
            }
            r
        },
    }
}

impl WilliStundenplan {
    /// Reads a timetable file: an optional header line ended by "\r\n", then
    /// comma-separated records. Day ("T"), period ("S"), class ("K"), subject ("F"),
    /// teaching-unit ("U") and teacher ("L") records are stored under their ids, lesson
    /// records ("PL") in order, and the last school record ("W") is kept; records of
    /// other types are skipped. A record that lacks a field its table needs, or whose
    /// number or code field does not read, is reported and not stored. Every problem is collected, with its record number, and the rest is read.
    pub fn parse(source: &str) -> (r: (WilliStundenplan, Vec<(usize, ParseError)>))
        ensures
            parsed_from(source@, r.0, r.1@),
    {
        let chars = chars_of(source);
        let n = chars.len();
        let (raw_header, body) = match find_crlf(&chars) {
            Some(i) => (Some(substring(&chars, 0, i)), substring(&chars, i + 2, n)),
            None => (None, substring(&chars, 0, n)),
        };
        assert(chars@.subrange(0, n as int) == chars@);
        let ghost h = split_source(source@).0;
        assert(body@ == split_source(source@).1);
        let mut errors: Vec<(usize, ParseError)> = Vec::new();
        let header = match &raw_header {
            Some(hs) => match WilliHeader::parse_line(hs.as_str()) {
                Some(hd) => Some(hd),
                None => {
                    errors.push((0, ParseError::InvalidHeader));
                    None
                },
            },
            None => None,
        };
        assert(errors_view(errors@) =~= header_errors(h));
        let mut plan = WilliStundenplan {
            header,
            schuldaten: None,
            faecher: SparseVec::new(),
            unterrichtseinheiten: SparseVec::new(),
            lehrkraefte: SparseVec::new(),
            klassen: SparseVec::new(),
            tage: SparseVec::new(),
            stunden: SparseVec::new(),
            stunden_lehrerplan: Vec::new(),
        };
        let mut records = read_records(body.as_str());
        let ghost recs = csv_records(body@);
        let ghost herr = header_errors(h);
        assert(recs.len() == records@.len());
        assert(plan_matches(plan, recs, 0)) by {
            assert(table_model(recs, code1('K'), 0).len() == 0);
            assert(table_model(recs, code1('F'), 0).len() == 0);
            assert(table_model(recs, code1('U'), 0).len() == 0);
            assert(table_model(recs, code1('L'), 0).len() == 0);
            assert(table_model(recs, code1('T'), 0).len() == 0);
            assert(table_model(recs, code1('S'), 0).len() == 0);
        }
        assert(errors_view(errors@) =~= herr + error_model(recs, 0));
        let mut k: usize = 0;
        while k < records.len()
            invariant
                k <= records@.len(),
                records@.len() == recs.len(),
                forall|j: int| k <= j < records@.len() ==> record_view(#[trigger] records@[j]) == recs[j],
                recs == csv_records(body@),
                plan.header == header_of(h),
                plan_matches(plan, recs, k as int),
                errors_view(errors@) == herr + error_model(recs, k as int),
            decreases records@.len() - k,
        {
            proof {
                assert(code1('T')[0] != code1('S')[0]);
                assert(code1('T')[0] != code1('K')[0]);
                assert(code1('T')[0] != code1('F')[0]);
                assert(code1('T')[0] != code1('U')[0]);
                assert(code1('T')[0] != code1('L')[0]);
                assert(code1('T')[0] != code1('W')[0]);
                assert(code1('S')[0] != code1('K')[0]);
                assert(code1('S')[0] != code1('F')[0]);
                assert(code1('S')[0] != code1('U')[0]);
                assert(code1('S')[0] != code1('L')[0]);
                assert(code1('S')[0] != code1('W')[0]);
                assert(code1('K')[0] != code1('F')[0]);
                assert(code1('K')[0] != code1('U')[0]);
                assert(code1('K')[0] != code1('L')[0]);
                assert(code1('K')[0] != code1('W')[0]);
                assert(code1('F')[0] != code1('U')[0]);
                assert(code1('F')[0] != code1('L')[0]);
                assert(code1('F')[0] != code1('W')[0]);
                assert(code1('U')[0] != code1('L')[0]);
                assert(code1('U')[0] != code1('W')[0]);
                assert(code1('L')[0] != code1('W')[0]);
                assert(seq!['P', 'L'].len() != code1('K').len());
            }
            let mut taken: Result<Vec<String>, csv::Error> = Ok(Vec::new());
            records.set_and_swap(k, &mut taken);
            assert(record_view(taken) == recs[k as int]);
            let ghost old_plan = plan;
            let ghost old_errors = errors_view(errors@);
            let ghost kk = (k + 1) as int;
            match taken {
                Err(e) => {
                    errors.push((k + 1, ParseError::Unreadable(e)));
                    assert(errors_view(errors@) =~= old_errors.push((kk, ParseFailure::Unreadable)));
                },
                Ok(rec) => {
                    let ghost r = strings(rec@);
                    assert(recs[k as int] == Some(r));
                    if rec.len() == 0 {
                        errors.push((k + 1, ParseError::MissingType));
                        assert(errors_view(errors@) =~= old_errors.push((kk, ParseFailure::MissingType)));
                    } else {
                        let head = chars_of(rec[0].as_str());
                        let (typ, id) = split_type(&head);
                        assert(typ@ == table_of(r));
                        assert(id as int == id_of(r));
                        if is_table(&typ, 'T', None) {
                            if rec.len() >= 5 {
                                let row = TagZeile {
                                    id: rec[0].clone(),
                                    kurz: rec[1].clone(),
                                    lang: rec[2].clone(),
                                    stundenmerkmale: rec[3].clone(),
                                    pausen: rec[4].clone(),
                                    stundenzeiten: opt_field(&rec, 5),
                                };
                                proof {
                                    lemma_sparse_insert(plan.tage.slots@, table_model(recs, code1('T'), k as int), tag_rel(), id as int, row, r);
                                }
                                plan.tage.insert(id, row);
                            } else {
                                errors.push((k + 1, ParseError::BadLine(rec)));
                                assert(errors_view(errors@) =~= old_errors.push((kk, ParseFailure::BadLine(r))));
                            }
                        } else if is_table(&typ, 'S', None) {
                            if rec.len() >= 5 {
                                let row = StundenZeile {
                                    id: rec[0].clone(),
                                    kurz: rec[1].clone(),
                                    lang: rec[2].clone(),
                                    von: rec[3].clone(),
                                    bis: rec[4].clone(),
                                };
                                proof {
                                    lemma_sparse_insert(plan.stunden.slots@, table_model(recs, code1('S'), k as int), stunde_rel(), id as int, row, r);
                                }
                                plan.stunden.insert(id, row);
                            } else {
                                errors.push((k + 1, ParseError::BadLine(rec)));
                                assert(errors_view(errors@) =~= old_errors.push((kk, ParseFailure::BadLine(r))));
                            }
                        } else if is_table(&typ, 'K', None) {
                            match read_klasse(&rec) {
                                Some(row) => {
                                    proof {
                                        lemma_sparse_insert(plan.klassen.slots@, table_model(recs, code1('K'), k as int), klasse_rel(), id as int, row, r);
                                    }
                                    plan.klassen.insert(id, row);
                                },
                                None => {
                                    errors.push((k + 1, ParseError::BadLine(rec)));
                                    assert(errors_view(errors@) =~= old_errors.push((kk, ParseFailure::BadLine(r))));
                                },
                            }
                        } else if is_table(&typ, 'F', None) {
                            match read_fach(&rec) {
                                Some(row) => {
                                    proof {
                                        lemma_sparse_insert(plan.faecher.slots@, table_model(recs, code1('F'), k as int), fach_rel(), id as int, row, r);
                                    }
                                    plan.faecher.insert(id, row);
                                },
                                None => {
                                    errors.push((k + 1, ParseError::BadLine(rec)));
                                    assert(errors_view(errors@) =~= old_errors.push((kk, ParseFailure::BadLine(r))));
                                },
                            }
                        } else if is_table(&typ, 'U', None) {
                            match read_unterricht(&rec) {
                                Some(row) => {
                                    proof {
                                        lemma_sparse_insert(plan.unterrichtseinheiten.slots@, table_model(recs, code1('U'), k as int), unterricht_rel(), id as int, row, r);
                                    }
                                    plan.unterrichtseinheiten.insert(id, row);
                                },
                                None => {
                                    errors.push((k + 1, ParseError::BadLine(rec)));
                                    assert(errors_view(errors@) =~= old_errors.push((kk, ParseFailure::BadLine(r))));
                                },
                            }
                        } else if is_table(&typ, 'L', None) {
                            match read_lehrkraft(&rec) {
                                Some(row) => {
                                    proof {
                                        lemma_sparse_insert(plan.lehrkraefte.slots@, table_model(recs, code1('L'), k as int), lehrkraft_rel(), id as int, row, r);
                                    }
                                    plan.lehrkraefte.insert(id, row);
                                },
                                None => {
                                    errors.push((k + 1, ParseError::BadLine(rec)));
                                    assert(errors_view(errors@) =~= old_errors.push((kk, ParseFailure::BadLine(r))));
                                },
                            }
                        } else if is_table(&typ, 'W', None) {
                            match read_schule(&rec) {
                                Some(row) => {
                                    plan.schuldaten = Some(row);
                                },
                                None => {
                                    errors.push((k + 1, ParseError::BadLine(rec)));
                                    assert(errors_view(errors@) =~= old_errors.push((kk, ParseFailure::BadLine(r))));
                                },
                            }
                        } else if is_table(&typ, 'P', Some('L')) {
                            let sp = if rec.len() >= 5 {
                                position_of_char(&chars_of(rec[1].as_str()), ' ')
                            } else {
                                None
                            };
                            match sp {
                                Some(i) => {
                                    let when = chars_of(rec[1].as_str());
                                    let m = when.len();
                                    assert(i < m);
                                    let row = LehrerStundenZeile {
                                        id: rec[0].clone(),
                                        tag_stunde: TagStunde { tag: substring(&when, 0, i), stunde: substring(&when, i + 1, m) },
                                        lehrkraft: rec[2].clone(),
                                        klasse: rec[3].clone(),
                                        fach: rec[4].clone(),
                                        raum: opt_field(&rec, 5),
                                        fixierung: opt_field(&rec, 6),
                                    };
                                    assert(lesson_matches(row, r));
                                    plan.stunden_lehrerplan.push(row);
                                },
                                None => {
                                    errors.push((k + 1, ParseError::BadLine(rec)));
                                    assert(errors_view(errors@) =~= old_errors.push((kk, ParseFailure::BadLine(r))));
                                },
                            }
                        }
                    }
                },
            }
            assert(plan_matches(plan, recs, k + 1));
            k += 1;
        }
        (plan, errors)
    }

    /// Reads a timetable from the bytes of a Windows-1252 file.
    pub fn parse_bytes(bytes: &Vec<u8>) -> (r: (WilliStundenplan, Vec<(usize, ParseError)>))
        ensures
            parsed_from(windows_1252_text(bytes@), r.0, r.1@),
    {
        let text = decode_windows_1252(bytes.as_slice());
        WilliStundenplan::parse(text.as_str())
    }
}

} // verus!
