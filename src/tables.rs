//! The typed records of a timetable file and the rules by which a record's fields are
//! read: required text, optional text, optional numbers, and one-letter codes.
use vstd::prelude::*;
use crate::text::{chars_of, parse_number, parse_unsigned, strings};

verus! {

/// Field `i` of a record, or the empty field where the record is shorter.
pub open spec fn field_or_empty(rec: Seq<Seq<char>>, i: int) -> Seq<char> {
    if 0 <= i < rec.len() {
        rec[i]
    } else {
        Seq::empty()
    }
}

/// A missing or empty field reads as `None`.
pub open spec fn optional_field(o: Option<String>, rec: Seq<Seq<char>>, i: int) -> bool {
    match o {
        Some(v) => field_or_empty(rec, i).len() > 0 && v@ == rec[i],
        None => field_or_empty(rec, i).len() == 0,
    }
}

/// Field `i` as an optional number of at most `max`: a missing or empty field is
/// `Some(None)`; any other field must spell such a number, or the record is invalid
/// (`None`).
pub open spec fn opt_number(rec: Seq<Seq<char>>, i: int, max: nat) -> Option<Option<nat>> {
    if field_or_empty(rec, i).len() == 0 {
        Some(None)
    } else {
        match parse_unsigned(rec[i], max) {
            Some(v) => Some(Some(v)),
            None => None,
        }
    }
}

/// Field `i` as a number of at most `max` that is zero when the field is missing; a
/// field that is there must spell such a number.
pub open spec fn default_number(rec: Seq<Seq<char>>, i: int, max: nat) -> Option<nat> {
    if i >= rec.len() {
        Some(0)
    } else {
        parse_unsigned(rec[i], max)
    }
}

/// Field `i` as an optional one-letter code `a` (`true`) or `b` (`false`); anything
/// else makes the record invalid.
pub open spec fn opt_code(rec: Seq<Seq<char>>, i: int, a: char, b: char) -> Option<Option<bool>> {
    if field_or_empty(rec, i).len() == 0 {
        Some(None)
    } else if rec[i] == seq![a] {
        Some(Some(true))
    } else if rec[i] == seq![b] {
        Some(Some(false))
    } else {
        None
    }
}

pub open spec fn nat_of_usize(o: Option<usize>) -> Option<nat> {
    match o {
        Some(v) => Some(v as nat),
        None => None,
    }
}

pub open spec fn nat_of_u8(o: Option<u8>) -> Option<nat> {
    match o {
        Some(v) => Some(v as nat),
        None => None,
    }
}

/// A subject's property.
#[derive(Clone, Copy, Debug, PartialEq, Eq, Structural)]
pub enum FachEigenschaft {
    /// Taught in double periods ("D").
    D,
    /// Ignored when planning from a pool ("I").
    I,
}

/// How much concentration a subject asks, written 0 to 3.
#[derive(Clone, Copy, Debug, PartialEq, Eq, Structural)]
pub enum Konzentration {
    Minimum,
    Niedrig,
    Mittel,
    Hoch,
}

/// Whether a subject is academic ("W") or not ("N").
#[derive(Clone, Copy, Debug, PartialEq, Eq, Structural)]
pub enum Wertung {
    W,
    N,
}

pub open spec fn eigenschaft_code(o: Option<FachEigenschaft>) -> Option<bool> {
    match o {
        Some(FachEigenschaft::D) => Some(true),
        Some(FachEigenschaft::I) => Some(false),
        None => None,
    }
}

pub open spec fn wertung_code(o: Option<Wertung>) -> Option<bool> {
    match o {
        Some(Wertung::W) => Some(true),
        Some(Wertung::N) => Some(false),
        None => None,
    }
}

pub open spec fn konzentration_value(o: Option<Konzentration>) -> Option<nat> {
    match o {
        Some(Konzentration::Minimum) => Some(0),
        Some(Konzentration::Niedrig) => Some(1),
        Some(Konzentration::Mittel) => Some(2),
        Some(Konzentration::Hoch) => Some(3),
        None => None,
    }
}

pub(crate) fn text_at(rec: &Vec<String>, i: usize) -> (r: Option<String>)
    ensures
        match r {
            Some(v) => i < rec@.len() && v@ == strings(rec@)[i as int],
            None => i >= rec@.len(),
        },
{
    if i < rec.len() {
        Some(rec[i].clone())
    } else {
        None
    }
}

pub(crate) fn opt_field(rec: &Vec<String>, i: usize) -> (r: Option<String>)
    ensures
        optional_field(r, strings(rec@), i as int),
{
    if i < rec.len() && !rec[i].as_str().is_empty() {
        Some(rec[i].clone())
    } else {
        None
    }
}

fn field_chars(rec: &Vec<String>, i: usize) -> (r: Vec<char>)
    ensures
        r@ == field_or_empty(strings(rec@), i as int),
{
    if i < rec.len() {
        chars_of(rec[i].as_str())
    } else {
        Vec::new()
    }
}

pub(crate) fn opt_number_at(rec: &Vec<String>, i: usize, max: u64) -> (r: Option<Option<u64>>)
    ensures
        match r {
            Some(Some(v)) => opt_number(strings(rec@), i as int, max as nat) == Some(Some(v as nat)) && v <= max,
            Some(None) => opt_number(strings(rec@), i as int, max as nat) == Some(None::<nat>),
            None => opt_number(strings(rec@), i as int, max as nat) is None,
        },
{
    let f = field_chars(rec, i);
    if f.len() == 0 {
        return Some(None);
    }
    match parse_number(&f, max) {
        Some(v) => Some(Some(v)),
        None => None,
    }
}

pub(crate) fn default_number_at(rec: &Vec<String>, i: usize, max: u64) -> (r: Option<u64>)
    ensures
        match r {
            Some(v) => default_number(strings(rec@), i as int, max as nat) == Some(v as nat) && v <= max,
            None => default_number(strings(rec@), i as int, max as nat) is None,
        },
{
    if i >= rec.len() {
        return Some(0);
    }
    let f = field_chars(rec, i);
    parse_number(&f, max)
}

pub(crate) fn default_text_at(rec: &Vec<String>, i: usize) -> (r: String)
    ensures
        r@ == field_or_empty(strings(rec@), i as int),
{
    if i < rec.len() {
        rec[i].clone()
    } else {
        String::new()
    }
}

pub(crate) fn opt_code_at(rec: &Vec<String>, i: usize, a: char, b: char) -> (r: Option<Option<bool>>)
    ensures
        r == opt_code(strings(rec@), i as int, a, b),
{
    let f = field_chars(rec, i);
    if f.len() == 0 {
        return Some(None);
    }
    if f.len() == 1 && f[0] == a {
        assert(f@ =~= seq![a]);
        return Some(Some(true));
    }
    if f.len() == 1 && f[0] == b {
        assert(f@ =~= seq![b]);
        return Some(Some(false));
    }
    assert(f@ != seq![a] && f@ != seq![b]) by {
        if f@.len() == 1 {
            assert(seq![a][0] == a);
            assert(seq![b][0] == b);
        }
    }
    None
}

/// A class record ("K" line).
#[derive(Clone, Debug)]
pub struct KlassenZeile {
    pub id: String,
    pub kuerzel: String,
    pub kurz: Option<String>,
    pub name: Option<String>,
    pub klassenraum: Option<String>,
    pub klassenleiter: Option<String>,
    pub zweitklassenleiter: Option<String>,
    pub deputat: Option<usize>,
    pub schuelerzahl: Option<usize>,
    pub weiblich: Option<usize>,
    pub jahrgangsstufe: Option<usize>,
    pub besonderheiten: Option<String>,
    pub schultyp: Option<String>,
    pub farbe: Option<String>,
    pub stammklasse: Option<String>,
    pub mittagspause_min: Option<usize>,
    pub mittagspause_max: Option<usize>,
    pub nachmittag_max: Option<usize>,
    pub schule: Option<String>,
    pub rk: Option<usize>,
    pub ev: Option<usize>,
    pub sonst: Option<usize>,
    pub fahr: Option<usize>,
    pub zeitraster: Option<u8>,
    pub asv_klasse: Option<String>,
}

/// Whether a record has what a KlassenZeile needs.
pub open spec fn klasse_ok(rec: Seq<Seq<char>>) -> bool {
    0 < rec.len()
    && 1 < rec.len()
    && opt_number(rec, 7, usize::MAX as nat) is Some
    && opt_number(rec, 8, usize::MAX as nat) is Some
    && opt_number(rec, 9, usize::MAX as nat) is Some
    && opt_number(rec, 10, usize::MAX as nat) is Some
    && opt_number(rec, 15, usize::MAX as nat) is Some
    && opt_number(rec, 16, usize::MAX as nat) is Some
    && opt_number(rec, 17, usize::MAX as nat) is Some
    && opt_number(rec, 19, usize::MAX as nat) is Some
    && opt_number(rec, 20, usize::MAX as nat) is Some
    && opt_number(rec, 21, usize::MAX as nat) is Some
    && opt_number(rec, 22, usize::MAX as nat) is Some
    && opt_number(rec, 23, 255) is Some
}

pub open spec fn klasse_matches(x: KlassenZeile, rec: Seq<Seq<char>>) -> bool {
    &&& x.id@ == rec[0]
    &&& x.kuerzel@ == rec[1]
    &&& optional_field(x.kurz, rec, 2)
    &&& optional_field(x.name, rec, 3)
    &&& optional_field(x.klassenraum, rec, 4)
    &&& optional_field(x.klassenleiter, rec, 5)
    &&& optional_field(x.zweitklassenleiter, rec, 6)
    &&& opt_number(rec, 7, usize::MAX as nat) == Some(nat_of_usize(x.deputat))
    &&& opt_number(rec, 8, usize::MAX as nat) == Some(nat_of_usize(x.schuelerzahl))
    &&& opt_number(rec, 9, usize::MAX as nat) == Some(nat_of_usize(x.weiblich))
    &&& opt_number(rec, 10, usize::MAX as nat) == Some(nat_of_usize(x.jahrgangsstufe))
    &&& optional_field(x.besonderheiten, rec, 11)
    &&& optional_field(x.schultyp, rec, 12)
    &&& optional_field(x.farbe, rec, 13)
    &&& optional_field(x.stammklasse, rec, 14)
    &&& opt_number(rec, 15, usize::MAX as nat) == Some(nat_of_usize(x.mittagspause_min))
    &&& opt_number(rec, 16, usize::MAX as nat) == Some(nat_of_usize(x.mittagspause_max))
    &&& opt_number(rec, 17, usize::MAX as nat) == Some(nat_of_usize(x.nachmittag_max))
    &&& optional_field(x.schule, rec, 18)
    &&& opt_number(rec, 19, usize::MAX as nat) == Some(nat_of_usize(x.rk))
    &&& opt_number(rec, 20, usize::MAX as nat) == Some(nat_of_usize(x.ev))
    &&& opt_number(rec, 21, usize::MAX as nat) == Some(nat_of_usize(x.sonst))
    &&& opt_number(rec, 22, usize::MAX as nat) == Some(nat_of_usize(x.fahr))
    &&& opt_number(rec, 23, 255) == Some(nat_of_u8(x.zeitraster))
    &&& optional_field(x.asv_klasse, rec, 24)
}

pub open spec fn klasse_rel() -> spec_fn(KlassenZeile, Seq<Seq<char>>) -> bool {
    |x: KlassenZeile, r: Seq<Seq<char>>| klasse_matches(x, r)
}

/// Reads a "K" record, or `None` where it lacks a field or a field does not read.
pub fn read_klasse(rec: &Vec<String>) -> (r: Option<KlassenZeile>)
    ensures
        match r {
            Some(x) => klasse_ok(strings(rec@)) && klasse_matches(x, strings(rec@)),
            None => !klasse_ok(strings(rec@)),
        },
{
    let id = match text_at(rec, 0) {
        Some(v) => v,
        None => return None,
    };
    let kuerzel = match text_at(rec, 1) {
        Some(v) => v,
        None => return None,
    };
    let kurz = opt_field(rec, 2);
    let name = opt_field(rec, 3);
    let klassenraum = opt_field(rec, 4);
    let klassenleiter = opt_field(rec, 5);
    let zweitklassenleiter = opt_field(rec, 6);
    let deputat = match opt_number_at(rec, 7, usize::MAX as u64) {
        Some(Some(v)) => Some(v as usize),
        Some(None) => None,
        None => return None,
    };
    let schuelerzahl = match opt_number_at(rec, 8, usize::MAX as u64) {
        Some(Some(v)) => Some(v as usize),
        Some(None) => None,
        None => return None,
    };
    let weiblich = match opt_number_at(rec, 9, usize::MAX as u64) {
        Some(Some(v)) => Some(v as usize),
        Some(None) => None,
        None => return None,
    };
    let jahrgangsstufe = match opt_number_at(rec, 10, usize::MAX as u64) {
        Some(Some(v)) => Some(v as usize),
        Some(None) => None,
        None => return None,
    };
    let besonderheiten = opt_field(rec, 11);
    let schultyp = opt_field(rec, 12);
    let farbe = opt_field(rec, 13);
    let stammklasse = opt_field(rec, 14);
    let mittagspause_min = match opt_number_at(rec, 15, usize::MAX as u64) {
        Some(Some(v)) => Some(v as usize),
        Some(None) => None,
        None => return None,
    };
    let mittagspause_max = match opt_number_at(rec, 16, usize::MAX as u64) {
        Some(Some(v)) => Some(v as usize),
        Some(None) => None,
        None => return None,
    };
    let nachmittag_max = match opt_number_at(rec, 17, usize::MAX as u64) {
        Some(Some(v)) => Some(v as usize),
        Some(None) => None,
        None => return None,
    };
    let schule = opt_field(rec, 18);
    let rk = match opt_number_at(rec, 19, usize::MAX as u64) {
        Some(Some(v)) => Some(v as usize),
        Some(None) => None,
        None => return None,
    };
    let ev = match opt_number_at(rec, 20, usize::MAX as u64) {
        Some(Some(v)) => Some(v as usize),
        Some(None) => None,
        None => return None,
    };
    let sonst = match opt_number_at(rec, 21, usize::MAX as u64) {
        Some(Some(v)) => Some(v as usize),
        Some(None) => None,
        None => return None,
    };
    let fahr = match opt_number_at(rec, 22, usize::MAX as u64) {
        Some(Some(v)) => Some(v as usize),
        Some(None) => None,
        None => return None,
    };
    let zeitraster = match opt_number_at(rec, 23, 255) {
        Some(Some(v)) => Some(v as u8),
        Some(None) => None,
        None => return None,
    };
    let asv_klasse = opt_field(rec, 24);
    Some(KlassenZeile { id, kuerzel, kurz, name, klassenraum, klassenleiter, zweitklassenleiter, deputat, schuelerzahl, weiblich, jahrgangsstufe, besonderheiten, schultyp, farbe, stammklasse, mittagspause_min, mittagspause_max, nachmittag_max, schule, rk, ev, sonst, fahr, zeitraster, asv_klasse })
}

/// The school record ("W" line).
#[derive(Clone, Debug)]
pub struct SchuldatenZeile {
    pub id: String,
    pub schulname: String,
    pub titel1: Option<String>,
    pub titel2: Option<String>,
    pub schulnummer: Option<usize>,
}

/// Whether a record has what a SchuldatenZeile needs.
pub open spec fn schule_ok(rec: Seq<Seq<char>>) -> bool {
    0 < rec.len()
    && 1 < rec.len()
    && opt_number(rec, 4, usize::MAX as nat) is Some
}

pub open spec fn schule_matches(x: SchuldatenZeile, rec: Seq<Seq<char>>) -> bool {
    &&& x.id@ == rec[0]
    &&& x.schulname@ == rec[1]
    &&& optional_field(x.titel1, rec, 2)
    &&& optional_field(x.titel2, rec, 3)
    &&& opt_number(rec, 4, usize::MAX as nat) == Some(nat_of_usize(x.schulnummer))
}

pub open spec fn schule_rel() -> spec_fn(SchuldatenZeile, Seq<Seq<char>>) -> bool {
    |x: SchuldatenZeile, r: Seq<Seq<char>>| schule_matches(x, r)
}

/// Reads a "W" record, or `None` where it lacks a field or a field does not read.
pub fn read_schule(rec: &Vec<String>) -> (r: Option<SchuldatenZeile>)
    ensures
        match r {
            Some(x) => schule_ok(strings(rec@)) && schule_matches(x, strings(rec@)),
            None => !schule_ok(strings(rec@)),
        },
{
    let id = match text_at(rec, 0) {
        Some(v) => v,
        None => return None,
    };
    let schulname = match text_at(rec, 1) {
        Some(v) => v,
        None => return None,
    };
    let titel1 = opt_field(rec, 2);
    let titel2 = opt_field(rec, 3);
    let schulnummer = match opt_number_at(rec, 4, usize::MAX as u64) {
        Some(Some(v)) => Some(v as usize),
        Some(None) => None,
        None => return None,
    };
    Some(SchuldatenZeile { id, schulname, titel1, titel2, schulnummer })
}

/// A teacher record ("L" line).
#[derive(Clone, Debug)]
pub struct LehrkraftZeile {
    pub id: String,
    pub kuerzel: String,
    pub kurz: Option<String>,
    pub name: Option<String>,
    pub vorname: Option<String>,
    pub anrede: Option<String>,
}

/// Whether a record has what a LehrkraftZeile needs.
pub open spec fn lehrkraft_ok(rec: Seq<Seq<char>>) -> bool {
    0 < rec.len()
    && 1 < rec.len()
}

pub open spec fn lehrkraft_matches(x: LehrkraftZeile, rec: Seq<Seq<char>>) -> bool {
    &&& x.id@ == rec[0]
    &&& x.kuerzel@ == rec[1]
    &&& optional_field(x.kurz, rec, 2)
    &&& optional_field(x.name, rec, 3)
    &&& optional_field(x.vorname, rec, 4)
    &&& optional_field(x.anrede, rec, 5)
}

pub open spec fn lehrkraft_rel() -> spec_fn(LehrkraftZeile, Seq<Seq<char>>) -> bool {
    |x: LehrkraftZeile, r: Seq<Seq<char>>| lehrkraft_matches(x, r)
}

/// Reads a "L" record, or `None` where it lacks a field or a field does not read.
pub fn read_lehrkraft(rec: &Vec<String>) -> (r: Option<LehrkraftZeile>)
    ensures
        match r {
            Some(x) => lehrkraft_ok(strings(rec@)) && lehrkraft_matches(x, strings(rec@)),
            None => !lehrkraft_ok(strings(rec@)),
        },
{
    let id = match text_at(rec, 0) {
        Some(v) => v,
        None => return None,
    };
    let kuerzel = match text_at(rec, 1) {
        Some(v) => v,
        None => return None,
    };
    let kurz = opt_field(rec, 2);
    let name = opt_field(rec, 3);
    let vorname = opt_field(rec, 4);
    let anrede = opt_field(rec, 5);
    Some(LehrkraftZeile { id, kuerzel, kurz, name, vorname, anrede })
}

/// A subject record ("F" line).
#[derive(Clone, Debug)]
pub struct FachZeile {
    pub id: String,
    pub kuerzel: String,
    pub kurz: Option<String>,
    pub name: Option<String>,
    pub merkmal: Option<usize>,
    pub eigenschaft: Option<FachEigenschaft>,
    pub konzentration: Option<Konzentration>,
    pub wertung: Option<Wertung>,
    pub fachgruppe: Option<String>,
    pub fachraumgruppe: Option<usize>,
    pub farbe: Option<usize>,
    pub fakultasfilter: Option<usize>,
    pub zeiteinschraenkungen: Option<String>,
    pub zeitfilter: Option<String>,
    pub fachkollision: String,
    pub km_fach: Option<String>,
}

/// Whether a record has what a FachZeile needs.
pub open spec fn fach_ok(rec: Seq<Seq<char>>) -> bool {
    0 < rec.len()
    && 1 < rec.len()
    && opt_number(rec, 4, usize::MAX as nat) is Some
    && opt_code(rec, 5, 'D', 'I') is Some
    && opt_number(rec, 6, 3) is Some
    && opt_code(rec, 7, 'W', 'N') is Some
    && opt_number(rec, 9, usize::MAX as nat) is Some
    && opt_number(rec, 10, usize::MAX as nat) is Some
    && opt_number(rec, 11, usize::MAX as nat) is Some
}

pub open spec fn fach_matches(x: FachZeile, rec: Seq<Seq<char>>) -> bool {
    &&& x.id@ == rec[0]
    &&& x.kuerzel@ == rec[1]
    &&& optional_field(x.kurz, rec, 2)
    &&& optional_field(x.name, rec, 3)
    &&& opt_number(rec, 4, usize::MAX as nat) == Some(nat_of_usize(x.merkmal))
    &&& opt_code(rec, 5, 'D', 'I') == Some(eigenschaft_code(x.eigenschaft))
    &&& opt_number(rec, 6, 3) == Some(konzentration_value(x.konzentration))
    &&& opt_code(rec, 7, 'W', 'N') == Some(wertung_code(x.wertung))
    &&& optional_field(x.fachgruppe, rec, 8)
    &&& opt_number(rec, 9, usize::MAX as nat) == Some(nat_of_usize(x.fachraumgruppe))
    &&& opt_number(rec, 10, usize::MAX as nat) == Some(nat_of_usize(x.farbe))
    &&& opt_number(rec, 11, usize::MAX as nat) == Some(nat_of_usize(x.fakultasfilter))
    &&& optional_field(x.zeiteinschraenkungen, rec, 12)
    &&& optional_field(x.zeitfilter, rec, 13)
    &&& x.fachkollision@ == field_or_empty(rec, 14)
    &&& optional_field(x.km_fach, rec, 15)
}

pub open spec fn fach_rel() -> spec_fn(FachZeile, Seq<Seq<char>>) -> bool {
    |x: FachZeile, r: Seq<Seq<char>>| fach_matches(x, r)
}

/// Reads a "F" record, or `None` where it lacks a field or a field does not read.
pub fn read_fach(rec: &Vec<String>) -> (r: Option<FachZeile>)
    ensures
        match r {
            Some(x) => fach_ok(strings(rec@)) && fach_matches(x, strings(rec@)),
            None => !fach_ok(strings(rec@)),
        },
{
    let id = match text_at(rec, 0) {
        Some(v) => v,
        None => return None,
    };
    let kuerzel = match text_at(rec, 1) {
        Some(v) => v,
        None => return None,
    };
    let kurz = opt_field(rec, 2);
    let name = opt_field(rec, 3);
    let merkmal = match opt_number_at(rec, 4, usize::MAX as u64) {
        Some(Some(v)) => Some(v as usize),
        Some(None) => None,
        None => return None,
    };
    let eigenschaft = match opt_code_at(rec, 5, 'D', 'I') {
        Some(Some(true)) => Some(FachEigenschaft::D),
        Some(Some(false)) => Some(FachEigenschaft::I),
        Some(None) => None,
        None => return None,
    };
    let konzentration = match opt_number_at(rec, 6, 3) {
        Some(Some(v)) => Some(if v == 0 {
            Konzentration::Minimum
        } else if v == 1 {
            Konzentration::Niedrig
        } else if v == 2 {
            Konzentration::Mittel
        } else {
            Konzentration::Hoch
        }),
        Some(None) => None,
        None => return None,
    };
    let wertung = match opt_code_at(rec, 7, 'W', 'N') {
        Some(Some(true)) => Some(Wertung::W),
        Some(Some(false)) => Some(Wertung::N),
        Some(None) => None,
        None => return None,
    };
    let fachgruppe = opt_field(rec, 8);
    let fachraumgruppe = match opt_number_at(rec, 9, usize::MAX as u64) {
        Some(Some(v)) => Some(v as usize),
        Some(None) => None,
        None => return None,
    };
    let farbe = match opt_number_at(rec, 10, usize::MAX as u64) {
        Some(Some(v)) => Some(v as usize),
        Some(None) => None,
        None => return None,
    };
    let fakultasfilter = match opt_number_at(rec, 11, usize::MAX as u64) {
        Some(Some(v)) => Some(v as usize),
        Some(None) => None,
        None => return None,
    };
    let zeiteinschraenkungen = opt_field(rec, 12);
    let zeitfilter = opt_field(rec, 13);
    let fachkollision = default_text_at(rec, 14);
    let km_fach = opt_field(rec, 15);
    Some(FachZeile { id, kuerzel, kurz, name, merkmal, eigenschaft, konzentration, wertung, fachgruppe, fachraumgruppe, farbe, fakultasfilter, zeiteinschraenkungen, zeitfilter, fachkollision, km_fach })
}

/// A teaching-unit record ("U" line).
#[derive(Clone, Debug)]
pub struct UnterrichtsZeile {
    pub id: String,
    pub lehrkraft: String,
    pub fach: String,
    pub klasse: String,
    pub kopplung: Option<String>,
    pub stundenzahl: u8,
    pub stundenzahl_klasse: Option<usize>,
    pub stundenzahl_lehrer: Option<usize>,
    pub stundenzahl_fachraum: Option<usize>,
    pub schuelerzahl: Option<usize>,
    pub besonderheiten: Option<String>,
    pub lehrerbezeichner: Option<String>,
    pub fachbezeichner: Option<String>,
    pub klassenbezeichner: Option<String>,
    pub fachraumgruppe: Option<usize>,
    pub raum: Option<String>,
    pub doppmin: Option<usize>,
    pub doppmax: Option<usize>,
    pub blockgroesse: Option<usize>,
    pub max_pro_tag: Option<usize>,
    pub doppelstundenparameter: Option<String>,
    pub b_unterrichtseinheit: Option<String>,
    pub zeiteinschraenkungen: Option<String>,
    pub zeitfilter: Option<String>,
    pub bedingung: Option<String>,
    pub schuelerfilter: Option<usize>,
    pub wunschraster: Option<usize>,
    pub unterrichtsphase: Option<String>,
    pub gewicht_folgetage: Option<usize>,
    pub asv_unterrichtsart: Option<String>,
    pub asv_bereich: Option<String>,
}

/// Whether a record has what a UnterrichtsZeile needs.
pub open spec fn unterricht_ok(rec: Seq<Seq<char>>) -> bool {
    0 < rec.len()
    && 1 < rec.len()
    && 2 < rec.len()
    && 3 < rec.len()
    && default_number(rec, 5, 255) is Some
    && opt_number(rec, 6, usize::MAX as nat) is Some
    && opt_number(rec, 7, usize::MAX as nat) is Some
    && opt_number(rec, 8, usize::MAX as nat) is Some
    && opt_number(rec, 9, usize::MAX as nat) is Some
    && opt_number(rec, 14, usize::MAX as nat) is Some
    && opt_number(rec, 16, usize::MAX as nat) is Some
    && opt_number(rec, 17, usize::MAX as nat) is Some
    && opt_number(rec, 18, usize::MAX as nat) is Some
    && opt_number(rec, 19, usize::MAX as nat) is Some
    && opt_number(rec, 25, usize::MAX as nat) is Some
    && opt_number(rec, 26, usize::MAX as nat) is Some
    && opt_number(rec, 28, usize::MAX as nat) is Some
}

pub open spec fn unterricht_matches(x: UnterrichtsZeile, rec: Seq<Seq<char>>) -> bool {
    &&& x.id@ == rec[0]
    &&& x.lehrkraft@ == rec[1]
    &&& x.fach@ == rec[2]
    &&& x.klasse@ == rec[3]
    &&& optional_field(x.kopplung, rec, 4)
    &&& default_number(rec, 5, 255) == Some(x.stundenzahl as nat)
    &&& opt_number(rec, 6, usize::MAX as nat) == Some(nat_of_usize(x.stundenzahl_klasse))
    &&& opt_number(rec, 7, usize::MAX as nat) == Some(nat_of_usize(x.stundenzahl_lehrer))
    &&& opt_number(rec, 8, usize::MAX as nat) == Some(nat_of_usize(x.stundenzahl_fachraum))
    &&& opt_number(rec, 9, usize::MAX as nat) == Some(nat_of_usize(x.schuelerzahl))
    &&& optional_field(x.besonderheiten, rec, 10)
    &&& optional_field(x.lehrerbezeichner, rec, 11)
    &&& optional_field(x.fachbezeichner, rec, 12)
    &&& optional_field(x.klassenbezeichner, rec, 13)
    &&& opt_number(rec, 14, usize::MAX as nat) == Some(nat_of_usize(x.fachraumgruppe))
    &&& optional_field(x.raum, rec, 15)
    &&& opt_number(rec, 16, usize::MAX as nat) == Some(nat_of_usize(x.doppmin))
    &&& opt_number(rec, 17, usize::MAX as nat) == Some(nat_of_usize(x.doppmax))
    &&& opt_number(rec, 18, usize::MAX as nat) == Some(nat_of_usize(x.blockgroesse))
    &&& opt_number(rec, 19, usize::MAX as nat) == Some(nat_of_usize(x.max_pro_tag))
    &&& optional_field(x.doppelstundenparameter, rec, 20)
    &&& optional_field(x.b_unterrichtseinheit, rec, 21)
    &&& optional_field(x.zeiteinschraenkungen, rec, 22)
    &&& optional_field(x.zeitfilter, rec, 23)
    &&& optional_field(x.bedingung, rec, 24)
    &&& opt_number(rec, 25, usize::MAX as nat) == Some(nat_of_usize(x.schuelerfilter))
    &&& opt_number(rec, 26, usize::MAX as nat) == Some(nat_of_usize(x.wunschraster))
    &&& optional_field(x.unterrichtsphase, rec, 27)
    &&& opt_number(rec, 28, usize::MAX as nat) == Some(nat_of_usize(x.gewicht_folgetage))
    &&& optional_field(x.asv_unterrichtsart, rec, 29)
    &&& optional_field(x.asv_bereich, rec, 30)
}

pub open spec fn unterricht_rel() -> spec_fn(UnterrichtsZeile, Seq<Seq<char>>) -> bool {
    |x: UnterrichtsZeile, r: Seq<Seq<char>>| unterricht_matches(x, r)
}

/// Reads a "U" record, or `None` where it lacks a field or a field does not read.
pub fn read_unterricht(rec: &Vec<String>) -> (r: Option<UnterrichtsZeile>)
    ensures
        match r {
            Some(x) => unterricht_ok(strings(rec@)) && unterricht_matches(x, strings(rec@)),
            None => !unterricht_ok(strings(rec@)),
        },
{
    let id = match text_at(rec, 0) {
        Some(v) => v,
        None => return None,
    };
    let lehrkraft = match text_at(rec, 1) {
        Some(v) => v,
        None => return None,
    };
    let fach = match text_at(rec, 2) {
        Some(v) => v,
        None => return None,
    };
    let klasse = match text_at(rec, 3) {
        Some(v) => v,
        None => return None,
    };
    let kopplung = opt_field(rec, 4);
    let stundenzahl = match default_number_at(rec, 5, 255) {
        Some(v) => v as u8,
        None => return None,
    };
    let stundenzahl_klasse = match opt_number_at(rec, 6, usize::MAX as u64) {
        Some(Some(v)) => Some(v as usize),
        Some(None) => None,
        None => return None,
    };
    let stundenzahl_lehrer = match opt_number_at(rec, 7, usize::MAX as u64) {
        Some(Some(v)) => Some(v as usize),
        Some(None) => None,
        None => return None,
    };
    let stundenzahl_fachraum = match opt_number_at(rec, 8, usize::MAX as u64) {
        Some(Some(v)) => Some(v as usize),
        Some(None) => None,
        None => return None,
    };
    let schuelerzahl = match opt_number_at(rec, 9, usize::MAX as u64) {
        Some(Some(v)) => Some(v as usize),
        Some(None) => None,
        None => return None,
    };
    let besonderheiten = opt_field(rec, 10);
    let lehrerbezeichner = opt_field(rec, 11);
    let fachbezeichner = opt_field(rec, 12);
    let klassenbezeichner = opt_field(rec, 13);
    let fachraumgruppe = match opt_number_at(rec, 14, usize::MAX as u64) {
        Some(Some(v)) => Some(v as usize),
        Some(None) => None,
        None => return None,
    };
    let raum = opt_field(rec, 15);
    let doppmin = match opt_number_at(rec, 16, usize::MAX as u64) {
        Some(Some(v)) => Some(v as usize),
        Some(None) => None,
        None => return None,
    };
    let doppmax = match opt_number_at(rec, 17, usize::MAX as u64) {
        Some(Some(v)) => Some(v as usize),
        Some(None) => None,
        None => return None,
    };
    let blockgroesse = match opt_number_at(rec, 18, usize::MAX as u64) {
        Some(Some(v)) => Some(v as usize),
        Some(None) => None,
        None => return None,
    };
    let max_pro_tag = match opt_number_at(rec, 19, usize::MAX as u64) {
        Some(Some(v)) => Some(v as usize),
        Some(None) => None,
        None => return None,
    };
    let doppelstundenparameter = opt_field(rec, 20);
    let b_unterrichtseinheit = opt_field(rec, 21);
    let zeiteinschraenkungen = opt_field(rec, 22);
    let zeitfilter = opt_field(rec, 23);
    let bedingung = opt_field(rec, 24);
    let schuelerfilter = match opt_number_at(rec, 25, usize::MAX as u64) {
        Some(Some(v)) => Some(v as usize),
        Some(None) => None,
        None => return None,
    };
    let wunschraster = match opt_number_at(rec, 26, usize::MAX as u64) {
        Some(Some(v)) => Some(v as usize),
        Some(None) => None,
        None => return None,
    };
    let unterrichtsphase = opt_field(rec, 27);
    let gewicht_folgetage = match opt_number_at(rec, 28, usize::MAX as u64) {
        Some(Some(v)) => Some(v as usize),
        Some(None) => None,
        None => return None,
    };
    let asv_unterrichtsart = opt_field(rec, 29);
    let asv_bereich = opt_field(rec, 30);
    Some(UnterrichtsZeile { id, lehrkraft, fach, klasse, kopplung, stundenzahl, stundenzahl_klasse, stundenzahl_lehrer, stundenzahl_fachraum, schuelerzahl, besonderheiten, lehrerbezeichner, fachbezeichner, klassenbezeichner, fachraumgruppe, raum, doppmin, doppmax, blockgroesse, max_pro_tag, doppelstundenparameter, b_unterrichtseinheit, zeiteinschraenkungen, zeitfilter, bedingung, schuelerfilter, wunschraster, unterrichtsphase, gewicht_folgetage, asv_unterrichtsart, asv_bereich })
}

} // verus!
