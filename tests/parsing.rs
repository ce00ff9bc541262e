use planner::document::{
    DocumentError, LineError, WilliDocument, WilliPeriod, WilliPeriodKind, WilliTeacherFunction,
};
use planner::plan::{ParseError, SparseVec, WilliHeader, WilliStundenplan};
use planner::tables::{FachEigenschaft, Konzentration, Wertung};
use planner::text::parse_number;

fn chars(s: &str) -> Vec<char> {
    s.chars().collect()
}

fn teacher_line() -> String {
    let mut f: Vec<&str> = vec![""; 34];
    f[0] = "L1";
    f[1] = "MUE";
    f[2] = "Mueller";
    f[3] = "Mueller-Lang";
    f[4] = "Anna";
    f[5] = "";
    f[11] = "24";
    f[13] = "S";
    f[14] = "2";
    f[17] = "1";
    f[18] = "2";
    f[19] = "3";
    f[20] = "4";
    f[21] = "5";
    f[22] = "6";
    f[23] = "N";
    f[28] = "7";
    f[29] = "x";
    f[33] = "9";
    f.join(",")
}

#[test]
fn numbers_read_like_str_parse() {
    assert_eq!(parse_number(&chars("42"), 255), Some(42));
    assert_eq!(parse_number(&chars("+7"), 255), Some(7));
    assert_eq!(parse_number(&chars("007"), 255), Some(7));
    assert_eq!(parse_number(&chars("255"), 255), Some(255));
    assert_eq!(parse_number(&chars("256"), 255), None);
    assert_eq!(parse_number(&chars(""), 255), None);
    assert_eq!(parse_number(&chars("+"), 255), None);
    assert_eq!(parse_number(&chars("-1"), 255), None);
    assert_eq!(parse_number(&chars("1a"), 255), None);
    assert_eq!(parse_number(&chars("18446744073709551615"), u64::MAX), Some(u64::MAX));
    assert_eq!(parse_number(&chars("18446744073709551616"), u64::MAX), None);
}

#[test]
fn header_line_gives_version() {
    assert_eq!(WilliHeader::parse_line("WILLI2 Export Datei Version: 12"), Some(WilliHeader { version: 12 }));
    assert_eq!(WilliHeader::parse_line("WILLI2 Export Datei Version: 12 extra"), Some(WilliHeader { version: 12 }));
    assert_eq!(WilliHeader::parse_line("WILLI2 Export Version: 12"), None);
    assert_eq!(WilliHeader::parse_line("WILLI2 Export Datei Version 12"), None);
    assert_eq!(WilliHeader::parse_line("WILLI2 Export Datei Version: x"), None);
    assert_eq!(WilliHeader::parse_line(""), None);
}

#[test]
fn document_reads_days_times_and_teachers() {
    let source = format!(
        "WILLI2 Export Datei Version: 3\r\nT1,Mo,Montag,VNMnZX,P P  P\r\nS1,1,8.00-8.45\r\nQ7,ignored\r\n{}\r\n",
        teacher_line()
    );
    let doc = WilliDocument::parse_document(&source).unwrap();
    assert_eq!(doc.header.version, 3);
    assert_eq!(doc.days.len(), 1);
    assert_eq!(doc.days[0].short, "Mo");
    assert_eq!(doc.days[0].long, "Montag");
    let kinds: Vec<WilliPeriodKind> = doc.days[0].periods.iter().map(|p| p.kind).collect();
    assert_eq!(
        kinds,
        vec![WilliPeriodKind::V, WilliPeriodKind::N, WilliPeriodKind::M, WilliPeriodKind::M, WilliPeriodKind::Unknown]
    );
    assert_eq!(doc.days[0].periods[0], WilliPeriod { kind: WilliPeriodKind::V, break_before: true });
    assert!(!doc.days[0].periods[1].break_before);
    assert!(doc.days[0].periods[2].break_before);
    assert_eq!(doc.default_timetable.len(), 1);
    assert_eq!(doc.default_timetable[0].start, (8, 0));
    assert_eq!(doc.default_timetable[0].end, (8, 45));
    assert_eq!(doc.teachers.len(), 1);
    let t = &doc.teachers[0];
    assert_eq!(t.kuerzel, "MUE");
    assert_eq!(t.kurzname, "Mueller");
    assert_eq!(t.name, "Mueller-Lang");
    assert_eq!(t.vorname, Some("Anna".to_string()));
    assert_eq!(t.anrede, None);
    assert_eq!(t.sollwochenstunden, 24);
    assert_eq!(t.funktion, Some(WilliTeacherFunction::S));
    assert_eq!(t.luecken, 2);
    assert_eq!((t.gew_block, t.gew_verteilung, t.gew_frueh, t.gew_spaet), (1, 2, 3, 4));
    assert_eq!((t.max_hohlstunden, t.max_aufsichten), (5, 6));
    assert!(t.nachmittag_beruecksichtigen);
    assert_eq!(t.max_stundenzahl, 7);
    assert_eq!(t.max_verfuegungsstd, 0);
    assert_eq!(t.max_nachmittag, 9);
}

#[test]
fn document_collects_bad_lines() {
    let source = "WILLI2 Export Datei Version: 3\r\nT1,Mo\r\nS1,1,8.00\r\nS2,2,8.x-9.00\r\nS3,3,8.00-900\r\nL1,A,B\r\nS4,4,9.00-9.45\r\n";
    match WilliDocument::parse_document(source) {
        Err(DocumentError::BadLines(lines)) => {
            let errs: Vec<LineError> = lines.iter().map(|l| l.1).collect();
            assert_eq!(
                errs,
                vec![LineError::TooShort, LineError::BadTime, LineError::BadNumber, LineError::BadTime, LineError::TooShort]
            );
            assert_eq!(lines[0].0, vec!["T1".to_string(), "Mo".to_string()]);
        },
        other => panic!("unexpected: {:?}", other),
    }
}

#[test]
fn document_needs_a_header() {
    assert!(matches!(WilliDocument::parse_document("T1,Mo,Montag,V,P"), Err(DocumentError::MissingHeader)));
    assert!(matches!(
        WilliDocument::parse_document("no version here\r\nT1,Mo,Montag,V,P\r\n"),
        Err(DocumentError::InvalidHeader)
    ));
    let doc: WilliDocument = "a b c Version: 1\r\n".parse().unwrap();
    assert_eq!(doc.header.version, 1);
    assert!(doc.days.is_empty());
}

#[test]
fn sparse_vec_insert_and_get() {
    let mut v: SparseVec<u32> = SparseVec::new();
    assert_eq!(v.insert(3, 30), None);
    assert_eq!(v.slots, vec![None, None, None, Some(30)]);
    assert_eq!(v.insert(1, 10), None);
    assert_eq!(v.insert(3, 33), Some(30));
    assert_eq!(v.get(3), Some(&33));
    assert_eq!(v.get(1), Some(&10));
    assert_eq!(v.get(0), None);
    assert_eq!(v.get(10), None);
    assert_eq!(v.slots.len(), 4);
    assert_eq!(v.iter(), vec![(1, &10), (3, &33)]);
    assert!(SparseVec::<u32>::new().iter().is_empty());
}

const PLAN: &str = "WILLI2 Export Datei Version: 12\r\n\
T1,Mo,Montag,VVNX,    ,\r\n\
T2,Di,Dienstag,vVX,   \r\n\
S1,1,1. Stunde,08:00,08:45\r\n\
S2,2,2. Stunde,08:45,09:30\r\n\
S3,3,3. Stunde,09:45,10:30\r\n\
K1,5a,5a,Klasse 5a\r\n\
K2,5b\r\n\
PL,Mo 1,MUE,5a,M\r\n\
PL,Mo 2,MUE,5b,D,R1\r\n\
PL,Di 1,ABC,5b,M\r\n";

#[test]
fn plan_reads_tables() {
    let (plan, errors) = WilliStundenplan::parse(PLAN);
    assert!(errors.is_empty());
    assert_eq!(plan.willi_version(), Some(12));
    assert_eq!(plan.tage().slots.len(), 3);
    assert!(plan.tage().get(0).is_none());
    let mo = plan.tage().get(1).unwrap();
    assert_eq!((mo.kurz.as_str(), mo.stundenmerkmale.as_str()), ("Mo", "VVNX"));
    assert_eq!(mo.stundenzeiten, None);
    assert_eq!(plan.stunden().get(2).unwrap().von, "08:45");
    let k1 = plan.klassen().get(1).unwrap();
    assert_eq!(k1.kuerzel, "5a");
    assert_eq!(k1.name, Some("Klasse 5a".to_string()));
    assert_eq!(k1.klassenraum, None);
    assert_eq!(plan.klassen().get(2).unwrap().kuerzel, "5b");
    let lessons = plan.lehrerstunden();
    assert_eq!(lessons.len(), 3);
    assert_eq!(lessons[1].tag_stunde.tag, "Mo");
    assert_eq!(lessons[1].tag_stunde.stunde, "2");
    assert_eq!(lessons[1].fach, "D");
    assert_eq!(lessons[1].raum, Some("R1".to_string()));
    assert_eq!(lessons[0].raum, None);
}

#[test]
fn plan_collects_errors_and_reads_on() {
    let source = "bad header\r\nT1,Mo\r\n,\r\nPL,Mo1,MUE,5a,M\r\nK1,5a\r\n";
    let (plan, errors) = WilliStundenplan::parse(source);
    assert_eq!(plan.willi_version(), None);
    assert_eq!(errors.len(), 3);
    assert!(matches!(errors[0], (0, ParseError::InvalidHeader)));
    assert!(matches!(&errors[1], (1, ParseError::BadLine(r)) if r.len() == 2));
    assert!(matches!(&errors[2], (3, ParseError::BadLine(_))));
    assert_eq!(plan.klassen().get(1).unwrap().kuerzel, "5a");
    assert!(plan.lehrerstunden().is_empty());
}

#[test]
fn plan_without_header_line() {
    let (plan, errors) = WilliStundenplan::parse("K3,7c");
    assert!(errors.is_empty());
    assert_eq!(plan.willi_version(), None);
    assert_eq!(plan.klassen().get(3).unwrap().kuerzel, "7c");
}

#[test]
fn bytes_are_read_as_windows_1252() {
    let mut bytes = b"a b c Version: 2\r\nK1,M".to_vec();
    bytes.push(0xfc);
    bytes.extend_from_slice(b"ller,\x80\r\n");
    let (plan, errors) = WilliStundenplan::parse_bytes(&bytes);
    assert!(errors.is_empty());
    let k = plan.klassen().get(1).unwrap();
    assert_eq!(k.kuerzel, "M\u{fc}ller");
    assert_eq!(k.kurz, Some("\u{20ac}".to_string()));
    let doc = WilliDocument::parse_bytes(&b"a b c Version: 4\r\nT1,Mo,Montag,V,P\r\n".to_vec()).unwrap();
    assert_eq!(doc.header.version, 4);
    assert_eq!(doc.days[0].periods.len(), 1);
}

#[test]
fn class_numbers_must_read() {
    let (plan, errors) = WilliStundenplan::parse("h e a Version: 1\r\nK1,5a,,,R1,,,28,x\r\nK2,5b,,,,,,28,31,16,5,,,,,,,,,,,,,7\r\nK3,5c,,,,,,,,,,,,,,,,,,,,,,300\r\n");
    assert_eq!(errors.len(), 2);
    assert!(matches!(&errors[0], (1, ParseError::BadLine(r)) if r[1] == "5a"));
    assert!(matches!(&errors[1], (3, ParseError::BadLine(_))));
    assert!(plan.klassen().get(1).is_none());
    let k = plan.klassen().get(2).unwrap();
    assert_eq!((k.deputat, k.schuelerzahl, k.weiblich, k.jahrgangsstufe), (Some(28), Some(31), Some(16), Some(5)));
    assert_eq!(k.zeitraster, Some(7));
    assert_eq!(k.rk, None);
}

#[test]
fn other_tables_are_read_and_checked() {
    let source = "h e a Version: 1\r\n\
W,Gymnasium Musterstadt,,,1234\r\n\
F1,M,Ma,Mathematik,,D,2,W,,,,,,,3;4\r\n\
F2,Sp,,,,X\r\n\
F3,Ku,,,,,,,,,,,,,\r\n\
U5,MUE,M,5a,,4,,,,27\r\n\
U6,MUE,M\r\n\
U7,MUE,M,5a,,\r\n\
L3,MUE,Mue,Mueller,Anna\r\n\
L4\r\n";
    let (plan, errors) = WilliStundenplan::parse(source);
    let lines: Vec<usize> = errors.iter().map(|e| e.0).collect();
    assert_eq!(lines, vec![3, 6, 7, 9]);
    let school = plan.schuldaten.as_ref().unwrap();
    assert_eq!(school.schulname, "Gymnasium Musterstadt");
    assert_eq!(school.schulnummer, Some(1234));
    let m = plan.faecher().get(1).unwrap();
    assert_eq!(m.eigenschaft, Some(FachEigenschaft::D));
    assert_eq!(m.konzentration, Some(Konzentration::Mittel));
    assert_eq!(m.wertung, Some(Wertung::W));
    assert_eq!(m.fachkollision, "3;4");
    let ku = plan.faecher().get(3).unwrap();
    assert_eq!(ku.fachkollision, "");
    assert_eq!(ku.km_fach, None);
    assert!(plan.faecher().get(2).is_none());
    let u = plan.unterrichte().get(5).unwrap();
    assert_eq!((u.stundenzahl, u.schuelerzahl), (4, Some(27)));
    assert!(plan.unterrichte().get(7).is_none());
    let l = plan.lehrkraefte().get(3).unwrap();
    assert_eq!((l.kuerzel.as_str(), l.vorname.as_deref(), l.anrede.as_deref()), ("MUE", Some("Anna"), None));
}
