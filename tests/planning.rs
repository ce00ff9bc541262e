use planner::plan::WilliStundenplan;
use planner::projection::{finalize, generate, pair_weights, timeslots, wasm_generate, FachGewichtung, LessonError, PlanError, WeekPlan};
use planner::search::{NoProgress, ProblemError, SearchConfig};
use planner::weights::WeightError;

const PLAN: &str = "WILLI2 Export Datei Version: 12\r\n\
T1,Mo,Montag,VVNX,    \r\n\
T2,Di,Dienstag,vVX,   \r\n\
S1,1,1. Stunde,08:00,08:45\r\n\
S2,2,2. Stunde,08:45,09:30\r\n\
S3,3,3. Stunde,09:45,10:30\r\n\
K1,5a\r\n\
K2,5b\r\n\
PL,Mo 1,MUE,5a,M\r\n\
PL,Mo 2,MUE,5b,D\r\n\
PL,Di 1,ABC,5b,M\r\n";

fn subjects(list: &[(&str, u64)]) -> Vec<FachGewichtung> {
    list.iter().map(|(k, g)| FachGewichtung { kuerzel: k.to_string(), gewicht: *g }).collect()
}

fn plan_of(text: &str) -> WilliStundenplan {
    WilliStundenplan::parse(text).0
}

fn run(plan: &WilliStundenplan, subj: &[(&str, u64)], excluded: &[&str]) -> Result<WeekPlan, PlanError> {
    let excluded: Vec<String> = excluded.iter().map(|s| s.to_string()).collect();
    generate(plan, &subjects(subj), &excluded, SearchConfig::standard(), &mut NoProgress)
}

#[test]
fn timeslots_keep_morning_periods() {
    let plan = plan_of(PLAN);
    let slots = timeslots(&plan.tage);
    let seen: Vec<(String, usize, usize)> = slots.iter().map(|t| (t.day.clone(), t.period, t.day_id)).collect();
    assert_eq!(
        seen,
        vec![
            ("Mo".to_string(), 0, 1),
            ("Mo".to_string(), 1, 1),
            ("Di".to_string(), 0, 2),
            ("Di".to_string(), 1, 2)
        ]
    );
}

#[test]
fn finalize_lays_out_the_week() {
    let plan = plan_of(PLAN);
    let slots = timeslots(&plan.tage);
    let week = finalize(&vec![None, Some(5), None, Some(9)], &slots);
    assert_eq!(week.len(), 7);
    assert_eq!(week[0], vec![None, Some(5)]);
    assert_eq!(week[1], vec![None, Some(9)]);
    assert!(week[2..].iter().all(|d| d.is_empty()));
    let empty = finalize(&vec![None, None, None, None], &slots);
    assert!(empty.iter().all(|d| d.is_empty()));
}

#[test]
fn generate_plans_a_week() {
    let plan = plan_of(PLAN);
    let result = run(&plan, &[("M", 1), ("D", 1)], &[]).unwrap();
    assert!(result.skipped.is_empty());
    let week = result.days;
    let mut expected: Vec<Vec<Option<usize>>> = vec![vec![]; 7];
    expected[0] = vec![Some(0), Some(1)];
    expected[1] = vec![Some(2)];
    assert_eq!(week, expected);
}

#[test]
fn generate_skips_excluded_teachers_and_other_subjects() {
    let plan = plan_of(PLAN);
    let week = run(&plan, &[("M", 1), ("D", 1)], &["ABC"]).unwrap().days;
    assert_eq!(week[0], vec![Some(0), Some(1)]);
    assert!(week[1].is_empty());
    let only_d = run(&plan, &[("D", 2)], &[]).unwrap().days;
    assert_eq!(only_d[0], vec![None, Some(1)]);
    assert!(only_d[1].is_empty());
}

#[test]
fn generate_errors() {
    let plan = plan_of(PLAN);
    assert_eq!(run(&plan, &[("M", 1), ("M", 2)], &[]), Err(PlanError::DuplicateSubject));
    assert_eq!(run(&plan, &[("M", 0), ("D", 0)], &[]), Err(PlanError::Weights(WeightError::ZeroSum)));
    assert_eq!(run(&plan, &[("M", 1), ("D", 0)], &[]), Err(PlanError::Weights(WeightError::ZeroWeight)));
    let bad_day = plan_of(&format!("{}T9,Xx,Extra,V,P\r\n", PLAN));
    assert_eq!(run(&bad_day, &[("M", 1)], &[]), Err(PlanError::InvalidDay));
    let no_slots = plan_of("h e a Version: 1\r\nT1,Mo,Montag,NNN,   \r\n");
    assert_eq!(run(&no_slots, &[("M", 1)], &[]), Err(PlanError::Problem(ProblemError::NoTimeSlots)));
}

#[test]
fn missing_weights_default_to_one() {
    let codes = vec!["M".to_string(), "D".to_string(), "E".to_string()];
    let fs = pair_weights(&codes, &vec![2]);
    let seen: Vec<(String, u64)> = fs.iter().map(|f| (f.kuerzel.clone(), f.gewicht)).collect();
    assert_eq!(seen, vec![("M".to_string(), 2), ("D".to_string(), 1), ("E".to_string(), 1)]);
    assert!(pair_weights(&vec![], &vec![4, 5]).is_empty());
}

#[test]
fn plans_from_the_file_text() {
    let codes = vec!["M".to_string(), "D".to_string()];
    let week = wasm_generate(PLAN, &codes, &vec![], &vec![], &mut NoProgress).unwrap().days;
    assert_eq!(week[0], vec![Some(0), Some(1)]);
    assert_eq!(week[1], vec![Some(2)]);
    let dup = vec!["M".to_string(), "M".to_string()];
    assert_eq!(wasm_generate(PLAN, &dup, &vec![1, 1], &vec![], &mut NoProgress), Err(PlanError::DuplicateSubject));
}

#[test]
fn lessons_with_unknown_period_or_class_are_skipped_and_reported() {
    let good = run(&plan_of(PLAN), &[("M", 1)], &[]).unwrap();
    let bad_period = plan_of(&format!("{}PL,Mo 9,XY,5a,M\r\n", PLAN));
    let r = run(&bad_period, &[("M", 1)], &[]).unwrap();
    assert_eq!(r.skipped, vec![(3, LessonError::UnknownPeriod)]);
    assert_eq!(r.days, good.days);
    // Only lessons of requested subjects and teachers are looked at.
    assert!(run(&bad_period, &[("D", 1)], &[]).unwrap().skipped.is_empty());
    assert!(run(&bad_period, &[("M", 1)], &["XY"]).unwrap().skipped.is_empty());
    let bad_class = plan_of(&format!("{}PL,Mo 1,XY,9z,M\r\nPL,Mo 7,XY,5a,M\r\n", PLAN));
    let r = run(&bad_class, &[("M", 1)], &[]).unwrap();
    assert_eq!(r.skipped, vec![(3, LessonError::UnknownClass), (4, LessonError::UnknownPeriod)]);
    assert_eq!(r.days, good.days);
}

#[test]
fn scaling_all_weights_gives_the_same_week() {
    let plan = plan_of(PLAN);
    let a = run(&plan, &[("M", 1), ("D", 3)], &[]).unwrap();
    let b = run(&plan, &[("M", 7), ("D", 21)], &[]).unwrap();
    assert_eq!(a, b);
}

#[test]
fn finalize_reads_only_assigned_slots() {
    let plan = plan_of(&format!("{}T9,Xx,Extra,V,P\r\n", PLAN));
    let slots = timeslots(&plan.tage);
    assert_eq!(slots.len(), 5);
    assert_eq!(slots[4].day_id, 9);
    // Fewer assignments than slots, and the slot on day 9 is left unassigned.
    let week = finalize(&vec![None, None, Some(4)], &slots);
    assert_eq!(week[1], vec![Some(4)]);
    assert!(week.iter().enumerate().all(|(d, v)| d == 1 || v.is_empty()));
    let week = finalize(&vec![Some(1), None, None, None, None], &slots);
    assert_eq!(week[0], vec![Some(1)]);
    assert!(finalize(&vec![], &slots).iter().all(|d| d.is_empty()));
}
