use planner::grid::grid_from_rows;
use planner::search::{NoProgress, Problem, ProblemError, Progress, ProgressSink, SearchConfig, Solution};
use planner::weights::{normalize, WeightError, Weights};

type Cell = Option<(usize, usize)>;

fn weights(raw: Vec<u64>) -> Weights {
    normalize(&Weights::from_integers(raw)).unwrap()
}

fn problem(rows: Vec<Vec<Cell>>, slots: usize, raw: Vec<u64>) -> Problem {
    let classes = rows.len();
    let grid = grid_from_rows(&rows, slots);
    Problem::new(grid, slots, classes, &weights(raw), SearchConfig::standard()).unwrap()
}

fn solve(p: &Problem) -> Solution {
    p.solve(&mut NoProgress)
}

#[test]
fn single_class_every_slot() {
    let p = problem(vec![vec![Some((0, 7)), Some((0, 8)), Some((0, 9))]], 3, vec![1]);
    let s = solve(&p);
    assert_eq!(s.assignments, vec![Some(7), Some(8), Some(9)]);
    assert_eq!(s.classes, 1);
    // Exactly one unit: one class, no imbalance.
    assert_eq!(s.cost, p.scale);
}

fn rows_of_example() -> Vec<Vec<Cell>> {
    vec![
        vec![Some((0, 0)), Some((0, 1)), Some((1, 2)), None],
        vec![Some((1, 10)), Some((1, 11)), Some((1, 12)), Some((0, 13))],
    ]
}

#[test]
fn example_two_classes_four_slots() {
    // Class 0: M, M, D, -; class 1: D, D, D, M. Subjects M and D weigh one half each.
    let p = problem(rows_of_example(), 4, vec![1, 1]);
    // Costs are kept times scale = 1 * 4 * 1.
    assert_eq!(p.scale, 4);
    // Class 1 throughout: 1 + 3 * (|1 - 2| / 2 + |3 - 2| / 2) = 4.
    assert_eq!(p.cost(1, &vec![1, 3]), 16);
    // Two classes with an even mix: 2 + 0 = 2.
    assert_eq!(p.cost(2, &vec![2, 2]), 8);
    let s = solve(&p);
    // The balanced two-class path beats class 1 throughout.
    assert_eq!(s.assignments, vec![Some(0), Some(11), Some(2), Some(13)]);
    assert_eq!(s.cost, 8);
    assert_eq!(s.classes, 2);
    assert_eq!(s.cost, brute_force(&p, &rows_of_example(), 4, 2));
}

#[test]
fn empty_slot_stays_unassigned() {
    let rows = vec![vec![Some((0, 1)), None, Some((0, 3))], vec![None, None, Some((0, 4))]];
    let p = problem(rows, 3, vec![1]);
    let s = solve(&p);
    assert_eq!(s.assignments[1], None);
    assert_eq!(s.assignments, vec![Some(1), None, Some(3)]);
    assert_eq!(s.classes, 1);
    // One class; two of three target lessons: 1 + 3 * (|2 - 3| / 3) = 2.
    assert_eq!(s.cost, 2 * p.scale);
}

#[test]
fn cost_formula_exact_values() {
    // Weights 1/4 and 3/4 over four slots: P = 3, scale = 1 * 4 * 3 = 12.
    let p = problem(vec![vec![Some((0, 0)), Some((1, 1)), Some((1, 2)), Some((1, 3))]], 4, vec![1, 3]);
    assert_eq!(p.scale, 12);
    assert_eq!(p.factors, vec![3, 1]);
    // Exact mix: only the class term.
    assert_eq!(p.cost(2, &vec![1, 3]), 24);
    // 1 + 3 * (|0 - 1| / 1 + |4 - 3| / 3) = 5.
    assert_eq!(p.cost(1, &vec![0, 4]), 60);
    // No lessons at all: 0 + 3 * (1 + 1) = 6.
    assert_eq!(p.cost(0, &vec![0, 0]), 72);
}

#[test]
fn class_term_grows_with_classes() {
    let p = problem(vec![vec![Some((0, 0)), Some((0, 1))], vec![Some((0, 2)), Some((0, 3))]], 2, vec![1]);
    let counts = vec![2];
    assert!(p.cost(0, &counts) <= p.cost(1, &counts));
    assert!(p.cost(1, &counts) <= p.cost(2, &counts));
    assert_eq!(p.cost(2, &counts) - p.cost(1, &counts), p.scale);
}

#[test]
fn balance_weight_zero_counts_classes_only() {
    let rows = vec![vec![Some((0, 0)), Some((0, 1))], vec![Some((1, 2)), Some((1, 3))]];
    let grid = grid_from_rows(&rows, 2);
    let config = SearchConfig { balance_num: 0, balance_den: 1, progress_interval: 0, solution_interval: 0 };
    let p = Problem::new(grid, 2, 2, &weights(vec![1, 1]), config).unwrap();
    let s = solve(&p);
    assert_eq!(s.classes, 1);
    assert_eq!(s.cost, p.scale);
    assert_eq!(s.assignments, vec![Some(0), Some(1)]);
}

fn brute_force(p: &Problem, rows: &Vec<Vec<Cell>>, slots: usize, subjects: usize) -> u128 {
    let options: Vec<Vec<Option<usize>>> = (0..slots)
        .map(|s| {
            let o: Vec<Option<usize>> = (0..rows.len()).filter(|&c| rows[c][s].is_some()).map(Some).collect();
            if o.is_empty() { vec![None] } else { o }
        })
        .collect();
    let mut best = u128::MAX;
    let mut idx = vec![0usize; slots];
    loop {
        let mut used: Vec<usize> = vec![];
        let mut counts = vec![0usize; subjects];
        for s in 0..slots {
            if let Some(c) = options[s][idx[s]] {
                if !used.contains(&c) {
                    used.push(c);
                }
                counts[rows[c][s].unwrap().0] += 1;
            }
        }
        best = best.min(p.cost(used.len(), &counts));
        let mut k = 0;
        while k < slots {
            idx[k] += 1;
            if idx[k] < options[k].len() {
                break;
            }
            idx[k] = 0;
            k += 1;
        }
        if k == slots {
            return best;
        }
    }
}

#[test]
fn matches_exhaustive_search_on_small_matrix() {
    let rows = vec![
        vec![Some((0, 0)), Some((1, 1)), None, Some((0, 3)), Some((1, 4))],
        vec![Some((1, 10)), None, Some((0, 12)), Some((1, 13)), None],
        vec![None, Some((0, 21)), Some((1, 22)), None, Some((0, 24))],
    ];
    let p = problem(rows.clone(), 5, vec![1, 1]);
    let s = solve(&p);
    assert_eq!(s.cost, brute_force(&p, &rows, 5, 2));
}

#[test]
fn finds_the_optimum_when_one_class_looks_best_first() {
    let rows = vec![
        vec![Some((1, 0)), Some((1, 1)), Some((1, 2)), Some((1, 3)), Some((0, 4))],
        vec![Some((0, 10)), Some((0, 11)), None, None, None],
    ];
    let p = problem(rows.clone(), 5, vec![3, 3]);
    let s = solve(&p);
    let best = brute_force(&p, &rows, 5, 2);
    // 16/5 in units of 1/scale: two classes with an even mix, not class 0 throughout.
    assert_eq!(p.scale, 5 * 9);
    assert_eq!(best * 5, 16 * p.scale);
    assert_eq!(s.cost, best);
    assert_eq!(s.classes, 2);
}

struct Recorder {
    reports: Vec<Progress>,
    solutions: usize,
}

impl ProgressSink for Recorder {
    fn progress(&mut self, _problem: &Problem, report: Progress) {
        self.reports.push(report);
    }

    fn solution(&mut self, _problem: &Problem, _best: &Solution) {
        self.solutions += 1;
    }
}

#[test]
fn progress_reports_never_worsen_the_best() {
    let rows = vec![
        vec![Some((0, 0)), Some((1, 1)), Some((0, 2))],
        vec![Some((1, 10)), Some((0, 11)), Some((1, 12))],
    ];
    let grid = grid_from_rows(&rows, 3);
    let config = SearchConfig { balance_num: 3, balance_den: 1, progress_interval: 1, solution_interval: 1 };
    let p = Problem::new(grid, 3, 2, &weights(vec![1, 1]), config).unwrap();
    let mut rec = Recorder { reports: vec![], solutions: 0 };
    let s = p.solve(&mut rec);
    assert!(!rec.reports.is_empty());
    assert!(rec.solutions > 0);
    let mut last: Option<u128> = None;
    for r in &rec.reports {
        if let (Some(a), Some(b)) = (last, r.best) {
            assert!(b <= a);
        }
        if r.best.is_some() {
            last = r.best;
        }
        assert!(r.current_classes <= 2);
    }
    assert!(s.cost <= last.unwrap());
}

#[test]
fn problem_errors() {
    let rows = vec![vec![Some((0, 0))]];
    let cfg = SearchConfig::standard();
    let w = weights(vec![1]);
    let e = |r: Result<Problem, ProblemError>| match r {
        Ok(_) => None,
        Err(e) => Some(e),
    };
    assert_eq!(e(Problem::new(grid_from_rows(&vec![], 0), 0, 0, &w, cfg)), Some(ProblemError::NoTimeSlots));
    let raw = Weights::from_integers(vec![1, 1]);
    assert_eq!(e(Problem::new(grid_from_rows(&rows, 1), 1, 1, &raw, cfg)), Some(ProblemError::InvalidWeights));
    assert_eq!(e(Problem::new(grid_from_rows(&rows, 1), 2, 1, &w, cfg)), Some(ProblemError::BadShape));
    assert_eq!(e(Problem::new(grid_from_rows(&rows, 1), 1, 2, &w, cfg)), Some(ProblemError::BadShape));
    let bad_subject = vec![vec![Some((1, 0))]];
    assert_eq!(e(Problem::new(grid_from_rows(&bad_subject, 1), 1, 1, &w, cfg)), Some(ProblemError::BadSubject));
    let zero_den = SearchConfig { balance_num: 3, balance_den: 0, progress_interval: 0, solution_interval: 0 };
    assert_eq!(e(Problem::new(grid_from_rows(&rows, 1), 1, 1, &w, zero_den)), Some(ProblemError::BadConfig));
    let big = weights(vec![u64::MAX / 4, u64::MAX / 4, u64::MAX / 4]);
    assert_eq!(e(Problem::new(grid_from_rows(&rows, 1), 1, 1, &big, cfg)), Some(ProblemError::TooLarge));
    assert!(e(Problem::new(grid_from_rows(&rows, 1), 1, 1, &w, cfg)).is_none());
}

#[test]
fn normalize_divides_by_the_sum() {
    let n = normalize(&Weights::from_integers(vec![2, 6])).unwrap();
    assert_eq!(n.nums, vec![2, 6]);
    assert_eq!(n.den, 8);
    let f = normalize(&Weights { nums: vec![1, 2], den: 7 }).unwrap();
    assert_eq!(f.nums, vec![1, 2]);
    assert_eq!(f.den, 3);
}

#[test]
fn normalize_is_idempotent() {
    let once = normalize(&Weights::from_integers(vec![1, 3, 4])).unwrap();
    let twice = normalize(&once).unwrap();
    assert_eq!(twice.nums, once.nums);
    assert_eq!(twice.den, once.den);
}

#[test]
fn normalize_errors() {
    let err = |v: Vec<u64>| normalize(&Weights::from_integers(v)).err();
    assert_eq!(err(vec![]), Some(WeightError::ZeroSum));
    assert_eq!(err(vec![0, 0]), Some(WeightError::ZeroSum));
    assert_eq!(err(vec![1, 0]), Some(WeightError::ZeroWeight));
    assert_eq!(err(vec![u64::MAX, 1]), Some(WeightError::TooLarge));
    assert_eq!(err(vec![5]), None);
}

#[test]
fn scaled_weights_give_the_same_choice() {
    let rows = vec![
        vec![Some((0, 0)), Some((0, 1)), Some((1, 2)), None],
        vec![Some((1, 10)), Some((1, 11)), Some((1, 12)), Some((0, 13))],
    ];
    let a = solve(&problem(rows.clone(), 4, vec![1, 2]));
    let b = solve(&problem(rows, 4, vec![5, 10]));
    assert_eq!(a.assignments, b.assignments);
    assert_eq!(a.classes, b.classes);
}
