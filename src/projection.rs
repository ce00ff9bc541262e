//! Projection of a parsed timetable onto the class-by-slot matrix that the search reads,
//! and the layout of a search result as a week of lesson references.
use vstd::prelude::*;
use vstd::string::StrSliceExecFns;
use crate::grid::{Cell, Grid, MAX_CELLS, grid_cells, grid_new, grid_set};
use crate::tables::KlassenZeile;
use crate::plan::{ParseError, parsed_from, LehrerStundenZeile, SparseVec, StundenZeile, TagZeile, WilliStundenplan, present};
use crate::model::{lessons, picked};
use crate::text::strings;
use crate::search::{Problem, ProblemError, ProgressSink, SearchConfig, problem_error, valid_prefix};
use crate::weights::{WeightError, Weights, normalize, normalize_error, weight_sum};

verus! {

/// An observable period: the day's short code, the period's position within the day,
/// and the day's record id.
#[derive(Clone, Debug)]
pub struct TimeSlot {
    pub day: String,
    pub period: usize,
    pub day_id: usize,
}

pub open spec fn slot_view(t: TimeSlot) -> (Seq<char>, int, int) {
    (t.day@, t.period as int, t.day_id as int)
}

/// Whether a period flag marks a period that can be observed.
pub open spec fn is_observable(c: char) -> bool {
    c == 'v' || c == 'V'
}

/// The observable periods of one day, in order.
pub open spec fn day_slots(id: int, kurz: Seq<char>, flags: Seq<char>) -> Seq<(Seq<char>, int, int)>
    decreases flags.len(),
{
    if flags.len() == 0 {
        Seq::empty()
    } else {
        let rest = day_slots(id, kurz, flags.drop_last());
        if is_observable(flags.last()) {
            rest.push((kurz, flags.len() - 1, id))
        } else {
            rest
        }
    }
}

/// The observable periods of the week: day by day in id order.
pub open spec fn week_slots(days: Seq<(int, TagZeile)>) -> Seq<(Seq<char>, int, int)>
    decreases days.len(),
{
    if days.len() == 0 {
        Seq::empty()
    } else {
        week_slots(days.drop_last()) + day_slots(days.last().0, days.last().1.kurz@, days.last().1.stundenmerkmale@)
    }
}

/// The position of the first element equal to `x`.
pub open spec fn position(s: Seq<Seq<char>>, x: Seq<char>) -> Option<int>
    decreases s.len(),
{
    if s.len() == 0 {
        None
    } else {
        match position(s.drop_last(), x) {
            Some(i) => Some(i),
            None => if s.last() == x {
                Some(s.len() - 1)
            } else {
                None
            },
        }
    }
}

/// The position of the first slot on day `day` at period `period`.
pub open spec fn slot_position(s: Seq<(Seq<char>, int, int)>, day: Seq<char>, period: int) -> Option<int>
    decreases s.len(),
{
    if s.len() == 0 {
        None
    } else {
        match slot_position(s.drop_last(), day, period) {
            Some(i) => Some(i),
            None => if s.last().0 == day && s.last().1 == period {
                Some(s.len() - 1)
            } else {
                None
            },
        }
    }
}

proof fn lemma_position(s: Seq<Seq<char>>, x: Seq<char>, i: int)
    requires
        0 <= i <= s.len(),
        forall|k: int| 0 <= k < i ==> s[k] != x,
    ensures
        i < s.len() && s[i] == x ==> position(s, x) == Some(i),
        i == s.len() ==> position(s, x) is None,
    decreases s.len(),
{
    if s.len() > 0 {
        if i < s.len() {
            lemma_position(s.drop_last(), x, i);
        } else {
            lemma_position(s.drop_last(), x, i - 1);
        }
    }
}

proof fn lemma_slot_position(s: Seq<(Seq<char>, int, int)>, day: Seq<char>, period: int, i: int)
    requires
        0 <= i <= s.len(),
        forall|k: int| 0 <= k < i ==> !(s[k].0 == day && s[k].1 == period),
    ensures
        i < s.len() && s[i].0 == day && s[i].1 == period ==> slot_position(s, day, period) == Some(i),
        i == s.len() ==> slot_position(s, day, period) is None,
    decreases s.len(),
{
    if s.len() > 0 {
        if i < s.len() {
            lemma_slot_position(s.drop_last(), day, period, i);
        } else {
            lemma_slot_position(s.drop_last(), day, period, i - 1);
        }
    }
}

fn find_string(v: &Vec<String>, x: &String) -> (r: Option<usize>)
    ensures
        match r {
            Some(i) => position(strings(v@), x@) == Some(i as int) && i < v@.len(),
            None => position(strings(v@), x@) is None,
        },
{
    let ghost s = strings(v@);
    let mut i: usize = 0;
    while i < v.len()
        invariant
            i <= v@.len(),
            s == strings(v@),
            forall|k: int| 0 <= k < i ==> s[k] != x@,
        decreases v@.len() - i,
    {
        if v[i] == *x {
            proof {
                lemma_position(s, x@, i as int);
            }
            return Some(i);
        }
        i += 1;
    }
    proof {
        lemma_position(s, x@, i as int);
    }
    None
}

/// The observable periods of the week, day by day in id order; within a day, every
/// period whose flag is 'v' or 'V'.
pub fn timeslots(tage: &SparseVec<TagZeile>) -> (r: Vec<TimeSlot>)
    ensures
        r@.map_values(|t: TimeSlot| slot_view(t)) == week_slots(present(tage.slots@)),
{
    let ghost days = tage.slots@;
    let mut r: Vec<TimeSlot> = Vec::new();
    let mut i: usize = 0;
    while i < tage.slots.len()
        invariant
            i <= days.len(),
            days == tage.slots@,
            r@.map_values(|t: TimeSlot| slot_view(t)) == week_slots(present(days.subrange(0, i as int))),
        decreases days.len() - i,
    {
        assert(days.subrange(0, i + 1).drop_last() == days.subrange(0, i as int));
        if let Some(day) = &tage.slots[i] {
            let ghost before = r@.map_values(|t: TimeSlot| slot_view(t));
            let flags = day.stundenmerkmale.as_str();
            let n = flags.unicode_len();
            let mut k: usize = 0;
            while k < n
                invariant
                    k <= n,
                    n == flags@.len(),
                    flags@ == day.stundenmerkmale@,
                    r@.map_values(|t: TimeSlot| slot_view(t)) == before + day_slots(i as int, day.kurz@, flags@.subrange(0, k as int)),
                decreases n - k,
            {
                let ch = flags.get_char(k);
                assert(flags@.subrange(0, k + 1).drop_last() == flags@.subrange(0, k as int));
                assert(flags@.subrange(0, k + 1).last() == ch);
                let ghost prev = r@;
                if ch == 'v' || ch == 'V' {
                    let t = TimeSlot { day: day.kurz.clone(), period: k, day_id: i };
                    assert(slot_view(t) == (day.kurz@, k as int, i as int));
                    r.push(t);
                    assert(r@ == prev.push(t));
                    assert(r@.map_values(|t: TimeSlot| slot_view(t)) =~= prev.map_values(|t: TimeSlot| slot_view(t)).push(slot_view(t)));
                    assert(r@.map_values(|t: TimeSlot| slot_view(t)) =~= before + day_slots(i as int, day.kurz@, flags@.subrange(0, k + 1)));
                } else {
                    assert(r@.map_values(|t: TimeSlot| slot_view(t)) =~= before + day_slots(i as int, day.kurz@, flags@.subrange(0, k + 1)));
                }
                k += 1;
            }
            assert(flags@.subrange(0, n as int) == flags@);
            assert(present(days.subrange(0, i + 1)).last() == (i as int, *day));
            assert(present(days.subrange(0, i + 1)).drop_last() == present(days.subrange(0, i as int)));
        }
        i += 1;
    }
    assert(days.subrange(0, i as int) == days);
    r
}

/// The class codes of the timetable, in id order.
pub fn class_codes(klassen: &SparseVec<KlassenZeile>) -> (r: Vec<String>)
    ensures
        strings(r@) == present(klassen.slots@).map_values(|e: (int, KlassenZeile)| e.1.kuerzel@),
{
    let ghost all = klassen.slots@;
    let mut r: Vec<String> = Vec::new();
    let mut i: usize = 0;
    while i < klassen.slots.len()
        invariant
            i <= all.len(),
            all == klassen.slots@,
            strings(r@) == present(all.subrange(0, i as int)).map_values(|e: (int, KlassenZeile)| e.1.kuerzel@),
        decreases all.len() - i,
    {
        assert(all.subrange(0, i + 1).drop_last() == all.subrange(0, i as int));
        let ghost prev = r@;
        if let Some(k) = &klassen.slots[i] {
            assert(present(all.subrange(0, i + 1)) == present(all.subrange(0, i as int)).push((i as int, *k)));
            r.push(k.kuerzel.clone());
            assert(strings(r@) =~= strings(prev).push(k.kuerzel@));
        } else {
            assert(present(all.subrange(0, i + 1)) == present(all.subrange(0, i as int)));
        }
        assert(strings(r@) =~= present(all.subrange(0, i + 1)).map_values(|e: (int, KlassenZeile)| e.1.kuerzel@));
        i += 1;
    }
    assert(all.subrange(0, i as int) == all);
    r
}

/// The period codes of the timetable, in id order.
pub fn period_codes(stunden: &SparseVec<StundenZeile>) -> (r: Vec<String>)
    ensures
        strings(r@) == present(stunden.slots@).map_values(|e: (int, StundenZeile)| e.1.kurz@),
{
    let ghost all = stunden.slots@;
    let mut r: Vec<String> = Vec::new();
    let mut i: usize = 0;
    while i < stunden.slots.len()
        invariant
            i <= all.len(),
            all == stunden.slots@,
            strings(r@) == present(all.subrange(0, i as int)).map_values(|e: (int, StundenZeile)| e.1.kurz@),
        decreases all.len() - i,
    {
        assert(all.subrange(0, i + 1).drop_last() == all.subrange(0, i as int));
        let ghost prev = r@;
        if let Some(k) = &stunden.slots[i] {
            assert(present(all.subrange(0, i + 1)) == present(all.subrange(0, i as int)).push((i as int, *k)));
            r.push(k.kurz.clone());
            assert(strings(r@) =~= strings(prev).push(k.kurz@));
        } else {
            assert(present(all.subrange(0, i + 1)) == present(all.subrange(0, i as int)));
        }
        assert(strings(r@) =~= present(all.subrange(0, i + 1)).map_values(|e: (int, StundenZeile)| e.1.kurz@));
        i += 1;
    }
    assert(all.subrange(0, i as int) == all);
    r
}

/// Writes lesson `v` at period `p` of a day, padding the day with empty periods first.
pub open spec fn place(day: Seq<Option<usize>>, p: int, v: usize) -> Seq<Option<usize>> {
    let padded = if day.len() > p {
        day
    } else {
        day + Seq::new((p + 1 - day.len()) as nat, |_i: int| None::<usize>)
    };
    padded.update(p, Some(v))
}

/// The week of an assignment: seven days, each as long as its last assigned period.
pub open spec fn week_plan(a: Seq<Option<usize>>, slots: Seq<(Seq<char>, int, int)>) -> Seq<Seq<Option<usize>>>
    decreases a.len(),
{
    if a.len() == 0 {
        Seq::new(7, |_d: int| Seq::<Option<usize>>::empty())
    } else {
        let w = week_plan(a.drop_last(), slots);
        match a.last() {
            None => w,
            Some(v) => {
                let d = slots[a.len() - 1].2 - 1;
                w.update(d, place(w[d], slots[a.len() - 1].1, v))
            },
        }
    }
}

pub open spec fn days_view(w: Seq<Vec<Option<usize>>>) -> Seq<Seq<Option<usize>>> {
    w.map_values(|d: Vec<Option<usize>>| d@)
}

/// Every observable period lies on one of the seven weekdays `1..=7`.
pub open spec fn weekdays_ok(slots: Seq<(Seq<char>, int, int)>) -> bool {
    forall|i: int| 0 <= i < slots.len() ==> 1 <= #[trigger] slots[i].2 <= 7
}

/// Every assigned slot has a timeslot, on one of the seven weekdays `1..=7`.
pub open spec fn placeable(a: Seq<Option<usize>>, slots: Seq<(Seq<char>, int, int)>) -> bool {
    forall|i: int| 0 <= i < a.len() && (#[trigger] a[i]) is Some ==> i < slots.len() && 1 <= slots[i].2 <= 7
}

proof fn lemma_week_plan_len(a: Seq<Option<usize>>, slots: Seq<(Seq<char>, int, int)>)
    requires
        placeable(a, slots),
    ensures
        week_plan(a, slots).len() == 7,
    decreases a.len(),
{
    if a.len() > 0 {
        assert forall|i: int| 0 <= i < a.drop_last().len() && (#[trigger] a.drop_last()[i]) is Some
            implies i < slots.len() && 1 <= slots[i].2 <= 7 by {
            assert(a[i] == a.drop_last()[i]);
        }
        lemma_week_plan_len(a.drop_last(), slots);
    }
}

/// Lays an assignment out as a week: `[day_id - 1][period] = lesson reference`. Only the
/// timeslots of assigned slots are read.
pub fn finalize(assignments: &Vec<Option<usize>>, timeslots: &Vec<TimeSlot>) -> (r: Vec<Vec<Option<usize>>>)
    requires
        placeable(assignments@, timeslots@.map_values(|t: TimeSlot| slot_view(t))),
    ensures
        days_view(r@) == week_plan(assignments@, timeslots@.map_values(|t: TimeSlot| slot_view(t))),
{
    let ghost sl = timeslots@.map_values(|t: TimeSlot| slot_view(t));
    let mut result: Vec<Vec<Option<usize>>> = Vec::new();
    let mut d: usize = 0;
    while d < 7
        invariant
            d <= 7,
            result@.len() == d,
            forall|k: int| 0 <= k < d ==> (#[trigger] result@[k])@.len() == 0,
        decreases 7 - d,
    {
        result.push(Vec::new());
        d += 1;
    }
    assert(days_view(result@) =~~= week_plan(assignments@.subrange(0, 0), sl));
    let mut i: usize = 0;
    while i < assignments.len()
        invariant
            i <= assignments@.len(),
            sl == timeslots@.map_values(|t: TimeSlot| slot_view(t)),
            placeable(assignments@, sl),
            days_view(result@) == week_plan(assignments@.subrange(0, i as int), sl),
        decreases assignments@.len() - i,
    {
        let ghost a = assignments@.subrange(0, i + 1);
        assert(a.drop_last() == assignments@.subrange(0, i as int));
        proof {
            let pre = assignments@.subrange(0, i as int);
            assert forall|k: int| 0 <= k < pre.len() && (#[trigger] pre[k]) is Some implies k < sl.len() && 1 <= sl[k].2 <= 7 by {
                assert(pre[k] == assignments@[k]);
            }
            lemma_week_plan_len(pre, sl);
        }
        if let Some(pl) = assignments[i] {
            assert(assignments@[i as int] is Some);
            assert(sl[i as int].2 == timeslots@[i as int].day_id);
            assert(1 <= sl[i as int].2 <= 7);
            let period = timeslots[i].period;
            let day = timeslots[i].day_id - 1;
            let mut bucket: Vec<Option<usize>> = Vec::new();
            result.set_and_swap(day, &mut bucket);
            let ghost b0 = bucket@;
            assert(bucket@ =~= b0 + Seq::new(0, |_i: int| None::<usize>));
            while bucket.len() <= period
                invariant
                    b0.len() <= bucket@.len(),
                    bucket@.len() == b0.len() || bucket@.len() <= period + 1,
                    bucket@ == b0 + Seq::new((bucket@.len() - b0.len()) as nat, |_i: int| None::<usize>),
                decreases period + 1 - bucket@.len(),
            {
                bucket.push(None);
                assert(bucket@ =~= b0 + Seq::new((bucket@.len() - b0.len()) as nat, |_i: int| None::<usize>));
            }
            bucket.set(period, Some(pl));
            assert(bucket@ =~= place(b0, period as int, pl));
            result.set(day, bucket);
            assert(days_view(result@) =~~= week_plan(a, sl));
        } else {
            assert(days_view(result@) =~~= week_plan(a, sl));
        }
        i += 1;
    }
    assert(assignments@.subrange(0, i as int) == assignments@);
    result
}

/// Why a plan cannot be generated.
#[derive(Clone, Copy, Debug, PartialEq, Eq, Structural)]
pub enum PlanError {
    /// Two requested subjects share a code.
    DuplicateSubject,
    /// The subject weights cannot be normalized.
    Weights(WeightError),
    /// An observable period lies on a day whose id is not one of the seven weekdays 1..=7.
    InvalidDay,
    /// The search problem cannot be built.
    Problem(ProblemError),
}

/// Why a lesson record cannot be placed: the timetable does not agree with itself. Such
/// a lesson is skipped and reported; planning goes on without it.
#[derive(Clone, Copy, Debug, PartialEq, Eq, Structural)]
pub enum LessonError {
    /// The lesson names a period that the timetable does not have.
    UnknownPeriod,
    /// The lesson names a class that the timetable does not have.
    UnknownClass,
}

/// Where a lesson goes: `(class, slot, subject)`, nowhere, or why it cannot be placed.
pub open spec fn lesson_effect(
    subjects: Seq<Seq<char>>,
    excluded: Seq<Seq<char>>,
    periods: Seq<Seq<char>>,
    slots: Seq<(Seq<char>, int, int)>,
    classes: Seq<Seq<char>>,
    l: LehrerStundenZeile,
) -> Result<Option<(int, int, int)>, LessonError> {
    match position(subjects, l.fach@) {
        None => Ok(None),
        Some(j) => if position(excluded, l.lehrkraft@) is Some {
            Ok(None)
        } else {
            match position(periods, l.tag_stunde.stunde@) {
                None => Err(LessonError::UnknownPeriod),
                Some(p) => match slot_position(slots, l.tag_stunde.tag@, p) {
                    None => Ok(None),
                    Some(s) => match position(classes, l.klasse@) {
                        None => Err(LessonError::UnknownClass),
                        Some(c) => Ok(Some((c, s, j))),
                    },
                },
            }
        },
    }
}

pub open spec fn empty_cells(rows: nat, cols: nat) -> Seq<Seq<Cell>> {
    Seq::new(rows, |_r: int| Seq::new(cols, |_c: int| None::<(usize, usize)>))
}

/// The matrix after placing the first `n` lessons, each at its class and slot with its
/// subject and its own index; a later lesson overwrites an earlier one in the same cell,
/// and a lesson that cannot be placed is left out.
pub open spec fn projected(
    subjects: Seq<Seq<char>>,
    excluded: Seq<Seq<char>>,
    periods: Seq<Seq<char>>,
    slots: Seq<(Seq<char>, int, int)>,
    classes: Seq<Seq<char>>,
    lessons: Seq<LehrerStundenZeile>,
    n: int,
) -> Seq<Seq<Cell>>
    decreases n,
{
    if n <= 0 {
        empty_cells(classes.len(), slots.len())
    } else {
        let g = projected(subjects, excluded, periods, slots, classes, lessons, n - 1);
        match lesson_effect(subjects, excluded, periods, slots, classes, lessons[n - 1]) {
            Ok(Some((c, s, j))) => g.update(c, g[c].update(s, Some((j as usize, (n - 1) as usize)))),
            _ => g,
        }
    }
}

/// The lessons among the first `n` that cannot be placed, each with its index and why,
/// in order.
pub open spec fn skipped_lessons(
    subjects: Seq<Seq<char>>,
    excluded: Seq<Seq<char>>,
    periods: Seq<Seq<char>>,
    slots: Seq<(Seq<char>, int, int)>,
    classes: Seq<Seq<char>>,
    lessons: Seq<LehrerStundenZeile>,
    n: int,
) -> Seq<(int, LessonError)>
    decreases n,
{
    if n <= 0 {
        Seq::empty()
    } else {
        let rest = skipped_lessons(subjects, excluded, periods, slots, classes, lessons, n - 1);
        match lesson_effect(subjects, excluded, periods, slots, classes, lessons[n - 1]) {
            Err(e) => rest.push((n - 1, e)),
            _ => rest,
        }
    }
}

pub open spec fn skipped_view(v: Seq<(usize, LessonError)>) -> Seq<(int, LessonError)> {
    v.map_values(|p: (usize, LessonError)| (p.0 as int, p.1))
}

fn find_slot(slots: &Vec<TimeSlot>, day: &String, period: usize) -> (r: Option<usize>)
    ensures
        match r {
            Some(i) => slot_position(slots@.map_values(|t: TimeSlot| slot_view(t)), day@, period as int) == Some(i as int) && i < slots@.len(),
            None => slot_position(slots@.map_values(|t: TimeSlot| slot_view(t)), day@, period as int) is None,
        },
{
    let ghost s = slots@.map_values(|t: TimeSlot| slot_view(t));
    let mut i: usize = 0;
    while i < slots.len()
        invariant
            i <= slots@.len(),
            s == slots@.map_values(|t: TimeSlot| slot_view(t)),
            forall|k: int| 0 <= k < i ==> !(s[k].0 == day@ && s[k].1 == period),
        decreases slots@.len() - i,
    {
        if slots[i].period == period && slots[i].day == *day {
            proof {
                lemma_slot_position(s, day@, period as int, i as int);
            }
            return Some(i);
        }
        i += 1;
    }
    proof {
        lemma_slot_position(s, day@, period as int, i as int);
    }
    None
}

/// Places every relevant lesson in the class-by-slot matrix: lessons of other subjects,
/// of excluded teachers, or outside the observable periods are left out. A lesson that
/// names an unknown period or class is left out too, and returned with its index.
pub fn project(
    lessons: &Vec<LehrerStundenZeile>,
    subjects: &Vec<String>,
    excluded: &Vec<String>,
    periods: &Vec<String>,
    slots: &Vec<TimeSlot>,
    classes: &Vec<String>,
) -> (r: (Grid, Vec<(usize, LessonError)>))
    requires
        classes@.len() <= MAX_CELLS,
        slots@.len() <= MAX_CELLS,
        classes@.len() * slots@.len() <= MAX_CELLS,
    ensures
        grid_cells(r.0) == projected(strings(subjects@), strings(excluded@), strings(periods@),
            slots@.map_values(|t: TimeSlot| slot_view(t)), strings(classes@), lessons@, lessons@.len() as int),
        skipped_view(r.1@) == skipped_lessons(strings(subjects@), strings(excluded@), strings(periods@),
            slots@.map_values(|t: TimeSlot| slot_view(t)), strings(classes@), lessons@, lessons@.len() as int),
{
    let ghost su = strings(subjects@);
    let ghost ex = strings(excluded@);
    let ghost pe = strings(periods@);
    let ghost sl = slots@.map_values(|t: TimeSlot| slot_view(t));
    let ghost cl = strings(classes@);
    let mut g = grid_new(classes.len(), slots.len());
    let mut skipped: Vec<(usize, LessonError)> = Vec::new();
    let mut k: usize = 0;
    while k < lessons.len()
        invariant
            k <= lessons@.len(),
            su == strings(subjects@),
            ex == strings(excluded@),
            pe == strings(periods@),
            sl == slots@.map_values(|t: TimeSlot| slot_view(t)),
            cl == strings(classes@),
            projected(su, ex, pe, sl, cl, lessons@, k as int) == grid_cells(g),
            skipped_view(skipped@) == skipped_lessons(su, ex, pe, sl, cl, lessons@, k as int),
        decreases lessons@.len() - k,
    {
        proof {
            lemma_projected_shape(su, ex, pe, sl, cl, lessons@, k as int);
        }
        let l = &lessons[k];
        let ghost eff = lesson_effect(su, ex, pe, sl, cl, lessons@[k as int]);
        let ghost before = skipped@;
        match find_string(subjects, &l.fach) {
            None => {
                assert(eff == Ok::<Option<(int, int, int)>, LessonError>(None));
            },
            Some(j) => {
                if find_string(excluded, &l.lehrkraft).is_some() {
                    assert(eff == Ok::<Option<(int, int, int)>, LessonError>(None));
                } else {
                    match find_string(periods, &l.tag_stunde.stunde) {
                        None => {
                            skipped.push((k, LessonError::UnknownPeriod));
                            assert(skipped_view(skipped@) =~= skipped_view(before).push((k as int, LessonError::UnknownPeriod)));
                        },
                        Some(p) => {
                            match find_slot(slots, &l.tag_stunde.tag, p) {
                                None => {
                                    assert(eff == Ok::<Option<(int, int, int)>, LessonError>(None));
                                },
                                Some(s) => {
                                    match find_string(classes, &l.klasse) {
                                        None => {
                                            skipped.push((k, LessonError::UnknownClass));
                                            assert(skipped_view(skipped@) =~= skipped_view(before).push((k as int, LessonError::UnknownClass)));
                                        },
                                        Some(c) => {
                                            assert(eff == Ok::<Option<(int, int, int)>, LessonError>(Some((c as int, s as int, j as int))));
                                            grid_set(&mut g, c, s, Some((j, k)));
                                        },
                                    }
                                },
                            }
                        },
                    }
                }
            },
        }
        k += 1;
    }
    (g, skipped)
}

proof fn lemma_projected_shape(
    su: Seq<Seq<char>>,
    ex: Seq<Seq<char>>,
    pe: Seq<Seq<char>>,
    sl: Seq<(Seq<char>, int, int)>,
    cl: Seq<Seq<char>>,
    lessons: Seq<LehrerStundenZeile>,
    n: int,
)
    requires
        0 <= n,
    ensures
        projected(su, ex, pe, sl, cl, lessons, n).len() == cl.len(),
        forall|c: int| 0 <= c < cl.len() ==> #[trigger] projected(su, ex, pe, sl, cl, lessons, n)[c].len() == sl.len(),
    decreases n,
{
    if n > 0 {
        lemma_projected_shape(su, ex, pe, sl, cl, lessons, n - 1);
        lemma_effect_bounds(su, ex, pe, sl, cl, lessons[n - 1]);
    }
}

proof fn lemma_effect_bounds(
    su: Seq<Seq<char>>,
    ex: Seq<Seq<char>>,
    pe: Seq<Seq<char>>,
    sl: Seq<(Seq<char>, int, int)>,
    cl: Seq<Seq<char>>,
    l: LehrerStundenZeile,
)
    ensures
        lesson_effect(su, ex, pe, sl, cl, l) matches Ok(Some((c, s, j))) ==> 0 <= c < cl.len() && 0 <= s < sl.len() && 0 <= j < su.len(),
{
    lemma_position_bounds(su, l.fach@);
    lemma_position_bounds(cl, l.klasse@);
    lemma_position_bounds(pe, l.tag_stunde.stunde@);
    match position(pe, l.tag_stunde.stunde@) {
        Some(p) => lemma_slot_position_bounds(sl, l.tag_stunde.tag@, p),
        None => {},
    }
}

proof fn lemma_position_bounds(s: Seq<Seq<char>>, x: Seq<char>)
    ensures
        position(s, x) matches Some(i) ==> 0 <= i < s.len() && s[i] == x,
    decreases s.len(),
{
    if s.len() > 0 {
        lemma_position_bounds(s.drop_last(), x);
    }
}

proof fn lemma_slot_position_bounds(s: Seq<(Seq<char>, int, int)>, day: Seq<char>, period: int)
    ensures
        slot_position(s, day, period) matches Some(i) ==> 0 <= i < s.len() && s[i].0 == day && s[i].1 == period,
    decreases s.len(),
{
    if s.len() > 0 {
        lemma_slot_position_bounds(s.drop_last(), day, period);
    }
}

/// A requested subject and its weight. Weights are relative: they are normalized to sum
/// to one before the search.
#[derive(Clone, Debug)]
pub struct FachGewichtung {
    pub kuerzel: String,
    pub gewicht: u64,
}

pub open spec fn subject_codes(s: Seq<FachGewichtung>) -> Seq<Seq<char>> {
    s.map_values(|f: FachGewichtung| f.kuerzel@)
}

pub open spec fn subject_weights(s: Seq<FachGewichtung>) -> Seq<u64> {
    s.map_values(|f: FachGewichtung| f.gewicht)
}

pub open spec fn has_duplicates(codes: Seq<Seq<char>>) -> bool {
    exists|i: int, j: int| 0 <= i < j < codes.len() && codes[i] == codes[j]
}

/// The observable periods of a timetable.
pub open spec fn plan_slots(plan: WilliStundenplan) -> Seq<(Seq<char>, int, int)> {
    week_slots(present(plan.tage.slots@))
}

pub open spec fn plan_classes(plan: WilliStundenplan) -> Seq<Seq<char>> {
    present(plan.klassen.slots@).map_values(|e: (int, KlassenZeile)| e.1.kuerzel@)
}

pub open spec fn plan_periods(plan: WilliStundenplan) -> Seq<Seq<char>> {
    present(plan.stunden.slots@).map_values(|e: (int, StundenZeile)| e.1.kurz@)
}

/// The class-by-slot matrix of a request, or the error that building it gives.
pub open spec fn plan_cells(plan: WilliStundenplan, subjects: Seq<FachGewichtung>, excluded: Seq<String>) -> Seq<Seq<Cell>> {
    projected(subject_codes(subjects), strings(excluded), plan_periods(plan), plan_slots(plan), plan_classes(plan),
        plan.stunden_lehrerplan@, plan.stunden_lehrerplan@.len() as int)
}

/// The lessons of a request that name an unknown period or class, with their indices.
pub open spec fn plan_skipped(plan: WilliStundenplan, subjects: Seq<FachGewichtung>, excluded: Seq<String>) -> Seq<(int, LessonError)> {
    skipped_lessons(subject_codes(subjects), strings(excluded), plan_periods(plan), plan_slots(plan), plan_classes(plan),
        plan.stunden_lehrerplan@, plan.stunden_lehrerplan@.len() as int)
}

/// The error that a request gives, checked in this order, if any.
pub open spec fn generate_error(plan: WilliStundenplan, subjects: Seq<FachGewichtung>, excluded: Seq<String>, config: SearchConfig) -> Option<PlanError> {
    let w = subject_weights(subjects);
    if has_duplicates(subject_codes(subjects)) {
        Some(PlanError::DuplicateSubject)
    } else if normalize_error(w) is Some {
        Some(PlanError::Weights(normalize_error(w)->Some_0))
    } else if !weekdays_ok(plan_slots(plan)) {
        Some(PlanError::InvalidDay)
    } else if plan_classes(plan).len() > MAX_CELLS || plan_slots(plan).len() > MAX_CELLS
        || plan_classes(plan).len() * plan_slots(plan).len() > MAX_CELLS {
        Some(PlanError::Problem(ProblemError::TooLarge))
    } else {
        match problem_error(plan_cells(plan, subjects, excluded), plan_slots(plan).len(), plan_classes(plan).len(), w, weight_sum(w), config) {
            Some(e) => Some(PlanError::Problem(e)),
            None => None,
        }
    }
}

/// `days` is the week of `ch`, a choice of one class (or none) for every observable
/// period, valid for the request's matrix.
pub open spec fn lays_out(plan: WilliStundenplan, subjects: Seq<FachGewichtung>, excluded: Seq<String>, days: Seq<Seq<Option<usize>>>, ch: Seq<Option<usize>>) -> bool {
    let cells = plan_cells(plan, subjects, excluded);
    &&& valid_prefix(cells, plan_classes(plan).len(), plan_slots(plan).len(), ch)
    &&& ch.len() == plan_slots(plan).len()
    &&& days == week_plan(lessons(picked(cells, ch)), plan_slots(plan))
}

/// `p` is the search problem of a request: its matrix, its shape, its normalized
/// weights and its tuning. These fix `p.search_result()`.
pub open spec fn problem_of(p: Problem, plan: WilliStundenplan, subjects: Seq<FachGewichtung>, excluded: Seq<String>, config: SearchConfig) -> bool {
    let w = subject_weights(subjects);
    &&& p.wf()
    &&& p.cells() == plan_cells(plan, subjects, excluded)
    &&& p.time_slots == plan_slots(plan).len()
    &&& p.classes == plan_classes(plan).len()
    &&& p.weights@ == w
    &&& p.weight_den == weight_sum(w)
    &&& p.config == config
}

/// A planned week, and the lessons that were skipped because they name a period or a
/// class that the timetable does not have.
#[derive(Clone, Debug, PartialEq, Eq)]
pub struct WeekPlan {
    /// `[day_id - 1][period]`: the index of the lesson to observe, if any.
    pub days: Vec<Vec<Option<usize>>>,
    /// The index of each skipped lesson, with the reason.
    pub skipped: Vec<(usize, LessonError)>,
}

/// What planning gives: the first error that the request has; or the week of the
/// search's result on the request's problem, with every skipped lesson. That result is
/// a valid choice of least cost among all valid choices (so also no worse than taking
/// the first class with a lesson in every slot).
pub open spec fn generate_result(
    plan: WilliStundenplan,
    subjects: Seq<FachGewichtung>,
    excluded: Seq<String>,
    config: SearchConfig,
    r: Result<WeekPlan, PlanError>,
) -> bool {
    match r {
        Err(e) => generate_error(plan, subjects, excluded, config) == Some(e),
        Ok(w) => {
            &&& generate_error(plan, subjects, excluded, config) is None
            &&& skipped_view(w.skipped@) == plan_skipped(plan, subjects, excluded)
            &&& exists|p: Problem| #[trigger] problem_of(p, plan, subjects, excluded, config)
                && lays_out(plan, subjects, excluded, days_view(w.days@), p.search_result())
                && p.path_cost(p.search_result()) <= p.path_cost(p.greedy())
                && (forall|q: Seq<Option<usize>>| #[trigger] p.valid_choice(q) ==> p.path_cost(p.search_result()) <= p.path_cost(q))
        },
    }
}

/// Each code paired with the weight at its position, or with weight one where the
/// weights run out.
pub open spec fn paired(fs: Seq<FachGewichtung>, codes: Seq<String>, weights: Seq<u64>) -> bool {
    &&& fs.len() == codes.len()
    &&& forall|i: int| 0 <= i < fs.len() ==> (#[trigger] fs[i]).kuerzel@ == codes[i]@
        && fs[i].gewicht == (if i < weights.len() { weights[i] } else { 1u64 })
}

/// Pairs each subject code with its weight; codes beyond the weights get weight one.
pub fn pair_weights(codes: &Vec<String>, weights: &Vec<u64>) -> (r: Vec<FachGewichtung>)
    ensures
        paired(r@, codes@, weights@),
{
    let mut r: Vec<FachGewichtung> = Vec::new();
    let mut i: usize = 0;
    while i < codes.len()
        invariant
            i <= codes@.len(),
            paired(r@, codes@.subrange(0, i as int), weights@),
        decreases codes@.len() - i,
    {
        let gewicht = if i < weights.len() {
            weights[i]
        } else {
            1
        };
        r.push(FachGewichtung { kuerzel: codes[i].clone(), gewicht });
        i += 1;
    }
    assert(codes@.subrange(0, i as int) == codes@);
    r
}

/// Plans a week from the text of a timetable file: reads the timetable, pairs the subject
/// codes with their weights (one where the weights run out), and plans with the
/// standard tuning.
pub fn wasm_generate<S: ProgressSink>(
    raw_plan: &str,
    subjects: &Vec<String>,
    weights: &Vec<u64>,
    excluded_teachers: &Vec<String>,
    sink: &mut S,
) -> (r: Result<WeekPlan, PlanError>)
    ensures
        exists|plan: WilliStundenplan, errors: Seq<(usize, ParseError)>, fs: Seq<FachGewichtung>|
            #[trigger] parsed_from(raw_plan@, plan, errors) && #[trigger] paired(fs, subjects@, weights@)
                && generate_result(plan, fs, excluded_teachers@,
                (SearchConfig { balance_num: 3, balance_den: 1, progress_interval: 3197, solution_interval: 1_000_000 }), r),
{
    let (plan, errors) = WilliStundenplan::parse(raw_plan);
    let subject_weights = pair_weights(subjects, weights);
    let r = generate(&plan, &subject_weights, excluded_teachers, SearchConfig::standard(), sink);
    assert(parsed_from(raw_plan@, plan, errors@) && paired(subject_weights@, subjects@, weights@));
    r
}

fn has_duplicate_codes(subjects: &Vec<FachGewichtung>) -> (r: bool)
    ensures
        r == has_duplicates(subject_codes(subjects@)),
{
    let ghost codes = subject_codes(subjects@);
    let mut j: usize = 0;
    while j < subjects.len()
        invariant
            j <= subjects@.len(),
            codes == subject_codes(subjects@),
            forall|a: int, b: int| 0 <= a < b < j ==> codes[a] != codes[b],
        decreases subjects@.len() - j,
    {
        let mut i: usize = 0;
        while i < j
            invariant
                i <= j < subjects@.len(),
                codes == subject_codes(subjects@),
                forall|a: int, b: int| 0 <= a < b < j ==> codes[a] != codes[b],
                forall|a: int| 0 <= a < i ==> codes[a] != codes[j as int],
            decreases j - i,
        {
            if subjects[i].kuerzel == subjects[j].kuerzel {
                assert(codes[i as int] == codes[j as int]);
                return true;
            }
            i += 1;
        }
        j += 1;
    }
    false
}

fn weights_of(subjects: &Vec<FachGewichtung>) -> (r: Vec<u64>)
    ensures
        r@ == subject_weights(subjects@),
{
    let mut r: Vec<u64> = Vec::new();
    let mut i: usize = 0;
    while i < subjects.len()
        invariant
            i <= subjects@.len(),
            r@ == subject_weights(subjects@).subrange(0, i as int),
        decreases subjects@.len() - i,
    {
        r.push(subjects[i].gewicht);
        i += 1;
        assert(r@ =~= subject_weights(subjects@).subrange(0, i as int));
    }
    assert(r@ =~= subject_weights(subjects@));
    r
}

fn codes_of(subjects: &Vec<FachGewichtung>) -> (r: Vec<String>)
    ensures
        strings(r@) == subject_codes(subjects@),
{
    let mut r: Vec<String> = Vec::new();
    let mut i: usize = 0;
    while i < subjects.len()
        invariant
            i <= subjects@.len(),
            strings(r@) == subject_codes(subjects@).subrange(0, i as int),
        decreases subjects@.len() - i,
    {
        let ghost prev = r@;
        r.push(subjects[i].kuerzel.clone());
        assert(strings(r@) =~= strings(prev).push(subjects@[i as int].kuerzel@));
        i += 1;
        assert(strings(r@) =~= subject_codes(subjects@).subrange(0, i as int));
    }
    assert(strings(r@) =~= subject_codes(subjects@));
    r
}

fn weekdays_in_range(slots: &Vec<TimeSlot>) -> (r: bool)
    ensures
        r == weekdays_ok(slots@.map_values(|t: TimeSlot| slot_view(t))),
{
    let ghost sl = slots@.map_values(|t: TimeSlot| slot_view(t));
    let mut i: usize = 0;
    while i < slots.len()
        invariant
            i <= slots@.len(),
            sl == slots@.map_values(|t: TimeSlot| slot_view(t)),
            forall|k: int| 0 <= k < i ==> 1 <= #[trigger] sl[k].2 <= 7,
        decreases slots@.len() - i,
    {
        if slots[i].day_id < 1 || slots[i].day_id > 7 {
            assert(!(1 <= sl[i as int].2 <= 7));
            return false;
        }
        i += 1;
    }
    true
}

/// Plans a week of observations: projects the timetable onto the requested subjects,
/// searches for a schedule, and lays it out as `[day_id - 1][period] = lesson index`,
/// where a lesson index points into the timetable's lesson list. Lessons that name a
/// period or class the timetable does not have are skipped and returned with the week.
pub fn generate<S: ProgressSink>(
    plan: &WilliStundenplan,
    subjects: &Vec<FachGewichtung>,
    excluded_teachers: &Vec<String>,
    config: SearchConfig,
    sink: &mut S,
) -> (r: Result<WeekPlan, PlanError>)
    ensures
        generate_result(*plan, subjects@, excluded_teachers@, config, r),
{
    if has_duplicate_codes(subjects) {
        return Err(PlanError::DuplicateSubject);
    }
    let raw = Weights::from_integers(weights_of(subjects));
    let weights = match normalize(&raw) {
        Ok(w) => w,
        Err(e) => return Err(PlanError::Weights(e)),
    };
    let slots = timeslots(&plan.tage);
    if !weekdays_in_range(&slots) {
        return Err(PlanError::InvalidDay);
    }
    let classes = class_codes(&plan.klassen);
    let periods = period_codes(&plan.stunden);
    let fits = classes.len() <= MAX_CELLS && slots.len() <= MAX_CELLS && match classes.len().checked_mul(slots.len()) {
        Some(n) => n <= MAX_CELLS,
        None => false,
    };
    if !fits {
        return Err(PlanError::Problem(ProblemError::TooLarge));
    }
    let codes = codes_of(subjects);
    let (grid, skipped) = project(&plan.stunden_lehrerplan, &codes, excluded_teachers, &periods, &slots, &classes);
    let ghost cells = grid_cells(grid);
    assert(slots@.len() == plan_slots(*plan).len());
    assert(classes@.len() == strings(classes@).len());
    assert(classes@.len() == plan_classes(*plan).len());
    assert(plan_cells(*plan, subjects@, excluded_teachers@) == cells);
    let problem = match Problem::new(grid, slots.len(), classes.len(), &weights, config) {
        Ok(p) => p,
        Err(e) => return Err(PlanError::Problem(e)),
    };
    assert(generate_error(*plan, subjects@, excluded_teachers@, config) is None);
    let solution = problem.solve(sink);
    proof {
        crate::model::lemma_lessons_len(picked(cells, solution.choice@));
    }
    proof {
        let sl = slots@.map_values(|t: TimeSlot| slot_view(t));
        let a = solution.assignments@;
        assert forall|i: int| 0 <= i < a.len() && (#[trigger] a[i]) is Some implies i < sl.len() && 1 <= sl[i].2 <= 7 by {
            assert(i < sl.len());
        }
    }
    let days = finalize(&solution.assignments, &slots);
    let ghost choice = solution.choice@;
    assert(lays_out(*plan, subjects@, excluded_teachers@, days_view(days@), choice));
    assert(problem_of(problem, *plan, subjects@, excluded_teachers@, config));
    assert(choice == problem.search_result());
    let r: Result<WeekPlan, PlanError> = Ok(WeekPlan { days, skipped });
    assert(r matches Ok(w) && problem_of(problem, *plan, subjects@, excluded_teachers@, config)
        && lays_out(*plan, subjects@, excluded_teachers@, days_view(w.days@), problem.search_result())
        && problem.path_cost(problem.search_result()) <= problem.path_cost(problem.greedy())
        && (forall|q: Seq<Option<usize>>| #[trigger] problem.valid_choice(q) ==> problem.path_cost(problem.search_result()) <= problem.path_cost(q)));
    r
}

/// Multiplying every requested weight by the same factor gives the same week: the
/// normalized weights are the same fractions, so the search makes the same choices.
pub proof fn lemma_generate_scaled(
    plan: WilliStundenplan,
    subjects: Seq<FachGewichtung>,
    scaled: Seq<FachGewichtung>,
    excluded: Seq<String>,
    config: SearchConfig,
    k: nat,
    r1: Result<WeekPlan, PlanError>,
    r2: Result<WeekPlan, PlanError>,
)
    requires
        k >= 1,
        scaled.len() == subjects.len(),
        forall|i: int| 0 <= i < subjects.len() ==> (#[trigger] scaled[i]).kuerzel@ == subjects[i].kuerzel@
            && scaled[i].gewicht == k * subjects[i].gewicht,
        generate_result(plan, subjects, excluded, config, r1),
        generate_result(plan, scaled, excluded, config, r2),
        r1 is Ok,
        r2 is Ok,
    ensures
        days_view(r1->Ok_0.days@) == days_view(r2->Ok_0.days@),
{
    let p = choose|p: Problem| #[trigger] problem_of(p, plan, subjects, excluded, config)
        && lays_out(plan, subjects, excluded, days_view(r1->Ok_0.days@), p.search_result())
        && p.path_cost(p.search_result()) <= p.path_cost(p.greedy())
        && (forall|q: Seq<Option<usize>>| #[trigger] p.valid_choice(q) ==> p.path_cost(p.search_result()) <= p.path_cost(q));
    let q = choose|q: Problem| #[trigger] problem_of(q, plan, scaled, excluded, config)
        && lays_out(plan, scaled, excluded, days_view(r2->Ok_0.days@), q.search_result())
        && q.path_cost(q.search_result()) <= q.path_cost(q.greedy())
        && (forall|x: Seq<Option<usize>>| #[trigger] q.valid_choice(x) ==> q.path_cost(q.search_result()) <= q.path_cost(x));
    assert(subject_codes(scaled) =~= subject_codes(subjects));
    let w = subject_weights(subjects);
    let w2 = subject_weights(scaled);
    assert forall|j: int| 0 <= j < w.len() implies w2[j] == k * w[j] by {
        assert(scaled[j].gewicht == k * subjects[j].gewicht);
    }
    crate::weights::lemma_weight_sum_scaled(w, w2, k);
    crate::search::lemma_scaled_weights(p, q, k);
}

} // verus!
