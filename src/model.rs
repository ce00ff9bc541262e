//! The mathematical model of a search: choices of one class per slot, the lessons they
//! pick, and the counters that the cost function reads.
use vstd::prelude::*;
use crate::grid::Cell;

verus! {

/// What a choice picks at each slot: the chosen class's cell, or nothing.
pub open spec fn picked(cells: Seq<Seq<Cell>>, ch: Seq<Option<usize>>) -> Seq<Cell> {
    Seq::new(
        ch.len(),
        |s: int|
            match ch[s] {
                Some(c) => cells[c as int][s],
                None => None,
            },
    )
}

/// The lesson references of picked cells, slot by slot.
pub open spec fn lessons(p: Seq<Cell>) -> Seq<Option<usize>> {
    Seq::new(
        p.len(),
        |s: int|
            match p[s] {
                Some((_j, l)) => Some(l),
                None => None,
            },
    )
}

/// How many of the picked cells teach subject `j`.
pub open spec fn subject_count(p: Seq<Cell>, j: int) -> nat
    decreases p.len(),
{
    if p.len() == 0 {
        0
    } else {
        subject_count(p.drop_last(), j) + match p.last() {
            Some((k, _l)) => if k as int == j {
                1nat
            } else {
                0nat
            },
            None => 0nat,
        }
    }
}

/// How many distinct classes a choice visits.
pub open spec fn distinct_classes(ch: Seq<Option<usize>>) -> nat
    decreases ch.len(),
{
    if ch.len() == 0 {
        0
    } else {
        distinct_classes(ch.drop_last()) + match ch.last() {
            Some(c) => if ch.drop_last().contains(Some(c)) {
                0nat
            } else {
                1nat
            },
            None => 0nat,
        }
    }
}

pub proof fn lemma_lessons_len(p: Seq<Cell>)
    ensures
        lessons(p).len() == p.len(),
{
}

pub proof fn lemma_subject_count_le(p: Seq<Cell>, j: int)
    ensures
        subject_count(p, j) <= p.len(),
    decreases p.len(),
{
    if p.len() > 0 {
        lemma_subject_count_le(p.drop_last(), j);
    }
}

pub proof fn lemma_distinct_le(ch: Seq<Option<usize>>)
    ensures
        distinct_classes(ch) <= ch.len(),
    decreases ch.len(),
{
    if ch.len() > 0 {
        lemma_distinct_le(ch.drop_last());
    }
}

/// Extending a path never lowers the number of distinct classes it visits: the class
/// term of the cost is non-decreasing along every path of the search.
pub proof fn lemma_distinct_classes_monotone(ch: Seq<Option<usize>>, i: int, k: int)
    requires
        0 <= i <= k <= ch.len(),
    ensures
        distinct_classes(ch.subrange(0, i)) <= distinct_classes(ch.subrange(0, k)),
    decreases k - i,
{
    if i < k {
        lemma_distinct_classes_monotone(ch, i, k - 1);
        assert(ch.subrange(0, k).drop_last() == ch.subrange(0, k - 1));
    }
}

} // verus!
