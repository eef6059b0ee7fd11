//! Ranking: the order from the best score down.

use vstd::prelude::*;

verus! {

/// What an item is ordered by: the better score first, and among equal scores the smaller tie
/// breaker.
#[derive(Debug, Clone, Copy, PartialEq, Eq, Structural)]
pub struct RankKey {
    /// The place of the score in the order of scores; greater is better.
    pub score: i64,
    /// What decides among equal scores.
    pub tie: usize,
}

/// Whether item `left` comes before item `right`. Items that are equal in score and tie breaker
/// keep the order in which they were given.
pub open spec fn comes_before(keys: Seq<RankKey>, left: int, right: int) -> bool {
    ||| keys[left].score > keys[right].score
    ||| keys[left].score == keys[right].score && keys[left].tie < keys[right].tie
    ||| keys[left].score == keys[right].score && keys[left].tie == keys[right].tie && left < right
}

/// Whether every item comes before all that follow it.
pub open spec fn sorted(keys: Seq<RankKey>, order: Seq<usize>) -> bool {
    forall|i: int, j: int|
        0 <= i < j < order.len() ==> comes_before(keys, #[trigger] order[i] as int, #[trigger] order[j] as int)
}

/// Whether `order` lists the items from `start` to `end`, each of them.
pub open spec fn lists(order: Seq<usize>, start: int, end: int) -> bool {
    &&& order.len() == end - start
    &&& forall|i: int| 0 <= i < order.len() ==> start <= #[trigger] order[i] < end
    &&& forall|item: usize| start <= item < end ==> order.contains(item)
}

/// Whether `order` is the ranking of the items with the given keys.
pub open spec fn is_ranking(keys: Seq<RankKey>, order: Seq<usize>) -> bool {
    lists(order, 0, keys.len() as int) && sorted(keys, order)
}

/// The ranking of the items with the given keys.
pub open spec fn ranking_of(keys: Seq<RankKey>) -> Seq<usize> {
    choose|order: Seq<usize>| is_ranking(keys, order)
}

/// The place at which an item is put among ranked items.
proof fn lemma_place(keys: Seq<RankKey>, order: Seq<usize>, item: usize) -> (place: int)
    requires
        sorted(keys, order),
        forall|i: int| 0 <= i < order.len() ==> order[i] != item,
    ensures
        0 <= place <= order.len(),
        forall|i: int| 0 <= i < place ==> comes_before(keys, #[trigger] order[i] as int, item as int),
        forall|i: int|
            place <= i < order.len() ==> comes_before(keys, item as int, #[trigger] order[i] as int),
    decreases order.len(),
{
    if order.len() == 0 {
        0
    } else if comes_before(keys, order.last() as int, item as int) {
        assert forall|i: int| 0 <= i < order.len() implies comes_before(
            keys,
            #[trigger] order[i] as int,
            item as int,
        ) by {
            if i < order.len() - 1 {
                assert(comes_before(keys, order[i] as int, order[order.len() - 1] as int));
            }
        }
        order.len() as int
    } else {
        let front = order.drop_last();
        assert(sorted(keys, front)) by {
            assert forall|i: int, j: int| 0 <= i < j < front.len() implies comes_before(
                keys,
                #[trigger] front[i] as int,
                #[trigger] front[j] as int,
            ) by {
                assert(comes_before(keys, order[i] as int, order[j] as int));
            }
        }
        let place = lemma_place(keys, front, item);
        assert forall|i: int| 0 <= i < place implies comes_before(
            keys,
            #[trigger] order[i] as int,
            item as int,
        ) by {
            assert(front[i] == order[i]);
        }
        assert forall|i: int| place <= i < order.len() implies comes_before(
            keys,
            item as int,
            #[trigger] order[i] as int,
        ) by {
            if i < front.len() {
                assert(front[i] == order[i]);
            }
        }
        place
    }
}

/// There is a ranking.
pub proof fn ranking_exists(keys: Seq<RankKey>)
    requires
        keys.len() <= usize::MAX,
    ensures
        is_ranking(keys, ranking_of(keys)),
    decreases keys.len(),
{
    if keys.len() == 0 {
        assert(is_ranking(keys, Seq::empty()));
    } else {
        let front = keys.drop_last();
        ranking_exists(front);
        let earlier = ranking_of(front);
        let item = (keys.len() - 1) as usize;
        assert forall|i: int, j: int| 0 <= i < j < earlier.len() implies comes_before(
            keys,
            #[trigger] earlier[i] as int,
            #[trigger] earlier[j] as int,
        ) by {
            assert(comes_before(front, earlier[i] as int, earlier[j] as int));
        }
        let place = lemma_place(keys, earlier, item);
        let order = earlier.insert(place, item);
        assert forall|other: usize| 0 <= other < keys.len() implies order.contains(other) by {
            if other == item {
                assert(order[place] == other);
            } else {
                assert(earlier.contains(other));
                let i = earlier.index_of(other);
                if i < place {
                    assert(order[i] == other);
                } else {
                    assert(order[i + 1] == other);
                }
            }
        }
        assert forall|i: int| 0 <= i < order.len() implies 0 <= #[trigger] order[i] < keys.len() by {
            if i < place {
                assert(order[i] == earlier[i]);
            } else if i > place {
                assert(order[i] == earlier[i - 1]);
            }
        }
        assert forall|i: int, j: int| 0 <= i < j < order.len() implies comes_before(
            keys,
            #[trigger] order[i] as int,
            #[trigger] order[j] as int,
        ) by {
            let left = if i < place {
                i
            } else {
                i - 1
            };
            let right = if j < place {
                j
            } else {
                j - 1
            };
            if i != place {
                assert(order[i] == earlier[left]);
            }
            if j != place {
                assert(order[j] == earlier[right]);
            }
            if i != place && j != place {
                assert(comes_before(keys, earlier[left] as int, earlier[right] as int));
            }
        }
        assert(is_ranking(keys, order));
    }
}

/// There is one ranking only.
pub proof fn ranking_is_determined(keys: Seq<RankKey>, first: Seq<usize>, second: Seq<usize>)
    requires
        is_ranking(keys, first),
        is_ranking(keys, second),
    ensures
        first == second,
{
    if exists|i: int| 0 <= i < first.len() && first[i] != second[i] {
        let wrong = choose|i: int| 0 <= i < first.len() && first[i] != second[i];
        lemma_first_difference(first, second, wrong);
        let i = choose|i: int|
            0 <= i < first.len() && first[i] != second[i] && forall|k: int|
                0 <= k < i ==> first[k] == second[k];
        assert(second.contains(first[i]));
        assert(first.contains(second[i]));
        let j = choose|j: int| 0 <= j < second.len() && second[j] == first[i];
        let k = choose|k: int| 0 <= k < first.len() && first[k] == second[i];
        if j < i {
            assert(first[j] == second[j]);
            assert(comes_before(keys, first[j] as int, first[i] as int));
        }
        if k < i {
            assert(first[k] == second[k]);
            assert(comes_before(keys, second[k] as int, second[i] as int));
        }
        assert(comes_before(keys, second[i] as int, second[j] as int));
        assert(comes_before(keys, first[i] as int, first[k] as int));
    }
    assert(first == second);
}

/// Where two sequences differ, they differ in a first place.
proof fn lemma_first_difference(first: Seq<usize>, second: Seq<usize>, at: int)
    requires
        first.len() == second.len(),
        0 <= at < first.len(),
        first[at] != second[at],
    ensures
        exists|i: int|
            0 <= i < first.len() && first[i] != second[i] && forall|k: int|
                0 <= k < i ==> first[k] == second[k],
    decreases at,
{
    if exists|k: int| 0 <= k < at && first[k] != second[k] {
        let k = choose|k: int| 0 <= k < at && first[k] != second[k];
        lemma_first_difference(first, second, k);
    }
}

/// Whether item `left` comes before item `right`.
fn precedes(keys: &Vec<RankKey>, left: usize, right: usize) -> (result: bool)
    requires
        left < keys@.len(),
        right < keys@.len(),
    ensures
        result == comes_before(keys@, left as int, right as int),
{
    let first = keys[left];
    let second = keys[right];
    first.score > second.score || (first.score == second.score && (first.tie < second.tie || (
    first.tie == second.tie && left < right)))
}

/// Puts two sorted lists together.
fn merge(
    keys: &Vec<RankKey>,
    left: &Vec<usize>,
    right: &Vec<usize>,
    start: usize,
    middle: usize,
    end: usize,
) -> (order: Vec<usize>)
    requires
        start <= middle <= end <= keys@.len(),
        lists(left@, start as int, middle as int),
        lists(right@, middle as int, end as int),
        sorted(keys@, left@),
        sorted(keys@, right@),
    ensures
        lists(order@, start as int, end as int),
        sorted(keys@, order@),
{
    let mut order: Vec<usize> = Vec::new();
    let mut i: usize = 0;
    let mut j: usize = 0;
    while i < left.len() || j < right.len()
        invariant
            start <= middle <= end <= keys@.len(),
            lists(left@, start as int, middle as int),
            lists(right@, middle as int, end as int),
            sorted(keys@, left@),
            sorted(keys@, right@),
            i <= left@.len(),
            j <= right@.len(),
            order@.len() == i + j,
            sorted(keys@, order@),
            forall|k: int| 0 <= k < order@.len() ==> start <= #[trigger] order@[k] < end,
            forall|k: int, m: int|
                0 <= k < order@.len() && i <= m < left@.len() ==> comes_before(
                    keys@,
                    #[trigger] order@[k] as int,
                    #[trigger] left@[m] as int,
                ),
            forall|k: int, m: int|
                0 <= k < order@.len() && j <= m < right@.len() ==> comes_before(
                    keys@,
                    #[trigger] order@[k] as int,
                    #[trigger] right@[m] as int,
                ),
            forall|k: int| 0 <= k < i ==> order@.contains(#[trigger] left@[k]),
            forall|k: int| 0 <= k < j ==> order@.contains(#[trigger] right@[k]),
        decreases left@.len() - i + right@.len() - j,
    {
        let ghost before = order@;
        let take_left = if i >= left.len() {
            false
        } else if j >= right.len() {
            true
        } else {
            precedes(keys, left[i], right[j])
        };
        let next = if take_left {
            left[i]
        } else {
            right[j]
        };
        order.push(next);
        proof {
            assert(order@[before.len() as int] == next);
            assert forall|item: usize| before.contains(item) implies order@.contains(item) by {
                let k = choose|k: int| 0 <= k < before.len() && before[k] == item;
                assert(order@[k] == item);
            }
            assert(order@.contains(next));
        }
        if take_left {
            i = i + 1;
        } else {
            j = j + 1;
        }
    }
    proof {
        assert forall|item: usize| start <= item < end implies order@.contains(item) by {
            if item < middle {
                assert(left@.contains(item));
            } else {
                assert(right@.contains(item));
            }
        }
    }
    order
}

/// Sorts the items from `start` to `end`.
fn sort_range(keys: &Vec<RankKey>, start: usize, end: usize) -> (order: Vec<usize>)
    requires
        start <= end <= keys@.len(),
    ensures
        lists(order@, start as int, end as int),
        sorted(keys@, order@),
    decreases end - start,
{
    let mut order: Vec<usize> = Vec::new();
    if end - start == 0 {
        return order;
    }
    if end - start == 1 {
        order.push(start);
        assert(order@[0] == start);
        return order;
    }
    let middle = start + (end - start) / 2;
    let left = sort_range(keys, start, middle);
    let right = sort_range(keys, middle, end);
    merge(keys, &left, &right, start, middle, end)
}

/// The ranking of the items with the given keys: the indexes of the items, the best first.
pub fn ranking(keys: &Vec<RankKey>) -> (order: Vec<usize>)
    ensures
        is_ranking(keys@, order@),
        order@ == ranking_of(keys@),
{
    let order = sort_range(keys, 0, keys.len());
    proof {
        assert(is_ranking(keys@, order@));
        ranking_is_determined(keys@, order@, ranking_of(keys@));
    }
    order
}

} // verus!
