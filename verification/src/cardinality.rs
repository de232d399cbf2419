//! How many ids a cell may hold, and how an edit is merged into the ids it
//! holds already.

use vstd::prelude::*;
use crate::text::{texts, lemma_texts_push};

verus! {

broadcast use vstd::string::group_string_axioms;

/// The ids of `current` that are not among `deletes`, in their order.
pub open spec fn without_ids(current: Seq<Seq<char>>, deletes: Seq<Seq<char>>) -> Seq<Seq<char>> {
    current.filter(|id: Seq<char>| !deletes.contains(id))
}

/// The ids of the sequence in the order in which each is first seen, each of
/// them once.
pub open spec fn unique_ids(ids: Seq<Seq<char>>) -> Seq<Seq<char>>
    decreases ids.len(),
{
    if ids.len() == 0 {
        Seq::empty()
    } else if ids.drop_last().contains(ids.last()) {
        unique_ids(ids.drop_last())
    } else {
        unique_ids(ids.drop_last()).push(ids.last())
    }
}

/// At most the first id of the sequence.
pub open spec fn first_id(ids: Seq<Seq<char>>) -> Seq<Seq<char>> {
    if ids.len() == 0 {
        Seq::empty()
    } else {
        seq![ids[0]]
    }
}

/// The merge of a cell that holds one id at most. Where ids are inserted,
/// the first of them replaces whatever the cell held; where none is, the
/// first id that the deletion leaves stays.
pub open spec fn merge_single(
    current: Seq<Seq<char>>,
    inserts: Seq<Seq<char>>,
    deletes: Seq<Seq<char>>,
) -> Seq<Seq<char>> {
    if inserts.len() > 0 {
        first_id(inserts)
    } else {
        first_id(without_ids(current, deletes))
    }
}

/// The merge of a cell that holds any number of ids: what the deletion
/// leaves of the current ids, then the inserted ids, each id once at the
/// place where it is first seen.
pub open spec fn merge_multi(
    current: Seq<Seq<char>>,
    inserts: Seq<Seq<char>>,
    deletes: Seq<Seq<char>>,
) -> Seq<Seq<char>> {
    unique_ids(without_ids(current, deletes) + inserts)
}

/// An id is among the unique ids of a sequence exactly when it is in the
/// sequence.
pub proof fn lemma_unique_contains(ids: Seq<Seq<char>>, id: Seq<char>)
    ensures
        unique_ids(ids).contains(id) <==> ids.contains(id),
    decreases ids.len(),
{
    if ids.len() > 0 {
        let before = ids.drop_last();
        let last = ids.last();
        lemma_unique_contains(before, id);
        lemma_unique_contains(before, last);
        if ids.contains(id) {
            let i = choose|i: int| 0 <= i < ids.len() && ids[i] == id;
            if i < before.len() {
                assert(before[i] == id);
            }
        }
        if before.contains(id) {
            let i = choose|i: int| 0 <= i < before.len() && before[i] == id;
            assert(ids[i] == id);
        }
        if before.contains(last) {
        } else {
            let u = unique_ids(before);
            let all = u.push(last);
            assert(all.last() == last);
            if u.contains(id) {
                let i = choose|i: int| 0 <= i < u.len() && u[i] == id;
                assert(all[i] == id);
            }
            if all.contains(id) {
                let i = choose|i: int| 0 <= i < all.len() && all[i] == id;
                if i < u.len() {
                    assert(u[i] == id);
                }
            }
            if id == last {
                assert(all[u.len() as int] == id);
                assert(ids[ids.len() - 1] == id);
            }
        }
    }
}

/// No id stands twice among the unique ids of a sequence.
pub proof fn lemma_unique_no_duplicates(ids: Seq<Seq<char>>)
    ensures
        unique_ids(ids).no_duplicates(),
    decreases ids.len(),
{
    if ids.len() > 0 {
        let before = ids.drop_last();
        lemma_unique_no_duplicates(before);
        lemma_unique_contains(before, ids.last());
    }
}

/// A sequence in which no id stands twice is its own sequence of unique
/// ids.
pub proof fn lemma_unique_of_distinct(ids: Seq<Seq<char>>)
    requires
        ids.no_duplicates(),
    ensures
        unique_ids(ids) == ids,
    decreases ids.len(),
{
    if ids.len() > 0 {
        let before = ids.drop_last();
        lemma_unique_of_distinct(before);
        if before.contains(ids.last()) {
            let i = choose|i: int| 0 <= i < before.len() && before[i] == ids.last();
            assert(ids[i] == ids[ids.len() - 1]);
        }
        assert(before.push(ids.last()) =~= ids);
    } else {
        assert(unique_ids(ids) =~= ids);
    }
}

/// The unique ids of two sequences in a row begin with the unique ids of
/// the first.
pub proof fn lemma_unique_extends(head: Seq<Seq<char>>, tail: Seq<Seq<char>>)
    ensures
        unique_ids(head).is_prefix_of(unique_ids(head + tail)),
    decreases tail.len(),
{
    let all = head + tail;
    if tail.len() == 0 {
        assert(all =~= head);
    } else {
        lemma_unique_extends(head, tail.drop_last());
        assert(all.drop_last() =~= head + tail.drop_last());
    }
}

/// Taking the unique ids in two steps gives what one step gives.
pub proof fn lemma_unique_in_steps(head: Seq<Seq<char>>, tail: Seq<Seq<char>>)
    ensures
        unique_ids(unique_ids(head) + tail) == unique_ids(head + tail),
    decreases tail.len(),
{
    let left = unique_ids(head) + tail;
    let right = head + tail;
    if tail.len() == 0 {
        assert(left =~= unique_ids(head));
        assert(right =~= head);
        lemma_unique_no_duplicates(head);
        lemma_unique_of_distinct(unique_ids(head));
    } else {
        let shorter = tail.drop_last();
        lemma_unique_in_steps(head, shorter);
        assert(left.drop_last() =~= unique_ids(head) + shorter);
        assert(right.drop_last() =~= head + shorter);
        assert(left.last() == right.last());
        lemma_unique_contains(left.drop_last(), tail.last());
        lemma_unique_contains(right.drop_last(), tail.last());
    }
}

/// The place at which an id is first seen in a sequence, or the length of
/// the sequence where it is not in it.
pub open spec fn first_place(ids: Seq<Seq<char>>, id: Seq<char>) -> int
    decreases ids.len(),
{
    if ids.len() == 0 {
        0
    } else if ids.drop_last().contains(id) {
        first_place(ids.drop_last(), id)
    } else if ids.last() == id {
        ids.len() - 1
    } else {
        ids.len() as int
    }
}

/// `first_place` is the least index at which the id stands.
pub proof fn lemma_first_place(ids: Seq<Seq<char>>, id: Seq<char>)
    ensures
        0 <= first_place(ids, id) <= ids.len(),
        ids.contains(id) <==> first_place(ids, id) < ids.len(),
        ids.contains(id) ==> ids[first_place(ids, id)] == id,
        forall|j: int| 0 <= j < first_place(ids, id) ==> ids[j] != id,
    decreases ids.len(),
{
    if ids.len() > 0 {
        let before = ids.drop_last();
        lemma_first_place(before, id);
        if before.contains(id) {
            let i = choose|i: int| 0 <= i < before.len() && before[i] == id;
            assert(ids[i] == id);
            assert forall|j: int| 0 <= j < first_place(ids, id) implies ids[j] != id by {
                assert(before[j] == ids[j]);
            }
        } else {
            assert forall|j: int| 0 <= j < before.len() implies ids[j] != id by {
                assert(before[j] == ids[j]);
                if before[j] == id {
                    assert(before.contains(id));
                }
            }
            if ids.last() == id {
                assert(ids[ids.len() - 1] == id);
            } else {
                if ids.contains(id) {
                    let i = choose|i: int| 0 <= i < ids.len() && ids[i] == id;
                    assert(before[i] == id);
                }
            }
        }
    }
}

/// An id of the first of two sequences in a row is first seen where the
/// first sequence has it.
pub proof fn lemma_first_place_in_head(head: Seq<Seq<char>>, tail: Seq<Seq<char>>, id: Seq<char>)
    requires
        head.contains(id),
    ensures
        first_place(head + tail, id) == first_place(head, id),
    decreases tail.len(),
{
    let all = head + tail;
    if tail.len() == 0 {
        assert(all =~= head);
    } else {
        let shorter = head + tail.drop_last();
        assert(all.drop_last() =~= shorter);
        lemma_first_place_in_head(head, tail.drop_last(), id);
        let i = choose|i: int| 0 <= i < head.len() && head[i] == id;
        assert(shorter[i] == id);
    }
}

/// Taking the unique ids keeps the order in which ids are first seen.
pub proof fn lemma_unique_keeps_order(ids: Seq<Seq<char>>, a: Seq<char>, b: Seq<char>)
    requires
        ids.contains(a),
        ids.contains(b),
        first_place(ids, a) < first_place(ids, b),
    ensures
        first_place(unique_ids(ids), a) < first_place(unique_ids(ids), b),
    decreases ids.len(),
{
    let before = ids.drop_last();
    let last = ids.last();
    lemma_first_place(ids, a);
    lemma_first_place(ids, b);
    lemma_first_place(before, a);
    lemma_first_place(before, b);
    lemma_unique_contains(before, a);
    lemma_unique_contains(before, b);
    lemma_unique_contains(before, last);
    let u = unique_ids(before);
    lemma_first_place(u, a);
    lemma_first_place(u, b);
    if before.contains(b) {
        lemma_unique_keeps_order(before, a, b);
        if !before.contains(last) {
            assert(u.push(last).drop_last() =~= u);
        }
    } else {
        assert(u.push(last).drop_last() =~= u);
        assert(u.push(last).last() == last);
    }
}

/// Leaving ids out keeps the order in which the others are first seen.
pub proof fn lemma_without_keeps_order(
    current: Seq<Seq<char>>,
    deletes: Seq<Seq<char>>,
    a: Seq<char>,
    b: Seq<char>,
)
    requires
        without_ids(current, deletes).contains(a),
        without_ids(current, deletes).contains(b),
        first_place(current, a) < first_place(current, b),
    ensures
        first_place(without_ids(current, deletes), a) < first_place(
            without_ids(current, deletes),
            b,
        ),
    decreases current.len(),
{
    reveal(Seq::filter);
    let keep = |id: Seq<char>| !deletes.contains(id);
    let before = current.drop_last();
    let last = current.last();
    let left = without_ids(before, deletes);
    lemma_without_contains(current, deletes, a);
    lemma_without_contains(current, deletes, b);
    lemma_without_contains(before, deletes, a);
    lemma_without_contains(before, deletes, b);
    lemma_first_place(current, a);
    lemma_first_place(current, b);
    lemma_first_place(before, a);
    lemma_first_place(before, b);
    lemma_first_place(left, a);
    lemma_first_place(left, b);
    if before.contains(b) {
        lemma_without_keeps_order(before, deletes, a, b);
        if keep(last) {
            assert(left.push(last).drop_last() =~= left);
        }
    } else {
        assert(keep(last));
        assert(left.push(last).drop_last() =~= left);
        assert(left.push(last).last() == last);
    }
}

/// An id is left exactly when the cell held it and it is not deleted.
pub proof fn lemma_without_contains(current: Seq<Seq<char>>, deletes: Seq<Seq<char>>, id: Seq<char>)
    ensures
        without_ids(current, deletes).contains(id) <==> current.contains(id) && !deletes.contains(
            id,
        ),
    decreases current.len(),
{
    reveal(Seq::filter);
    let keep = |id: Seq<char>| !deletes.contains(id);
    if current.len() > 0 {
        let before = current.drop_last();
        let last = current.last();
        let left = without_ids(before, deletes);
        lemma_without_contains(before, deletes, id);
        if current.contains(id) {
            let i = choose|i: int| 0 <= i < current.len() && current[i] == id;
            if i < before.len() {
                assert(before[i] == id);
            }
        }
        if before.contains(id) {
            let i = choose|i: int| 0 <= i < before.len() && before[i] == id;
            assert(current[i] == id);
        }
        if last == id {
            assert(current[current.len() - 1] == id);
        }
        if keep(last) {
            let all = left.push(last);
            assert(all.last() == last);
            if left.contains(id) {
                let i = choose|i: int| 0 <= i < left.len() && left[i] == id;
                assert(all[i] == id);
            }
            if all.contains(id) {
                let i = choose|i: int| 0 <= i < all.len() && all[i] == id;
                if i < left.len() {
                    assert(left[i] == id);
                }
            }
            if last == id {
                assert(all[left.len() as int] == id);
            }
        }
    }
}

/// A cell of one id at most: whatever the edit, one id at most is left.
/// Where ids are inserted, exactly one is left, and it is the first of the
/// inserted ids: that is the id that wins among several. So the last of
/// them is the one left exactly when it is the first as well.
pub proof fn lemma_single_keeps_first_insert(
    current: Seq<Seq<char>>,
    inserts: Seq<Seq<char>>,
    deletes: Seq<Seq<char>>,
)
    ensures
        merge_single(current, inserts, deletes).len() <= 1,
        inserts.len() >= 1 ==> merge_single(current, inserts, deletes) == seq![inserts.first()],
        inserts.len() >= 2 ==> (merge_single(current, inserts, deletes) == seq![inserts.last()]
            <==> inserts.first() == inserts.last()),
        inserts.len() == 0 ==> merge_single(current, inserts, deletes) == first_id(
            without_ids(current, deletes),
        ),
{
    if inserts.len() >= 2 {
        let left = merge_single(current, inserts, deletes);
        assert(left[0] == inserts.first());
        assert(seq![inserts.last()][0] == inserts.last());
    }
}

/// A cell of any number of ids: after an edit no id stands twice.
pub proof fn lemma_multi_no_duplicates(
    current: Seq<Seq<char>>,
    inserts: Seq<Seq<char>>,
    deletes: Seq<Seq<char>>,
)
    ensures
        merge_multi(current, inserts, deletes).no_duplicates(),
{
    lemma_unique_no_duplicates(without_ids(current, deletes) + inserts);
}

/// A cell of any number of ids: an id is in the cell after an edit exactly
/// when it is inserted, or was there before and is not deleted.
pub proof fn lemma_multi_contains(
    current: Seq<Seq<char>>,
    inserts: Seq<Seq<char>>,
    deletes: Seq<Seq<char>>,
    id: Seq<char>,
)
    ensures
        merge_multi(current, inserts, deletes).contains(id) <==> inserts.contains(id) || (
        current.contains(id) && !deletes.contains(id)),
{
    let left = without_ids(current, deletes);
    let all = left + inserts;
    lemma_unique_contains(all, id);
    lemma_without_contains(current, deletes, id);
    if left.contains(id) {
        let i = choose|i: int| 0 <= i < left.len() && left[i] == id;
        assert(all[i] == id);
    }
    if inserts.contains(id) {
        let i = choose|i: int| 0 <= i < inserts.len() && inserts[i] == id;
        assert(all[left.len() + i] == id);
    }
    if all.contains(id) {
        let i = choose|i: int| 0 <= i < all.len() && all[i] == id;
        if i < left.len() {
            assert(left[i] == id);
        } else {
            assert(inserts[i - left.len()] == id);
        }
    }
}

/// A cell of any number of ids: two batches of ids inserted one after the
/// other, however they overlap, leave what their insertion in one batch
/// leaves, and in it no id stands twice.
pub proof fn lemma_multi_insert_in_batches(
    current: Seq<Seq<char>>,
    first: Seq<Seq<char>>,
    second: Seq<Seq<char>>,
)
    ensures
        merge_multi(merge_multi(current, first, Seq::empty()), second, Seq::empty())
            == merge_multi(current, first + second, Seq::empty()),
        merge_multi(merge_multi(current, first, Seq::empty()), second, Seq::empty())
            .no_duplicates(),
{
    let none = Seq::<Seq<char>>::empty();
    let once = merge_multi(current, first, none);
    lemma_without_nothing(current);
    lemma_without_nothing(once);
    assert((current + first) + second =~= current + (first + second));
    lemma_unique_in_steps(current + first, second);
    lemma_unique_no_duplicates(current + (first + second));
}

/// With nothing to delete every id is left.
pub proof fn lemma_without_nothing(current: Seq<Seq<char>>)
    ensures
        without_ids(current, Seq::empty()) == current,
    decreases current.len(),
{
    reveal(Seq::filter);
    let none = Seq::<Seq<char>>::empty();
    if current.len() > 0 {
        lemma_without_nothing(current.drop_last());
        assert(!none.contains(current.last()));
        assert(current.drop_last().push(current.last()) =~= current);
    }
}

/// A cell of any number of ids: the ids that stay come first, before the
/// new ones, and two ids that stay stand in the order in which the cell
/// first held them.
pub proof fn lemma_multi_keeps_order(
    current: Seq<Seq<char>>,
    inserts: Seq<Seq<char>>,
    deletes: Seq<Seq<char>>,
    a: Seq<char>,
    b: Seq<char>,
)
    requires
        current.contains(a) && !deletes.contains(a),
        current.contains(b) && !deletes.contains(b),
        first_place(current, a) < first_place(current, b),
    ensures
        unique_ids(without_ids(current, deletes)).is_prefix_of(
            merge_multi(current, inserts, deletes),
        ),
        first_place(merge_multi(current, inserts, deletes), a) < first_place(
            merge_multi(current, inserts, deletes),
            b,
        ),
{
    let left = without_ids(current, deletes);
    let all = left + inserts;
    lemma_unique_extends(left, inserts);
    lemma_without_contains(current, deletes, a);
    lemma_without_contains(current, deletes, b);
    lemma_without_keeps_order(current, deletes, a, b);
    lemma_first_place_in_head(left, inserts, a);
    lemma_first_place_in_head(left, inserts, b);
    let i = choose|i: int| 0 <= i < left.len() && left[i] == a;
    assert(all[i] == a);
    let j = choose|j: int| 0 <= j < left.len() && left[j] == b;
    assert(all[j] == b);
    lemma_unique_keeps_order(all, a, b);
}

/// Whether the id is among the given ids.
pub fn contains_id(ids: &Vec<String>, id: &str) -> (found: bool)
    ensures
        found == texts(ids@).contains(id@),
{
    let mut i: usize = 0;
    while i < ids.len()
        invariant
            i <= ids.len(),
            forall|j: int| 0 <= j < i ==> texts(ids@)[j] != id@,
        decreases ids.len() - i,
    {
        if *ids[i].as_str() == *id {
            assert(texts(ids@)[i as int] == id@);
            return true;
        }
        i += 1;
    }
    false
}

/// The ids of `current` that are not among `deletes`, in their order.
pub fn remove_ids(current: &Vec<String>, deletes: &Vec<String>) -> (left: Vec<String>)
    ensures
        texts(left@) == without_ids(texts(current@), texts(deletes@)),
{
    let ghost all = texts(current@);
    let ghost keep = |id: Seq<char>| !texts(deletes@).contains(id);
    let mut left: Vec<String> = Vec::new();
    let mut i: usize = 0;
    proof {
        reveal(Seq::filter);
        assert(all.take(0).filter(keep) =~= texts(left@));
    }
    while i < current.len()
        invariant
            i <= current.len(),
            all == texts(current@),
            keep == |id: Seq<char>| !texts(deletes@).contains(id),
            texts(left@) == all.take(i as int).filter(keep),
        decreases current.len() - i,
    {
        proof {
            assert(all.take(i + 1) =~= all.take(i as int).push(all[i as int]));
            all.take(i as int).lemma_filter_push(all[i as int], keep);
        }
        if !contains_id(deletes, current[i].as_str()) {
            let id = current[i].clone();
            proof {
                lemma_texts_push(left@, id);
            }
            left.push(id);
        }
        i += 1;
    }
    assert(all.take(i as int) =~= all);
    left
}

/// The given ids in the order in which each is first seen, each of them
/// once.
pub fn distinct_ids(ids: &Vec<String>) -> (unique: Vec<String>)
    ensures
        texts(unique@) == unique_ids(texts(ids@)),
{
    let ghost all = texts(ids@);
    let mut unique: Vec<String> = Vec::new();
    let mut i: usize = 0;
    proof {
        assert(unique_ids(all.take(0)) =~= texts(unique@));
    }
    while i < ids.len()
        invariant
            i <= ids.len(),
            all == texts(ids@),
            texts(unique@) == unique_ids(all.take(i as int)),
        decreases ids.len() - i,
    {
        proof {
            assert(all.take(i + 1).drop_last() =~= all.take(i as int));
            assert(all.take(i + 1).last() == all[i as int]);
            lemma_unique_contains(all.take(i as int), all[i as int]);
        }
        if !contains_id(&unique, ids[i].as_str()) {
            let id = ids[i].clone();
            proof {
                lemma_texts_push(unique@, id);
            }
            unique.push(id);
        }
        i += 1;
    }
    assert(all.take(i as int) =~= all);
    unique
}

/// The rule that says how many ids a cell may hold at a time.
#[derive(Clone, Copy, Debug, PartialEq, Eq, Structural)]
pub enum CardinalityPolicy {
    /// One id at most.
    Single,
    /// Any number of ids, none of them twice.
    Multi,
}

impl CardinalityPolicy {
    /// The ids of a cell after an edit, by this policy: `merge_single` or
    /// `merge_multi`.
    pub open spec fn merged(
        self,
        current: Seq<Seq<char>>,
        inserts: Seq<Seq<char>>,
        deletes: Seq<Seq<char>>,
    ) -> Seq<Seq<char>> {
        match self {
            CardinalityPolicy::Single => merge_single(current, inserts, deletes),
            CardinalityPolicy::Multi => merge_multi(current, inserts, deletes),
        }
    }

    /// Merges an edit into the ids that a cell holds: `deletes` leave, then
    /// `inserts` come in, as far as the policy has room for them.
    pub fn merge(
        &self,
        current: &Vec<String>,
        inserts: &Vec<String>,
        deletes: &Vec<String>,
    ) -> (ids: Vec<String>)
        ensures
            texts(ids@) == self.merged(texts(current@), texts(inserts@), texts(deletes@)),
            *self == CardinalityPolicy::Single ==> ids.len() <= 1,
            *self == CardinalityPolicy::Multi ==> texts(ids@).no_duplicates(),
    {
        match self {
            CardinalityPolicy::Single => {
                let mut ids: Vec<String> = Vec::new();
                if inserts.len() > 0 {
                    ids.push(inserts[0].clone());
                    assert(texts(ids@) =~= first_id(texts(inserts@)));
                } else {
                    let left = remove_ids(current, deletes);
                    if left.len() > 0 {
                        ids.push(left[0].clone());
                    }
                    assert(texts(ids@) =~= first_id(texts(left@)));
                }
                ids
            },
            CardinalityPolicy::Multi => {
                let mut all = remove_ids(current, deletes);
                let ghost left = texts(all@);
                let mut i: usize = 0;
                while i < inserts.len()
                    invariant
                        i <= inserts.len(),
                        texts(all@) == left + texts(inserts@).take(i as int),
                    decreases inserts.len() - i,
                {
                    let id = inserts[i].clone();
                    proof {
                        lemma_texts_push(all@, id);
                        assert(texts(inserts@).take(i + 1) =~= texts(inserts@).take(i as int).push(
                            id@,
                        ));
                    }
                    all.push(id);
                    i += 1;
                }
                proof {
                    assert(texts(inserts@).take(i as int) =~= texts(inserts@));
                    lemma_unique_no_duplicates(texts(all@));
                }
                distinct_ids(&all)
            },
        }
    }
}

} // verus!
