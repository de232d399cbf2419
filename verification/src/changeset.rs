//! Edit requests on a selection cell, and the routine that applies one to
//! the value that the cell stores.

use vstd::prelude::*;
use crate::cardinality::{
    first_id, lemma_multi_contains, lemma_unique_no_duplicates, lemma_without_contains,
    unique_ids, without_ids, CardinalityPolicy,
};
use crate::ids::{
    join_ids, lemma_parse_join, lemma_parse_storable, parse_ids, storable_id, storable_ids,
    SelectOptionIds,
};
use crate::select_option::{
    catalog_contains, catalog_of, contains_option, storable_catalog, SelectOptionModel,
    SelectOptionPB,
};
use crate::text::{texts, lemma_texts_push};

verus! {

broadcast use vstd::string::group_string_axioms;

/// An edit of a selection cell: ids to put in and ids to take out.
#[derive(Debug)]
pub struct SelectOptionCellChangeset {
    pub insert_option_ids: Vec<String>,
    pub delete_option_ids: Vec<String>,
}

/// What a changeset is, as plain values.
pub struct ChangesetModel {
    pub insert_option_ids: Seq<Seq<char>>,
    pub delete_option_ids: Seq<Seq<char>>,
}

impl View for SelectOptionCellChangeset {
    type V = ChangesetModel;

    open spec fn view(&self) -> ChangesetModel {
        ChangesetModel {
            insert_option_ids: texts(self.insert_option_ids@),
            delete_option_ids: texts(self.delete_option_ids@),
        }
    }
}

impl SelectOptionCellChangeset {
    /// The edit that inserts one id.
    pub fn from_insert_option_id(option_id: &str) -> (changeset: SelectOptionCellChangeset)
        ensures
            changeset@.insert_option_ids == seq![option_id@],
            changeset@.delete_option_ids == Seq::<Seq<char>>::empty(),
    {
        let mut ids: Vec<String> = Vec::new();
        ids.push(option_id.to_owned());
        let changeset = SelectOptionCellChangeset {
            insert_option_ids: ids,
            delete_option_ids: Vec::new(),
        };
        assert(changeset@.insert_option_ids =~= seq![option_id@]);
        assert(changeset@.delete_option_ids =~= Seq::<Seq<char>>::empty());
        changeset
    }

    /// The edit that inserts the given ids, in their order.
    pub fn from_insert_options(option_ids: Vec<String>) -> (changeset: SelectOptionCellChangeset)
        ensures
            changeset@.insert_option_ids == texts(option_ids@),
            changeset@.delete_option_ids == Seq::<Seq<char>>::empty(),
    {
        let changeset = SelectOptionCellChangeset {
            insert_option_ids: option_ids,
            delete_option_ids: Vec::new(),
        };
        assert(changeset@.delete_option_ids =~= Seq::<Seq<char>>::empty());
        changeset
    }

    /// The edit that deletes one id.
    pub fn from_delete_option_id(option_id: &str) -> (changeset: SelectOptionCellChangeset)
        ensures
            changeset@.insert_option_ids == Seq::<Seq<char>>::empty(),
            changeset@.delete_option_ids == seq![option_id@],
    {
        let mut ids: Vec<String> = Vec::new();
        ids.push(option_id.to_owned());
        let changeset = SelectOptionCellChangeset {
            insert_option_ids: Vec::new(),
            delete_option_ids: ids,
        };
        assert(changeset@.delete_option_ids =~= seq![option_id@]);
        assert(changeset@.insert_option_ids =~= Seq::<Seq<char>>::empty());
        changeset
    }

    /// The edit that deletes the given ids.
    pub fn from_delete_options(option_ids: Vec<String>) -> (changeset: SelectOptionCellChangeset)
        ensures
            changeset@.insert_option_ids == Seq::<Seq<char>>::empty(),
            changeset@.delete_option_ids == texts(option_ids@),
    {
        let changeset = SelectOptionCellChangeset {
            insert_option_ids: Vec::new(),
            delete_option_ids: option_ids,
        };
        assert(changeset@.insert_option_ids =~= Seq::<Seq<char>>::empty());
        changeset
    }
}

/// The one failure of an edit: what was handed in as a changeset does not
/// have the shape of one.
#[derive(Clone, Copy, Debug, PartialEq, Eq, Structural)]
pub struct ChangesetShapeError;

/// What arrives as the payload of an edit: a decoded changeset, or nothing
/// where the payload could not be read as one.
#[derive(Debug)]
pub struct CellDataChangeset<T>(pub Option<T>);

impl<T> CellDataChangeset<T> {
    /// The decoded changeset, or the failure where there is none.
    pub fn try_into_inner(self) -> (inner: Result<T, ChangesetShapeError>)
        ensures
            inner == (match self.0 {
                Some(data) => Ok::<T, ChangesetShapeError>(data),
                None => Err::<T, ChangesetShapeError>(ChangesetShapeError),
            }),
    {
        match self.0 {
            Some(data) => Ok(data),
            None => Err(ChangesetShapeError),
        }
    }
}

/// What a cell stored before an edit.
#[derive(Debug)]
pub struct CellRevision {
    pub data: String,
}

/// The stored value that an edit starts from: that of the revision, or the
/// empty value of a cell that was never written.
pub open spec fn stored_value(cell_rev: Option<CellRevision>) -> Seq<char> {
    match cell_rev {
        Some(rev) => rev.data@,
        None => Seq::empty(),
    }
}

/// The ids of the sequence that the catalog knows, in their order.
pub open spec fn valid_ids(catalog: Seq<SelectOptionModel>, ids: Seq<Seq<char>>) -> Seq<Seq<char>> {
    ids.filter(|id: Seq<char>| catalog_contains(catalog, id))
}

/// The ids among the given ones that the catalog knows, in their order. An
/// id that it does not know is passed over.
pub fn filter_valid(options: &Vec<SelectOptionPB>, ids: &Vec<String>) -> (valid: Vec<String>)
    ensures
        texts(valid@) == valid_ids(catalog_of(options@), texts(ids@)),
{
    let ghost all = texts(ids@);
    let ghost known = |id: Seq<char>| catalog_contains(catalog_of(options@), id);
    let mut valid: Vec<String> = Vec::new();
    let mut i: usize = 0;
    proof {
        reveal(Seq::filter);
        assert(all.take(0).filter(known) =~= texts(valid@));
    }
    while i < ids.len()
        invariant
            i <= ids.len(),
            all == texts(ids@),
            known == |id: Seq<char>| catalog_contains(catalog_of(options@), id),
            texts(valid@) == all.take(i as int).filter(known),
        decreases ids.len() - i,
    {
        proof {
            assert(all.take(i + 1) =~= all.take(i as int).push(all[i as int]));
            all.take(i as int).lemma_filter_push(all[i as int], known);
        }
        if contains_option(options, ids[i].as_str()) {
            let id = ids[i].clone();
            proof {
                lemma_texts_push(valid@, id);
            }
            valid.push(id);
        }
        i += 1;
    }
    assert(all.take(i as int) =~= all);
    valid
}

/// The value that a cell stores after an edit: the ids of the current
/// value, merged by the policy with those ids of the changeset that the
/// catalog knows, and written as a stored value again.
pub open spec fn applied(
    catalog: Seq<SelectOptionModel>,
    policy: CardinalityPolicy,
    changeset: ChangesetModel,
    current: Seq<char>,
) -> Seq<char> {
    join_ids(
        policy.merged(
            parse_ids(current),
            valid_ids(catalog, changeset.insert_option_ids),
            valid_ids(catalog, changeset.delete_option_ids),
        ),
    )
}

/// Applies an edit to the value that a cell stores and returns the new
/// value. It fails only where the payload holds no changeset; an id that the
/// catalog does not know is no failure and changes nothing.
pub fn apply_changeset(
    options: &Vec<SelectOptionPB>,
    policy: CardinalityPolicy,
    changeset: CellDataChangeset<SelectOptionCellChangeset>,
    current: &str,
) -> (stored: Result<String, ChangesetShapeError>)
    ensures
        match changeset.0 {
            Some(edit) => stored is Ok && stored->Ok_0@ == applied(
                catalog_of(options@),
                policy,
                edit@,
                current@,
            ),
            None => stored == Err::<String, ChangesetShapeError>(ChangesetShapeError),
        },
{
    match changeset.try_into_inner() {
        Err(e) => Err(e),
        Ok(edit) => {
            let current_ids = SelectOptionIds::parse(current);
            let inserts = filter_valid(options, &edit.insert_option_ids);
            let deletes = filter_valid(options, &edit.delete_option_ids);
            let merged = SelectOptionIds(policy.merge(&current_ids.0, &inserts, &deletes));
            Ok(merged.to_string())
        },
    }
}

/// The changeset that inserts the given ids and deletes none.
pub open spec fn insertion(ids: Seq<Seq<char>>) -> ChangesetModel {
    ChangesetModel { insert_option_ids: ids, delete_option_ids: Seq::empty() }
}

/// The changeset that deletes the given ids and inserts none.
pub open spec fn deletion(ids: Seq<Seq<char>>) -> ChangesetModel {
    ChangesetModel { insert_option_ids: Seq::empty(), delete_option_ids: ids }
}

/// An id is among the valid ones exactly when it is among the given ones
/// and the catalog knows it.
pub proof fn lemma_valid_contains(
    catalog: Seq<SelectOptionModel>,
    ids: Seq<Seq<char>>,
    id: Seq<char>,
)
    ensures
        valid_ids(catalog, ids).contains(id) <==> ids.contains(id) && catalog_contains(
            catalog,
            id,
        ),
{
    let known = |id: Seq<char>| catalog_contains(catalog, id);
    let valid = ids.filter(known);
    if valid.contains(id) {
        let i = choose|i: int| 0 <= i < valid.len() && valid[i] == id;
        ids.lemma_filter_pred(known, i);
        ids.lemma_filter_contains_rev(known, id);
    }
    if ids.contains(id) && known(id) {
        let i = choose|i: int| 0 <= i < ids.len() && ids[i] == id;
        ids.lemma_filter_contains(known, i);
    }
}

/// Of ids that the catalog does not know, none is valid.
pub proof fn lemma_valid_of_unknown(catalog: Seq<SelectOptionModel>, ids: Seq<Seq<char>>)
    requires
        forall|i: int| 0 <= i < ids.len() ==> !catalog_contains(catalog, #[trigger] ids[i]),
    ensures
        valid_ids(catalog, ids) == Seq::<Seq<char>>::empty(),
    decreases ids.len(),
{
    reveal(Seq::filter);
    if ids.len() > 0 {
        let before = ids.drop_last();
        assert forall|i: int| 0 <= i < before.len() implies !catalog_contains(
            catalog,
            #[trigger] before[i],
        ) by {
            assert(before[i] == ids[i]);
        }
        lemma_valid_of_unknown(catalog, before);
        assert(ids.last() == ids[ids.len() - 1]);
    } else {
        assert(valid_ids(catalog, ids) =~= Seq::<Seq<char>>::empty());
    }
}

/// Of ids that the catalog knows, each is valid.
pub proof fn lemma_valid_of_known(catalog: Seq<SelectOptionModel>, ids: Seq<Seq<char>>)
    requires
        forall|i: int| 0 <= i < ids.len() ==> catalog_contains(catalog, #[trigger] ids[i]),
    ensures
        valid_ids(catalog, ids) == ids,
    decreases ids.len(),
{
    reveal(Seq::filter);
    if ids.len() > 0 {
        let before = ids.drop_last();
        assert forall|i: int| 0 <= i < before.len() implies catalog_contains(
            catalog,
            #[trigger] before[i],
        ) by {
            assert(before[i] == ids[i]);
        }
        lemma_valid_of_known(catalog, before);
        assert(ids.last() == ids[ids.len() - 1]);
        assert(before.push(ids.last()) =~= ids);
    }
}

/// What an edit leaves in a cell was in the cell before or is known to the
/// catalog: an edit brings no unknown id in.
pub proof fn lemma_applied_brings_known_ids(
    catalog: Seq<SelectOptionModel>,
    policy: CardinalityPolicy,
    changeset: ChangesetModel,
    current: Seq<char>,
    id: Seq<char>,
)
    requires
        policy.merged(
            parse_ids(current),
            valid_ids(catalog, changeset.insert_option_ids),
            valid_ids(catalog, changeset.delete_option_ids),
        ).contains(id),
    ensures
        parse_ids(current).contains(id) || catalog_contains(catalog, id),
{
    let held = parse_ids(current);
    let inserts = valid_ids(catalog, changeset.insert_option_ids);
    let deletes = valid_ids(catalog, changeset.delete_option_ids);
    lemma_valid_contains(catalog, changeset.insert_option_ids, id);
    match policy {
        CardinalityPolicy::Single => {
            if inserts.len() > 0 {
                assert(inserts[0] == id);
                assert(inserts.contains(id));
            } else {
                let left = without_ids(held, deletes);
                assert(left[0] == id);
                assert(left.contains(id));
                lemma_without_contains(held, deletes, id);
            }
        },
        CardinalityPolicy::Multi => {
            lemma_multi_contains(held, inserts, deletes, id);
        },
    }
}

/// With a catalog of storable ids, the value that an edit stores reads back
/// as the very ids that the merge left. So a cell of one id at most stores
/// one id at most, and a cell of any number of ids stores none twice.
pub proof fn lemma_applied_reads_back(
    catalog: Seq<SelectOptionModel>,
    policy: CardinalityPolicy,
    changeset: ChangesetModel,
    current: Seq<char>,
)
    requires
        storable_catalog(catalog),
    ensures
        parse_ids(applied(catalog, policy, changeset, current)) == policy.merged(
            parse_ids(current),
            valid_ids(catalog, changeset.insert_option_ids),
            valid_ids(catalog, changeset.delete_option_ids),
        ),
        policy == CardinalityPolicy::Single ==> parse_ids(
            applied(catalog, policy, changeset, current),
        ).len() <= 1,
        policy == CardinalityPolicy::Multi ==> parse_ids(
            applied(catalog, policy, changeset, current),
        ).no_duplicates(),
{
    let held = parse_ids(current);
    let inserts = valid_ids(catalog, changeset.insert_option_ids);
    let deletes = valid_ids(catalog, changeset.delete_option_ids);
    let merged = policy.merged(held, inserts, deletes);
    lemma_parse_storable(current);
    assert forall|i: int| 0 <= i < merged.len() implies storable_id(#[trigger] merged[i]) by {
        let id = merged[i];
        assert(merged.contains(id));
        lemma_applied_brings_known_ids(catalog, policy, changeset, current, id);
        if held.contains(id) {
            let j = choose|j: int| 0 <= j < held.len() && held[j] == id;
            assert(storable_id(held[j]));
        } else {
            let j = choose|j: int| 0 <= j < catalog.len() && (#[trigger] catalog[j]).id == id;
            assert(storable_id(catalog[j].id));
        }
    }
    lemma_parse_join(merged);
    if policy == CardinalityPolicy::Multi {
        lemma_unique_no_duplicates(without_ids(held, deletes) + inserts);
    }
}

/// A cell of one id at most: where the edit inserts ids that the catalog
/// knows, the cell stores the first of them, whatever it held and whatever
/// else the edit names.
pub proof fn lemma_single_stores_first_valid_insert(
    catalog: Seq<SelectOptionModel>,
    changeset: ChangesetModel,
    current: Seq<char>,
)
    requires
        valid_ids(catalog, changeset.insert_option_ids).len() >= 1,
    ensures
        applied(catalog, CardinalityPolicy::Single, changeset, current) == valid_ids(
            catalog,
            changeset.insert_option_ids,
        ).first(),
{
}

/// A cell of one id at most: an id of the catalog that is inserted and then
/// deleted leaves the cell empty, whatever it held before.
pub proof fn lemma_single_insert_then_delete(
    catalog: Seq<SelectOptionModel>,
    id: Seq<char>,
    current: Seq<char>,
)
    requires
        catalog_contains(catalog, id),
        storable_id(id),
    ensures
        applied(catalog, CardinalityPolicy::Single, insertion(seq![id]), current) == id,
        applied(
            catalog,
            CardinalityPolicy::Single,
            deletion(seq![id]),
            applied(catalog, CardinalityPolicy::Single, insertion(seq![id]), current),
        ) == Seq::<char>::empty(),
{
    let one = seq![id];
    let none = Seq::<Seq<char>>::empty();
    lemma_valid_of_known(catalog, one);
    lemma_valid_of_unknown(catalog, none);
    assert(storable_ids(one));
    lemma_parse_join(one);
    lemma_without_contains(one, one, id);
    let left = without_ids(one, one);
    if left.len() > 0 {
        assert(left.contains(left[0]));
        lemma_without_contains(one, one, left[0]);
        assert(one[0] == id);
    }
}

/// An edit that inserts only ids that the catalog does not know stores
/// what an edit of nothing stores: the ids that the cell held, as the policy
/// keeps them. Of an empty cell it leaves an empty cell.
pub proof fn lemma_unknown_insert_changes_nothing(
    catalog: Seq<SelectOptionModel>,
    policy: CardinalityPolicy,
    inserts: Seq<Seq<char>>,
    current: Seq<char>,
)
    requires
        forall|i: int| 0 <= i < inserts.len() ==> !catalog_contains(catalog, #[trigger] inserts[i]),
    ensures
        applied(catalog, policy, insertion(inserts), current) == applied(
            catalog,
            policy,
            insertion(Seq::empty()),
            current,
        ),
        applied(catalog, policy, insertion(inserts), current) == join_ids(
            match policy {
                CardinalityPolicy::Single => first_id(parse_ids(current)),
                CardinalityPolicy::Multi => unique_ids(parse_ids(current)),
            },
        ),
        applied(catalog, policy, insertion(inserts), Seq::empty()) == Seq::<char>::empty(),
{
    let none = Seq::<Seq<char>>::empty();
    lemma_valid_of_unknown(catalog, inserts);
    lemma_valid_of_unknown(catalog, none);
    crate::cardinality::lemma_without_nothing(parse_ids(current));
    crate::cardinality::lemma_without_nothing(none);
    assert(parse_ids(current) + none =~= parse_ids(current));
    assert(none + none =~= none);
}

/// An edit that only deletes leaves an empty cell empty, whatever it
/// deletes and whatever the policy.
pub proof fn lemma_delete_from_empty(
    catalog: Seq<SelectOptionModel>,
    policy: CardinalityPolicy,
    deletes: Seq<Seq<char>>,
)
    ensures
        applied(catalog, policy, deletion(deletes), Seq::empty()) == Seq::<char>::empty(),
{
    reveal(Seq::filter);
    let none = Seq::<Seq<char>>::empty();
    lemma_valid_of_unknown(catalog, none);
    assert(without_ids(none, valid_ids(catalog, deletes)) =~= none);
    assert(none + none =~= none);
}

/// A cell of any number of ids, with a catalog of storable ids: two edits
/// that insert one batch each, however the batches overlap, store what one
/// edit that inserts both batches stores, and in it no id stands twice.
pub proof fn lemma_multi_edits_in_batches(
    catalog: Seq<SelectOptionModel>,
    first: Seq<Seq<char>>,
    second: Seq<Seq<char>>,
    current: Seq<char>,
)
    requires
        storable_catalog(catalog),
    ensures
        applied(
            catalog,
            CardinalityPolicy::Multi,
            insertion(second),
            applied(catalog, CardinalityPolicy::Multi, insertion(first), current),
        ) == applied(catalog, CardinalityPolicy::Multi, insertion(first + second), current),
        parse_ids(
            applied(catalog, CardinalityPolicy::Multi, insertion(first + second), current),
        ).no_duplicates(),
{
    let none = Seq::<Seq<char>>::empty();
    let known = |id: Seq<char>| catalog_contains(catalog, id);
    let held = parse_ids(current);
    let once = applied(catalog, CardinalityPolicy::Multi, insertion(first), current);
    lemma_applied_reads_back(catalog, CardinalityPolicy::Multi, insertion(first), current);
    lemma_applied_reads_back(
        catalog,
        CardinalityPolicy::Multi,
        insertion(first + second),
        current,
    );
    lemma_valid_of_unknown(catalog, none);
    Seq::filter_distributes_over_add(first, second, known);
    crate::cardinality::lemma_multi_insert_in_batches(
        held,
        valid_ids(catalog, first),
        valid_ids(catalog, second),
    );
}

} // verus!
