//! What a selection cell shows: the options that its stored ids refer to,
//! beside the catalog they were looked up in.

use vstd::prelude::*;
use crate::changeset::valid_ids;
use crate::ids::SelectOptionIds;
use crate::select_option::{
    catalog_contains, catalog_lookup, catalog_of, lookup_option, SelectOptionModel, SelectOptionPB,
};

verus! {

broadcast use vstd::string::group_string_axioms;

/// What is shown for a cell: the catalog of the field and the options that
/// the cell selects.
#[derive(Debug)]
pub struct SelectOptionCellDataPB {
    pub options: Vec<SelectOptionPB>,
    pub select_options: Vec<SelectOptionPB>,
}

/// What a display payload is, as plain values.
pub struct CellDataModel {
    pub options: Seq<SelectOptionModel>,
    pub select_options: Seq<SelectOptionModel>,
}

impl View for SelectOptionCellDataPB {
    type V = CellDataModel;

    open spec fn view(&self) -> CellDataModel {
        CellDataModel {
            options: catalog_of(self.options@),
            select_options: catalog_of(self.select_options@),
        }
    }
}

/// The payload that shows nothing: no catalog and no selection.
pub open spec fn empty_cell_data() -> CellDataModel {
    CellDataModel { options: Seq::empty(), select_options: Seq::empty() }
}

impl Default for SelectOptionCellDataPB {
    fn default() -> (payload: SelectOptionCellDataPB)
        ensures
            payload@ == empty_cell_data(),
    {
        let payload = SelectOptionCellDataPB { options: Vec::new(), select_options: Vec::new() };
        assert(payload@.options =~= Seq::<SelectOptionModel>::empty());
        assert(payload@.select_options =~= Seq::<SelectOptionModel>::empty());
        payload
    }
}

/// The options that a sequence of ids refers to: for each id in order the
/// first option of the catalog that has it. An id that the catalog does not
/// know refers to nothing.
pub open spec fn resolved(catalog: Seq<SelectOptionModel>, ids: Seq<Seq<char>>) -> Seq<
    SelectOptionModel,
> {
    ids.filter_map(|id: Seq<char>| catalog_lookup(catalog, id))
}

/// A copy of the catalog, option by option.
pub fn clone_options(options: &Vec<SelectOptionPB>) -> (copy: Vec<SelectOptionPB>)
    ensures
        copy@ == options@,
{
    let copy = options.clone();
    assert(copy@ =~= options@);
    copy
}

/// Looks the ids up in the catalog, in their order, and returns a copy of
/// each option found. An id that the catalog does not know is passed over.
pub fn make_selected_select_options(ids: &SelectOptionIds, options: &Vec<SelectOptionPB>) -> (selected:
    Vec<SelectOptionPB>)
    ensures
        catalog_of(selected@) == resolved(catalog_of(options@), ids@),
{
    let ghost catalog = catalog_of(options@);
    let ghost find = |id: Seq<char>| catalog_lookup(catalog, id);
    let mut selected: Vec<SelectOptionPB> = Vec::new();
    let mut i: usize = 0;
    proof {
        assert(catalog_of(selected@) =~= ids@.take(0).filter_map(find));
    }
    while i < ids.0.len()
        invariant
            i <= ids.0.len(),
            catalog == catalog_of(options@),
            find == |id: Seq<char>| catalog_lookup(catalog, id),
            catalog_of(selected@) == ids@.take(i as int).filter_map(find),
        decreases ids.0.len() - i,
    {
        proof {
            assert(ids@.take(i + 1).drop_last() =~= ids@.take(i as int));
            assert(ids@.take(i + 1).last() == ids@[i as int]);
        }
        match lookup_option(options, ids.0[i].as_str()) {
            Some(option) => {
                let copy = option.clone();
                assert(catalog_of(selected@.push(copy)) =~= catalog_of(selected@) + seq![copy@]);
                selected.push(copy);
            },
            None => {},
        }
        i += 1;
    }
    assert(ids@.take(i as int) =~= ids@);
    selected
}

/// Each option that ids resolve to has an id of the catalog, and is an
/// option of the catalog.
pub proof fn lemma_resolved_in_catalog(catalog: Seq<SelectOptionModel>, ids: Seq<Seq<char>>)
    ensures
        forall|i: int|
            0 <= i < resolved(catalog, ids).len() ==> catalog_contains(
                catalog,
                (#[trigger] resolved(catalog, ids)[i]).id,
            ) && catalog.contains(resolved(catalog, ids)[i]),
    decreases ids.len(),
{
    if ids.len() > 0 {
        lemma_resolved_in_catalog(catalog, ids.drop_last());
        crate::select_option::lemma_lookup_is_in_catalog(catalog, ids.last());
    }
}

/// The ids of the options that ids resolve to are those of the ids that the
/// catalog knows, in the same order.
pub proof fn lemma_resolved_ids(catalog: Seq<SelectOptionModel>, ids: Seq<Seq<char>>)
    ensures
        resolved(catalog, ids).map_values(|option: SelectOptionModel| option.id) == valid_ids(
            catalog,
            ids,
        ),
    decreases ids.len(),
{
    let id_of = |option: SelectOptionModel| option.id;
    let known = |id: Seq<char>| catalog_contains(catalog, id);
    reveal(Seq::filter);
    if ids.len() == 0 {
        assert(resolved(catalog, ids).map_values(id_of) =~= valid_ids(catalog, ids));
    } else {
        let before = ids.drop_last();
        lemma_resolved_ids(catalog, before);
        crate::select_option::lemma_lookup_is_in_catalog(catalog, ids.last());
        assert(resolved(catalog, ids).map_values(id_of) =~= valid_ids(catalog, ids));
    }
}

} // verus!
