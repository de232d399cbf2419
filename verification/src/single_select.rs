//! The type option of a single-select field: a catalog of options, of which
//! a cell selects one at most.

use vstd::prelude::*;
use crate::cardinality::CardinalityPolicy;
use crate::cell_data::{
    clone_options, empty_cell_data, lemma_resolved_in_catalog, make_selected_select_options,
    resolved, CellDataModel, SelectOptionCellDataPB,
};
use crate::changeset::{
    applied, apply_changeset, stored_value, CellDataChangeset, CellRevision, ChangesetShapeError,
    SelectOptionCellChangeset,
};
use crate::field_type::FieldType;
use crate::ids::{parse_ids, SelectOptionIds};
use crate::select_option::{catalog_contains, catalog_of, SelectOptionModel, SelectOptionPB};

verus! {

broadcast use vstd::string::group_string_axioms;

/// The configuration of a single-select field.
#[derive(Debug)]
pub struct SingleSelectTypeOptionPB {
    /// The catalog, in display order.
    pub options: Vec<SelectOptionPB>,
    /// Whether the options are shown without their colour. No rule of this
    /// library reads it.
    pub disable_color: bool,
}

impl Default for SingleSelectTypeOptionPB {
    fn default() -> (type_option: SingleSelectTypeOptionPB)
        ensures
            type_option.options@ == Seq::<SelectOptionPB>::empty(),
            !type_option.disable_color,
    {
        SingleSelectTypeOptionPB { options: Vec::new(), disable_color: false }
    }
}

impl Clone for SingleSelectTypeOptionPB {
    fn clone(&self) -> (copy: SingleSelectTypeOptionPB)
        ensures
            copy.options@ == self.options@,
            copy.disable_color == self.disable_color,
    {
        SingleSelectTypeOptionPB {
            options: clone_options(&self.options),
            disable_color: self.disable_color,
        }
    }
}

/// At most the first option of the sequence.
pub open spec fn first_option(options: Seq<SelectOptionModel>) -> Seq<SelectOptionModel> {
    if options.len() == 0 {
        Seq::empty()
    } else {
        seq![options[0]]
    }
}

impl SingleSelectTypeOptionPB {
    /// The catalog of the field as plain values.
    pub open spec fn catalog(&self) -> Seq<SelectOptionModel> {
        catalog_of(self.options@)
    }

    /// What a cell with the given ids shows: the catalog, and the first
    /// option that the ids resolve to, if they resolve to any.
    pub open spec fn shown(&self, ids: Seq<Seq<char>>) -> CellDataModel {
        CellDataModel {
            options: self.catalog(),
            select_options: first_option(resolved(self.catalog(), ids)),
        }
    }

    /// The options of the field, in display order.
    pub fn options(&self) -> (options: &Vec<SelectOptionPB>)
        ensures
            options == &self.options,
    {
        &self.options
    }

    /// The display payload of a cell that holds the given ids. Ids that the
    /// catalog does not know are passed over, and of the options found only
    /// the first is kept.
    pub fn selected_select_option(&self, ids: &SelectOptionIds) -> (payload: SelectOptionCellDataPB)
        ensures
            payload@ == self.shown(ids@),
            payload.select_options.len() <= 1,
            forall|i: int|
                0 <= i < payload@.select_options.len() ==> catalog_contains(
                    payload@.options,
                    (#[trigger] payload@.select_options[i]).id,
                ),
    {
        proof {
            lemma_resolved_in_catalog(self.catalog(), ids@);
        }
        let mut select_options = make_selected_select_options(ids, &self.options);
        let ghost found = catalog_of(select_options@);
        select_options.truncate(1);
        let payload = SelectOptionCellDataPB {
            options: clone_options(&self.options),
            select_options,
        };
        assert(payload@.select_options =~= first_option(found));
        payload
    }

    /// The display payload of a stored cell value, read as a field of the
    /// given type. Read as anything but a selection field the cell shows
    /// nothing: that is no failure.
    pub fn decode_cell_data(&self, cell_data: &str, decoded_field_type: &FieldType) -> (payload:
        SelectOptionCellDataPB)
        ensures
            payload@ == (if decoded_field_type.selects_options() {
                self.shown(parse_ids(cell_data@))
            } else {
                empty_cell_data()
            }),
    {
        if !decoded_field_type.is_select_option() {
            return SelectOptionCellDataPB::default();
        }
        let ids = SelectOptionIds::parse(cell_data);
        self.selected_select_option(&ids)
    }

    /// Applies an edit to a cell of this field and returns the value that
    /// the cell stores afterwards: one id at most. It fails only where the
    /// payload holds no changeset, and then nothing is returned to store.
    pub fn apply_changeset(
        &self,
        changeset: CellDataChangeset<SelectOptionCellChangeset>,
        cell_rev: Option<CellRevision>,
    ) -> (stored: Result<String, ChangesetShapeError>)
        ensures
            match changeset.0 {
                Some(edit) => stored is Ok && stored->Ok_0@ == applied(
                    self.catalog(),
                    CardinalityPolicy::Single,
                    edit@,
                    stored_value(cell_rev),
                ),
                None => stored == Err::<String, ChangesetShapeError>(ChangesetShapeError),
            },
    {
        let current = match cell_rev {
            Some(rev) => rev.data,
            None => String::new(),
        };
        apply_changeset(&self.options, CardinalityPolicy::Single, changeset, current.as_str())
    }
}

/// Puts the configuration of a single-select field together, option by
/// option.
pub struct SingleSelectTypeOptionBuilder(SingleSelectTypeOptionPB);

impl Default for SingleSelectTypeOptionBuilder {
    fn default() -> (builder: SingleSelectTypeOptionBuilder)
        ensures
            builder.options() == Seq::<SelectOptionPB>::empty(),
            !builder.disable_color(),
    {
        SingleSelectTypeOptionBuilder(SingleSelectTypeOptionPB::default())
    }
}

impl SingleSelectTypeOptionBuilder {
    /// The options added so far, in the order in which they were added.
    pub closed spec fn options(&self) -> Seq<SelectOptionPB> {
        self.0.options@
    }

    /// The display flag of the configuration that is built.
    pub closed spec fn disable_color(&self) -> bool {
        self.0.disable_color
    }

    /// Adds an option behind those added before.
    pub fn add_option(self, opt: SelectOptionPB) -> (builder: SingleSelectTypeOptionBuilder)
        ensures
            builder.options() == self.options().push(opt),
            builder.disable_color() == self.disable_color(),
    {
        let mut type_option = self.0;
        type_option.options.push(opt);
        SingleSelectTypeOptionBuilder(type_option)
    }

    /// The type of the field that is built.
    pub fn field_type(&self) -> (field_type: FieldType)
        ensures
            field_type == FieldType::SingleSelect,
    {
        FieldType::SingleSelect
    }

    /// The configuration as it stands.
    pub fn data_format(&self) -> (type_option: &SingleSelectTypeOptionPB)
        ensures
            type_option.options@ == self.options(),
            type_option.disable_color == self.disable_color(),
    {
        &self.0
    }

    /// Ends the building and hands out the configuration.
    pub fn build(self) -> (type_option: SingleSelectTypeOptionPB)
        ensures
            type_option.options@ == self.options(),
            type_option.disable_color == self.disable_color(),
    {
        self.0
    }
}

} // verus!
