//! Selection fields of a grid: the option catalog of a field, the codec for
//! the value a cell stores, and the rules by which an edit changes that value.

pub mod cardinality;
pub mod cell_data;
pub mod changeset;
pub mod field_type;
pub mod ids;
pub mod select_option;
pub mod single_select;
pub mod text;

pub use cardinality::CardinalityPolicy;
pub use cell_data::{make_selected_select_options, SelectOptionCellDataPB};
pub use changeset::{
    apply_changeset, CellDataChangeset, CellRevision, ChangesetShapeError,
    SelectOptionCellChangeset,
};
pub use field_type::FieldType;
pub use ids::{SelectOptionIds, SELECTION_IDS_SEPARATOR};
pub use select_option::{SelectOptionColorPB, SelectOptionPB};
pub use single_select::{SingleSelectTypeOptionBuilder, SingleSelectTypeOptionPB};
