//! The kinds of field that a grid has.

use vstd::prelude::*;

verus! {

/// The type of a field, which says how the cells of its column are read.
#[derive(Clone, Copy, Debug, PartialEq, Eq, Structural)]
pub enum FieldType {
    RichText,
    Number,
    DateTime,
    SingleSelect,
    MultiSelect,
    Checkbox,
    URL,
}

impl FieldType {
    /// The field is a selection field: its cells refer to options of a
    /// catalog.
    pub open spec fn selects_options(self) -> bool {
        self == FieldType::SingleSelect || self == FieldType::MultiSelect
    }

    /// Whether the field is a selection field.
    pub fn is_select_option(&self) -> (select: bool)
        ensures
            select == self.selects_options(),
    {
        match self {
            FieldType::SingleSelect => true,
            FieldType::MultiSelect => true,
            _ => false,
        }
    }
}

} // verus!
