//! The options of a selection field and the catalog that holds them.

use vstd::prelude::*;
use crate::ids::{storable_id, SELECTION_IDS_SEPARATOR};

verus! {

broadcast use vstd::string::group_string_axioms;

/// The number of characters of a generated option id.
pub const OPTION_ID_LEN: usize = 4;

/// The colour that an option is shown in.
#[derive(Clone, Copy, Debug, PartialEq, Eq, Structural)]
pub enum SelectOptionColorPB {
    Purple,
    Pink,
    LightPink,
    Orange,
    Yellow,
    Lime,
    Green,
    Aqua,
    Blue,
}

impl Default for SelectOptionColorPB {
    fn default() -> (color: SelectOptionColorPB)
        ensures
            color == SelectOptionColorPB::Purple,
    {
        SelectOptionColorPB::Purple
    }
}

/// One selectable value of a field. The id is its identity; name and colour
/// are what is shown.
#[derive(Debug)]
pub struct SelectOptionPB {
    pub id: String,
    pub name: String,
    pub color: SelectOptionColorPB,
}

/// What an option is, as plain values.
pub struct SelectOptionModel {
    pub id: Seq<char>,
    pub name: Seq<char>,
    pub color: SelectOptionColorPB,
}

impl View for SelectOptionPB {
    type V = SelectOptionModel;

    open spec fn view(&self) -> SelectOptionModel {
        SelectOptionModel { id: self.id@, name: self.name@, color: self.color }
    }
}

impl Clone for SelectOptionPB {
    fn clone(&self) -> (copy: SelectOptionPB)
        ensures
            copy == *self,
    {
        SelectOptionPB { id: self.id.clone(), name: self.name.clone(), color: self.color }
    }
}

/// A character that a generated id is made of: a letter or digit of ASCII,
/// `_` or `-`.
pub open spec fn is_id_symbol(c: char) -> bool {
    ||| c == '_'
    ||| c == '-'
    ||| '0' <= c <= '9'
    ||| 'a' <= c <= 'z'
    ||| 'A' <= c <= 'Z'
}

/// Calls `nanoid::format` with the generator `nanoid::rngs::default` and the
/// alphabet `nanoid::alphabet::SAFE`. The contract claims, of every outcome,
/// that the id has `size` characters and that each is one of the 64 symbols
/// of that alphabet. The sizes left out are those on which `format` does not
/// return (zero) or computes `8 * size` beyond the machine word.
#[verifier::external_body]
fn random_id(size: usize) -> (id: String)
    requires
        0 < size <= usize::MAX / 8,
    ensures
        id@.len() == size,
        forall|i: int| 0 <= i < id@.len() ==> is_id_symbol(#[trigger] id@[i]),
{
    nanoid::format(nanoid::rngs::default, &nanoid::alphabet::SAFE, size)
}

impl SelectOptionPB {
    /// A new option of the given name, in the default colour, under a fresh
    /// id. Whatever id is drawn, it can be stored in a cell value.
    pub fn new(name: &str) -> (option: SelectOptionPB)
        ensures
            option.name@ == name@,
            option.color == SelectOptionColorPB::Purple,
            option.id@.len() == OPTION_ID_LEN,
            storable_id(option.id@),
    {
        SelectOptionPB::with_color(name, SelectOptionColorPB::default())
    }

    /// A new option of the given name and colour, under a fresh id.
    pub fn with_color(name: &str, color: SelectOptionColorPB) -> (option: SelectOptionPB)
        ensures
            option.name@ == name@,
            option.color == color,
            option.id@.len() == OPTION_ID_LEN,
            storable_id(option.id@),
    {
        let id = random_id(OPTION_ID_LEN);
        assert(!id@.contains(SELECTION_IDS_SEPARATOR)) by {
            assert forall|i: int| 0 <= i < id@.len() implies id@[i] != SELECTION_IDS_SEPARATOR by {
                assert(is_id_symbol(id@[i]));
            }
        }
        SelectOptionPB { id, name: name.to_owned(), color }
    }
}

/// The catalog of a field as plain values: its options in display order.
pub open spec fn catalog_of(options: Seq<SelectOptionPB>) -> Seq<SelectOptionModel> {
    Seq::new(options.len(), |i: int| options[i]@)
}

/// Some option of the catalog has this id.
pub open spec fn catalog_contains(catalog: Seq<SelectOptionModel>, id: Seq<char>) -> bool {
    exists|i: int| 0 <= i < catalog.len() && (#[trigger] catalog[i]).id == id
}

/// Every id of the catalog can be stored in a cell value: none is empty and
/// none holds the separator.
pub open spec fn storable_catalog(catalog: Seq<SelectOptionModel>) -> bool {
    forall|i: int| 0 <= i < catalog.len() ==> storable_id((#[trigger] catalog[i]).id)
}

/// The place of the first option with this id, or the catalog's length
/// where there is none.
pub open spec fn catalog_position(catalog: Seq<SelectOptionModel>, id: Seq<char>) -> int
    decreases catalog.len(),
{
    if catalog.len() == 0 || catalog[0].id == id {
        0
    } else {
        1 + catalog_position(catalog.skip(1), id)
    }
}

/// The first option of the catalog with this id, if there is one.
pub open spec fn catalog_lookup(catalog: Seq<SelectOptionModel>, id: Seq<char>) -> Option<
    SelectOptionModel,
> {
    if catalog_contains(catalog, id) {
        Some(catalog[catalog_position(catalog, id)])
    } else {
        None
    }
}

/// `catalog_position` is the least index at which the id stands.
pub proof fn lemma_catalog_position(catalog: Seq<SelectOptionModel>, id: Seq<char>, at: int)
    requires
        0 <= at <= catalog.len(),
        forall|j: int| 0 <= j < at ==> (#[trigger] catalog[j]).id != id,
        at < catalog.len() ==> catalog[at].id == id,
    ensures
        catalog_position(catalog, id) == at,
    decreases catalog.len(),
{
    if catalog.len() > 0 && at > 0 {
        assert(catalog[0].id != id);
        let rest = catalog.skip(1);
        assert forall|j: int| 0 <= j < at - 1 implies (#[trigger] rest[j]).id != id by {
            assert(rest[j] == catalog[j + 1]);
        }
        lemma_catalog_position(rest, id, at - 1);
    }
}

/// What `catalog_lookup` finds is an option of the catalog with the id
/// asked for, and it finds one exactly when the catalog knows the id.
pub proof fn lemma_lookup_is_in_catalog(catalog: Seq<SelectOptionModel>, id: Seq<char>)
    ensures
        catalog_lookup(catalog, id) is Some <==> catalog_contains(catalog, id),
        catalog_lookup(catalog, id) is Some ==> catalog_lookup(catalog, id)->0.id == id
            && catalog.contains(catalog_lookup(catalog, id)->0),
{
    if catalog_contains(catalog, id) {
        lemma_position_in_range(catalog, id);
    }
}

/// Where the catalog knows the id, `catalog_position` is the index of an
/// option with that id.
pub proof fn lemma_position_in_range(catalog: Seq<SelectOptionModel>, id: Seq<char>)
    requires
        catalog_contains(catalog, id),
    ensures
        0 <= catalog_position(catalog, id) < catalog.len(),
        catalog[catalog_position(catalog, id)].id == id,
    decreases catalog.len(),
{
    let i = choose|i: int| 0 <= i < catalog.len() && (#[trigger] catalog[i]).id == id;
    if catalog[0].id != id {
        let rest = catalog.skip(1);
        assert(rest[i - 1].id == id);
        lemma_position_in_range(rest, id);
    }
}

/// The place of the first option with the given id.
pub fn position_of_option(options: &Vec<SelectOptionPB>, id: &str) -> (at: Option<usize>)
    ensures
        at is Some <==> catalog_contains(catalog_of(options@), id@),
        at is Some ==> at->0 == catalog_position(catalog_of(options@), id@) && at->0
            < options.len(),
{
    let ghost catalog = catalog_of(options@);
    let mut i: usize = 0;
    while i < options.len()
        invariant
            i <= options.len(),
            catalog == catalog_of(options@),
            forall|j: int| 0 <= j < i ==> (#[trigger] catalog[j]).id != id@,
        decreases options.len() - i,
    {
        if *options[i].id.as_str() == *id {
            proof {
                assert(catalog[i as int].id == id@);
                lemma_catalog_position(catalog, id@, i as int);
            }
            return Some(i);
        }
        i += 1;
    }
    None
}

/// Whether some option of the catalog has the given id.
pub fn contains_option(options: &Vec<SelectOptionPB>, id: &str) -> (found: bool)
    ensures
        found == catalog_contains(catalog_of(options@), id@),
{
    position_of_option(options, id).is_some()
}

/// The first option of the catalog with the given id, if there is one.
pub fn lookup_option<'a>(options: &'a Vec<SelectOptionPB>, id: &str) -> (found: Option<
    &'a SelectOptionPB,
>)
    ensures
        match found {
            Some(option) => catalog_lookup(catalog_of(options@), id@) == Some(option@),
            None => catalog_lookup(catalog_of(options@), id@) is None,
        },
{
    match position_of_option(options, id) {
        Some(at) => Some(&options[at]),
        None => None,
    }
}

} // verus!
