use select_option::{
    apply_changeset, CardinalityPolicy, CellDataChangeset, CellRevision, ChangesetShapeError,
    SelectOptionCellChangeset, SelectOptionColorPB, SelectOptionPB, SingleSelectTypeOptionBuilder,
    SingleSelectTypeOptionPB,
};

fn option(id: &str, name: &str) -> SelectOptionPB {
    SelectOptionPB { id: id.to_owned(), name: name.to_owned(), color: SelectOptionColorPB::Purple }
}

fn platforms() -> SingleSelectTypeOptionPB {
    SingleSelectTypeOptionBuilder::default()
        .add_option(option("goog", "Google"))
        .add_option(option("face", "Facebook"))
        .add_option(option("twit", "Twitter"))
        .build()
}

fn ids(list: &[&str]) -> Vec<String> {
    list.iter().map(|id| id.to_string()).collect()
}

fn edit(inserts: &[&str], deletes: &[&str]) -> CellDataChangeset<SelectOptionCellChangeset> {
    CellDataChangeset(Some(SelectOptionCellChangeset {
        insert_option_ids: ids(inserts),
        delete_option_ids: ids(deletes),
    }))
}

fn stored(data: &str) -> Option<CellRevision> {
    Some(CellRevision { data: data.to_owned() })
}

#[test]
fn single_insert_of_two_ids_stores_the_first() {
    let type_option = platforms();
    let result = type_option.apply_changeset(edit(&["goog", "face"], &[]), stored(""));
    assert_eq!(result, Ok("goog".to_owned()));
}

#[test]
fn single_insert_passes_over_unknown_ids_before_the_first_known() {
    let type_option = platforms();
    let result = type_option.apply_changeset(edit(&["none", "face", "goog"], &[]), None);
    assert_eq!(result, Ok("face".to_owned()));
}

#[test]
fn single_insert_replaces_the_stored_id() {
    let type_option = platforms();
    let result = type_option.apply_changeset(edit(&["twit"], &[]), stored("goog"));
    assert_eq!(result, Ok("twit".to_owned()));
}

#[test]
fn single_insert_wins_over_delete_of_the_same_id() {
    let type_option = platforms();
    let result = type_option.apply_changeset(edit(&["goog"], &["goog"]), stored("goog"));
    assert_eq!(result, Ok("goog".to_owned()));
}

#[test]
fn single_delete_of_the_stored_id_stores_nothing() {
    let type_option = platforms();
    let result = type_option.apply_changeset(edit(&[], &["goog"]), stored("goog"));
    assert_eq!(result, Ok(String::new()));
}

#[test]
fn single_insert_then_delete_leaves_an_empty_cell() {
    let type_option = platforms();
    let first = type_option.apply_changeset(edit(&["face"], &[]), stored("goog")).unwrap();
    assert_eq!(first, "face");
    let second = type_option.apply_changeset(edit(&[], &["face"]), stored(&first)).unwrap();
    assert_eq!(second, "");
}

#[test]
fn single_delete_of_another_id_keeps_the_stored_id() {
    let type_option = platforms();
    let result = type_option.apply_changeset(edit(&[], &["face"]), stored("goog"));
    assert_eq!(result, Ok("goog".to_owned()));
}

#[test]
fn single_insert_of_unknown_id_into_empty_cell_stores_nothing() {
    let type_option = platforms();
    let result = type_option.apply_changeset(edit(&["unknown"], &[]), stored(""));
    assert_eq!(result, Ok(String::new()));
}

#[test]
fn single_insert_of_unknown_id_keeps_the_stored_id() {
    let type_option = platforms();
    let result = type_option.apply_changeset(edit(&["unknown"], &[]), stored("goog"));
    assert_eq!(result, Ok("goog".to_owned()));
}

#[test]
fn single_delete_of_unknown_id_is_passed_over() {
    let type_option = platforms();
    // The cell holds an id that left the catalog; deleting by that id does
    // nothing, since the catalog does not know it.
    let result = type_option.apply_changeset(edit(&[], &["gone"]), stored("gone"));
    assert_eq!(result, Ok("gone".to_owned()));
}

#[test]
fn single_edit_of_nothing_keeps_only_the_first_stored_id() {
    let type_option = platforms();
    let result = type_option.apply_changeset(edit(&[], &[]), stored("face,goog"));
    assert_eq!(result, Ok("face".to_owned()));
}

#[test]
fn single_delete_from_empty_cell_stores_nothing() {
    let type_option = platforms();
    assert_eq!(type_option.apply_changeset(edit(&[], &["goog"]), None), Ok(String::new()));
    assert_eq!(type_option.apply_changeset(edit(&[], &["goog"]), stored("")), Ok(String::new()));
}

#[test]
fn missing_changeset_is_a_shape_error() {
    let type_option = platforms();
    let result = type_option.apply_changeset(CellDataChangeset(None), stored("goog"));
    assert_eq!(result, Err(ChangesetShapeError));
    let result =
        apply_changeset(&type_option.options, CardinalityPolicy::Multi, CellDataChangeset(None), "");
    assert_eq!(result, Err(ChangesetShapeError));
}

#[test]
fn try_into_inner_gives_the_changeset_or_the_error() {
    let some = edit(&["goog"], &["face"]).try_into_inner().unwrap();
    assert_eq!(some.insert_option_ids, ids(&["goog"]));
    assert_eq!(some.delete_option_ids, ids(&["face"]));
    let none: CellDataChangeset<SelectOptionCellChangeset> = CellDataChangeset(None);
    assert_eq!(none.try_into_inner().unwrap_err(), ChangesetShapeError);
}

#[test]
fn empty_catalog_accepts_every_edit_and_stores_nothing() {
    let type_option = SingleSelectTypeOptionPB::default();
    assert_eq!(type_option.apply_changeset(edit(&["goog"], &["face"]), None), Ok(String::new()));
}

#[test]
fn multi_insert_appends_in_order_without_repeats() {
    let type_option = platforms();
    let result = apply_changeset(
        &type_option.options,
        CardinalityPolicy::Multi,
        edit(&["twit", "goog", "twit", "none", "face"], &[]),
        "goog",
    );
    assert_eq!(result, Ok("goog,twit,face".to_owned()));
}

#[test]
fn multi_delete_comes_before_insert() {
    let type_option = platforms();
    let result = apply_changeset(
        &type_option.options,
        CardinalityPolicy::Multi,
        edit(&["goog"], &["goog", "face"]),
        "goog,face,twit",
    );
    assert_eq!(result, Ok("twit,goog".to_owned()));
}

#[test]
fn multi_overlapping_batches_give_no_repeats() {
    let type_option = platforms();
    let first = apply_changeset(
        &type_option.options,
        CardinalityPolicy::Multi,
        edit(&["goog", "face"], &[]),
        "",
    )
    .unwrap();
    assert_eq!(first, "goog,face");
    let second = apply_changeset(
        &type_option.options,
        CardinalityPolicy::Multi,
        edit(&["face", "twit", "goog"], &[]),
        &first,
    )
    .unwrap();
    assert_eq!(second, "goog,face,twit");
    let at_once = apply_changeset(
        &type_option.options,
        CardinalityPolicy::Multi,
        edit(&["goog", "face", "face", "twit", "goog"], &[]),
        "",
    )
    .unwrap();
    assert_eq!(at_once, second);
}

#[test]
fn multi_edit_drops_repeats_of_the_stored_value() {
    let type_option = platforms();
    let result = apply_changeset(
        &type_option.options,
        CardinalityPolicy::Multi,
        edit(&[], &[]),
        "face,,goog,face,",
    );
    assert_eq!(result, Ok("face,goog".to_owned()));
}

#[test]
fn multi_delete_from_empty_cell_stores_nothing() {
    let type_option = platforms();
    let result =
        apply_changeset(&type_option.options, CardinalityPolicy::Multi, edit(&[], &["goog"]), "");
    assert_eq!(result, Ok(String::new()));
}

#[test]
fn policy_merge_on_plain_ids() {
    let current = ids(&["a", "b", "a", "c"]);
    let single = CardinalityPolicy::Single.merge(&current, &ids(&[]), &ids(&["a"]));
    assert_eq!(single, ids(&["b"]));
    let single = CardinalityPolicy::Single.merge(&current, &ids(&["x", "y"]), &ids(&[]));
    assert_eq!(single, ids(&["x"]));
    let single = CardinalityPolicy::Single.merge(&ids(&[]), &ids(&[]), &ids(&["a"]));
    assert_eq!(single, ids(&[]));
    let multi = CardinalityPolicy::Multi.merge(&current, &ids(&["d", "b", "d"]), &ids(&["c"]));
    assert_eq!(multi, ids(&["a", "b", "d"]));
}

#[test]
fn changeset_constructors_fill_one_side() {
    let c = SelectOptionCellChangeset::from_insert_option_id("goog");
    assert_eq!((c.insert_option_ids, c.delete_option_ids), (ids(&["goog"]), ids(&[])));
    let c = SelectOptionCellChangeset::from_insert_options(ids(&["goog", "face"]));
    assert_eq!((c.insert_option_ids, c.delete_option_ids), (ids(&["goog", "face"]), ids(&[])));
    let c = SelectOptionCellChangeset::from_delete_option_id("goog");
    assert_eq!((c.insert_option_ids, c.delete_option_ids), (ids(&[]), ids(&["goog"])));
    let c = SelectOptionCellChangeset::from_delete_options(ids(&["goog", "face"]));
    assert_eq!((c.insert_option_ids, c.delete_option_ids), (ids(&[]), ids(&["goog", "face"])));
}
