use select_option::{
    CellDataChangeset, SelectOptionCellChangeset, SelectOptionIds, SelectOptionPB,
    SingleSelectTypeOptionBuilder, SingleSelectTypeOptionPB,
};

/// A field as a caller holds it: a name and the configuration of its column.
struct Field {
    name: String,
    type_option: SingleSelectTypeOptionPB,
}

fn build_field(builder: SingleSelectTypeOptionBuilder, name: &str) -> Field {
    Field { name: name.to_owned(), type_option: builder.build() }
}

/// The changeset as the text that travels to the grid.
fn to_str(changeset: &SelectOptionCellChangeset) -> String {
    let mut object = serde_json::Map::new();
    object.insert(
        "insert_option_ids".to_owned(),
        serde_json::Value::from(changeset.insert_option_ids.clone()),
    );
    object.insert(
        "delete_option_ids".to_owned(),
        serde_json::Value::from(changeset.delete_option_ids.clone()),
    );
    serde_json::Value::Object(object).to_string()
}

fn string_list(value: Option<&serde_json::Value>) -> Option<Vec<String>> {
    let items = value?.as_array()?;
    let mut ids = Vec::new();
    for item in items {
        ids.push(item.as_str()?.to_owned());
    }
    Some(ids)
}

/// The text that arrived, read as a changeset where it has the shape of one.
fn changeset_from(text: String) -> CellDataChangeset<SelectOptionCellChangeset> {
    let decoded = match serde_json::from_str::<serde_json::Value>(&text) {
        Ok(value) => {
            let inserts = string_list(value.get("insert_option_ids"));
            let deletes = string_list(value.get("delete_option_ids"));
            match (inserts, deletes) {
                (Some(insert_option_ids), Some(delete_option_ids)) => {
                    Some(SelectOptionCellChangeset { insert_option_ids, delete_option_ids })
                }
                _ => None,
            }
        }
        Err(_) => None,
    };
    CellDataChangeset(decoded)
}

#[test]
fn single_select_insert_multi_option_test() {
    let google = SelectOptionPB::new("Google");
    let facebook = SelectOptionPB::new("Facebook");
    let single_select = SingleSelectTypeOptionBuilder::default()
        .add_option(google.clone())
        .add_option(facebook.clone());

    let field_rev = build_field(single_select, "Platform");
    assert_eq!(field_rev.name, "Platform");
    let type_option = field_rev.type_option;
    let option_ids = vec![google.id.clone(), facebook.id];
    let data = to_str(&SelectOptionCellChangeset::from_insert_options(option_ids));
    let select_option_ids: SelectOptionIds =
        type_option.apply_changeset(changeset_from(data), None).unwrap().into();

    assert_eq!(&select_option_ids.0, &vec![google.id]);
}

#[test]
fn single_select_unselect_multi_option_test() {
    let google = SelectOptionPB::new("Google");
    let facebook = SelectOptionPB::new("Facebook");
    let single_select = SingleSelectTypeOptionBuilder::default()
        .add_option(google.clone())
        .add_option(facebook.clone());

    let field_rev = build_field(single_select, "Platform");
    let type_option = field_rev.type_option;
    let option_ids = vec![google.id.clone(), facebook.id];

    // insert
    let data = to_str(&SelectOptionCellChangeset::from_insert_options(option_ids.clone()));
    let select_option_ids: SelectOptionIds =
        type_option.apply_changeset(changeset_from(data), None).unwrap().into();
    assert_eq!(&select_option_ids.0, &vec![google.id]);

    // delete
    let data = to_str(&SelectOptionCellChangeset::from_delete_options(option_ids));
    let select_option_ids: SelectOptionIds =
        type_option.apply_changeset(changeset_from(data), None).unwrap().into();
    assert!(select_option_ids.0.is_empty());
}

#[test]
fn single_select_insert_non_exist_option_test() {
    let google = SelectOptionPB::new("Google");
    let single_select = SingleSelectTypeOptionBuilder::default();
    let field_rev = build_field(single_select, "Platform");
    let type_option = field_rev.type_option;

    let option_ids = vec![google.id];
    let data = to_str(&SelectOptionCellChangeset::from_insert_options(option_ids));
    let cell_option_ids = type_option.apply_changeset(changeset_from(data), None).unwrap();

    assert!(cell_option_ids.is_empty());
}

#[test]
fn single_select_insert_invalid_option_id_test() {
    let single_select = SingleSelectTypeOptionBuilder::default();
    let field_rev = build_field(single_select, "Platform");
    let type_option = field_rev.type_option;

    let data = to_str(&SelectOptionCellChangeset::from_insert_option_id(""));
    let cell_option_ids = type_option.apply_changeset(changeset_from(data), None).unwrap();
    assert_eq!(cell_option_ids, "");
}

#[test]
fn single_select_invalid_changeset_data_test() {
    let single_select = SingleSelectTypeOptionBuilder::default();
    let field_rev = build_field(single_select, "Platform");
    let type_option = field_rev.type_option;

    // The type of the changeset should be SelectOptionCellChangeset
    assert!(type_option.apply_changeset(changeset_from("123".to_owned()), None).is_err());
}
