use select_option::cardinality::{contains_id, distinct_ids, remove_ids};
use select_option::changeset::filter_valid;
use select_option::select_option::{contains_option, lookup_option, position_of_option};
use select_option::{
    make_selected_select_options, FieldType, SelectOptionColorPB, SelectOptionIds, SelectOptionPB,
    SingleSelectTypeOptionBuilder, SELECTION_IDS_SEPARATOR,
};

fn option(id: &str, name: &str, color: SelectOptionColorPB) -> SelectOptionPB {
    SelectOptionPB { id: id.to_owned(), name: name.to_owned(), color }
}

fn catalog() -> Vec<SelectOptionPB> {
    vec![
        option("goog", "Google", SelectOptionColorPB::Purple),
        option("face", "Facebook", SelectOptionColorPB::Pink),
        option("goog", "Shadow", SelectOptionColorPB::Blue),
    ]
}

fn ids(list: &[&str]) -> Vec<String> {
    list.iter().map(|id| id.to_string()).collect()
}

#[test]
fn parse_of_empty_value_is_empty() {
    assert_eq!(SelectOptionIds::parse("").0, ids(&[]));
}

#[test]
fn parse_splits_on_the_separator() {
    assert_eq!(SELECTION_IDS_SEPARATOR, ',');
    assert_eq!(SelectOptionIds::parse("goog").0, ids(&["goog"]));
    assert_eq!(SelectOptionIds::parse("goog,face").0, ids(&["goog", "face"]));
    assert_eq!(SelectOptionIds::parse("a,b,a").0, ids(&["a", "b", "a"]));
}

#[test]
fn parse_skips_empty_fragments() {
    assert_eq!(SelectOptionIds::parse(",").0, ids(&[]));
    assert_eq!(SelectOptionIds::parse(",,,").0, ids(&[]));
    assert_eq!(SelectOptionIds::parse(",a,,b,").0, ids(&["a", "b"]));
    assert_eq!(SelectOptionIds::parse("a,").0, ids(&["a"]));
}

#[test]
fn parse_keeps_characters_beyond_ascii() {
    assert_eq!(SelectOptionIds::parse("ä€,日本").0, ids(&["ä€", "日本"]));
}

#[test]
fn from_string_parses() {
    let parsed: SelectOptionIds = "x,y".to_owned().into();
    assert_eq!(parsed.into_inner(), ids(&["x", "y"]));
}

#[test]
fn serialize_joins_with_the_separator() {
    assert_eq!(SelectOptionIds(ids(&[])).to_string(), "");
    assert_eq!(SelectOptionIds(ids(&["goog"])).to_string(), "goog");
    assert_eq!(SelectOptionIds(ids(&["goog", "face", "goog"])).to_string(), "goog,face,goog");
}

#[test]
fn round_trip_keeps_repeats_and_order() {
    let written = ids(&["b", "a", "b", "c", "a"]);
    let raw = SelectOptionIds(written.clone()).to_string();
    assert_eq!(raw, "b,a,b,c,a");
    assert_eq!(SelectOptionIds::parse(&raw).0, written);
}

#[test]
fn round_trip_does_not_hold_of_an_empty_id() {
    let raw = SelectOptionIds(ids(&["", "a"])).to_string();
    assert_eq!(raw, ",a");
    assert_eq!(SelectOptionIds::parse(&raw).0, ids(&["a"]));
}

#[test]
fn new_option_has_a_storable_id() {
    let option = SelectOptionPB::new("Google");
    assert_eq!(option.name, "Google");
    assert_eq!(option.color, SelectOptionColorPB::Purple);
    assert_eq!(option.id.chars().count(), 4);
    assert!(option.id.chars().all(|c| c.is_ascii_alphanumeric() || c == '_' || c == '-'));
    assert_eq!(SelectOptionIds::parse(&option.id).0, vec![option.id.clone()]);
    let other = SelectOptionPB::with_color("Google", SelectOptionColorPB::Lime);
    assert_eq!(other.color, SelectOptionColorPB::Lime);
    assert_eq!(other.id.chars().count(), 4);
}

#[test]
fn default_color_is_purple() {
    assert_eq!(SelectOptionColorPB::default(), SelectOptionColorPB::Purple);
}

#[test]
fn lookup_finds_the_first_option_with_the_id() {
    let options = catalog();
    assert_eq!(position_of_option(&options, "goog"), Some(0));
    assert_eq!(position_of_option(&options, "face"), Some(1));
    assert_eq!(position_of_option(&options, "none"), None);
    assert_eq!(lookup_option(&options, "goog").unwrap().name, "Google");
    assert!(lookup_option(&options, "").is_none());
    assert!(contains_option(&options, "face"));
    assert!(!contains_option(&options, "fac"));
    assert!(!contains_option(&Vec::new(), "face"));
}

#[test]
fn filter_valid_keeps_known_ids_in_order() {
    let options = catalog();
    let valid = filter_valid(&options, &ids(&["none", "face", "", "goog", "face"]));
    assert_eq!(valid, ids(&["face", "goog", "face"]));
    assert_eq!(filter_valid(&Vec::new(), &ids(&["face"])), ids(&[]));
}

#[test]
fn id_helpers_on_plain_ids() {
    let held = ids(&["a", "b", "a", "c"]);
    assert!(contains_id(&held, "c"));
    assert!(!contains_id(&held, "d"));
    assert_eq!(remove_ids(&held, &ids(&["a", "x"])), ids(&["b", "c"]));
    assert_eq!(remove_ids(&held, &ids(&[])), held);
    assert_eq!(distinct_ids(&held), ids(&["a", "b", "c"]));
    assert_eq!(distinct_ids(&ids(&[])), ids(&[]));
}

#[test]
fn resolve_drops_unknown_ids_and_keeps_order() {
    let options = catalog();
    let selected = make_selected_select_options(
        &SelectOptionIds(ids(&["face", "gone", "goog", "face"])),
        &options,
    );
    let names: Vec<&str> = selected.iter().map(|o| o.name.as_str()).collect();
    assert_eq!(names, vec!["Facebook", "Google", "Facebook"]);
    assert_eq!(selected[0].color, SelectOptionColorPB::Pink);
}

#[test]
fn single_select_shows_one_option_at_most() {
    let type_option = SingleSelectTypeOptionBuilder::default()
        .add_option(option("goog", "Google", SelectOptionColorPB::Purple))
        .add_option(option("face", "Facebook", SelectOptionColorPB::Pink))
        .build();
    let payload = type_option.selected_select_option(&SelectOptionIds(ids(&["gone", "face", "goog"])));
    assert_eq!(payload.options.len(), 2);
    assert_eq!(payload.select_options.len(), 1);
    assert_eq!(payload.select_options[0].id, "face");
    let payload = type_option.selected_select_option(&SelectOptionIds(ids(&["gone"])));
    assert_eq!(payload.options.len(), 2);
    assert!(payload.select_options.is_empty());
}

#[test]
fn decode_under_a_selection_type_resolves_the_stored_ids() {
    let type_option = SingleSelectTypeOptionBuilder::default()
        .add_option(option("goog", "Google", SelectOptionColorPB::Purple))
        .add_option(option("face", "Facebook", SelectOptionColorPB::Pink))
        .build();
    for field_type in [FieldType::SingleSelect, FieldType::MultiSelect] {
        let payload = type_option.decode_cell_data("face", &field_type);
        assert_eq!(payload.options.len(), 2);
        assert_eq!(payload.options[0].name, "Google");
        assert_eq!(payload.select_options.len(), 1);
        assert_eq!(payload.select_options[0].name, "Facebook");
    }
    let payload = type_option.decode_cell_data("", &FieldType::SingleSelect);
    assert_eq!(payload.options.len(), 2);
    assert!(payload.select_options.is_empty());
}

#[test]
fn decode_under_another_type_shows_nothing() {
    let type_option = SingleSelectTypeOptionBuilder::default()
        .add_option(option("goog", "Google", SelectOptionColorPB::Purple))
        .build();
    for field_type in [
        FieldType::RichText,
        FieldType::Number,
        FieldType::DateTime,
        FieldType::Checkbox,
        FieldType::URL,
    ] {
        assert!(!field_type.is_select_option());
        let payload = type_option.decode_cell_data("goog", &field_type);
        assert!(payload.options.is_empty());
        assert!(payload.select_options.is_empty());
    }
    assert!(FieldType::SingleSelect.is_select_option());
    assert!(FieldType::MultiSelect.is_select_option());
}

#[test]
fn builder_adds_options_in_order() {
    let builder = SingleSelectTypeOptionBuilder::default();
    assert_eq!(builder.field_type(), FieldType::SingleSelect);
    assert!(builder.data_format().options.is_empty());
    assert!(!builder.data_format().disable_color);
    let builder = builder
        .add_option(option("b", "B", SelectOptionColorPB::Aqua))
        .add_option(option("a", "A", SelectOptionColorPB::Green));
    assert_eq!(builder.data_format().options.len(), 2);
    let type_option = builder.build();
    let names: Vec<&str> = type_option.options().iter().map(|o| o.id.as_str()).collect();
    assert_eq!(names, vec!["b", "a"]);
    let copy = type_option.clone();
    assert_eq!(copy.options.len(), 2);
    assert_eq!(copy.options[1].name, "A");
}
