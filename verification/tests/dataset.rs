use docfilter::console::trim_line_end;
use docfilter::dataset::{detect_format, format_for, insert_entry, merge_documents, Format};
use docfilter::decode::{document_from, Decoded};
use docfilter::number::{parse_number, push_decimal};
use docfilter::{Data, Error};

fn dataset_message(result: Result<Format, Error>) -> String {
    match result {
        Err(Error::Dataset(message)) => message,
        other => panic!("expected a dataset error, got {:?}", other),
    }
}

#[test]
fn extension_names_the_format() {
    assert_eq!(format_for(Some("yaml")).unwrap(), Format::Yaml);
    assert_eq!(format_for(Some("yml")).unwrap(), Format::Yaml);
    assert_eq!(format_for(Some("json")).unwrap(), Format::Json);
}

#[test]
fn other_extensions_are_dataset_errors() {
    assert_eq!(dataset_message(format_for(None)), "missing file extension");
    assert_eq!(
        dataset_message(format_for(Some("txt"))),
        "unknown file extension: txt"
    );
    assert_eq!(
        dataset_message(format_for(Some("JSON"))),
        "unknown file extension: JSON"
    );
    assert_eq!(dataset_message(format_for(Some(""))), "unknown file extension: ");
}

#[test]
fn file_name_is_sniffed_by_its_extension() {
    assert_eq!(detect_format("test-data/one.json").unwrap(), Format::Json);
    assert_eq!(detect_format("one.yaml").unwrap(), Format::Yaml);
    assert_eq!(detect_format("a.b/two.yml").unwrap(), Format::Yaml);
    assert_eq!(detect_format("archive.json.yml").unwrap(), Format::Yaml);
    assert_eq!(dataset_message(detect_format("one")), "missing file extension");
    assert_eq!(dataset_message(detect_format("")), "missing file extension");
    assert_eq!(dataset_message(detect_format(".json")), "missing file extension");
    assert_eq!(
        dataset_message(detect_format("one.toml")),
        "unknown file extension: toml"
    );
}

#[test]
fn plain_name_has_the_extension_behind_its_last_dot() {
    assert_eq!(detect_format("one.json").unwrap(), Format::Json);
    assert_eq!(detect_format("one.two.yml").unwrap(), Format::Yaml);
    assert_eq!(detect_format(".hidden.yaml").unwrap(), Format::Yaml);
    assert_eq!(detect_format("a..json").unwrap(), Format::Json);
    assert_eq!(detect_format("käse.json").unwrap(), Format::Json);
    assert_eq!(dataset_message(detect_format("json")), "missing file extension");
    assert_eq!(dataset_message(detect_format(".yaml")), "missing file extension");
    assert_eq!(dataset_message(detect_format(".")), "missing file extension");
    assert_eq!(dataset_message(detect_format("..")), "missing file extension");
    assert_eq!(dataset_message(detect_format("one.")), "unknown file extension: ");
    assert_eq!(dataset_message(detect_format("...")), "unknown file extension: ");
    assert_eq!(
        dataset_message(detect_format("one.json ")),
        "unknown file extension: json "
    );
    assert_eq!(
        dataset_message(detect_format("one.yml.bak")),
        "unknown file extension: bak"
    );
}

#[test]
fn one_document_stands_for_itself() {
    let only = Data::Hash(vec![("a".to_string(), Data::Integer(1))]);
    assert_eq!(merge_documents(vec![only.clone()]), only);
}

#[test]
fn several_documents_make_a_sequence() {
    let first = Data::Integer(1);
    let second = Data::String("two".to_string());
    assert_eq!(
        merge_documents(vec![first.clone(), second.clone()]),
        Data::Array(vec![first, second])
    );
    assert_eq!(merge_documents(Vec::new()), Data::Array(Vec::new()));
}

#[test]
fn clone_copies_the_whole_value() {
    let value = Data::Hash(vec![
        (
            "list".to_string(),
            Data::Array(vec![
                Data::Integer(-3),
                Data::Real(2.5f32.to_bits()),
                Data::Boolean(true),
                Data::Array(Vec::new()),
            ]),
        ),
        ("text".to_string(), Data::String("t".to_string())),
        ("inner".to_string(), Data::Hash(Vec::new())),
    ]);
    assert_eq!(value.clone(), value);
    assert_eq!(Data::Integer(5).clone(), Data::Integer(5));
}

#[test]
fn real_keeps_its_bits() {
    let value = Data::Real(0.1f32.to_bits());
    match value.clone() {
        Data::Real(bits) => assert_eq!(f32::from_bits(bits), 0.1f32),
        other => panic!("expected a real, got {:?}", other),
    }
}

#[test]
fn get_reads_the_entry_of_a_mapping() {
    let value = Data::Hash(vec![
        ("a".to_string(), Data::Integer(1)),
        ("b".to_string(), Data::Integer(2)),
    ]);
    assert_eq!(value.get(&"b".to_string()), Some(&Data::Integer(2)));
    assert_eq!(value.get(&"a".to_string()), Some(&Data::Integer(1)));
    assert_eq!(value.get(&"c".to_string()), None);
    assert_eq!(Data::Array(vec![value.clone()]).get(&"a".to_string()), None);
    assert_eq!(Data::Integer(1).get(&"a".to_string()), None);
}

#[test]
fn well_formed_values_hold_no_key_twice() {
    let good = Data::Hash(vec![
        ("a".to_string(), Data::Integer(1)),
        (
            "b".to_string(),
            Data::Array(vec![Data::Hash(vec![("a".to_string(), Data::Boolean(true))])]),
        ),
    ]);
    assert!(good.is_well_formed());
    assert!(Data::Hash(Vec::new()).is_well_formed());
    assert!(Data::Array(Vec::new()).is_well_formed());
    assert!(Data::String("a".to_string()).is_well_formed());
    assert!(Data::Real(1.5f32.to_bits()).is_well_formed());
    let twice = Data::Hash(vec![
        ("a".to_string(), Data::Integer(1)),
        ("b".to_string(), Data::Integer(2)),
        ("a".to_string(), Data::Integer(3)),
    ]);
    assert!(!twice.is_well_formed());
    let inside_array = Data::Array(vec![Data::Integer(0), twice.clone()]);
    assert!(!inside_array.is_well_formed());
    let inside_hash = Data::Hash(vec![("x".to_string(), inside_array)]);
    assert!(!inside_hash.is_well_formed());
}

#[test]
fn insert_entry_keeps_every_key_once() {
    let mut entries: Vec<(String, Data)> = Vec::new();
    insert_entry(&mut entries, "a".to_string(), Data::Integer(1));
    insert_entry(&mut entries, "b".to_string(), Data::Integer(2));
    insert_entry(&mut entries, "a".to_string(), Data::Integer(3));
    insert_entry(&mut entries, "c".to_string(), Data::Boolean(true));
    insert_entry(&mut entries, "c".to_string(), Data::Boolean(false));
    assert_eq!(
        entries,
        vec![
            ("a".to_string(), Data::Integer(3)),
            ("b".to_string(), Data::Integer(2)),
            ("c".to_string(), Data::Boolean(false)),
        ]
    );
    let value = Data::Hash(entries);
    assert!(value.is_well_formed());
    assert_eq!(value.get(&"a".to_string()), Some(&Data::Integer(3)));
}

#[test]
fn line_end_is_taken_off() {
    assert_eq!(trim_line_end(".a|keys\n".to_string()), ".a|keys");
    assert_eq!(trim_line_end(".a|keys\r\n".to_string()), ".a|keys");
    assert_eq!(trim_line_end(".a|keys\r".to_string()), ".a|keys");
    assert_eq!(trim_line_end(".a|keys".to_string()), ".a|keys");
    assert_eq!(trim_line_end("q\n\n".to_string()), "q\n");
    assert_eq!(trim_line_end("q\n\r".to_string()), "q\n");
    assert_eq!(trim_line_end("q\r\r\n".to_string()), "q\r");
    assert_eq!(trim_line_end("\n".to_string()), "");
    assert_eq!(trim_line_end("\r\n".to_string()), "");
    assert_eq!(trim_line_end(String::new()), "");
}

fn decoded_error(raw: Decoded) -> String {
    match document_from(&raw) {
        Err(Error::Dataset(message)) => message,
        other => panic!("expected a dataset error, got {:?}", other),
    }
}

#[test]
fn decoded_scalars_become_documents() {
    assert_eq!(document_from(&Decoded::Boolean(true)).unwrap(), Data::Boolean(true));
    assert_eq!(
        document_from(&Decoded::String("s".to_string())).unwrap(),
        Data::String("s".to_string())
    );
    assert_eq!(
        document_from(&Decoded::Number { whole: Some(-4), bits: None }).unwrap(),
        Data::Integer(-4)
    );
    assert_eq!(
        document_from(&Decoded::Number { whole: None, bits: Some(2.5f32.to_bits()) }).unwrap(),
        Data::Real(2.5f32.to_bits())
    );
}

#[test]
fn decoded_number_is_whole_where_it_can_be() {
    assert_eq!(
        document_from(&Decoded::Number { whole: Some(3), bits: Some(3.0f32.to_bits()) }).unwrap(),
        Data::Integer(3)
    );
}

#[test]
fn decoded_null_and_empty_number_are_dataset_errors() {
    assert_eq!(decoded_error(Decoded::Null), "JSON is not an object or an array");
    assert_eq!(
        decoded_error(Decoded::Number { whole: None, bits: None }),
        "invalid number: None"
    );
}

#[test]
fn decoded_collections_become_documents() {
    let raw = Decoded::Object(vec![
        (
            "list".to_string(),
            Decoded::Array(vec![
                Decoded::Number { whole: Some(1), bits: None },
                Decoded::Array(Vec::new()),
                Decoded::Object(Vec::new()),
            ]),
        ),
        ("flag".to_string(), Decoded::Boolean(false)),
    ]);
    assert_eq!(
        document_from(&raw).unwrap(),
        Data::Hash(vec![
            (
                "list".to_string(),
                Data::Array(vec![
                    Data::Integer(1),
                    Data::Array(Vec::new()),
                    Data::Hash(Vec::new()),
                ])
            ),
            ("flag".to_string(), Data::Boolean(false)),
        ])
    );
}

#[test]
fn decoded_object_keeps_the_last_entry_of_a_key() {
    let raw = Decoded::Object(vec![
        ("a".to_string(), Decoded::Number { whole: Some(1), bits: None }),
        ("b".to_string(), Decoded::Number { whole: Some(2), bits: None }),
        ("a".to_string(), Decoded::Number { whole: Some(3), bits: None }),
    ]);
    assert_eq!(
        document_from(&raw).unwrap(),
        Data::Hash(vec![
            ("a".to_string(), Data::Integer(3)),
            ("b".to_string(), Data::Integer(2)),
        ])
    );
}

#[test]
fn decoded_error_is_that_of_the_first_bad_part() {
    let raw = Decoded::Array(vec![
        Decoded::Boolean(true),
        Decoded::Object(vec![
            ("n".to_string(), Decoded::Number { whole: None, bits: None }),
            ("z".to_string(), Decoded::Null),
        ]),
        Decoded::Null,
    ]);
    assert_eq!(decoded_error(raw), "invalid number: None");
    let other = Decoded::Array(vec![Decoded::Null, Decoded::Number { whole: None, bits: None }]);
    assert_eq!(decoded_error(other), "JSON is not an object or an array");
}

#[test]
fn reads_decimal_numbers() {
    assert_eq!(parse_number("0"), Some(0));
    assert_eq!(parse_number("7"), Some(7));
    assert_eq!(parse_number("007"), Some(7));
    assert_eq!(parse_number("1312"), Some(1312));
    assert_eq!(parse_number(&usize::MAX.to_string()), Some(usize::MAX));
}

#[test]
fn rejects_what_is_no_number() {
    assert_eq!(parse_number(""), None);
    assert_eq!(parse_number("+5"), None);
    assert_eq!(parse_number("-5"), None);
    assert_eq!(parse_number("12a"), None);
    assert_eq!(parse_number("1 2"), None);
    assert_eq!(parse_number("\u{661}"), None);
    assert_eq!(parse_number("340282366920938463463374607431768211456"), None);
    let mut beyond = usize::MAX.to_string();
    beyond.push('0');
    assert_eq!(parse_number(&beyond), None);
}

#[test]
fn writes_decimal_numbers() {
    let mut text = String::from("n=");
    push_decimal(&mut text, 0);
    assert_eq!(text, "n=0");
    push_decimal(&mut text, 9);
    push_decimal(&mut text, 10);
    push_decimal(&mut text, 1205);
    assert_eq!(text, "n=09101205");
    let mut largest = String::new();
    push_decimal(&mut largest, usize::MAX);
    assert_eq!(largest, usize::MAX.to_string());
}

#[test]
fn errors_are_reported_by_their_stage() {
    assert_eq!(
        Error::Lexer("Unexpected char: #".to_string()).report(),
        "[Lexer] ERROR: Unexpected char: #"
    );
    assert_eq!(
        Error::Parser("unknown keyword: key".to_string()).report(),
        "[Parser] ERROR: unknown keyword: key"
    );
    assert_eq!(Error::Filter.report(), "Expression did not match anything");
    assert_eq!(
        Error::Dataset("missing file extension".to_string()).report(),
        "Generic error"
    );
}
