use ldapfill::entries::GeneratorError;
use ldapfill::format::{Fields, Format, FormatError};
use ldapfill::modifiers::file_cache::FileCache;
use ldapfill::modifiers::parser::ParserError;

fn pair(name: &str, text: &str) -> (String, String) {
    (String::from(name), String::from(text))
}

fn fields() -> Fields {
    vec![
        (
            String::from("organizationalUnit"),
            vec![pair("rdn", "ou"), pair("ou", "\"users\"")],
        ),
        (
            String::from("person"),
            vec![
                pair("sn", "uppercase(\"doe\")"),
                pair("rdn", "uid"),
                pair("uid", "combine(\"j\", \".\", \"doe\")"),
            ],
        ),
    ]
}

fn format() -> Format {
    Format::new(
        vec![String::from("organizationalUnit"), String::from("person")],
        vec![2, 3],
        fields(),
    )
    .expect("format")
}

#[test]
fn hierarchy_tuples_pair_classes_and_counts() {
    assert_eq!(
        format().hierarchy_tuples(),
        vec![
            (String::from("organizationalUnit"), 2),
            (String::from("person"), 3)
        ]
    );
}

#[test]
fn fields_are_kept() {
    assert_eq!(format().fields(), &fields());
}

#[test]
fn count_and_hierarchy_must_have_the_same_length() {
    let res = Format::new(vec![String::from("person")], vec![1, 2], fields());

    assert_eq!(res.err(), Some(FormatError::LengthMismatch));
}

#[test]
fn hierarchy_must_name_declared_classes() {
    let res = Format::new(
        vec![String::from("person"), String::from("device")],
        vec![1, 2],
        fields(),
    );

    assert_eq!(
        res.err(),
        Some(FormatError::UnknownClass(String::from("device")))
    );
}

#[test]
fn class_must_not_be_declared_twice() {
    let mut twice = fields();
    twice.push((String::from("person"), vec![]));

    let res = Format::new(vec![], vec![], twice);

    assert_eq!(
        res.err(),
        Some(FormatError::DuplicateClass(String::from("person")))
    );
}

#[test]
fn empty_format_is_a_format() {
    let format = Format::new(vec![], vec![], vec![]).expect("format");

    assert!(format.hierarchy_tuples().is_empty());
    assert_eq!(format.to_entry_generators().expect("generators").len(), 0);
}

#[test]
fn generators_are_built_in_the_order_of_the_classes() {
    let generators = format().to_entry_generators().expect("generators");

    assert_eq!(generators.len(), 2);
    assert_eq!(generators[0].object_class(), "organizationalUnit");
    assert_eq!(generators[0].rdn_attribute(), "ou");
    assert_eq!(generators[0].attribute_count(), 1);
    assert_eq!(generators[1].object_class(), "person");
    assert_eq!(generators[1].rdn_attribute(), "uid");
    assert_eq!(generators[1].attribute_count(), 2);
    assert_eq!(generators[1].attribute(0).0, "sn");
    assert_eq!(generators[1].attribute(1).0, "uid");

    let (rdn, attributes) = generators[1].generate_entry(&FileCache::new());
    assert_eq!(rdn, "uid=j.doe");
    assert_eq!(
        attributes,
        vec![
            (String::from("objectclass"), String::from("person")),
            (String::from("sn"), String::from("DOE")),
            (String::from("uid"), String::from("j.doe")),
        ]
    );
}

#[test]
fn class_without_rdn_key_is_refused() {
    let format = Format::new(
        vec![],
        vec![],
        vec![(String::from("person"), vec![pair("uid", "\"a\"")])],
    )
    .expect("format");

    assert_eq!(
        format.to_entry_generators().err(),
        Some(FormatError::MissingRdn(String::from("person")))
    );
}

#[test]
fn rdn_must_name_a_declared_attribute() {
    let format = Format::new(
        vec![],
        vec![],
        vec![(
            String::from("person"),
            vec![pair("rdn", "uid"), pair("sn", "\"a\"")],
        )],
    )
    .expect("format");

    assert_eq!(
        format.to_entry_generators().err(),
        Some(FormatError::Generator(
            String::from("person"),
            GeneratorError::UndeclaredRdn(String::from("uid"))
        ))
    );
}

#[test]
fn expression_that_does_not_parse_is_refused() {
    let format = Format::new(
        vec![],
        vec![],
        vec![
            (
                String::from("unit"),
                vec![pair("rdn", "ou"), pair("ou", "\"a\"")],
            ),
            (
                String::from("person"),
                vec![
                    pair("rdn", "uid"),
                    pair("uid", "\"a\""),
                    pair("sn", "shout(\"a\")"),
                    pair("cn", "\"open"),
                ],
            ),
        ],
    )
    .expect("format");

    assert_eq!(
        format.to_entry_generators().err(),
        Some(FormatError::Parse(
            String::from("person"),
            String::from("sn"),
            ParserError::UnknownModifier(String::from("shout"))
        ))
    );
}

#[test]
fn parse_error_comes_before_a_missing_rdn() {
    let format = Format::new(
        vec![],
        vec![],
        vec![(String::from("person"), vec![pair("uid", "")])],
    )
    .expect("format");

    assert_eq!(
        format.to_entry_generators().err(),
        Some(FormatError::Parse(
            String::from("person"),
            String::from("uid"),
            ParserError::EmptyValue
        ))
    );
}

#[test]
fn malformed_file_call_is_refused_when_the_generators_are_built() {
    let none = Format::new(
        vec![],
        vec![],
        vec![(
            String::from("person"),
            vec![pair("rdn", "uid"), pair("uid", "file(\"a.txt\", \"b.txt\")")],
        )],
    )
    .expect("format");
    let nested = Format::new(
        vec![],
        vec![],
        vec![(
            String::from("person"),
            vec![
                pair("rdn", "uid"),
                pair("uid", "\"a\""),
                pair("sn", "combine(\"x\", file(lowercase(\"A.TXT\")))"),
            ],
        )],
    )
    .expect("format");

    assert_eq!(
        none.to_entry_generators().err(),
        Some(FormatError::Generator(
            String::from("person"),
            GeneratorError::InvalidFileCall(String::from("uid"))
        ))
    );
    assert_eq!(
        nested.to_entry_generators().err(),
        Some(FormatError::Generator(
            String::from("person"),
            GeneratorError::InvalidFileCall(String::from("sn"))
        ))
    );
}

#[test]
fn value_of_the_rdn_key_is_not_parsed() {
    let format = Format::new(
        vec![],
        vec![],
        vec![(
            String::from("person"),
            vec![pair("rdn", "not an expression"), pair("uid", "\"a\"")],
        )],
    )
    .expect("format");

    assert_eq!(
        format.to_entry_generators().err(),
        Some(FormatError::Generator(
            String::from("person"),
            GeneratorError::UndeclaredRdn(String::from("not an expression"))
        ))
    );
}

#[test]
fn second_rdn_key_is_refused() {
    let format = Format::new(
        vec![],
        vec![],
        vec![(
            String::from("person"),
            vec![pair("rdn", "uid"), pair("uid", "\"a\""), pair("rdn", "sn")],
        )],
    )
    .expect("format");

    assert_eq!(
        format.to_entry_generators().err(),
        Some(FormatError::Generator(
            String::from("person"),
            GeneratorError::DuplicateAttribute(String::from("rdn"))
        ))
    );
}

#[test]
fn attribute_declared_twice_is_refused() {
    let format = Format::new(
        vec![],
        vec![],
        vec![(
            String::from("person"),
            vec![pair("rdn", "uid"), pair("uid", "\"a\""), pair("uid", "\"b\"")],
        )],
    )
    .expect("format");

    assert_eq!(
        format.to_entry_generators().err(),
        Some(FormatError::Generator(
            String::from("person"),
            GeneratorError::DuplicateAttribute(String::from("uid"))
        ))
    );
}
