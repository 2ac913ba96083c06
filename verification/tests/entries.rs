use ldapfill::entries::{find_generator, generate_entry, qualify, EntryGenerator, GeneratorError};
use ldapfill::modifiers::file_cache::FileCache;
use ldapfill::modifiers::parser::{parse, Modifier, Token};

fn literal(text: &str) -> Token {
    Token::String(String::from(text))
}

fn person() -> EntryGenerator {
    EntryGenerator::new(
        String::from("person"),
        String::from("uid"),
        vec![
            (String::from("sn"), literal("Lovelace")),
            (
                String::from("uid"),
                parse("lowercase(combine(\"Ada\", \".\", \"Lovelace\"))").expect("valid token"),
            ),
            (String::from("mail"), literal("ada@example.org")),
        ],
    )
    .expect("generator")
}

#[test]
fn generator_keeps_its_parts() {
    let generator = person();

    assert_eq!(generator.object_class(), "person");
    assert_eq!(generator.rdn_attribute(), "uid");
    assert_eq!(generator.attribute_count(), 3);
    assert_eq!(generator.attribute(0).0, "sn");
    assert_eq!(generator.attribute(0).1, &literal("Lovelace"));
    assert_eq!(generator.attribute(2).0, "mail");
}

#[test]
fn generator_without_its_rdn_attribute_is_refused() {
    let res = EntryGenerator::new(
        String::from("person"),
        String::from("uid"),
        vec![(String::from("sn"), literal("a"))],
    );

    assert_eq!(
        res.err(),
        Some(GeneratorError::UndeclaredRdn(String::from("uid")))
    );
}

#[test]
fn generator_without_attributes_is_refused() {
    let res = EntryGenerator::new(String::from("person"), String::from("uid"), vec![]);

    assert_eq!(
        res.err(),
        Some(GeneratorError::UndeclaredRdn(String::from("uid")))
    );
}

#[test]
fn generator_with_an_attribute_twice_is_refused() {
    let res = EntryGenerator::new(
        String::from("person"),
        String::from("uid"),
        vec![
            (String::from("uid"), literal("a")),
            (String::from("sn"), literal("b")),
            (String::from("uid"), literal("c")),
        ],
    );

    assert_eq!(
        res.err(),
        Some(GeneratorError::DuplicateAttribute(String::from("uid")))
    );
}

#[test]
fn generator_with_a_malformed_file_call_is_refused() {
    let no_argument = EntryGenerator::new(
        String::from("person"),
        String::from("uid"),
        vec![
            (String::from("uid"), literal("a")),
            (String::from("sn"), Token::Modifier(Modifier::File, vec![])),
        ],
    );
    let two_arguments = EntryGenerator::new(
        String::from("person"),
        String::from("uid"),
        vec![(
            String::from("uid"),
            parse("uppercase(file(\"a\", \"b\"))").expect("valid token"),
        )],
    );
    let call_argument = EntryGenerator::new(
        String::from("person"),
        String::from("uid"),
        vec![(
            String::from("uid"),
            parse("file(combine(\"a\"))").expect("valid token"),
        )],
    );

    assert_eq!(
        no_argument.err(),
        Some(GeneratorError::InvalidFileCall(String::from("sn")))
    );
    assert_eq!(
        two_arguments.err(),
        Some(GeneratorError::InvalidFileCall(String::from("uid")))
    );
    assert_eq!(
        call_argument.err(),
        Some(GeneratorError::InvalidFileCall(String::from("uid")))
    );
}

#[test]
fn first_fault_is_the_one_reported() {
    let res = EntryGenerator::new(
        String::from("person"),
        String::from("uid"),
        vec![
            (String::from("sn"), literal("a")),
            (String::from("sn"), Token::Modifier(Modifier::File, vec![])),
        ],
    );

    assert_eq!(
        res.err(),
        Some(GeneratorError::InvalidFileCall(String::from("sn")))
    );
}

#[test]
fn entry_starts_with_the_object_class_and_keeps_the_order() {
    let (rdn, attributes) = person().generate_entry(&FileCache::new());

    assert_eq!(rdn, "uid=ada.lovelace");
    assert_eq!(
        attributes,
        vec![
            (String::from("objectclass"), String::from("person")),
            (String::from("sn"), String::from("Lovelace")),
            (String::from("uid"), String::from("ada.lovelace")),
            (String::from("mail"), String::from("ada@example.org")),
        ]
    );
}

#[test]
fn assemble_names_the_entry_by_the_value_of_the_rdn_attribute() {
    let values = vec![
        String::from("x"),
        String::from("y"),
        String::from("z"),
    ];

    let (rdn, attributes) = person().assemble(&values);

    assert_eq!(rdn, "uid=y");
    assert_eq!(
        attributes,
        vec![
            (String::from("objectclass"), String::from("person")),
            (String::from("sn"), String::from("x")),
            (String::from("uid"), String::from("y")),
            (String::from("mail"), String::from("z")),
        ]
    );
}

#[test]
fn entry_draws_its_values_from_the_cache() {
    let mut cache = FileCache::new();
    cache
        .load_file(String::from("names.txt"), "ada\n")
        .expect("lines");
    let generator = EntryGenerator::new(
        String::from("person"),
        String::from("cn"),
        vec![(
            String::from("cn"),
            parse("uppercase(file(\"names.txt\"))").expect("valid token"),
        )],
    )
    .expect("generator");

    let entry = generate_entry("ou=users,dc=x", &generator, &cache);

    assert_eq!(entry.0, "cn=ADA,ou=users,dc=x");
    assert_eq!(
        entry.1,
        vec![
            (String::from("objectclass"), String::from("person")),
            (String::from("cn"), String::from("ADA")),
        ]
    );
}

#[test]
fn qualified_path_is_the_rdn_a_comma_and_the_parent() {
    assert_eq!(qualify("uid=t", "ou=users,dc=x"), "uid=t,ou=users,dc=x");
    assert_eq!(qualify("", ""), ",");
}

#[test]
fn file_arguments_lists_every_named_file_in_order() {
    let generator = EntryGenerator::new(
        String::from("person"),
        String::from("cn"),
        vec![
            (
                String::from("cn"),
                parse("combine(file(\"first.txt\"), \" \", file(\"last.txt\"))")
                    .expect("valid token"),
            ),
            (String::from("o"), literal("example")),
            (
                String::from("sn"),
                parse("uppercase(file(\"last.txt\"))").expect("valid token"),
            ),
        ],
    )
    .expect("generator");

    assert_eq!(
        generator.file_arguments(),
        vec!["first.txt", "last.txt", "last.txt"]
    );
    assert_eq!(person().file_arguments(), Vec::<&str>::new());
}

#[test]
fn has_files_in_tells_whether_every_file_is_loaded() {
    let generator = EntryGenerator::new(
        String::from("person"),
        String::from("cn"),
        vec![(
            String::from("cn"),
            parse("combine(file(\"first.txt\"), \" \", file(\"last.txt\"))").expect("valid token"),
        )],
    )
    .expect("generator");
    let mut cache = FileCache::new();

    assert!(!generator.has_files_in(&cache));
    cache
        .load_file(String::from("first.txt"), "Ada\n")
        .expect("lines");
    assert!(!generator.has_files_in(&cache));
    cache
        .load_file(String::from("last.txt"), "Lovelace\n")
        .expect("lines");
    assert!(generator.has_files_in(&cache));
    assert!(person().has_files_in(&FileCache::new()));
    assert_eq!(generator.generate_entry(&cache).0, "cn=Ada Lovelace");
}

#[test]
fn find_generator_takes_the_first_of_the_class() {
    let unit = EntryGenerator::new(
        String::from("unit"),
        String::from("ou"),
        vec![(String::from("ou"), literal("a"))],
    )
    .expect("generator");
    let generators = vec![unit, person()];

    assert_eq!(
        find_generator(&generators, "person").map(|g| g.rdn_attribute()),
        Some("uid")
    );
    assert_eq!(
        find_generator(&generators, "unit").map(|g| g.rdn_attribute()),
        Some("ou")
    );
    assert!(find_generator(&generators, "device").is_none());
    assert!(find_generator(&vec![], "unit").is_none());
}
