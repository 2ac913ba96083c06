use ldapfill::modifiers::file_cache::FileCache;
use ldapfill::modifiers::parser::{parse, Modifier as ModifierKind, Token};

#[test]
fn apply_string_modifier() {
    let modifier_tree = Token::String(String::from("Hello, world!"));

    assert_eq!("Hello, world!", modifier_tree.apply(&FileCache::new()).as_str());
}

#[test]
fn apply_uppercase_modifier() {
    let modifier_tree = Token::Modifier(
        ModifierKind::Uppercase,
        vec![Token::String("Hello, world!".to_string())],
    );

    assert_eq!("HELLO, WORLD!", modifier_tree.apply(&FileCache::new()).as_str());
}

#[test]
fn apply_lowercase_modifier() {
    let modifier_tree = Token::Modifier(
        ModifierKind::Lowercase,
        vec![Token::String(String::from("Hello, world!"))],
    );

    assert_eq!("hello, world!", modifier_tree.apply(&FileCache::new()).as_str());
}

#[test]
fn apply_combine_modifier() {
    let modifier_tree = Token::Modifier(
        ModifierKind::Combine,
        vec![
            Token::String(String::from("Hello")),
            Token::String(String::from(", ")),
            Token::String(String::from("world!")),
        ],
    );

    assert_eq!("Hello, world!", modifier_tree.apply(&FileCache::new()).as_str())
}

#[test]
fn collect_file_modifier_arguments_simple_string() {
    let tree = Token::Modifier(
        ModifierKind::File,
        vec![Token::String(String::from("lastname.txt"))],
    );

    let args = tree.collect_file_arguments();

    assert_eq!(args, vec!["lastname.txt"]);
}

#[test]
fn collect_file_modifier_arguments_nested_tree() {
    let tree = Token::Modifier(
        ModifierKind::Combine,
        vec![
            Token::Modifier(
                ModifierKind::File,
                vec![Token::String(String::from("firstname.txt"))],
            ),
            Token::String(String::from(" ")),
            Token::Modifier(
                ModifierKind::File,
                vec![Token::String(String::from("lastname.txt"))],
            ),
        ],
    );

    let args = tree.collect_file_arguments();

    assert_eq!(args, vec!["firstname.txt", "lastname.txt"]);
}

#[test]
fn collect_file_modifier_arguments_deepish_nested() {
    let tree = Token::Modifier(
        ModifierKind::Combine,
        vec![
            Token::Modifier(
                ModifierKind::Lowercase,
                vec![Token::Modifier(
                    ModifierKind::File,
                    vec![Token::String(String::from("firstname.txt"))],
                )],
            ),
            Token::String(String::from(".")),
            Token::Modifier(
                ModifierKind::Lowercase,
                vec![Token::Modifier(
                    ModifierKind::File,
                    vec![Token::String(String::from("lastname.txt"))],
                )],
            ),
            Token::String(String::from("@")),
            Token::Modifier(
                ModifierKind::Lowercase,
                vec![Token::Modifier(
                    ModifierKind::File,
                    vec![Token::String(String::from("company.txt"))],
                )],
            ),
            Token::String(String::from(".com")),
        ],
    );

    let args = tree.collect_file_arguments();

    assert_eq!(args, vec!["firstname.txt", "lastname.txt", "company.txt"]);
}

#[test]
fn collect_file_modifier_arguments_empty_list() {
    let tree = Token::Modifier(
        ModifierKind::Uppercase,
        vec![Token::String(String::from("lastname"))],
    );

    let args = tree.collect_file_arguments();

    assert_eq!(args, Vec::<&str>::new());
}

#[test]
fn file_call_with_two_arguments_is_not_well_formed() {
    let tree = Token::Modifier(
        ModifierKind::File,
        vec![
            Token::String(String::from("Hello")),
            Token::String(String::from(", world!")),
        ],
    );

    assert!(!tree.is_well_formed());
}

#[test]
fn file_call_without_argument_is_not_well_formed() {
    let tree = Token::Modifier(ModifierKind::File, vec![]);

    assert!(!tree.is_well_formed());
}

#[test]
fn file_call_with_call_argument_is_not_well_formed() {
    let tree = Token::Modifier(
        ModifierKind::File,
        vec![Token::Modifier(
            ModifierKind::Uppercase,
            vec![Token::String(String::from("hello.txt"))],
        )],
    );

    assert!(!tree.is_well_formed());
}

#[test]
fn malformed_file_call_deep_in_a_tree_is_found() {
    let tree = Token::Modifier(
        ModifierKind::Combine,
        vec![
            Token::String(String::from("a")),
            Token::Modifier(
                ModifierKind::Lowercase,
                vec![Token::Modifier(ModifierKind::File, vec![])],
            ),
        ],
    );

    assert!(!tree.is_well_formed());
}

#[test]
fn trees_of_the_parser_tests_are_well_formed() {
    let tree = parse("combine(uppercase(file(\"firstname.txt\")), \".\", lowercase(file(\"lastname.txt\")))")
        .expect("valid token");

    assert!(tree.is_well_formed());
    assert_eq!(tree.collect_file_arguments(), vec!["firstname.txt", "lastname.txt"]);
}

#[test]
fn uppercase_of_combine_evaluates_to_the_joined_uppercase() {
    let tree = parse("uppercase(combine(\"a\",\"b\"))").expect("valid token");

    assert_eq!(tree.apply(&FileCache::new()), "AB");
}

#[test]
fn lowercase_of_literal_evaluates_to_lowercase() {
    let tree = parse("lowercase(\"HELLO\")").expect("valid token");

    assert_eq!(tree.apply(&FileCache::new()), "hello");
}

#[test]
fn combine_keeps_the_order_and_adds_no_separator() {
    let tree = parse("combine(\"x\",\",\",\"y\")").expect("valid token");

    assert_eq!(tree.apply(&FileCache::new()), "x,y");
}

#[test]
fn lowercase_converts_its_joined_arguments_as_one_text() {
    // A capital sigma at the end of a word becomes a final sigma, and one
    // inside a word does not: the arguments are joined first.
    let tree = Token::Modifier(
        ModifierKind::Lowercase,
        vec![
            Token::String(String::from("ΟΔΟΣ")),
            Token::String(String::from("Α")),
        ],
    );

    assert_eq!(tree.apply(&FileCache::new()), "οδοσα");
}

#[test]
fn modifier_without_arguments_evaluates_to_the_empty_text() {
    let tree = Token::Modifier(ModifierKind::Combine, vec![]);

    assert_eq!(tree.apply(&FileCache::new()), "");
}

#[test]
fn evaluate_takes_the_lines_from_left_to_right() {
    let tree = parse("combine(lowercase(file(\"a.txt\")), \".\", uppercase(file(\"b.txt\")))")
        .expect("valid token");
    let picks = vec![String::from("First"), String::from("Second")];

    assert_eq!(tree.evaluate(&picks), "first.SECOND");
}

#[test]
fn evaluate_of_a_file_call_is_the_line() {
    let tree = Token::Modifier(
        ModifierKind::File,
        vec![Token::String(String::from("names.txt"))],
    );

    assert_eq!(tree.evaluate(&vec![String::from("Ada")]), "Ada");
}

#[test]
fn apply_draws_from_the_named_file() {
    let mut cache = FileCache::new();
    cache
        .load_file(String::from("first.txt"), "Ada\n")
        .expect("lines");
    cache
        .load_file(String::from("last.txt"), "Lovelace\n")
        .expect("lines");
    let tree = parse("combine(file(\"first.txt\"), \" \", uppercase(file(\"last.txt\")))")
        .expect("valid token");

    assert_eq!(tree.apply(&cache), "Ada LOVELACE");
}

#[test]
fn apply_returns_a_line_of_the_file_on_every_call() {
    let mut cache = FileCache::new();
    cache
        .load_file(String::from("names.txt"), "a\nb\nc\n")
        .expect("lines");
    let tree = parse("file(\"names.txt\")").expect("valid token");

    for _ in 0..50 {
        let value = tree.apply(&cache);
        assert!(value == "a" || value == "b" || value == "c");
    }
}

#[test]
fn tree_has_its_files_in_a_cache_that_loaded_them() {
    let tree = parse("combine(file(\"a.txt\"), file(\"b.txt\"))").expect("valid token");
    let mut cache = FileCache::new();

    assert!(!tree.has_files_in(&cache));
    cache.load_file(String::from("b.txt"), "x\n").expect("lines");
    assert!(!tree.has_files_in(&cache));
    cache.load_file(String::from("a.txt"), "y\n").expect("lines");
    assert!(tree.has_files_in(&cache));
    assert!(Token::String(String::from("a.txt")).has_files_in(&FileCache::new()));
}
