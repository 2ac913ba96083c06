use ldapfill::ldif::build_entry_string;

#[test]
fn test_ldif() {
    let entry = (
        "uid=test.user,ou=users,dc=example,dc=org".to_string(),
        vec![
            ("objectClass".to_string(), "inetOrgPerson".to_string()),
            ("uid".to_string(), "test.user".to_string()),
            ("sn".to_string(), "user".to_string()),
        ],
    );

    let entry_string = build_entry_string(entry);

    assert_eq!(entry_string.as_str(), "dn: uid=test.user,ou=users,dc=example,dc=org\nobjectClass: inetOrgPerson\nuid: test.user\nsn: user\n\n");
}

#[test]
fn export_block_of_a_person() {
    let entry = (
        "uid=t,ou=users,dc=x".to_string(),
        vec![
            ("objectclass".to_string(), "person".to_string()),
            ("uid".to_string(), "t".to_string()),
        ],
    );

    assert_eq!(
        build_entry_string(entry),
        "dn: uid=t,ou=users,dc=x\nobjectclass: person\nuid: t\n\n"
    );
}

#[test]
fn export_block_without_attributes() {
    let entry = ("dc=x".to_string(), vec![]);

    assert_eq!(build_entry_string(entry), "dn: dc=x\n\n");
}
