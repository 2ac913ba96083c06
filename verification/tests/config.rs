use ldapfill::cli::{CliArgs, MainCommand};
use ldapfill::config::{default_log, Config, DefaultSettings, LdapConfig, LogLevel};

fn args(format_file: Option<&str>, cmd: MainCommand) -> CliArgs {
    CliArgs {
        config_file: String::from("/etc/ldapfill.toml"),
        format_file: format_file.map(String::from),
        csv: false,
        csv_directory: String::from("./csv"),
        base: String::from("dc=x"),
        cmd,
    }
}

fn insert(server: Option<&str>, user: Option<&str>, password: bool) -> MainCommand {
    MainCommand::Insert {
        server: server.map(String::from),
        user: user.map(String::from),
        password,
        connections: 3,
    }
}

#[test]
fn default_log_is_info() {
    assert_eq!(default_log(), LogLevel::Info);
}

#[test]
fn config_hands_out_its_parts() {
    let config = Config::new(
        LogLevel::Debug,
        Some(LdapConfig::new(
            String::from("ldap://localhost"),
            String::from("cn=admin"),
            String::from("secret"),
            4,
        )),
        Some(DefaultSettings::new(Some(String::from("format.toml")))),
    );

    assert_eq!(config.log(), LogLevel::Debug);
    let ldap = config.ldap().expect("ldap");
    assert_eq!(ldap.server(), "ldap://localhost");
    assert_eq!(ldap.user(), "cn=admin");
    assert_eq!(ldap.password(), "secret");
    assert_eq!(ldap.connections(), 4);
    assert_eq!(
        config.defaults().expect("defaults").format_file(),
        Some("format.toml")
    );

    let bare = Config::new(LogLevel::Off, None, None);
    assert!(bare.ldap().is_none());
    assert!(bare.defaults().is_none());
    assert_eq!(DefaultSettings::new(None).format_file(), None);
}

#[test]
fn format_file_of_the_command_line_comes_first() {
    let config = Config::new(
        LogLevel::Info,
        None,
        Some(DefaultSettings::new(Some(String::from("config.toml")))),
    );
    let bare = Config::new(LogLevel::Info, None, None);
    let empty = Config::new(LogLevel::Info, None, Some(DefaultSettings::new(None)));
    let export = MainCommand::Export { file: String::from("out.ldif") };

    assert_eq!(
        config.format_file_for(&args(Some("cli.toml"), export.clone())),
        Some("cli.toml")
    );
    assert_eq!(
        config.format_file_for(&args(None, export.clone())),
        Some("config.toml")
    );
    assert_eq!(
        bare.format_file_for(&args(Some("cli.toml"), export.clone())),
        Some("cli.toml")
    );
    assert_eq!(bare.format_file_for(&args(None, export.clone())), None);
    assert_eq!(empty.format_file_for(&args(None, export)), None);
}

#[test]
fn from_args_needs_insert_with_server_and_user() {
    let typed = || String::from("typed");

    assert!(LdapConfig::from_args(
        &args(None, MainCommand::Export { file: String::from("f") }),
        typed()
    )
    .is_none());
    assert!(LdapConfig::from_args(&args(None, insert(None, Some("u"), true)), typed()).is_none());
    assert!(LdapConfig::from_args(&args(None, insert(Some("s"), None, true)), typed()).is_none());

    let with = LdapConfig::from_args(&args(None, insert(Some("s"), Some("u"), true)), typed())
        .expect("config");
    assert_eq!(with.server(), "s");
    assert_eq!(with.user(), "u");
    assert_eq!(with.password(), "typed");
    assert_eq!(with.connections(), 3);

    let without = LdapConfig::from_args(&args(None, insert(Some("s"), Some("u"), false)), typed())
        .expect("config");
    assert_eq!(without.password(), "");
}

#[test]
fn wants_password_where_from_args_would_use_it() {
    assert!(LdapConfig::wants_password(&args(None, insert(Some("s"), Some("u"), true))));
    assert!(!LdapConfig::wants_password(&args(None, insert(Some("s"), Some("u"), false))));
    assert!(!LdapConfig::wants_password(&args(None, insert(None, Some("u"), true))));
    assert!(!LdapConfig::wants_password(&args(None, insert(Some("s"), None, true))));
    assert!(!LdapConfig::wants_password(&args(
        None,
        MainCommand::Export { file: String::from("f") }
    )));
}

#[test]
fn merge_args_overwrites_what_the_arguments_name() {
    let fresh = || {
        LdapConfig::new(
            String::from("server"),
            String::from("user"),
            String::from("password"),
            2,
        )
    };

    let mut all = fresh();
    all.merge_args(&args(None, insert(Some("s"), Some("u"), true)), String::from("typed"));
    assert_eq!(all.server(), "s");
    assert_eq!(all.user(), "u");
    assert_eq!(all.password(), "typed");
    assert_eq!(all.connections(), 2);

    let mut none = fresh();
    none.merge_args(&args(None, insert(None, None, false)), String::from("typed"));
    assert_eq!(none.server(), "server");
    assert_eq!(none.user(), "user");
    assert_eq!(none.password(), "password");

    let mut export = fresh();
    export.merge_args(
        &args(None, MainCommand::Export { file: String::from("f") }),
        String::from("typed"),
    );
    assert_eq!(export.server(), "server");
    assert_eq!(export.user(), "user");
    assert_eq!(export.password(), "password");
    assert_eq!(export.connections(), 2);
}
