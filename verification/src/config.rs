//! The configuration: how much to log, where the directory server is, and
//! which format file to use where the command line names none.

use vstd::prelude::*;
use vstd::string::*;
use crate::cli::{CliArgs, MainCommand};

verus! {

/// How much is logged: nothing, or everything from this level up.
#[derive(Debug, Clone, Copy, PartialEq, Eq, Structural)]
pub enum LogLevel {
    Off,
    Error,
    Warn,
    Info,
    Debug,
    Trace,
}

#[derive(Debug)]
pub struct Config {
    log: LogLevel,
    ldap: Option<LdapConfig>,
    defaults: Option<DefaultSettings>,
}

#[derive(Debug)]
pub struct DefaultSettings {
    format_file: Option<String>,
}

#[derive(Debug)]
pub struct LdapConfig {
    // The server to connect to
    pub server: String,
    // The user to use for connecting to the server
    pub user: String,
    // The password to use when connecting.
    pub password: String,
    connections: usize,
}

/// The log level of a configuration that names none.
pub fn default_log() -> (level: LogLevel)
    ensures
        level == LogLevel::Info,
{
    LogLevel::Info
}

impl Config {
    /// The log level of the configuration.
    pub closed spec fn spec_log(&self) -> LogLevel {
        self.log
    }

    /// The directory server of the configuration, if it names one.
    pub closed spec fn spec_ldap(&self) -> Option<LdapConfig> {
        self.ldap
    }

    /// The defaults of the configuration, if it has any.
    pub closed spec fn spec_defaults(&self) -> Option<DefaultSettings> {
        self.defaults
    }

    /// A configuration of the given parts.
    pub fn new(log: LogLevel, ldap: Option<LdapConfig>, defaults: Option<DefaultSettings>) -> (config:
        Self)
        ensures
            config.spec_log() == log,
            config.spec_ldap() == ldap,
            config.spec_defaults() == defaults,
    {
        Config { log, ldap, defaults }
    }

    #[verifier::when_used_as_spec(spec_log)]
    pub fn log(&self) -> (level: LogLevel)
        ensures
            level == self.spec_log(),
    {
        self.log
    }

    pub fn ldap(&self) -> (ldap: Option<&LdapConfig>)
        ensures
            match ldap {
                Some(config) => self.spec_ldap() == Some(*config),
                None => self.spec_ldap() is None,
            },
    {
        self.ldap.as_ref()
    }

    pub fn defaults(&self) -> (defaults: Option<&DefaultSettings>)
        ensures
            match defaults {
                Some(settings) => self.spec_defaults() == Some(*settings),
                None => self.spec_defaults() is None,
            },
    {
        self.defaults.as_ref()
    }

    /// The path of the format file to use: the one that the command line
    /// names, or else the one of the configuration's defaults. `None` if
    /// neither names one.
    pub fn format_file_for<'a>(&'a self, args: &'a CliArgs) -> (path: Option<&'a str>)
        ensures
            match path {
                Some(p) => match args.format_file {
                    Some(named) => p@ == named@,
                    None => self.spec_defaults() matches Some(settings)
                        && settings.spec_format_file() matches Some(file) && p@ == file@,
                },
                None => args.format_file is None && !(self.spec_defaults() matches Some(settings)
                    && settings.spec_format_file() is Some),
            },
    {
        match &args.format_file {
            Some(named) => Some(named.as_str()),
            None => match &self.defaults {
                Some(settings) => settings.format_file(),
                None => None,
            },
        }
    }
}

/// The mathematical value of an `LdapConfig`.
pub ghost struct LdapSettings {
    pub server: Seq<char>,
    pub user: Seq<char>,
    pub password: Seq<char>,
    pub connections: usize,
}

impl View for LdapConfig {
    type V = LdapSettings;

    closed spec fn view(&self) -> LdapSettings {
        LdapSettings {
            server: self.server@,
            user: self.user@,
            password: self.password@,
            connections: self.connections,
        }
    }
}

impl LdapConfig {
    /// A configuration of the given parts.
    pub fn new(server: String, user: String, password: String, connections: usize) -> (config: Self)
        ensures
            config@ == (LdapSettings {
                server: server@,
                user: user@,
                password: password@,
                connections,
            }),
    {
        LdapConfig { server, user, password, connections }
    }

    /// Whether `args` asks for a password to be read: it does on `insert`
    /// with the password flag, where both a server and a user are named.
    pub fn wants_password(args: &CliArgs) -> (wanted: bool)
        ensures
            wanted == (args.cmd matches MainCommand::Insert { server, user, password, .. }
                && server is Some && user is Some && password),
    {
        match &args.cmd {
            MainCommand::Insert { server, user, password, .. } => server.is_some() && user.is_some()
                && *password,
            _ => false,
        }
    }

    /// Tries to create an `LdapConfig` using the provided `CliArgs`.
    /// Returns `None` if the cli args are missing one or more parameters.
    /// `typed` is the password that was read; it is used where the password
    /// flag is set, and the empty password where it is not.
    pub fn from_args(args: &CliArgs, typed: String) -> (res: Option<Self>)
        ensures
            match args.cmd {
                MainCommand::Insert { server: Some(server), user: Some(user), password, connections } => {
                    res matches Some(config) && config@ == (LdapSettings {
                        server: server@,
                        user: user@,
                        password: if password {
                            typed@
                        } else {
                            Seq::<char>::empty()
                        },
                        connections,
                    })
                },
                _ => res is None,
            },
    {
        match &args.cmd {
            MainCommand::Insert { server, user, password, connections } => {
                let user = match user {
                    Some(user) => user.clone(),
                    None => {
                        return None;
                    },
                };
                let server = match server {
                    Some(server) => server.clone(),
                    None => {
                        return None;
                    },
                };
                let password = if *password {
                    typed
                } else {
                    String::new()
                };
                Some(Self { user, server, password, connections: *connections })
            },
            _ => None,
        }
    }

    /// Merges the present values of `args` with `self`, effectively
    /// overwriting values. `typed` is the password that was read; it is used
    /// where the password flag is set.
    pub fn merge_args(&mut self, args: &CliArgs, typed: String)
        ensures
            final(self)@ == match args.cmd {
                MainCommand::Insert { server, user, password, .. } => LdapSettings {
                    user: match user {
                        Some(user) => user@,
                        None => old(self)@.user,
                    },
                    server: match server {
                        Some(server) => server@,
                        None => old(self)@.server,
                    },
                    password: if password {
                        typed@
                    } else {
                        old(self)@.password
                    },
                    connections: old(self)@.connections,
                },
                _ => old(self)@,
            },
    {
        match &args.cmd {
            MainCommand::Insert { server, user, password, .. } => {
                match user {
                    Some(user) => {
                        self.user = user.clone();
                    },
                    None => {},
                }
                match server {
                    Some(server) => {
                        self.server = server.clone();
                    },
                    None => {},
                }
                if *password {
                    self.password = typed;
                }
            },
            _ => {},
        }
    }

    pub fn server(&self) -> (server: &str)
        ensures
            server@ == self@.server,
    {
        self.server.as_str()
    }

    pub fn user(&self) -> (user: &str)
        ensures
            user@ == self@.user,
    {
        self.user.as_str()
    }

    pub fn password(&self) -> (password: &str)
        ensures
            password@ == self@.password,
    {
        self.password.as_str()
    }

    pub fn connections(&self) -> (connections: usize)
        ensures
            connections == self@.connections,
    {
        self.connections
    }
}

impl DefaultSettings {
    /// The format file of the defaults, if they name one.
    pub closed spec fn spec_format_file(&self) -> Option<String> {
        self.format_file
    }

    /// Defaults with the given format file.
    pub fn new(format_file: Option<String>) -> (settings: Self)
        ensures
            settings.spec_format_file() == format_file,
    {
        DefaultSettings { format_file }
    }

    pub fn format_file(&self) -> (file: Option<&str>)
        ensures
            match file {
                Some(f) => self.spec_format_file() matches Some(own) && f@ == own@,
                None => self.spec_format_file() is None,
            },
    {
        match &self.format_file {
            Some(file) => Some(file.as_str()),
            None => None,
        }
    }
}

} // verus!
