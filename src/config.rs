//! Settings of the gateway, read from configuration entries.
use vstd::prelude::*;

verus! {

#[derive(Debug, Clone)]
pub struct Settings {
    pub api: Api,
    pub db: DatabaseConfig,
    pub storage: Storage,
    pub auth: Auth,
}

#[derive(Debug, Clone)]
pub struct Api {
    pub host: String,
    pub port: u16,
    pub domain: Option<String>,
}

#[derive(Debug, Clone)]
pub struct DatabaseConfig {
    pub host: String,
    pub port: u16,
    pub db_name: String,
    pub user: String,
    pub password: String,
}

#[derive(Debug, Clone)]
pub struct Storage {
    pub host: String,
    pub port: u16,
    pub access_key: String,
    pub secret_key: String,
    pub insecure: bool,
    /// The one backing bucket of single-tenant mode.
    pub bucket: Option<String>,
}

#[derive(Debug, Clone)]
pub struct Auth {
    pub access_key: String,
    pub secret_key: String,
}

#[derive(Debug, Clone, Copy, PartialEq, Eq, Structural)]
pub enum ConfigErrorKind {
    /// A required entry is absent.
    Missing,
    /// An entry's value does not have the field's type.
    Invalid,
}

#[derive(Debug, Clone)]
pub struct ConfigError {
    /// The dotted path of the entry, as in `api.port`.
    pub key: String,
    pub kind: ConfigErrorKind,
}

/// The value of the last entry with key `key`: later entries override
/// earlier ones.
pub open spec fn lookup(entries: Seq<(String, String)>, key: Seq<char>) -> Option<Seq<char>>
    decreases entries.len(),
{
    if entries.len() == 0 {
        None
    } else if entries.last().0@ == key {
        Some(entries.last().1@)
    } else {
        lookup(entries.drop_last(), key)
    }
}

/// What `config::Value::into_uint` makes of a string value, where it
/// makes a number of it.
pub uninterp spec fn config_uint_of(s: Seq<char>) -> Option<u64>;

/// What `config::Value::into_bool` makes of a string value, where it
/// makes a boolean of it.
pub uninterp spec fn config_bool_of(s: Seq<char>) -> Option<bool>;

/// Relies on `config::Value::into_uint` on a string value: the number that
/// the configuration crate reads from it, if any.
#[verifier::external_body]
fn config_uint(s: &str) -> (r: Option<u64>)
    ensures
        r == config_uint_of(s@),
{
    ::config::Value::new(None, s).into_uint().ok()
}

/// Relies on `config::Value::into_bool` on a string value: the boolean that
/// the configuration crate reads from it, if any.
#[verifier::external_body]
fn config_bool(s: &str) -> (r: Option<bool>)
    ensures
        r == config_bool_of(s@),
{
    ::config::Value::new(None, s).into_bool().ok()
}

/// A port number: a number the configuration crate reads, at most 65535.
pub open spec fn port_of(v: Option<u64>) -> Option<u16> {
    match v {
        Some(n) => if n <= 65535 {
            Some(n as u16)
        } else {
            None
        },
        None => None,
    }
}

pub open spec fn port_value(s: Seq<char>) -> Option<u16> {
    port_of(config_uint_of(s))
}

pub open spec fn bool_value(s: Seq<char>) -> Option<bool> {
    config_bool_of(s)
}

/// The port that a number read from the configuration stands for; a number
/// over 65535 is refused.
pub fn port_from(v: Option<u64>) -> (r: Option<u16>)
    ensures
        r == port_of(v),
{
    match v {
        Some(n) => if n <= 65535 {
            Some(n as u16)
        } else {
            None
        },
        None => None,
    }
}

fn parse_port(s: &str) -> (r: Option<u16>)
    ensures
        r == port_value(s@),
{
    port_from(config_uint(s))
}

fn parse_bool(s: &str) -> (r: Option<bool>)
    ensures
        r == bool_value(s@),
{
    config_bool(s)
}

fn find_value(entries: &Vec<(String, String)>, key: &str) -> (r: Option<String>)
    ensures
        match r {
            Some(v) => lookup(entries@, key@) == Some(v@),
            None => lookup(entries@, key@) is None,
        },
{
    let k = key.to_owned();
    let mut i: usize = entries.len();
    assert(entries@.take(i as int) =~= entries@);
    while i > 0
        invariant
            i <= entries@.len(),
            k@ == key@,
            lookup(entries@, key@) == lookup(entries@.take(i as int), key@),
        decreases i,
    {
        assert(entries@.take(i as int).drop_last() =~= entries@.take(i - 1));
        assert(entries@.take(i as int).last() == entries@[i - 1]);
        if entries[i - 1].0 == k {
            return Some(entries[i - 1].1.clone());
        }
        i -= 1;
    }
    assert(entries@.take(0) =~= Seq::<(String, String)>::empty());
    None
}

fn error(key: &str, kind: ConfigErrorKind) -> (r: ConfigError)
    ensures
        r.key@ == key@,
        r.kind == kind,
{
    ConfigError { key: key.to_owned(), kind }
}

fn required(entries: &Vec<(String, String)>, key: &str) -> (r: Result<String, ConfigError>)
    ensures
        match r {
            Ok(v) => lookup(entries@, key@) == Some(v@),
            Err(e) => lookup(entries@, key@) is None && e.key@ == key@ && e.kind == ConfigErrorKind::Missing,
        },
{
    match find_value(entries, key) {
        Some(v) => Ok(v),
        None => Err(error(key, ConfigErrorKind::Missing)),
    }
}

fn required_port(entries: &Vec<(String, String)>, key: &str) -> (r: Result<u16, ConfigError>)
    ensures
        match r {
            Ok(p) => lookup(entries@, key@) matches Some(v) && port_value(v) == Some(p),
            Err(e) => e.key@ == key@ && match lookup(entries@, key@) {
                None => e.kind == ConfigErrorKind::Missing,
                Some(v) => port_value(v) is None && e.kind == ConfigErrorKind::Invalid,
            },
        },
{
    let v = required(entries, key)?;
    match parse_port(v.as_str()) {
        Some(p) => Ok(p),
        None => Err(error(key, ConfigErrorKind::Invalid)),
    }
}

fn required_bool(entries: &Vec<(String, String)>, key: &str) -> (r: Result<bool, ConfigError>)
    ensures
        match r {
            Ok(b) => lookup(entries@, key@) matches Some(v) && bool_value(v) == Some(b),
            Err(e) => e.key@ == key@ && match lookup(entries@, key@) {
                None => e.kind == ConfigErrorKind::Missing,
                Some(v) => bool_value(v) is None && e.kind == ConfigErrorKind::Invalid,
            },
        },
{
    let v = required(entries, key)?;
    match parse_bool(v.as_str()) {
        Some(b) => Ok(b),
        None => Err(error(key, ConfigErrorKind::Invalid)),
    }
}

fn optional(entries: &Vec<(String, String)>, key: &str) -> (r: Option<String>)
    ensures
        match r {
            Some(v) => lookup(entries@, key@) == Some(v@),
            None => lookup(entries@, key@) is None,
        },
{
    find_value(entries, key)
}

/// The entry `key` is present.
pub open spec fn present(entries: Seq<(String, String)>, key: Seq<char>) -> bool {
    lookup(entries, key) is Some
}

/// The entry `key` is present and is a port number.
pub open spec fn port_ok(entries: Seq<(String, String)>, key: Seq<char>) -> bool {
    lookup(entries, key) matches Some(v) && port_value(v) is Some
}

/// Every required entry is present and every typed one has its type.
pub open spec fn settings_ok(e: Seq<(String, String)>) -> bool {
    &&& present(e, "api.host"@)
    &&& port_ok(e, "api.port"@)
    &&& present(e, "db.host"@)
    &&& port_ok(e, "db.port"@)
    &&& present(e, "db.db_name"@)
    &&& present(e, "db.user"@)
    &&& present(e, "db.password"@)
    &&& present(e, "storage.host"@)
    &&& port_ok(e, "storage.port"@)
    &&& present(e, "storage.access_key"@)
    &&& present(e, "storage.secret_key"@)
    &&& (lookup(e, "storage.insecure"@) matches Some(v) && bool_value(v) is Some)
    &&& present(e, "auth.access_key"@)
    &&& present(e, "auth.secret_key"@)
}

/// Optional entries: present exactly where the entry is.
pub open spec fn optional_matches(o: Option<String>, v: Option<Seq<char>>) -> bool {
    match o {
        Some(s) => v == Some(s@),
        None => v is None,
    }
}

/// Each field of `s` holds the value of its entry.
pub open spec fn settings_match(e: Seq<(String, String)>, s: Settings) -> bool {
    &&& lookup(e, "api.host"@) == Some(s.api.host@)
    &&& lookup(e, "api.port"@) matches Some(v) && port_value(v) == Some(s.api.port)
    &&& optional_matches(s.api.domain, lookup(e, "api.domain"@))
    &&& lookup(e, "db.host"@) == Some(s.db.host@)
    &&& lookup(e, "db.port"@) matches Some(v) && port_value(v) == Some(s.db.port)
    &&& lookup(e, "db.db_name"@) == Some(s.db.db_name@)
    &&& lookup(e, "db.user"@) == Some(s.db.user@)
    &&& lookup(e, "db.password"@) == Some(s.db.password@)
    &&& lookup(e, "storage.host"@) == Some(s.storage.host@)
    &&& lookup(e, "storage.port"@) matches Some(v) && port_value(v) == Some(s.storage.port)
    &&& lookup(e, "storage.access_key"@) == Some(s.storage.access_key@)
    &&& lookup(e, "storage.secret_key"@) == Some(s.storage.secret_key@)
    &&& lookup(e, "storage.insecure"@) matches Some(v) && bool_value(v) == Some(s.storage.insecure)
    &&& optional_matches(s.storage.bucket, lookup(e, "storage.bucket"@))
    &&& lookup(e, "auth.access_key"@) == Some(s.auth.access_key@)
    &&& lookup(e, "auth.secret_key"@) == Some(s.auth.secret_key@)
}

/// The error of a required entry, if it has one.
pub open spec fn string_error(e: Seq<(String, String)>, key: Seq<char>) -> Option<(Seq<char>, ConfigErrorKind)> {
    match lookup(e, key) {
        Some(_) => None,
        None => Some((key, ConfigErrorKind::Missing)),
    }
}

/// The error of a required port entry, if it has one.
pub open spec fn port_error(e: Seq<(String, String)>, key: Seq<char>) -> Option<(Seq<char>, ConfigErrorKind)> {
    match lookup(e, key) {
        Some(v) => if port_value(v) is Some {
            None
        } else {
            Some((key, ConfigErrorKind::Invalid))
        },
        None => Some((key, ConfigErrorKind::Missing)),
    }
}

/// The error of a required boolean entry, if it has one.
pub open spec fn bool_error(e: Seq<(String, String)>, key: Seq<char>) -> Option<(Seq<char>, ConfigErrorKind)> {
    match lookup(e, key) {
        Some(v) => if bool_value(v) is Some {
            None
        } else {
            Some((key, ConfigErrorKind::Invalid))
        },
        None => Some((key, ConfigErrorKind::Missing)),
    }
}

/// The error of the first required entry, in the order of the fields,
/// that is absent or of the wrong type.
pub open spec fn first_error(e: Seq<(String, String)>) -> Option<(Seq<char>, ConfigErrorKind)> {
    if string_error(e, "api.host"@) is Some {
        string_error(e, "api.host"@)
    } else if port_error(e, "api.port"@) is Some {
        port_error(e, "api.port"@)
    } else if string_error(e, "db.host"@) is Some {
        string_error(e, "db.host"@)
    } else if port_error(e, "db.port"@) is Some {
        port_error(e, "db.port"@)
    } else if string_error(e, "db.db_name"@) is Some {
        string_error(e, "db.db_name"@)
    } else if string_error(e, "db.user"@) is Some {
        string_error(e, "db.user"@)
    } else if string_error(e, "db.password"@) is Some {
        string_error(e, "db.password"@)
    } else if string_error(e, "storage.host"@) is Some {
        string_error(e, "storage.host"@)
    } else if port_error(e, "storage.port"@) is Some {
        port_error(e, "storage.port"@)
    } else if string_error(e, "storage.access_key"@) is Some {
        string_error(e, "storage.access_key"@)
    } else if string_error(e, "storage.secret_key"@) is Some {
        string_error(e, "storage.secret_key"@)
    } else if bool_error(e, "storage.insecure"@) is Some {
        bool_error(e, "storage.insecure"@)
    } else if string_error(e, "auth.access_key"@) is Some {
        string_error(e, "auth.access_key"@)
    } else if string_error(e, "auth.secret_key"@) is Some {
        string_error(e, "auth.secret_key"@)
    } else {
        None
    }
}

impl Settings {
    /// Reads the settings from configuration entries: pairs of a dotted
    /// path (`api.port`) and a value, where a later entry overrides an
    /// earlier one of the same path. Fails on the first required entry that
    /// is absent or has a value of the wrong type.
    pub fn new(entries: &Vec<(String, String)>) -> (r: Result<Settings, ConfigError>)
        ensures
            r is Ok <==> settings_ok(entries@),
            r matches Ok(s) ==> settings_match(entries@, s),
            r matches Err(err) ==> first_error(entries@) == Some((err.key@, err.kind)),
            r is Ok <==> first_error(entries@) is None,
    {
        let api = Api {
            host: required(entries, "api.host")?,
            port: required_port(entries, "api.port")?,
            domain: optional(entries, "api.domain"),
        };
        let db = DatabaseConfig {
            host: required(entries, "db.host")?,
            port: required_port(entries, "db.port")?,
            db_name: required(entries, "db.db_name")?,
            user: required(entries, "db.user")?,
            password: required(entries, "db.password")?,
        };
        let storage = Storage {
            host: required(entries, "storage.host")?,
            port: required_port(entries, "storage.port")?,
            access_key: required(entries, "storage.access_key")?,
            secret_key: required(entries, "storage.secret_key")?,
            insecure: required_bool(entries, "storage.insecure")?,
            bucket: optional(entries, "storage.bucket"),
        };
        let auth = Auth {
            access_key: required(entries, "auth.access_key")?,
            secret_key: required(entries, "auth.secret_key")?,
        };
        Ok(Settings { api, db, storage, auth })
    }
}

} // verus!
