use vstd::prelude::*;
use vstd::string::*;
use crate::text::str_eq;

verus! {

/// The text that stands for any secret value in diagnostic output.
pub open spec fn redaction_marker() -> Seq<char> {
    "***REDACTED***"@
}

/// A sensitive value: its only rendering is a fixed marker, and the value is
/// reached only by an explicit `expose`.
pub struct Secret<T>(T);

impl<T> Secret<T> {
    /// The value that is kept secret.
    pub closed spec fn value(&self) -> T {
        self.0
    }

    pub fn new(v: T) -> (r: Secret<T>)
        ensures
            r.value() == v,
    {
        Secret(v)
    }

    /// The secret value itself, for the authentication call.
    pub fn expose(&self) -> (r: &T)
        ensures
            *r == self.value(),
    {
        &self.0
    }

    /// What diagnostic output shows of a secret, whatever its value.
    pub fn redacted(&self) -> (r: String)
        ensures
            r@ == redaction_marker(),
    {
        String::from_str("***REDACTED***")
    }
}

/// How a session authenticates: exactly one of two modes.
pub enum AuthMethod {
    Password { password: Secret<String> },
    Keyfile {
        private_key: String,
        public_key: Option<String>,
        passphrase: Option<Secret<String>>,
    },
}

/// One member of the fleet.
pub struct Server {
    pub id: String,
    pub address: String,
    pub username: String,
    pub auth: AuthMethod,
    /// Labels added to every metric line of this server, in this order.
    /// They form a mapping: no two share a name (see `wf`).
    pub extra_labels: Option<Vec<(String, String)>>,
}

impl Server {
    /// A well-formed server: its extra labels have pairwise distinct names.
    pub open spec fn wf(&self) -> bool {
        match self.extra_labels {
            None => true,
            Some(v) => forall|i: int, j: int|
                0 <= i < j < v@.len() ==> (#[trigger] v@[i]).0@ != (#[trigger] v@[j]).0@,
        }
    }

    /// Checks that the extra labels have pairwise distinct names.
    pub fn is_well_formed(&self) -> (r: bool)
        ensures
            r == self.wf(),
    {
        match &self.extra_labels {
            None => true,
            Some(v) => {
                let mut j: usize = 0;
                while j < v.len()
                    invariant
                        self.extra_labels == Some(*v),
                        j <= v@.len(),
                        forall|a: int, b: int|
                            0 <= a < b < j ==> (#[trigger] v@[a]).0@ != (#[trigger] v@[b]).0@,
                    decreases v.len() - j,
                {
                    let mut i: usize = 0;
                    while i < j
                        invariant
                            self.extra_labels == Some(*v),
                            j < v@.len(),
                            i <= j,
                            forall|a: int| 0 <= a < i ==> (#[trigger] v@[a]).0@ != v@[j as int].0@,
                        decreases j - i,
                    {
                        if str_eq(v[i].0.as_str(), v[j].0.as_str()) {
                            let ghost w = self.extra_labels->Some_0;
                            assert(w@[i as int].0@ == w@[j as int].0@);
                            assert(!self.wf());
                            return false;
                        }
                        i = i + 1;
                    }
                    j = j + 1;
                }
                true
            },
        }
    }
}

/// The whole configuration.
pub struct Config {
    pub bind_address: String,
    pub log_level: Option<String>,
    pub servers: Vec<Server>,
}

/// The address the endpoint listens on when none is configured.
pub fn default_bind_address() -> (r: String)
    ensures
        r@ == "0.0.0.0:9091"@,
{
    String::from_str("0.0.0.0:9091")
}

/// The formats a configuration file may be written in.
#[derive(PartialEq, Eq, Structural, Clone, Copy, Debug)]
pub enum ConfigFormat {
    Yaml,
    Toml,
}

/// A configuration file whose extension names no known format.
#[derive(PartialEq, Eq, Structural, Clone, Copy, Debug)]
pub enum ConfigError {
    UnknownFileType,
}

/// The format that a configuration file's extension names.
pub open spec fn format_of_extension(ext: Seq<char>) -> Result<ConfigFormat, ConfigError> {
    if ext == "yml"@ || ext == "yaml"@ {
        Ok(ConfigFormat::Yaml)
    } else if ext == "toml"@ {
        Ok(ConfigFormat::Toml)
    } else {
        Err(ConfigError::UnknownFileType)
    }
}

/// Picks the format of a configuration file from its extension.
pub fn config_format(ext: &str) -> (r: Result<ConfigFormat, ConfigError>)
    ensures
        r == format_of_extension(ext@),
{
    if str_eq(ext, "yml") || str_eq(ext, "yaml") {
        Ok(ConfigFormat::Yaml)
    } else if str_eq(ext, "toml") {
        Ok(ConfigFormat::Toml)
    } else {
        Err(ConfigError::UnknownFileType)
    }
}

} // verus!
