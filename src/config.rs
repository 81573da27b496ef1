//! The engine's configuration and the precedence of default and user-set values.

use vstd::prelude::*;
use crate::article::clone_opt_string;

verus! {

/// A configuration value as given on the command line, by kind.
#[derive(Debug, Clone, PartialEq, Eq)]
pub enum ConfigValueType {
    Path(Option<String>),
    String(Option<String>),
    Number(Option<u16>),
    Bool(Option<bool>),
}

/// A configuration value and whether it is the built-in default (rather
/// than set by the user).
#[derive(Debug, Clone, PartialEq, Eq)]
pub struct ConfigValue {
    pub value: ConfigValueType,
    pub is_default: bool,
}

/// Which values a partial configuration is made of.
#[derive(Debug, Clone, Copy, PartialEq, Eq, Structural)]
pub enum ConfigCreationMode {
    OnlyDefaultValues,
    OnlySetValues,
}

/// A partial configuration: each field may be missing.
#[derive(Debug, Clone, PartialEq, Eq)]
pub struct CliConfig {
    pub input: Option<String>,
    pub output: Option<String>,
    pub assets: Option<String>,
    pub wasm: Option<String>,
    pub database: Option<String>,
    pub brand: Option<String>,
    pub port: Option<u16>,
    pub static_build_only: Option<bool>,
    pub flat: Option<bool>,
}

/// The engine's configuration, built once at start-up and handed to the
/// components that need it.
#[derive(Debug, Clone, PartialEq, Eq)]
pub struct Config {
    pub input: String,
    pub output: String,
    pub assets: String,
    pub wasm: String,
    pub database: String,
    pub brand: String,
    pub port: u16,
    pub static_build_only: bool,
    pub flat: bool,
}

/// Index of the first value named `key`.
pub open spec fn value_index(values: Seq<(String, ConfigValue)>, key: Seq<char>) -> Option<int> {
    if exists|i: int| 0 <= i < values.len() && (#[trigger] values[i]).0@ == key {
        Some(choose|i: int| 0 <= i < values.len() && (#[trigger] values[i]).0@ == key && forall|j: int| 0 <= j < i ==> values[j].0@ != key)
    } else {
        None
    }
}

/// The value named `key` when the mode takes it (defaults only, or values
/// the user set only).
pub open spec fn taken(values: Seq<(String, ConfigValue)>, key: Seq<char>, mode: ConfigCreationMode) -> Option<ConfigValueType> {
    match value_index(values, key) {
        Some(i) => if values[i].1.is_default == (mode == ConfigCreationMode::OnlyDefaultValues) {
            Some(values[i].1.value)
        } else {
            None
        },
        None => None,
    }
}

pub open spec fn as_path(v: Option<ConfigValueType>) -> Option<String> {
    match v {
        Some(ConfigValueType::Path(p)) => p,
        _ => None,
    }
}

pub open spec fn as_text(v: Option<ConfigValueType>) -> Option<String> {
    match v {
        Some(ConfigValueType::String(p)) => p,
        _ => None,
    }
}

pub open spec fn as_number(v: Option<ConfigValueType>) -> Option<u16> {
    match v {
        Some(ConfigValueType::Number(p)) => p,
        _ => None,
    }
}

pub open spec fn as_flag(v: Option<ConfigValueType>) -> Option<bool> {
    match v {
        Some(ConfigValueType::Bool(p)) => p,
        _ => None,
    }
}

/// The partial configuration of the values that `mode` takes.
pub open spec fn create_config_spec(values: Seq<(String, ConfigValue)>, mode: ConfigCreationMode) -> CliConfig {
    CliConfig {
        input: as_path(taken(values, "input"@, mode)),
        output: as_path(taken(values, "output"@, mode)),
        assets: as_path(taken(values, "assets"@, mode)),
        wasm: as_path(taken(values, "wasm"@, mode)),
        database: as_path(taken(values, "database"@, mode)),
        brand: as_text(taken(values, "brand"@, mode)),
        port: as_number(taken(values, "port"@, mode)),
        static_build_only: as_flag(taken(values, "static_build_only"@, mode)),
        flat: as_flag(taken(values, "flat"@, mode)),
    }
}

fn clone_value(v: &ConfigValueType) -> (r: ConfigValueType)
    ensures
        r == *v,
{
    match v {
        ConfigValueType::Path(p) => ConfigValueType::Path(clone_opt_string(p)),
        ConfigValueType::String(p) => ConfigValueType::String(clone_opt_string(p)),
        ConfigValueType::Number(n) => ConfigValueType::Number(*n),
        ConfigValueType::Bool(b) => ConfigValueType::Bool(*b),
    }
}

/// The value named `key` if `mode` takes it.
fn take(values: &Vec<(String, ConfigValue)>, key: &str, mode: ConfigCreationMode) -> (r: Option<ConfigValueType>)
    ensures
        r == taken(values@, key@, mode),
{
    let k = String::from_str(key);
    let mut i: usize = 0;
    while i < values.len()
        invariant
            0 <= i <= values@.len(),
            k@ == key@,
            forall|j: int| 0 <= j < i ==> (#[trigger] values@[j]).0@ != key@,
        decreases values@.len() - i,
    {
        if values[i].0 == k {
            proof {
                let c = choose|c: int| 0 <= c < values@.len() && (#[trigger] values@[c]).0@ == key@ && forall|j: int| 0 <= j < c ==> values@[j].0@ != key@;
                assert(values@[i as int].0@ == key@);
                if c < i {
                } else if c > i {
                    assert(values@[i as int].0@ != key@);
                }
                assert(c == i);
            }
            let cv = &values[i].1;
            let wanted = match mode {
                ConfigCreationMode::OnlyDefaultValues => cv.is_default,
                ConfigCreationMode::OnlySetValues => !cv.is_default,
            };
            if wanted {
                return Some(clone_value(&cv.value));
            } else {
                return None;
            }
        }
        i = i + 1;
    }
    None
}

fn path_of(v: Option<ConfigValueType>) -> (r: Option<String>)
    ensures
        r == as_path(v),
{
    match v {
        Some(ConfigValueType::Path(p)) => p,
        _ => None,
    }
}

fn text_of(v: Option<ConfigValueType>) -> (r: Option<String>)
    ensures
        r == as_text(v),
{
    match v {
        Some(ConfigValueType::String(p)) => p,
        _ => None,
    }
}

fn number_of(v: Option<ConfigValueType>) -> (r: Option<u16>)
    ensures
        r == as_number(v),
{
    match v {
        Some(ConfigValueType::Number(p)) => p,
        _ => None,
    }
}

fn flag_of(v: Option<ConfigValueType>) -> (r: Option<bool>)
    ensures
        r == as_flag(v),
{
    match v {
        Some(ConfigValueType::Bool(p)) => p,
        _ => None,
    }
}

/// The partial configuration made of the named values that `mode` takes:
/// the built-in defaults only, or the values the user set only. A value of
/// the wrong kind for its field is left out.
pub fn create_config(values: &Vec<(String, ConfigValue)>, mode: ConfigCreationMode) -> (r: CliConfig)
    ensures
        r == create_config_spec(values@, mode),
{
    CliConfig {
        input: path_of(take(values, "input", mode)),
        output: path_of(take(values, "output", mode)),
        assets: path_of(take(values, "assets", mode)),
        wasm: path_of(take(values, "wasm", mode)),
        database: path_of(take(values, "database", mode)),
        brand: text_of(take(values, "brand", mode)),
        port: number_of(take(values, "port", mode)),
        static_build_only: flag_of(take(values, "static_build_only", mode)),
        flat: flag_of(take(values, "flat", mode)),
    }
}

pub open spec fn over<T>(low: Option<T>, high: Option<T>) -> Option<T> {
    match high {
        Some(v) => Some(v),
        None => low,
    }
}

fn over_string(low: &Option<String>, high: &Option<String>) -> (r: Option<String>)
    ensures
        r == over(*low, *high),
{
    match high {
        Some(_) => clone_opt_string(high),
        None => clone_opt_string(low),
    }
}

impl CliConfig {
    /// This configuration with every field that `high` sets taken from
    /// `high`.
    pub fn merge(&self, high: &CliConfig) -> (r: CliConfig)
        ensures
            r.input == over(self.input, high.input),
            r.output == over(self.output, high.output),
            r.assets == over(self.assets, high.assets),
            r.wasm == over(self.wasm, high.wasm),
            r.database == over(self.database, high.database),
            r.brand == over(self.brand, high.brand),
            r.port == over(self.port, high.port),
            r.static_build_only == over(self.static_build_only, high.static_build_only),
            r.flat == over(self.flat, high.flat),
    {
        CliConfig {
            input: over_string(&self.input, &high.input),
            output: over_string(&self.output, &high.output),
            assets: over_string(&self.assets, &high.assets),
            wasm: over_string(&self.wasm, &high.wasm),
            database: over_string(&self.database, &high.database),
            brand: over_string(&self.brand, &high.brand),
            port: match high.port {
                Some(p) => Some(p),
                None => self.port,
            },
            static_build_only: match high.static_build_only {
                Some(p) => Some(p),
                None => self.static_build_only,
            },
            flat: match high.flat {
                Some(p) => Some(p),
                None => self.flat,
            },
        }
    }
}

impl Config {
    /// The full configuration a partial one gives, when it sets every field.
    pub fn from_cli(c: &CliConfig) -> (r: Option<Config>)
        ensures
            r is Some <==> (c.input is Some && c.output is Some && c.assets is Some && c.wasm is Some
                && c.database is Some && c.brand is Some && c.port is Some && c.static_build_only is Some
                && c.flat is Some),
            r is Some ==> {
                let k = r.unwrap();
                &&& Some(k.input) == c.input
                &&& Some(k.output) == c.output
                &&& Some(k.assets) == c.assets
                &&& Some(k.wasm) == c.wasm
                &&& Some(k.database) == c.database
                &&& Some(k.brand) == c.brand
                &&& Some(k.port) == c.port
                &&& Some(k.static_build_only) == c.static_build_only
                &&& Some(k.flat) == c.flat
            },
    {
        match (&c.input, &c.output, &c.assets, &c.wasm, &c.database, &c.brand) {
            (Some(input), Some(output), Some(assets), Some(wasm), Some(database), Some(brand)) => {
                match (c.port, c.static_build_only, c.flat) {
                    (Some(port), Some(static_build_only), Some(flat)) => Some(
                        Config {
                            input: input.clone(),
                            output: output.clone(),
                            assets: assets.clone(),
                            wasm: wasm.clone(),
                            database: database.clone(),
                            brand: brand.clone(),
                            port,
                            static_build_only,
                            flat,
                        },
                    ),
                    _ => None,
                }
            },
            _ => None,
        }
    }
}

} // verus!
