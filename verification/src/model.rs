//! The data model of a launch file: the file root, one runnable
//! configuration, and the plain-value forms of the open-ended fields
//! (environment maps as association lists, the `args` JSON value as a
//! closed enum of what the command builder reads from it).

use crate::enums::ProgrammingLanguage;
use vstd::prelude::*;

verus! {

/// An environment as an association list; a later entry for the same
/// key overrides an earlier one, as `env_map` states.
pub type EnvList = Vec<(String, String)>;

/// The mapping an association list denotes: entries applied first to
/// last, so the last entry for a key wins.
pub open spec fn env_map(entries: Seq<(String, String)>) -> Map<Seq<char>, Seq<char>>
    decreases entries.len(),
{
    if entries.len() == 0 {
        Map::empty()
    } else {
        env_map(entries.drop_last()).insert(entries.last().0@, entries.last().1@)
    }
}

/// Look a key up in an association list, honouring the last entry for
/// the key.
pub fn env_lookup(entries: &EnvList, key: &str) -> (r: Option<String>)
    ensures
        r is Some <==> env_map(entries@).contains_key(key@),
        r matches Some(v) ==> env_map(entries@).contains_key(key@) && v@ == env_map(
            entries@,
        )[key@],
{
    let mut i = entries.len();
    proof {
        assert(entries@.take(entries@.len() as int) =~= entries@);
    }
    while i > 0
        invariant
            i <= entries@.len(),
            env_map(entries@).contains_key(key@) == env_map(entries@.take(i as int)).contains_key(
                key@,
            ),
            env_map(entries@).contains_key(key@) ==> env_map(entries@)[key@] == env_map(
                entries@.take(i as int),
            )[key@],
        decreases i,
    {
        i = i - 1;
        let pair = &entries[i];
        proof {
            assert(entries@.take(i + 1).drop_last() =~= entries@.take(i as int));
            assert(entries@.take(i + 1).last() == entries@[i as int]);
        }
        if pair.0.as_str().to_owned() == key.to_owned() {
            return Some(pair.1.clone());
        }
    }
    proof {
        assert(entries@.take(0) =~= Seq::<(String, String)>::empty());
    }
    None
}

/// One element of a JSON `args` array, reduced to what the command
/// builder reads: a string, or something else (skipped).
#[derive(Debug)]
pub enum ArgsElement {
    Text(String),
    Other,
}

/// The JSON value of the `args` field, reduced to what the command
/// builder reads: an array of elements, or something else (ignored).
#[derive(Debug)]
pub enum ArgsValue {
    Array(Vec<ArgsElement>),
    Other,
}

/// Extra arguments for a `cargo`-driven configuration; carried along,
/// not interpreted by the core.
#[derive(Debug)]
pub struct CargoConfig {
    pub args: Vec<String>,
    pub filter: Option<EnvList>,
}

/// One runnable unit of the launch file.
#[derive(Debug)]
pub struct Configuration {
    /// Derived by classification of `config_type`, never user input.
    pub programming_language: ProgrammingLanguage,
    /// Key for exact, case-sensitive selection.
    pub name: String,
    /// Raw discriminator from the file (the `type` field).
    pub config_type: String,
    /// Declared intent (launch or attach); not interpreted here.
    pub request: String,
    pub program: Option<String>,
    pub python: Option<String>,
    pub windows: Option<EnvList>,
    pub cwd: Option<String>,
    pub env: Option<EnvList>,
    pub env_file: Option<String>,
    pub args: Option<ArgsValue>,
    pub command: Option<String>,
    pub cargo: Option<CargoConfig>,
}

/// The root of a parsed launch file.
#[derive(Debug)]
pub struct LaunchJson {
    pub version: String,
    pub configurations: Vec<Configuration>,
}

} // verus!
