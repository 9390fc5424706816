use vstd::prelude::*;

use crate::endpoint::Endpoint;

verus! {

/// The command line: the path of the JSON configuration file.
#[derive(Clone, Debug, PartialEq, Eq)]
pub struct Cli {
    pub config: String,
}

/// One mapping: the script that installs its forwarding.
#[derive(Clone, Debug, PartialEq, Eq)]
pub struct Mapping {
    pub script: String,
}

/// A validated configuration.
#[derive(Clone, Debug, PartialEq, Eq)]
pub struct Config {
    pub http: Endpoint,
    pub stun: Endpoint,
    pub mappings: Vec<Mapping>,
}

/// Why the mapping list of a configuration was refused.
#[derive(Clone, Debug, PartialEq, Eq)]
pub enum ConfigError {
    /// The script of mapping `mapping_number` (counted from 1) is not an
    /// absolute path.
    RelativeScript { mapping_number: usize, script: String },
    /// The configuration names no mapping.
    NoMappings,
}

/// Why the addresses an endpoint resolved to were refused.
#[derive(Clone, Copy, Debug, PartialEq, Eq, Structural)]
pub enum EndpointError {
    /// None of the addresses is an IPv4 address.
    NotIpv4,
    /// The first IPv4 address has port zero.
    ZeroPort,
}

/// A Unix path is absolute when it starts at the root.
pub open spec fn is_absolute_path(path: Seq<char>) -> bool {
    path.len() > 0 && path[0] == '/'
}

/// Turns a script path into a mapping; only absolute paths are accepted.
pub fn mapping_from_script(script: &String) -> (res: Option<Mapping>)
    ensures
        res is Some <==> is_absolute_path(script@),
        res is Some <==> (script@.len() > 0 && script@[0] == '/'),
        res matches Some(mapping) ==> mapping.script@ == script@,
{
    let text = script.as_str();
    if text.unicode_len() > 0 && text.get_char(0) == '/' {
        Some(Mapping { script: script.clone() })
    } else {
        None
    }
}

/// Assembles a configuration from its resolved endpoints and the mapping
/// scripts in file order: the first relative script is refused, then an
/// empty mapping list.
pub fn config_from_parts(http: Endpoint, stun: Endpoint, scripts: &Vec<String>) -> (res: Result<Config, ConfigError>)
    ensures
        match res {
            Ok(config) => {
                &&& scripts@.len() > 0
                &&& forall|i: int| 0 <= i < scripts@.len() ==> is_absolute_path(#[trigger] scripts@[i]@)
                &&& forall|i: int| 0 <= i < scripts@.len() ==> (#[trigger] scripts@[i]@).len() > 0 && scripts@[i]@[0] == '/'
                &&& config.http == http
                &&& config.stun == stun
                &&& config.mappings@.len() == scripts@.len()
                &&& forall|i: int| 0 <= i < scripts@.len() ==> #[trigger] config.mappings@[i].script@ == scripts@[i]@
            },
            Err(ConfigError::RelativeScript { mapping_number, script }) => {
                &&& 1 <= mapping_number <= scripts@.len()
                &&& !is_absolute_path(scripts@[mapping_number - 1]@)
                &&& !(scripts@[mapping_number - 1]@.len() > 0 && scripts@[mapping_number - 1]@[0] == '/')
                &&& script@ == scripts@[mapping_number - 1]@
                &&& forall|i: int| 0 <= i < mapping_number - 1 ==> is_absolute_path(#[trigger] scripts@[i]@)
            },
            Err(ConfigError::NoMappings) => scripts@.len() == 0,
        },
{
    let mut mappings: Vec<Mapping> = Vec::new();
    let mut i: usize = 0;
    while i < scripts.len()
        invariant
            i <= scripts@.len(),
            mappings@.len() == i,
            forall|j: int| 0 <= j < i ==> is_absolute_path(#[trigger] scripts@[j]@),
            forall|j: int| 0 <= j < i ==> #[trigger] mappings@[j].script@ == scripts@[j]@,
        decreases scripts@.len() - i,
    {
        let ghost before = mappings@;
        match mapping_from_script(&scripts[i]) {
            Some(mapping) => {
                mappings.push(mapping);
                assert forall|j: int| 0 <= j <= i implies #[trigger] mappings@[j].script@ == scripts@[j]@ by {
                    if j < i {
                        assert(mappings@[j] == before[j]);
                        assert(before[j].script@ == scripts@[j]@);
                    }
                }
            },
            None => {
                return Err(ConfigError::RelativeScript { mapping_number: i + 1, script: scripts[i].clone() });
            },
        }
        i = i + 1;
    }
    if mappings.len() == 0 {
        return Err(ConfigError::NoMappings);
    }
    Ok(Config { http, stun, mappings })
}

/// The first IPv4 address among the resolved addresses (`None` stands for
/// an address of another family).
pub open spec fn first_ipv4(candidates: Seq<Option<Endpoint>>) -> Option<Endpoint>
    decreases candidates.len(),
{
    if candidates.len() == 0 {
        None
    } else {
        match candidates[0] {
            Some(address) => Some(address),
            None => first_ipv4(candidates.drop_first()),
        }
    }
}

/// The first IPv4 address is the one at the least index that holds one,
/// and there is none only when no address is IPv4.
pub proof fn lemma_first_ipv4_is_least_index(candidates: Seq<Option<Endpoint>>)
    ensures
        first_ipv4(candidates) is None <==> forall|i: int| 0 <= i < candidates.len() ==> (#[trigger] candidates[i]) is None,
        forall|i: int|
            0 <= i < candidates.len() && (#[trigger] candidates[i]) is Some && (forall|j: int| 0 <= j < i
                ==> candidates[j] is None) ==> first_ipv4(candidates) == candidates[i],
    decreases candidates.len(),
{
    if candidates.len() > 0 {
        let rest = candidates.drop_first();
        lemma_first_ipv4_is_least_index(rest);
        assert forall|i: int| 0 <= i < candidates.len() && (#[trigger] candidates[i]) is Some && (forall|j: int|
            0 <= j < i ==> candidates[j] is None) implies first_ipv4(candidates) == candidates[i] by {
            if i > 0 {
                assert(candidates[0] is None);
                assert(rest[i - 1] == candidates[i]);
                assert forall|j: int| 0 <= j < i - 1 implies rest[j] is None by {
                    assert(rest[j] == candidates[j + 1]);
                }
            }
        }
        if first_ipv4(candidates) is None {
            assert forall|i: int| 0 <= i < candidates.len() implies (#[trigger] candidates[i]) is None by {
                if i > 0 {
                    assert(rest[i - 1] == candidates[i]);
                }
            }
        }
        if forall|i: int| 0 <= i < candidates.len() ==> (#[trigger] candidates[i]) is None {
            assert(candidates[0] is None);
            assert forall|i: int| 0 <= i < rest.len() implies (#[trigger] rest[i]) is None by {
                assert(rest[i] == candidates[i + 1]);
            }
        }
    }
}

/// A Unix path is absolute exactly when it starts at the root `/`.
pub proof fn lemma_absolute_path_starts_at_root(path: Seq<char>)
    ensures
        is_absolute_path(path) <==> (path.len() > 0 && path[0] == '/'),
        !is_absolute_path(seq!['~', '/']),
        !is_absolute_path(seq!['.', '/']),
        !is_absolute_path(Seq::<char>::empty()),
{
}

/// Picks the first IPv4 address an endpoint resolved to and refuses port zero.
pub fn select_ipv4_endpoint(candidates: &Vec<Option<Endpoint>>) -> (res: Result<Endpoint, EndpointError>)
    ensures
        (forall|i: int| 0 <= i < candidates@.len() ==> (#[trigger] candidates@[i]) is None) <==> res
            == Err::<Endpoint, EndpointError>(EndpointError::NotIpv4),
        forall|i: int|
            0 <= i < candidates@.len() && (#[trigger] candidates@[i]) is Some && (forall|j: int| 0 <= j < i
                ==> candidates@[j] is None) ==> res == if candidates@[i]->0.port == 0 {
                Err::<Endpoint, EndpointError>(EndpointError::ZeroPort)
            } else {
                Ok::<Endpoint, EndpointError>(candidates@[i]->0)
            },
        res == match first_ipv4(candidates@) {
            None => Err(EndpointError::NotIpv4),
            Some(address) => if address.port == 0 {
                Err(EndpointError::ZeroPort)
            } else {
                Ok(address)
            },
        },
{
    let mut i: usize = 0;
    assert(candidates@.subrange(0, candidates@.len() as int) =~= candidates@);
    proof {
        lemma_first_ipv4_is_least_index(candidates@);
    }
    while i < candidates.len()
        invariant
            i <= candidates@.len(),
            first_ipv4(candidates@) == first_ipv4(candidates@.subrange(i as int, candidates@.len() as int)),
        decreases candidates@.len() - i,
    {
        assert(candidates@.subrange(i as int, candidates@.len() as int).drop_first() =~= candidates@.subrange(
            i + 1,
            candidates@.len() as int,
        ));
        proof {
            lemma_first_ipv4_is_least_index(candidates@);
        }
        if let Some(address) = candidates[i] {
            if address.port == 0 {
                return Err(EndpointError::ZeroPort);
            }
            return Ok(address);
        }
        i = i + 1;
    }
    Err(EndpointError::NotIpv4)
}

/// The program name under which command-line arguments are parsed.
pub open spec fn program_name() -> Seq<char> {
    "PunchHole"@
}

/// The full argument vector for the command-line parser: the program name,
/// then `args`.
pub fn cli_arguments(args: &Vec<String>) -> (argv: Vec<String>)
    ensures
        argv@.len() == args@.len() + 1,
        argv@[0]@ == program_name(),
        forall|i: int| 0 <= i < args@.len() ==> #[trigger] argv@[i + 1]@ == args@[i]@,
{
    let mut argv: Vec<String> = Vec::new();
    argv.push(String::from_str("PunchHole"));
    let mut i: usize = 0;
    while i < args.len()
        invariant
            i <= args@.len(),
            argv@.len() == i + 1,
            argv@[0]@ == program_name(),
            forall|j: int| 0 <= j < i ==> #[trigger] argv@[j + 1]@ == args@[j]@,
        decreases args@.len() - i,
    {
        argv.push(args[i].clone());
        i = i + 1;
    }
    argv
}

} // verus!
