use std::str::FromStr;
use std::time::Duration;
use vstd::prelude::*;

verus! {

/// A duration given on the command line could not be read.
#[derive(Clone, Debug, PartialEq, Eq)]
pub struct ParseDurationError {
    pub reason: String,
}

/// The name of what the `cld` crate makes of a command-line duration: the duration,
/// or the text of its error.
pub uninterp spec fn cld_parse(s: Seq<char>) -> Result<Duration, Seq<char>>;

/// `cld::ClDuration::from_str`, converted to a `Duration`, with the error rendered
/// with `to_string`.
///
/// Trusted: the outcome is named by `cld_parse` of the text; beyond that only the
/// crate's documented length cap is stated (more than 64 bytes is refused, so more
/// than 64 characters is too).
#[verifier::external_body]
fn cl_duration_from_str(s: &str) -> (r: Result<Duration, String>)
    ensures
        match r {
            Ok(d) => cld_parse(s@) == Ok::<Duration, Seq<char>>(d),
            Err(m) => cld_parse(s@) == Err::<Duration, Seq<char>>(m@),
        },
        s@.len() > 64 ==> r is Err,
{
    match cld::ClDuration::from_str(s) {
        Ok(d) => Ok(Duration::from(d)),
        Err(e) => Err(e.to_string()),
    }
}

/// Read a duration such as `"9s"`, `"2d"` or `"99:59:59"` from the command line.
pub fn parse_duration(s: &str) -> (r: Result<Duration, ParseDurationError>)
    ensures
        match cld_parse(s@) {
            Ok(d) => r == Ok::<Duration, ParseDurationError>(d),
            Err(m) => r matches Err(e) && e.reason@ == m,
        },
        s@.len() > 64 ==> r is Err,
{
    match cl_duration_from_str(s) {
        Ok(d) => Ok(d),
        Err(m) => Err(ParseDurationError { reason: m }),
    }
}

/// Why the builder's private keys cannot be had.
#[derive(Clone, Debug, PartialEq, Eq)]
pub enum PrivateKeysError {
    /// The key file does not set this variable
    KeyFileMissing(String),
    /// Neither a key file nor both private keys were given
    NoKeys,
}

/// Where the builder's private keys come from.
#[derive(Clone, Debug, PartialEq, Eq)]
pub enum KeySource<A, B> {
    /// A key file, which takes precedence
    KeyFile,
    /// The staking and the state key, both given on the command line
    Given(A, B),
}

/// Choose where the builder's keys come from: a key file if there is one, else both
/// keys given directly; with neither, no keys can be had.
pub fn key_source<A, B>(has_key_file: bool, staking: Option<A>, state: Option<B>) -> (r: Result<
    KeySource<A, B>,
    PrivateKeysError,
>)
    ensures
        has_key_file ==> r == Ok::<KeySource<A, B>, PrivateKeysError>(KeySource::KeyFile),
        !has_key_file && staking is Some && state is Some ==> r == Ok::<
            KeySource<A, B>,
            PrivateKeysError,
        >(KeySource::Given(staking.unwrap(), state.unwrap())),
        !has_key_file && (staking is None || state is None) ==> r == Err::<
            KeySource<A, B>,
            PrivateKeysError,
        >(PrivateKeysError::NoKeys),
{
    if has_key_file {
        return Ok(KeySource::KeyFile);
    }
    match (staking, state) {
        (Some(a), Some(b)) => Ok(KeySource::Given(a, b)),
        _ => Err(PrivateKeysError::NoKeys),
    }
}

/// The value that the assignments `vars` (in file order) give `name`: the last
/// assignment wins.
pub open spec fn env_value_spec(vars: Seq<(String, String)>, name: Seq<char>) -> Option<Seq<char>>
    decreases vars.len(),
{
    if vars.len() == 0 {
        None
    } else if vars.last().0@ == name {
        Some(vars.last().1@)
    } else {
        env_value_spec(vars.drop_last(), name)
    }
}

/// The value that the assignments `vars` give `name`, if any.
pub fn env_value(vars: &Vec<(String, String)>, name: &String) -> (r: Option<String>)
    ensures
        match env_value_spec(vars@, name@) {
            Some(v) => r matches Some(s) && s@ == v,
            None => r is None,
        },
{
    let mut i: usize = vars.len();
    proof {
        assert(vars@.subrange(0, i as int) =~= vars@);
    }
    while i > 0
        invariant
            i <= vars@.len(),
            env_value_spec(vars@, name@) == env_value_spec(vars@.subrange(0, i as int), name@),
        decreases i,
    {
        let ghost pre = vars@.subrange(0, i as int);
        proof {
            assert(pre.drop_last() =~= vars@.subrange(0, i - 1));
            assert(pre.last() == vars@[i - 1]);
        }
        if vars[i - 1].0 == *name {
            return Some(vars[i - 1].1.clone());
        }
        i = i - 1;
    }
    None
}

/// The staking and the state key that a key file sets, as text; a missing one is an
/// error naming its variable.
pub fn key_file_keys(vars: &Vec<(String, String)>) -> (r: Result<(String, String), PrivateKeysError>)
    ensures
        match (
            env_value_spec(vars@, "ESPRESSO_BUILDER_PRIVATE_STAKING_KEY"@),
            env_value_spec(vars@, "ESPRESSO_BUILDER_PRIVATE_STATE_KEY"@),
        ) {
            (Some(a), Some(b)) => r matches Ok((x, y)) && x@ == a && y@ == b,
            (None, _) => r matches Err(PrivateKeysError::KeyFileMissing(n)) && n@
                == "ESPRESSO_BUILDER_PRIVATE_STAKING_KEY"@,
            (Some(_), None) => r matches Err(PrivateKeysError::KeyFileMissing(n)) && n@
                == "ESPRESSO_BUILDER_PRIVATE_STATE_KEY"@,
        },
{
    let staking_name = "ESPRESSO_BUILDER_PRIVATE_STAKING_KEY".to_string();
    let state_name = "ESPRESSO_BUILDER_PRIVATE_STATE_KEY".to_string();
    let staking = match env_value(vars, &staking_name) {
        Some(v) => v,
        None => {
            return Err(PrivateKeysError::KeyFileMissing(staking_name));
        },
    };
    let state = match env_value(vars, &state_name) {
        Some(v) => v,
        None => {
            return Err(PrivateKeysError::KeyFileMissing(state_name));
        },
    };
    Ok((staking, state))
}

} // verus!
