//! Environment configuration: named broker environments and which one is
//! active.
//!
//! The tool keeps a set of named environments, each with its broker list
//! and a default flag.  Reading and writing the configuration file is
//! the caller's business; what is decided here is the pure part:
//! activating one environment (and only that one), finding the active
//! environment, and replacing an environment's entry.

use vstd::prelude::*;
use vstd::string::StringExecFns;

verus! {

/// One named environment's settings: its broker list and whether it is
/// the active default.
#[derive(Debug)]
pub struct EnvironmentConfig {
    pub brokers: String,
    pub is_default: bool,
}

impl View for EnvironmentConfig {
    type V = (Seq<char>, bool);

    open spec fn view(&self) -> (Seq<char>, bool) {
        (self.brokers@, self.is_default)
    }
}

/// What can go wrong handling the configuration: each variant carries
/// its rendered message.
#[derive(Debug)]
pub enum ConfigError {
    ConfigFileNotFound(String),
    HomeDirNotFound(String),
    ConfigRead(String),
    ConfigWrite(String),
    ConfigParse(String),
    ConfigSerialize(String),
    ConfigCreate(String),
    EnvironmentNotFound(String),
    NoActiveEnvironment(String),
}

/// The view of an environment list: name, brokers, default flag.
pub open spec fn envs_view(s: Seq<(String, EnvironmentConfig)>) -> Seq<(Seq<char>, Seq<char>, bool)> {
    s.map_values(|e: (String, EnvironmentConfig)| (e.0@, e.1.brokers@, e.1.is_default))
}

/// True when some environment carries this name.
pub open spec fn has_env(ev: Seq<(Seq<char>, Seq<char>, bool)>, name: Seq<char>) -> bool {
    exists|i: int| 0 <= i < ev.len() && ev[i].0 == name
}

/// Marks the named environment as the default and every other one as
/// not, or reports that no environment carries that name.
///
/// Exactly one environment is default afterwards — the named one; the
/// names and broker lists are untouched.
#[verifier::loop_isolation(false)]
pub fn activate_environment(environments: Vec<(String, EnvironmentConfig)>, environment: &str) -> (r:
    Result<Vec<(String, EnvironmentConfig)>, ConfigError>)
    ensures
        match r {
            Ok(v) => has_env(envs_view(environments@), environment@) && v.len()
                == environments.len() && forall|i: int|
                0 <= i < v.len() ==> #[trigger] envs_view(v@)[i] == (
                    envs_view(environments@)[i].0,
                    envs_view(environments@)[i].1,
                    envs_view(environments@)[i].0 == environment@,
                ),
            Err(e) => !has_env(envs_view(environments@), environment@) && (
            e matches ConfigError::EnvironmentNotFound(m) && m@ == "Environment "@ + environment@
                + " not found"@),
        },
{
    let ghost ev = envs_view(environments@);
    let env_owned = String::from_str(environment);
    let mut found = false;
    let mut k: usize = 0;
    while k < environments.len()
        invariant
            k <= environments.len(),
            found <==> exists|t: int| 0 <= t < k && #[trigger] ev[t].0 == environment@,
        decreases environments.len() - k,
    {
        if environments[k].0 == env_owned {
            found = true;
            proof {
                assert(ev[k as int].0 == environment@);
            }
        }
        k = k + 1;
    }
    if !found {
        let mut m = String::from_str("Environment ");
        m.append(environment);
        m.append(" not found");
        proof {
            if has_env(ev, environment@) {
                let w = choose|i: int| 0 <= i < ev.len() && ev[i].0 == environment@;
                assert(ev[w].0 == environment@);
            }
        }
        return Err(ConfigError::EnvironmentNotFound(m));
    }
    let mut out: Vec<(String, EnvironmentConfig)> = Vec::new();
    let mut i: usize = 0;
    while i < environments.len()
        invariant
            i <= environments.len(),
            out.len() == i,
            forall|t: int| 0 <= t < i ==> #[trigger] envs_view(out@)[t] == (
                ev[t].0,
                ev[t].1,
                ev[t].0 == environment@,
            ),
        decreases environments.len() - i,
    {
        let name = environments[i].0.clone();
        let brokers = environments[i].1.brokers.clone();
        let make_default = environments[i].0 == env_owned;
        let ghost out_old = out@;
        out.push((name, EnvironmentConfig { brokers, is_default: make_default }));
        proof {
            assert(ev[i as int] == (
                environments@[i as int].0@,
                environments@[i as int].1.brokers@,
                environments@[i as int].1.is_default,
            ));
            assert forall|t: int| 0 <= t < i + 1 implies #[trigger] envs_view(out@)[t] == (
                ev[t].0,
                ev[t].1,
                ev[t].0 == environment@,
            ) by {
                if t < i {
                    assert(out@[t] == out_old[t]);
                    assert(envs_view(out_old)[t] == (ev[t].0, ev[t].1, ev[t].0 == environment@));
                } else {
                    assert(envs_view(out@)[t] == (ev[t].0, ev[t].1, make_default));
                }
            }
        }
        i = i + 1;
    }
    Ok(out)
}

/// Finds the active environment: the first one whose default flag is
/// set, or an error when none is set.
#[verifier::loop_isolation(false)]
pub fn get_active_environment(environments: &Vec<(String, EnvironmentConfig)>) -> (r: Result<
    EnvironmentConfig,
    ConfigError,
>)
    ensures
        match r {
            Ok(c) => exists|i: int|
                0 <= i < environments.len() && (#[trigger] envs_view(environments@)[i]).2 && c@
                    == (envs_view(environments@)[i].1, true),
            Err(e) => (forall|i: int|
                0 <= i < environments.len() ==> !(#[trigger] envs_view(environments@)[i]).2) && (
            e matches ConfigError::NoActiveEnvironment(m) && m@ == "No active environment found"@),
        },
{
    let ghost ev = envs_view(environments@);
    let mut k: usize = 0;
    while k < environments.len()
        invariant
            k <= environments.len(),
            forall|t: int| 0 <= t < k ==> !(#[trigger] ev[t]).2,
        decreases environments.len() - k,
    {
        if environments[k].1.is_default {
            proof {
                assert((ev[k as int]).2);
            }
            return Ok(
                EnvironmentConfig {
                    brokers: environments[k].1.brokers.clone(),
                    is_default: true,
                },
            );
        }
        k = k + 1;
    }
    Err(ConfigError::NoActiveEnvironment(String::from_str("No active environment found")))
}

/// The environment list without any entry carrying the given name, from
/// index `i` on.
pub open spec fn spec_without(
    ev: Seq<(Seq<char>, Seq<char>, bool)>,
    name: Seq<char>,
    i: int,
) -> Seq<(Seq<char>, Seq<char>, bool)>
    decreases ev.len() - i,
{
    if i < 0 || i >= ev.len() {
        Seq::empty()
    } else if ev[i].0 == name {
        spec_without(ev, name, i + 1)
    } else {
        seq![ev[i]] + spec_without(ev, name, i + 1)
    }
}

/// Replaces the named environment's settings: any existing entry with
/// this name goes away and the new entry is appended.
#[verifier::loop_isolation(false)]
pub fn upsert_environment(
    environments: Vec<(String, EnvironmentConfig)>,
    name: &String,
    config: EnvironmentConfig,
) -> (r: Vec<(String, EnvironmentConfig)>)
    ensures
        envs_view(r@) == spec_without(envs_view(environments@), name@, 0).push(
            (name@, config.brokers@, config.is_default),
        ),
{
    let ghost ev = envs_view(environments@);
    let mut out: Vec<(String, EnvironmentConfig)> = Vec::new();
    proof {
        assert(envs_view(out@) =~= Seq::<(Seq<char>, Seq<char>, bool)>::empty());
    }
    let mut i: usize = 0;
    while i < environments.len()
        invariant
            i <= environments.len(),
            spec_without(ev, name@, 0) == envs_view(out@) + spec_without(ev, name@, i as int),
        decreases environments.len() - i,
    {
        let ghost out0 = envs_view(out@);
        if !(environments[i].0 == *name) {
            let entry_name = environments[i].0.clone();
            let brokers = environments[i].1.brokers.clone();
            let is_default = environments[i].1.is_default;
            out.push((entry_name, EnvironmentConfig { brokers, is_default }));
            proof {
                assert(envs_view(out@) =~= out0.push(ev[i as int]));
                assert(out0.push(ev[i as int]) + spec_without(ev, name@, i as int + 1)
                    =~= out0 + (seq![ev[i as int]] + spec_without(ev, name@, i as int + 1)));
            }
        }
        i = i + 1;
    }
    proof {
        assert(spec_without(ev, name@, environments@.len() as int) =~= Seq::<
            (Seq<char>, Seq<char>, bool),
        >::empty());
        assert(envs_view(out@) + spec_without(ev, name@, environments@.len() as int) =~= envs_view(
            out@,
        ));
    }
    let ghost before_push = envs_view(out@);
    out.push((name.clone(), config));
    proof {
        assert(envs_view(out@) =~= before_push.push((name@, config.brokers@, config.is_default)));
    }
    out
}

} // verus!
