//! Which administrator password a deployment starts with: the first non-blank
//! `SCHOLARLENS_ADMIN_PASSWORD`, else the first non-blank
//! `SCHOLARLENS_ADMIN_KEY`, else the built-in default `123456`.
use vstd::prelude::*;
use crate::text::{chars_eq, chars_of, string_of, trim, trimmed_chars};

verus! {

broadcast use vstd::string::group_string_axioms;

/// An administrator password and where it came from.
#[derive(Debug, Clone, PartialEq, Eq)]
pub struct DeploymentAdminKey {
    pub source: String,
    pub value: String,
}

/// The preferred variable.
pub open spec fn password_var() -> Seq<char> {
    "SCHOLARLENS_ADMIN_PASSWORD"@
}

/// The fallback variable.
pub open spec fn key_var() -> Seq<char> {
    "SCHOLARLENS_ADMIN_KEY"@
}

/// The source named for the built-in password.
pub open spec fn default_source() -> Seq<char> {
    "default"@
}

/// The built-in password.
pub open spec fn default_password() -> Seq<char> {
    "123456"@
}

/// The (source, value) pairs as character sequences.
pub open spec fn pair_views(pairs: Seq<(&str, &str)>) -> Seq<(Seq<char>, Seq<char>)> {
    pairs.map_values(|p: (&str, &str)| (p.0@, p.1@))
}

/// The first index from `i` on whose source is `name` and whose trimmed
/// value is not empty.
pub open spec fn first_set_from(pairs: Seq<(Seq<char>, Seq<char>)>, name: Seq<char>, i: int) -> Option<int>
    decreases pairs.len() - i,
{
    if i < 0 || i >= pairs.len() {
        None
    } else if pairs[i].0 == name && trim(pairs[i].1).len() > 0 {
        Some(i)
    } else {
        first_set_from(pairs, name, i + 1)
    }
}

/// The first pair that sets `name` to a non-blank value, as (source, trimmed
/// value).
pub open spec fn first_set(pairs: Seq<(Seq<char>, Seq<char>)>, name: Seq<char>) -> Option<(Seq<char>, Seq<char>)> {
    match first_set_from(pairs, name, 0) {
        Some(i) => Some((pairs[i].0, trim(pairs[i].1))),
        None => None,
    }
}

/// The configured password: the password variable wins over the key variable.
pub open spec fn deployment_choice(pairs: Seq<(Seq<char>, Seq<char>)>) -> Option<(Seq<char>, Seq<char>)> {
    match first_set(pairs, password_var()) {
        Some(c) => Some(c),
        None => first_set(pairs, key_var()),
    }
}

/// The (source, value) of a key.
pub open spec fn key_view(k: DeploymentAdminKey) -> (Seq<char>, Seq<char>) {
    (k.source@, k.value@)
}

proof fn lemma_first_set_from(pairs: Seq<(Seq<char>, Seq<char>)>, name: Seq<char>, i: int)
    requires
        0 <= i <= pairs.len(),
    ensures
        first_set_from(pairs, name, i) matches Some(j) ==> i <= j < pairs.len() && pairs[j].0
            == name && trim(pairs[j].1).len() > 0,
    decreases pairs.len() - i,
{
    if i < pairs.len() {
        lemma_first_set_from(pairs, name, i + 1);
    }
}

/// The first pair that sets `name` to a non-blank value.
fn find_set(pairs: &[(&str, &str)], name: &Vec<char>) -> (r: Option<DeploymentAdminKey>)
    ensures
        match first_set(pair_views(pairs@), name@) {
            Some(c) => r matches Some(k) && key_view(k) == c,
            None => r is None,
        },
{
    let ghost views = pair_views(pairs@);
    let mut i: usize = 0;
    while i < pairs.len()
        invariant
            i <= pairs.len(),
            views == pair_views(pairs@),
            first_set_from(views, name@, 0) == first_set_from(views, name@, i as int),
        decreases pairs.len() - i,
    {
        let (source, value) = pairs[i];
        assert(views[i as int] == (source@, value@));
        let s = chars_of(source);
        let v = trimmed_chars(value);
        if chars_eq(&s, name) && v.len() > 0 {
            return Some(DeploymentAdminKey { source: string_of(&s), value: string_of(&v) });
        }
        i = i + 1;
    }
    None
}

/// The password configured by the deployment, from (variable, value) pairs in
/// the order they were read (`deployment_choice`).
pub fn deployment_admin_key_from_pairs(pairs: &[(&str, &str)]) -> (r: Option<DeploymentAdminKey>)
    ensures
        match deployment_choice(pair_views(pairs@)) {
            Some(c) => r matches Some(k) && key_view(k) == c,
            None => r is None,
        },
        first_set(pair_views(pairs@), password_var()) is Some ==> (r matches Some(k) && k.source@
            == password_var()),
        r matches Some(k) ==> k.value@.len() > 0,
{
    proof {
        lemma_first_set_from(pair_views(pairs@), password_var(), 0);
        lemma_first_set_from(pair_views(pairs@), key_var(), 0);
    }
    let password = chars_of("SCHOLARLENS_ADMIN_PASSWORD");
    match find_set(pairs, &password) {
        Some(k) => Some(k),
        None => {
            let key = chars_of("SCHOLARLENS_ADMIN_KEY");
            find_set(pairs, &key)
        },
    }
}

/// The built-in password.
fn default_admin_key() -> (r: DeploymentAdminKey)
    ensures
        key_view(r) == (default_source(), default_password()),
{
    DeploymentAdminKey {
        source: String::from_str("default"),
        value: String::from_str("123456"),
    }
}

/// The password for the first administrator: the configured one, else the
/// built-in `123456`.
pub fn initial_admin_key_from_pairs(pairs: &[(&str, &str)]) -> (r: DeploymentAdminKey)
    ensures
        key_view(r) == match deployment_choice(pair_views(pairs@)) {
            Some(c) => c,
            None => (default_source(), default_password()),
        },
{
    match deployment_admin_key_from_pairs(pairs) {
        Some(k) => k,
        None => default_admin_key(),
    }
}

/// The password that initialising the administrator uses: the one given on
/// the command line, trimmed, with source `--key`; else the initial password
/// from the (variable, value) pairs.
pub fn configured_admin_key(custom_key: Option<&str>, pairs: &[(&str, &str)]) -> (r: DeploymentAdminKey)
    ensures
        key_view(r) == match custom_key {
            Some(v) => ("--key"@, trim(v@)),
            None => match deployment_choice(pair_views(pairs@)) {
                Some(c) => c,
                None => (default_source(), default_password()),
            },
        },
{
    match custom_key {
        Some(v) => {
            let t = trimmed_chars(v);
            DeploymentAdminKey { source: String::from_str("--key"), value: string_of(&t) }
        },
        None => initial_admin_key_from_pairs(pairs),
    }
}

/// What the server does about the administrator password when it starts.
#[derive(Debug, Clone, PartialEq, Eq)]
pub enum AdminStartup {
    /// Set the administrator password to the deployment's.
    Synchronize(DeploymentAdminKey),
    /// Create the first administrator with this password.
    CreateInitial(DeploymentAdminKey),
    /// Leave the existing administrator as it is.
    Keep,
}

/// A deployment password always wins; without one, the first administrator is
/// created with the built-in password when none exists yet.
pub fn startup_admin_action(deployment: Option<DeploymentAdminKey>, has_admin: bool) -> (r: AdminStartup)
    ensures
        match deployment {
            Some(k) => r == AdminStartup::Synchronize(k),
            None => if has_admin {
                r == AdminStartup::Keep
            } else {
                r matches AdminStartup::CreateInitial(k) && key_view(k) == (
                    default_source(),
                    default_password(),
                )
            },
        },
{
    match deployment {
        Some(k) => AdminStartup::Synchronize(k),
        None => {
            if has_admin {
                AdminStartup::Keep
            } else {
                AdminStartup::CreateInitial(default_admin_key())
            }
        },
    }
}


/// What initialising the administrator from the command line does: nothing
/// when an administrator exists; otherwise create one with the password of
/// `configured_admin_key`.
pub fn init_admin_action(has_admin: bool, custom_key: Option<&str>, pairs: &[(&str, &str)]) -> (r: Option<DeploymentAdminKey>)
    ensures
        has_admin ==> r is None,
        !has_admin ==> (r matches Some(k) && key_view(k) == match custom_key {
            Some(v) => ("--key"@, trim(v@)),
            None => match deployment_choice(pair_views(pairs@)) {
                Some(c) => c,
                None => (default_source(), default_password()),
            },
        }),
{
    if has_admin {
        None
    } else {
        Some(configured_admin_key(custom_key, pairs))
    }
}

} // verus!
