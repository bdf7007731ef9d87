//! LLM providers configured through the web interface: checking a submitted
//! provider and computing the row that is stored for it. A submission without
//! an API key, or with a blank one, keeps the key already stored.
use vstd::prelude::*;
use crate::error::{is_validation_error, GscholarError};
use crate::llm::{
    interface_for, interface_key, normalize_endpoint_for_interface, normalized_endpoint,
    unsupported_interface_message, InterfaceType,
};
use crate::text::{ascii_lower_char, str_lowercase, string_of, to_lowercase, trim, trimmed_chars};

verus! {

broadcast use vstd::string::group_string_axioms;

/// A provider as submitted for creation or update.
#[derive(Debug, Clone)]
pub struct UpsertProvider {
    pub name: String,
    pub enabled: bool,
    pub interface_type: String,
    pub endpoint: String,
    pub model: String,
    pub api_key: Option<String>,
    pub order: i64,
}

/// A provider as shown to users: whether a key is set, never the key.
#[derive(Debug, Clone)]
pub struct PublicProvider {
    pub name: String,
    pub enabled: bool,
    pub interface_type: String,
    pub endpoint: String,
    pub model: String,
    pub api_key_set: bool,
    pub order: i64,
}

/// A provider as stored, key included.
#[derive(Debug, Clone)]
pub struct RuntimeProvider {
    pub name: String,
    pub enabled: bool,
    pub interface_type: String,
    pub endpoint: String,
    pub model: String,
    pub api_key: String,
    pub order: i64,
}

/// The name under which a provider is stored: trimmed and lower-cased.
pub open spec fn provider_name(name: Seq<char>) -> Seq<char> {
    str_lowercase(trim(name))
}

/// Normalizes a provider name (`provider_name`); a blank name is refused.
pub fn normalize_name(name: &str) -> (r: Result<String, GscholarError>)
    ensures
        trim(name@).len() == 0 ==> is_validation_error(r, "LLM provider name is required"@),
        trim(name@).len() > 0 ==> (r matches Ok(s) && s@ == provider_name(name@) && s@.len() > 0),
{
    let t = trimmed_chars(name);
    let lower = to_lowercase(&t);
    proof {
        if t@.len() == 0 {
            assert(t@.map_values(|c: char| ascii_lower_char(c)).len() == 0);
        }
    }
    if lower.len() == 0 {
        return Err(GscholarError::Validation(String::from_str("LLM provider name is required")));
    }
    Ok(string_of(&lower))
}

/// Why a submitted provider is refused, if it is, as (is a configuration
/// error, message): name, endpoint and model
/// must not be blank, and the interface must be one `InterfaceType::parse`
/// knows; checked in this order.
pub open spec fn provider_error(p: UpsertProvider) -> Option<(bool, Seq<char>)> {
    if trim(p.name@).len() == 0 {
        Some((false, "LLM provider name is required"@))
    } else if trim(p.endpoint@).len() == 0 {
        Some((false, "LLM provider endpoint is required"@))
    } else if trim(p.model@).len() == 0 {
        Some((false, "LLM provider model is required"@))
    } else if interface_for(p.interface_type@) is None {
        Some((true, unsupported_interface_message(interface_key(p.interface_type@))))
    } else {
        None
    }
}

/// `r` is the error that `provider_error` names, or `Ok` when it names none.
pub open spec fn matches_provider_error<T>(r: Result<T, GscholarError>, e: Option<(bool, Seq<char>)>) -> bool {
    match e {
        Some((true, m)) => r matches Err(GscholarError::Config(s)) && s@ == m,
        Some((false, m)) => r matches Err(GscholarError::Validation(s)) && s@ == m,
        None => r is Ok,
    }
}

/// Checks a submitted provider (`provider_error`).
pub fn validate_common(provider: &UpsertProvider) -> (r: Result<(), GscholarError>)
    ensures
        matches_provider_error(r, provider_error(*provider)),
        trim(provider.name@).len() == 0 ==> is_validation_error(
            r,
            "LLM provider name is required"@,
        ),
{
    match normalize_name(provider.name.as_str()) {
        Err(e) => {
            return Err(e);
        },
        Ok(_) => {},
    }
    if trimmed_chars(provider.endpoint.as_str()).len() == 0 {
        return Err(GscholarError::Validation(String::from_str("LLM provider endpoint is required")));
    }
    if trimmed_chars(provider.model.as_str()).len() == 0 {
        return Err(GscholarError::Validation(String::from_str("LLM provider model is required")));
    }
    match InterfaceType::parse(provider.interface_type.as_str()) {
        Err(e) => Err(e),
        Ok(_) => Ok(()),
    }
}

/// The key stored after an update: the submitted key, trimmed, when it is not
/// blank; otherwise the key already stored, or none.
pub open spec fn resolved_api_key(submitted: Option<Seq<char>>, existing: Option<Seq<char>>) -> Seq<char> {
    match submitted {
        Some(k) if trim(k).len() > 0 => trim(k),
        _ => match existing {
            Some(e) => e,
            None => Seq::empty(),
        },
    }
}

/// The submitted key, as characters.
pub open spec fn submitted_key(p: UpsertProvider) -> Option<Seq<char>> {
    match p.api_key {
        Some(k) => Some(k@),
        None => None,
    }
}

/// The row stored for a submission that passes `validate_common`, given the
/// key stored under its name before, if any.
pub open spec fn stored_row(p: UpsertProvider, existing: Option<Seq<char>>) -> (Seq<char>, bool, Seq<char>, Seq<char>, Seq<char>, Seq<char>, i64) {
    (
        provider_name(p.name@),
        p.enabled,
        trim(p.interface_type@),
        normalized_endpoint(p.endpoint@, interface_for(p.interface_type@)->0),
        trim(p.model@),
        resolved_api_key(submitted_key(p), existing),
        p.order,
    )
}

/// The fields of a stored provider.
pub open spec fn runtime_view(r: RuntimeProvider) -> (Seq<char>, bool, Seq<char>, Seq<char>, Seq<char>, Seq<char>, i64) {
    (r.name@, r.enabled, r.interface_type@, r.endpoint@, r.model@, r.api_key@, r.order)
}

/// The row that an upsert stores (`stored_row`), or the error for a refused
/// submission; `existing_key` is the key stored under the same name before.
pub fn prepare_upsert(provider: &UpsertProvider, existing_key: Option<String>) -> (r: Result<RuntimeProvider, GscholarError>)
    ensures
        provider_error(*provider) is Some ==> matches_provider_error(r, provider_error(*provider)),
        trim(provider.name@).len() == 0 ==> is_validation_error(
            r,
            "LLM provider name is required"@,
        ),
        provider_error(*provider) is None ==> (r matches Ok(row) && runtime_view(row)
            == stored_row(
            *provider,
            match existing_key {
                Some(k) => Some(k@),
                None => None,
            },
        )),
        provider_error(*provider) is None && (submitted_key(*provider) is None || trim(
            submitted_key(*provider)->0,
        ).len() == 0) ==> (r matches Ok(row) && row.api_key@ == match existing_key {
            Some(k) => k@,
            None => Seq::empty(),
        }),
{
    match validate_common(provider) {
        Err(e) => {
            return Err(e);
        },
        Ok(()) => {},
    }
    let name = match normalize_name(provider.name.as_str()) {
        Ok(n) => n,
        Err(e) => {
            return Err(e);
        },
    };
    let interface_type = match InterfaceType::parse(provider.interface_type.as_str()) {
        Ok(t) => t,
        Err(e) => {
            return Err(e);
        },
    };
    let endpoint = normalize_endpoint_for_interface(provider.endpoint.as_str(), interface_type);
    let submitted = match &provider.api_key {
        Some(k) => {
            let t = trimmed_chars(k.as_str());
            if t.len() > 0 {
                Some(string_of(&t))
            } else {
                None
            }
        },
        None => None,
    };
    let api_key = match submitted {
        Some(k) => k,
        None => match existing_key {
            Some(e) => e,
            None => String::new(),
        },
    };
    Ok(RuntimeProvider {
        name,
        enabled: provider.enabled,
        interface_type: string_of(&trimmed_chars(provider.interface_type.as_str())),
        endpoint,
        model: string_of(&trimmed_chars(provider.model.as_str())),
        api_key,
        order: provider.order,
    })
}

} // verus!
