//! The ledger's validation rules for the entries and links of this service.
use vstd::prelude::*;

verus! {

/// What kind of address a link's base or target is.
#[derive(Debug, PartialEq, Eq, Structural)]
pub enum LinkableKind {
    Entry,
    Action,
    Agent,
    External,
}

#[derive(Debug)]
pub enum ValidateCallbackResult {
    Valid,
    Invalid(String),
}

/// Stored credentials are never edited: a later publish supersedes them.
pub fn validate_update_service_account_key() -> (r: ValidateCallbackResult)
    ensures
        r matches ValidateCallbackResult::Invalid(m) && m@ == "Service Account Keys cannot be updated"@,
{
    ValidateCallbackResult::Invalid(String::from_str("Service Account Keys cannot be updated"))
}

/// Shard requests are never edited.
pub fn validate_update_clone_service_request() -> (r: ValidateCallbackResult)
    ensures
        r matches ValidateCallbackResult::Invalid(m) && m@ == "Clone Service Requests cannot be updated"@,
{
    ValidateCallbackResult::Invalid(String::from_str("Clone Service Requests cannot be updated"))
}

/// A provider-directory link goes from an entry to an agent.
pub fn validate_create_link_service_providers(base: LinkableKind, target: LinkableKind) -> (r: ValidateCallbackResult)
    ensures
        base != LinkableKind::Entry ==> (r matches ValidateCallbackResult::Invalid(m)
            && m@ == "Base address for a ServiceProviders link must be an entry hash"@),
        base == LinkableKind::Entry && target != LinkableKind::Agent ==> (r matches ValidateCallbackResult::Invalid(m)
            && m@ == "Target address for a ServiceProviders link must be an AgentPubKey"@),
        base == LinkableKind::Entry && target == LinkableKind::Agent ==> r is Valid,
{
    if base != LinkableKind::Entry {
        return ValidateCallbackResult::Invalid(
            String::from_str("Base address for a ServiceProviders link must be an entry hash"),
        );
    }
    if target != LinkableKind::Agent {
        return ValidateCallbackResult::Invalid(
            String::from_str("Target address for a ServiceProviders link must be an AgentPubKey"),
        );
    }
    ValidateCallbackResult::Valid
}

/// An index link (to a credential or to a shard request) must point at an
/// action whose record holds an entry of the indexed type.
pub fn validate_create_index_link(target: LinkableKind, target_has_entry: bool) -> (r: Result<
    ValidateCallbackResult,
    String,
>)
    ensures
        target != LinkableKind::Action ==> (r matches Err(m) && m@ == "No action hash associated with link"@),
        target == LinkableKind::Action && !target_has_entry ==> (r matches Err(m) && m@
            == "Linked action must reference an entry"@),
        target == LinkableKind::Action && target_has_entry ==> (r matches Ok(v) && v is Valid),
{
    if target != LinkableKind::Action {
        return Err(String::from_str("No action hash associated with link"));
    }
    if !target_has_entry {
        return Err(String::from_str("Linked action must reference an entry"));
    }
    Ok(ValidateCallbackResult::Valid)
}

} // verus!
