//! Turning a request to notify an agent into one call of the push gateway.
use vstd::prelude::*;
use crate::clone_service_request::{contains_request, requests_view, CloneServiceRequest};
use crate::fcm_token::{current_token, lemma_registered, registered, TokenLinksView, TokenRegistry};
use crate::index::keys_unique;
use crate::service_account_key::{
    lemma_published_wf, project_of, RegistryView, ServiceAccountKey, ServiceAccountKeyRegistry,
    ServiceAccountKeyView,
};

verus! {

#[derive(Debug)]
pub struct PushNotification {
    pub title: String,
    pub body: String,
}

impl View for PushNotification {
    type V = (Seq<char>, Seq<char>);

    open spec fn view(&self) -> (Seq<char>, Seq<char>) {
        (self.title@, self.body@)
    }
}

/// A request to notify `agent`.
pub struct SendPushNotificationToAgentInput {
    pub agent: String,
    pub notification: PushNotification,
}

/// The delivery event raised on the node's local signal bus: everything the
/// gateway call needs.
#[derive(Debug)]
pub struct SendPushNotificationSignal {
    pub token: String,
    pub fcm_project_id: String,
    pub service_account_key: ServiceAccountKey,
    pub notification: PushNotification,
}

#[derive(Debug, PartialEq, Eq, Structural)]
pub enum DeliveryError {
    /// The agent has not registered a token.
    NoFcmToken,
    /// The token's project has no current credential.
    NoServiceAccountKey,
}

/// Looks up the agent's current token and the current credential of the
/// token's project, and assembles the delivery event.
pub fn send_push_notification_to_agent(
    tokens: &TokenRegistry,
    keys: &ServiceAccountKeyRegistry,
    input: SendPushNotificationToAgentInput,
) -> (r: Result<SendPushNotificationSignal, DeliveryError>)
    requires
        tokens.wf(),
        keys.wf(),
    ensures
        match current_token(tokens@, input.agent@) {
            None => r == Err::<SendPushNotificationSignal, DeliveryError>(DeliveryError::NoFcmToken),
            Some((project, token)) => match keys@.current(project) {
                None => r == Err::<SendPushNotificationSignal, DeliveryError>(DeliveryError::NoServiceAccountKey),
                Some(key) => match r {
                    Ok(s) => {
                        &&& s.token@ == token
                        &&& s.fcm_project_id@ == project
                        &&& s.service_account_key@ == key
                        &&& s.notification@ == input.notification@
                    },
                    Err(_) => false,
                },
            },
        },
{
    let tag = match tokens.get_fcm_token_for_agent(&input.agent) {
        Some(t) => t,
        None => {
            return Err(DeliveryError::NoFcmToken);
        },
    };
    let key = match keys.get_current(&tag.fcm_project_id) {
        Some(k) => k,
        None => {
            return Err(DeliveryError::NoServiceAccountKey);
        },
    };
    Ok(
        SendPushNotificationSignal {
            token: tag.token,
            fcm_project_id: tag.fcm_project_id,
            service_account_key: key,
            notification: input.notification,
        },
    )
}

/// A signal as the provider's signal handler receives it, once decoded.
pub enum ProviderSignal {
    SendPushNotification(SendPushNotificationSignal),
    /// Another node appended this shard request.
    NewCloneServiceRequest(CloneServiceRequest),
    /// A signal of no concern to the provider.
    Unrecognized,
}

/// The arguments of one push-gateway call.
#[derive(Debug)]
pub struct GatewayCall {
    pub fcm_project_id: String,
    pub service_account_key: ServiceAccountKey,
    pub token: String,
    pub notification: PushNotification,
}

#[derive(Debug, PartialEq, Eq, Structural)]
pub enum DropReason {
    /// The event names no project, no token, or a credential without a
    /// project.
    Malformed,
    /// The signal is not one the provider acts on.
    Unrecognized,
}

/// What the signal handler does with one signal.
pub enum SignalAction {
    /// Call the gateway once with these arguments; a failure is logged, not
    /// retried.
    Deliver(GatewayCall),
    /// Wait until this shard request is listed, then run a reconciliation
    /// pass.
    ReconcileWhenVisible(CloneServiceRequest),
    /// Log and drop the signal.
    Drop(DropReason),
}

/// A delivery event is well formed when it names a project, a token, and a
/// credential that names a project.
pub open spec fn well_formed(project: Seq<char>, token: Seq<char>, key: ServiceAccountKeyView) -> bool {
    &&& project.len() > 0
    &&& token.len() > 0
    &&& project_of(key) is Some
}

/// Decides what to do with one signal: a well-formed delivery event becomes
/// exactly one gateway call with the event's own values.
pub fn handle_signal(signal: ProviderSignal) -> (r: SignalAction)
    ensures
        match signal {
            ProviderSignal::SendPushNotification(s) => if well_formed(
                s.fcm_project_id@,
                s.token@,
                s.service_account_key@,
            ) {
                match r {
                    SignalAction::Deliver(c) => {
                        &&& c.fcm_project_id@ == s.fcm_project_id@
                        &&& c.service_account_key@ == s.service_account_key@
                        &&& c.token@ == s.token@
                        &&& c.notification@ == s.notification@
                    },
                    _ => false,
                }
            } else {
                r == SignalAction::Drop(DropReason::Malformed)
            },
            ProviderSignal::NewCloneServiceRequest(q) => r matches SignalAction::ReconcileWhenVisible(p) && p@ == q@,
            ProviderSignal::Unrecognized => r == SignalAction::Drop(DropReason::Unrecognized),
        },
{
    match signal {
        ProviderSignal::SendPushNotification(s) => {
            let key_names_project = match &s.service_account_key.project_id {
                Some(p) => !p.as_str().is_empty(),
                None => false,
            };
            if s.fcm_project_id.as_str().is_empty() || s.token.as_str().is_empty() || !key_names_project {
                return SignalAction::Drop(DropReason::Malformed);
            }
            SignalAction::Deliver(
                GatewayCall {
                    fcm_project_id: s.fcm_project_id,
                    service_account_key: s.service_account_key,
                    token: s.token,
                    notification: s.notification,
                },
            )
        },
        ProviderSignal::NewCloneServiceRequest(q) => SignalAction::ReconcileWhenVisible(q),
        ProviderSignal::Unrecognized => SignalAction::Drop(DropReason::Unrecognized),
    }
}

/// After a credential is published for a project and an agent registers a
/// token of that project, a notification for the agent resolves to that
/// token and that credential, and makes a well-formed delivery event when
/// the token is not empty.
pub proof fn lemma_end_to_end_delivery(
    keys: RegistryView,
    tokens: TokenLinksView,
    key: ServiceAccountKeyView,
    project: Seq<char>,
    agent: Seq<char>,
    token: Seq<char>,
)
    requires
        keys.wf(),
        keys_unique(tokens),
        project_of(key) == Some(project),
    ensures
        ({
            let keys_after = keys.published(key, project);
            let tokens_after = registered(tokens, agent, (project, token));
            &&& current_token(tokens_after, agent) == Some((project, token))
            &&& keys_after.current(project) == Some(key)
            &&& token.len() > 0 ==> well_formed(project, token, key)
        }),
{
    lemma_published_wf(keys, key, project);
    lemma_registered(tokens, agent, (project, token));
}

/// Whether a signalled request is among the listed ones yet.
pub fn is_listed(listed: &Vec<CloneServiceRequest>, request: &CloneServiceRequest) -> (r: bool)
    ensures
        r == requests_view(listed@).contains(request@),
{
    let r = contains_request(listed, listed.len(), request);
    assert(requests_view(listed@).take(listed.len() as int) =~= requests_view(listed@));
    r
}

} // verus!
