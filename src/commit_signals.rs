//! What a node signals after it commits actions: a new shard request is
//! announced to every listed provider, and each committed action is echoed
//! on the local signal bus.
use vstd::prelude::*;
use crate::clone_service_request::{CloneServiceRequest, CloneServiceRequestView};
use crate::service_providers::ServiceProviders;
use crate::text::strings_view;

verus! {

#[derive(Debug, PartialEq, Eq, Structural)]
pub enum LinkType {
    AllCloneServiceRequests,
    ServiceProviders,
}

/// A committed action, with the entries it touches read back from the
/// ledger (none where the read found nothing of this service).
pub enum CommittedAction {
    Create { entry: Option<CloneServiceRequest> },
    Update { entry: Option<CloneServiceRequest>, original: Option<CloneServiceRequest> },
    Delete { original: Option<CloneServiceRequest> },
    CreateLink { link_type: Option<LinkType> },
    DeleteLink { link_type: Option<LinkType> },
    Other,
}

/// The echo of one committed action on the local signal bus.
#[derive(Debug)]
pub enum Signal {
    EntryCreated { app_entry: CloneServiceRequest },
    EntryUpdated { app_entry: CloneServiceRequest, original_app_entry: CloneServiceRequest },
    EntryDeleted { original_app_entry: CloneServiceRequest },
    LinkCreated { link_type: LinkType },
    LinkDeleted { link_type: LinkType },
}

pub enum SignalView {
    EntryCreated(CloneServiceRequestView),
    EntryUpdated(CloneServiceRequestView, CloneServiceRequestView),
    EntryDeleted(CloneServiceRequestView),
    LinkCreated(LinkType),
    LinkDeleted(LinkType),
}

impl View for Signal {
    type V = SignalView;

    open spec fn view(&self) -> SignalView {
        match self {
            Signal::EntryCreated { app_entry } => SignalView::EntryCreated(app_entry@),
            Signal::EntryUpdated { app_entry, original_app_entry } => SignalView::EntryUpdated(
                app_entry@,
                original_app_entry@,
            ),
            Signal::EntryDeleted { original_app_entry } => SignalView::EntryDeleted(original_app_entry@),
            Signal::LinkCreated { link_type } => SignalView::LinkCreated(*link_type),
            Signal::LinkDeleted { link_type } => SignalView::LinkDeleted(*link_type),
        }
    }
}

/// A remote signal telling providers of a new shard request.
#[derive(Debug)]
pub struct NewCloneServiceRequestNotice {
    pub recipients: Vec<String>,
    pub clone_service_request: CloneServiceRequest,
}

/// Everything to send after one committed action.
pub struct CommitSignals {
    pub notice: Option<NewCloneServiceRequestNotice>,
    pub signal: Option<Signal>,
}

/// The local echo of a committed action, if it has one.
pub open spec fn echo(action: CommittedAction) -> Option<SignalView> {
    match action {
        CommittedAction::Create { entry: Some(e) } => Some(SignalView::EntryCreated(e@)),
        CommittedAction::Update { entry: Some(e), original: Some(o) } => Some(SignalView::EntryUpdated(e@, o@)),
        CommittedAction::Delete { original: Some(o) } => Some(SignalView::EntryDeleted(o@)),
        CommittedAction::CreateLink { link_type: Some(t) } => Some(SignalView::LinkCreated(t)),
        CommittedAction::DeleteLink { link_type: Some(t) } => Some(SignalView::LinkDeleted(t)),
        _ => None,
    }
}

/// Decides the signals for one committed action.  A created shard request is
/// announced to every listed provider.
pub fn signal_action(action: CommittedAction, providers: &ServiceProviders) -> (r: CommitSignals)
    ensures
        match r.signal {
            Some(s) => echo(action) == Some(s@),
            None => echo(action) is None,
        },
        match action {
            CommittedAction::Create { entry: Some(e) } => match r.notice {
                Some(n) => strings_view(n.recipients@) == providers@ && n.clone_service_request@ == e@,
                None => false,
            },
            _ => r.notice is None,
        },
{
    match action {
        CommittedAction::Create { entry: Some(e) } => {
            let notice = NewCloneServiceRequestNotice {
                recipients: providers.get_service_providers(),
                clone_service_request: e.duplicate(),
            };
            CommitSignals { notice: Some(notice), signal: Some(Signal::EntryCreated { app_entry: e }) }
        },
        CommittedAction::Update { entry: Some(e), original: Some(o) } => CommitSignals {
            notice: None,
            signal: Some(Signal::EntryUpdated { app_entry: e, original_app_entry: o }),
        },
        CommittedAction::Delete { original: Some(o) } => CommitSignals {
            notice: None,
            signal: Some(Signal::EntryDeleted { original_app_entry: o }),
        },
        CommittedAction::CreateLink { link_type: Some(t) } => CommitSignals {
            notice: None,
            signal: Some(Signal::LinkCreated { link_type: t }),
        },
        CommittedAction::DeleteLink { link_type: Some(t) } => CommitSignals {
            notice: None,
            signal: Some(Signal::LinkDeleted { link_type: t }),
        },
        _ => CommitSignals { notice: None, signal: None },
    }
}

} // verus!
