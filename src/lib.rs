//! Verified core of a push-notification relay run by a pool of provider nodes.
pub mod clone_service_request;
pub mod commit_signals;
pub mod fcm_token;
pub mod gateway_message;
pub mod index;
pub mod provider;
pub mod push_notifications;
pub mod reconcile;
pub mod retry;
pub mod service_account_key;
pub mod service_providers;
pub mod text;
pub mod validation;
