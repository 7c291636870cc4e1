//! The layout of a push-gateway message: the same title and body go to the
//! data payload, the Apple alert and the Android data, and the message is
//! addressed to a device token or to a topic.
use vstd::prelude::*;
use crate::push_notifications::PushNotification;

verus! {

pub enum MessageTarget {
    Token(String),
    Topic(String),
}

pub struct GatewayMessage {
    /// Key-value data delivered to the app.
    pub data: Vec<(String, String)>,
    /// The alert shown on Apple devices.
    pub apns_alert: Vec<(String, String)>,
    /// Lets an Apple notification be modified before it is shown.
    pub apns_mutable_content: u8,
    /// Key-value data for Android devices.
    pub android_data: Vec<(String, String)>,
    pub target: MessageTarget,
}

pub open spec fn pairs_view(s: Seq<(String, String)>) -> Seq<(Seq<char>, Seq<char>)> {
    s.map_values(|p: (String, String)| (p.0@, p.1@))
}

pub open spec fn target_view(t: MessageTarget) -> (bool, Seq<char>) {
    match t {
        MessageTarget::Token(s) => (true, s@),
        MessageTarget::Topic(s) => (false, s@),
    }
}

/// The title and body entries every part of a message carries.
pub open spec fn content(title: Seq<char>, body: Seq<char>) -> Seq<(Seq<char>, Seq<char>)> {
    seq![("title"@, title), ("body"@, body)]
}

fn content_pairs(title: &String, body: &String) -> (r: Vec<(String, String)>)
    ensures
        pairs_view(r@) == content(title@, body@),
{
    let mut r: Vec<(String, String)> = Vec::new();
    r.push((String::from_str("title"), title.clone()));
    r.push((String::from_str("body"), body.clone()));
    assert(pairs_view(r@) =~= content(title@, body@));
    r
}

fn message(title: &String, body: &String, target: MessageTarget) -> (m: GatewayMessage)
    ensures
        pairs_view(m.data@) == content(title@, body@),
        pairs_view(m.apns_alert@) == content(title@, body@),
        pairs_view(m.android_data@) == content(title@, body@),
        m.apns_mutable_content == 1,
        target_view(m.target) == target_view(target),
{
    GatewayMessage {
        data: content_pairs(title, body),
        apns_alert: content_pairs(title, body),
        apns_mutable_content: 1,
        android_data: content_pairs(title, body),
        target,
    }
}

/// The message that delivers `notification` to the device with `token`.
pub fn notification_message(notification: &PushNotification, token: String) -> (m: GatewayMessage)
    ensures
        pairs_view(m.data@) == content(notification.title@, notification.body@),
        pairs_view(m.apns_alert@) == content(notification.title@, notification.body@),
        pairs_view(m.android_data@) == content(notification.title@, notification.body@),
        m.apns_mutable_content == 1,
        target_view(m.target) == (true, token@),
{
    message(&notification.title, &notification.body, MessageTarget::Token(token))
}

/// The message sent to the `test` topic to check that a credential works
/// for its project.
pub fn test_message() -> (m: GatewayMessage)
    ensures
        pairs_view(m.data@) == content("This is a test notification"@, "This is a test notification"@),
        pairs_view(m.apns_alert@) == content("This is a test notification"@, "This is a test notification"@),
        pairs_view(m.android_data@) == content("This is a test notification"@, "This is a test notification"@),
        m.apns_mutable_content == 1,
        target_view(m.target) == (false, "test"@),
{
    let text = String::from_str("This is a test notification");
    message(&text, &text, MessageTarget::Topic(String::from_str("test")))
}

} // verus!
