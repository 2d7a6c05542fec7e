//! What the two commands answer.

use crate::subscriptions::Subscriber;
use crate::text::{decimal, push_decimal};
use vstd::prelude::*;
use vstd::string::StringExecFns;

verus! {

/// The answer to a channel that asked to be unsubscribed, given the
/// subscriber that the removal took out of the store, if it took one out.
pub open spec fn unsubscribe_reply_text(removed: Option<Subscriber>) -> Seq<char> {
    match removed {
        Some(subscriber) => "Removed "@ + decimal(subscriber.channel_id as nat)
            + "'s subscription"@,
        None => "Channel is not subscribed"@,
    }
}

/// The answer to a channel that asked to be subscribed, given whether its
/// subscription was stored.
pub open spec fn subscribe_reply_text(stored: bool) -> Seq<char> {
    if stored {
        "Subscribed"@
    } else {
        "Could not subscribe"@
    }
}

/// The answer to a channel that asked to be subscribed: that it is, or that
/// its subscription could not be stored.
pub fn subscribe_reply(stored: bool) -> (reply: String)
    ensures
        reply@ == subscribe_reply_text(stored),
{
    if stored {
        String::from_str("Subscribed")
    } else {
        String::from_str("Could not subscribe")
    }
}

/// The answer to a channel that asked to be unsubscribed: it names the
/// channel whose subscription was removed, or says that there was none.
pub fn unsubscribe_reply(removed: Option<Subscriber>) -> (reply: String)
    ensures
        reply@ == unsubscribe_reply_text(removed),
{
    match removed {
        Some(subscriber) => {
            let mut reply = String::from_str("Removed ");
            push_decimal(&mut reply, subscriber.channel_id);
            reply.append("'s subscription");
            reply
        },
        None => String::from_str("Channel is not subscribed"),
    }
}

} // verus!
