//! One firing of the trigger: what is said to each subscriber, and the order
//! in which the program around the library sends it.
//!
//! The program performs each action that `Dispatch::next_action` names and
//! hands the outcome to `Dispatch::advance`. A failure moves the dispatch on
//! to the next subscriber; it never ends it.

use crate::subscriptions::Subscriber;
use crate::text::{decimal, push_decimal};
use vstd::prelude::*;
use vstd::string::StringExecFns;

verus! {

/// The first instant that has a date: 00:00:00 UTC on 1 January of the year
/// -262143.
pub const FIRST_DATED_INSTANT: i64 = -8_334_601_228_800;

/// The last instant that has a date: 23:59:59 UTC on 31 December of the year
/// 262142.
pub const LAST_DATED_INSTANT: i64 = 8_210_266_876_799;

/// The instant has a date by a clock that is `utc_offset` seconds ahead of
/// UTC: it lies within the calendar, and the clock is less than a day ahead
/// of UTC or behind it.
pub open spec fn has_date(instant: i64, utc_offset: i32) -> bool {
    FIRST_DATED_INSTANT <= instant <= LAST_DATED_INSTANT && -86_400 < utc_offset < 86_400
}

/// The date at `instant` by a clock that is `utc_offset` seconds ahead of
/// UTC, as month, day and the year's last two digits, each of two digits,
/// with strokes between them.
pub uninterp spec fn date_text(instant: i64, utc_offset: i32) -> Seq<char>;

/// `chrono`'s `FixedOffset::east_opt`, `DateTime::from_timestamp`,
/// `DateTime::with_timezone` and `DateTime::format` with the pattern `%D`:
/// the date that the instant has in that zone. `east_opt` takes the offsets
/// strictly between -86400 and 86400 and no others. `from_timestamp`, with no
/// nanoseconds, takes the instants whose day is one of `chrono`'s dates,
/// which run from 1 January of the year -262143 to 31 December of the year
/// 262142, and no others. There is a date where both succeed, and none
/// elsewhere.
#[verifier::external_body]
fn format_date(instant: i64, utc_offset: i32) -> (date: Option<String>)
    ensures
        date is Some <==> has_date(instant, utc_offset),
        date matches Some(text) ==> text@ == date_text(instant, utc_offset),
{
    let zone = chrono::FixedOffset::east_opt(utc_offset)?;
    let utc = chrono::DateTime::from_timestamp(instant, 0)?;
    Some(utc.with_timezone(&zone).format("%D").to_string())
}

/// The name of the week of a date.
pub open spec fn label_text(date: Seq<char>) -> Seq<char> {
    "week of "@ + date
}

/// Whom a notification addresses: the role by its number, or everybody.
pub open spec fn mention_text(role_id: Option<u64>) -> Seq<char> {
    match role_id {
        Some(role) => decimal(role as nat),
        None => "Waflers"@,
    }
}

/// What a notification says.
pub open spec fn content_text(week_label: Seq<char>, role_id: Option<u64>) -> Seq<char> {
    "# Waffle Time! (week of "@ + week_label + ")\nHey "@ + mention_text(role_id)
        + ", It's time for the weekly waffle!\n"@
}

/// The title of the thread that follows a notification.
pub open spec fn title_text(week_label: Seq<char>) -> Seq<char> {
    week_label + " waffling"@
}

/// The name of the week of a date.
pub fn label_of(date: &str) -> (label: String)
    ensures
        label@ == label_text(date@),
{
    let mut label = String::from_str("week of ");
    label.append(date);
    label
}

/// The name of the week that `instant` lies in by the local clock: the week
/// of the instant's date, where the instant has one by that clock, and
/// nothing where it has none.
pub fn week_label(instant: i64, utc_offset: i32) -> (label: Option<String>)
    ensures
        match label {
            Some(text) => has_date(instant, utc_offset) && text@ == label_text(
                date_text(instant, utc_offset),
            ),
            None => !has_date(instant, utc_offset),
        },
{
    match format_date(instant, utc_offset) {
        Some(date) => Some(label_of(date.as_str())),
        None => None,
    }
}

/// What the notification of a week says to a subscriber with this role.
pub fn notification_content(week_label: &str, role_id: Option<u64>) -> (content: String)
    ensures
        content@ == content_text(week_label@, role_id),
{
    let mut content = String::from_str("# Waffle Time! (week of ");
    content.append(week_label);
    content.append(")\nHey ");
    match role_id {
        Some(role) => {
            push_decimal(&mut content, role);
        },
        None => {
            content.append("Waflers");
        },
    }
    content.append(", It's time for the weekly waffle!\n");
    content
}

/// The title of the thread that follows the notification of a week.
pub fn thread_title(week_label: &str) -> (title: String)
    ensures
        title@ == title_text(week_label@),
{
    let mut title = String::from_str(week_label);
    title.append(" waffling");
    title
}

/// How the last action ended.
#[derive(Clone, Copy, Debug, PartialEq, Eq, Structural)]
pub enum Outcome {
    /// It succeeded. After a message, this is the message's identifier.
    Delivered(u64),
    /// It failed.
    Failed,
}

/// What to do next in a dispatch.
#[derive(Debug)]
pub enum DispatchAction {
    /// Send this notification to the channel.
    Send { channel_id: u64, content: String },
    /// Start a thread under the notification that was sent to the channel.
    CreateThread { channel_id: u64, message_id: u64, title: String },
    /// Nothing: every subscriber has had a turn.
    Done,
}

/// How far a dispatch has come: the subscriber whose turn it is, by its place
/// in the snapshot, and the message that was sent to it, once one was.
pub struct Progress {
    pub position: int,
    pub sent: Option<u64>,
}

impl Progress {
    /// The progress of a dispatch that has done nothing yet.
    pub open spec fn start() -> Progress {
        Progress { position: 0, sent: None }
    }

    /// A message to the subscriber at `position` is what comes next.
    pub open spec fn asks_message(self, subscribers: int) -> bool {
        0 <= self.position < subscribers && self.sent is None
    }

    /// The progress after the action that was due has ended with `outcome`.
    /// A message that was delivered is followed by its thread; after a
    /// message that failed, and after a thread, however it ended, it is the
    /// next subscriber's turn.
    pub open spec fn after(self, subscribers: int, outcome: Outcome) -> Progress {
        if self.position >= subscribers {
            self
        } else {
            match (self.sent, outcome) {
                (None, Outcome::Delivered(message_id)) => Progress {
                    position: self.position,
                    sent: Some(message_id),
                },
                _ => Progress { position: self.position + 1, sent: None },
            }
        }
    }

    /// The progress after a run of actions that ended with `outcomes`.
    pub open spec fn after_all(self, subscribers: int, outcomes: Seq<Outcome>) -> Progress
        decreases outcomes.len(),
    {
        if outcomes.len() == 0 {
            self
        } else {
            self.after(subscribers, outcomes[0]).after_all(subscribers, outcomes.drop_first())
        }
    }

    /// The places of the subscribers for which a message is asked, in the
    /// order in which it is asked, from this progress through a run of
    /// actions that end with `outcomes`.
    pub open spec fn messages_asked(self, subscribers: int, outcomes: Seq<Outcome>) -> Seq<int>
        decreases outcomes.len(),
    {
        let now = if self.asks_message(subscribers) {
            seq![self.position]
        } else {
            Seq::empty()
        };
        if outcomes.len() == 0 {
            now
        } else {
            now + self.after(subscribers, outcomes[0]).messages_asked(
                subscribers,
                outcomes.drop_first(),
            )
        }
    }
}

/// One firing's dispatch over the subscribers that were in the store when it
/// began.
#[derive(Debug)]
pub struct Dispatch {
    /// The subscribers, in the order in which they are notified.
    pub subscribers: Vec<Subscriber>,
    /// The name of the week that the notifications speak of.
    pub week_label: String,
    /// The place of the subscriber whose turn it is.
    pub position: usize,
    /// The message that was sent to that subscriber, once one was.
    pub sent: Option<u64>,
}

impl Dispatch {
    /// How far the dispatch has come.
    pub open spec fn progress(self) -> Progress {
        Progress { position: self.position as int, sent: self.sent }
    }

    /// A dispatch that has done nothing yet.
    pub fn new(subscribers: Vec<Subscriber>, week_label: String) -> (dispatch: Dispatch)
        ensures
            dispatch.subscribers@ == subscribers@,
            dispatch.week_label@ == week_label@,
            dispatch.progress() == Progress::start(),
    {
        Dispatch { subscribers, week_label, position: 0, sent: None }
    }

    /// What to do next: send the notification to the subscriber whose turn
    /// it is; or, once that message was delivered, start the thread under
    /// it; or nothing, after the last subscriber's turn.
    pub fn next_action(&self) -> (action: DispatchAction)
        ensures
            match action {
                DispatchAction::Send { channel_id, content } => {
                    &&& self.progress().asks_message(self.subscribers@.len() as int)
                    &&& channel_id == self.subscribers@[self.position as int].channel_id
                    &&& content@ == content_text(
                        self.week_label@,
                        self.subscribers@[self.position as int].role_id,
                    )
                },
                DispatchAction::CreateThread { channel_id, message_id, title } => {
                    &&& self.position < self.subscribers@.len()
                    &&& self.sent == Some(message_id)
                    &&& channel_id == self.subscribers@[self.position as int].channel_id
                    &&& title@ == title_text(self.week_label@)
                },
                DispatchAction::Done => self.position >= self.subscribers@.len(),
            },
    {
        if self.position >= self.subscribers.len() {
            return DispatchAction::Done;
        }
        let subscriber = self.subscribers[self.position];
        match self.sent {
            None => DispatchAction::Send {
                channel_id: subscriber.channel_id,
                content: notification_content(self.week_label.as_str(), subscriber.role_id),
            },
            Some(message_id) => DispatchAction::CreateThread {
                channel_id: subscriber.channel_id,
                message_id,
                title: thread_title(self.week_label.as_str()),
            },
        }
    }

    /// Takes in how the action of `next_action` ended.
    pub fn advance(&mut self, outcome: Outcome)
        ensures
            final(self).subscribers == old(self).subscribers,
            final(self).week_label == old(self).week_label,
            final(self).progress() == old(self).progress().after(
                old(self).subscribers@.len() as int,
                outcome,
            ),
    {
        if self.position >= self.subscribers.len() {
            return ;
        }
        match (self.sent, outcome) {
            (None, Outcome::Delivered(message_id)) => {
                self.sent = Some(message_id);
            },
            _ => {
                self.position = self.position + 1;
                self.sent = None;
            },
        }
    }
}

/// From any progress on, whatever the outcomes, messages are asked for
/// subscribers one place after the other, from the first that has none yet.
pub proof fn lemma_messages_in_turn(
    progress: Progress,
    subscribers: int,
    outcomes: Seq<Outcome>,
    i: int,
)
    requires
        0 <= progress.position,
        0 <= i < progress.messages_asked(subscribers, outcomes).len(),
    ensures
        progress.messages_asked(subscribers, outcomes)[i] == i + if progress.sent is None {
            progress.position
        } else {
            progress.position + 1
        },
        progress.messages_asked(subscribers, outcomes)[i] < subscribers,
    decreases outcomes.len(),
{
    let asked = progress.messages_asked(subscribers, outcomes);
    let now: Seq<int> = if progress.asks_message(subscribers) {
        seq![progress.position]
    } else {
        Seq::empty()
    };
    if i >= now.len() {
        let next = progress.after(subscribers, outcomes[0]);
        let later = next.messages_asked(subscribers, outcomes.drop_first());
        assert(asked == now + later);
        assert(asked[i] == later[i - now.len()]);
        lemma_messages_in_turn(next, subscribers, outcomes.drop_first(), i - now.len());
        if progress.position >= subscribers {
            lemma_none_asked_at_the_end(progress, subscribers, outcomes);
        }
    }
}

/// After the last subscriber's turn no message is asked.
pub proof fn lemma_none_asked_at_the_end(
    progress: Progress,
    subscribers: int,
    outcomes: Seq<Outcome>,
)
    requires
        progress.position >= subscribers,
    ensures
        progress.messages_asked(subscribers, outcomes).len() == 0,
        progress.after_all(subscribers, outcomes) == progress,
    decreases outcomes.len(),
{
    if outcomes.len() > 0 {
        lemma_none_asked_at_the_end(progress, subscribers, outcomes.drop_first());
    }
}

/// In a dispatch from its start, whichever actions fail, the messages asked
/// are for the first subscriber, the second, and so on, each once: a failure
/// keeps no later subscriber from its message, and no subscriber is asked a
/// second message.
pub proof fn lemma_each_subscriber_once(subscribers: int, outcomes: Seq<Outcome>, i: int)
    requires
        0 <= i < Progress::start().messages_asked(subscribers, outcomes).len(),
    ensures
        Progress::start().messages_asked(subscribers, outcomes)[i] == i,
        i < subscribers,
{
    lemma_messages_in_turn(Progress::start(), subscribers, outcomes, i);
}

/// A dispatch that has come to its end has asked a message for every
/// subscriber.
pub proof fn lemma_all_asked_at_the_end(
    progress: Progress,
    subscribers: int,
    outcomes: Seq<Outcome>,
)
    requires
        0 <= progress.position <= subscribers,
        progress.position == subscribers ==> progress.sent is None,
        progress.after_all(subscribers, outcomes).position >= subscribers,
    ensures
        progress.messages_asked(subscribers, outcomes).len() == subscribers - if progress.sent
            is None {
            progress.position
        } else {
            progress.position + 1
        },
    decreases outcomes.len(),
{
    if progress.position >= subscribers {
        lemma_none_asked_at_the_end(progress, subscribers, outcomes);
    } else if outcomes.len() > 0 {
        lemma_all_asked_at_the_end(
            progress.after(subscribers, outcomes[0]),
            subscribers,
            outcomes.drop_first(),
        );
    }
}

} // verus!
