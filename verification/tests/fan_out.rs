use wafflecord::commands::{subscribe_reply, unsubscribe_reply};
use wafflecord::dispatch::{
    label_of, notification_content, thread_title, week_label, Dispatch, DispatchAction, Outcome,
    FIRST_DATED_INSTANT, LAST_DATED_INSTANT,
};
use wafflecord::subscriptions::Subscriber;
use wafflecord::text::{push_decimal, to_decimal};

fn three() -> Vec<Subscriber> {
    vec![
        Subscriber { channel_id: 11, role_id: Some(101) },
        Subscriber { channel_id: 22, role_id: None },
        Subscriber { channel_id: 33, role_id: Some(303) },
    ]
}

fn sent_to(action: &DispatchAction) -> u64 {
    match action {
        DispatchAction::Send { channel_id, .. } => *channel_id,
        other => panic!("a message was due, not {:?}", other),
    }
}

fn thread_in(action: &DispatchAction) -> (u64, u64) {
    match action {
        DispatchAction::CreateThread { channel_id, message_id, .. } => (*channel_id, *message_id),
        other => panic!("a thread was due, not {:?}", other),
    }
}

#[test]
fn decimal_of_small_and_large_numbers() {
    assert_eq!(to_decimal(0), "0");
    assert_eq!(to_decimal(9), "9");
    assert_eq!(to_decimal(10), "10");
    assert_eq!(to_decimal(1_234_567_890), "1234567890");
    assert_eq!(to_decimal(u64::MAX), "18446744073709551615");
}

#[test]
fn push_decimal_writes_at_the_end() {
    let mut text = String::from("n = ");
    push_decimal(&mut text, 405);
    assert_eq!(text, "n = 405");
}

#[test]
fn content_mentions_the_role() {
    assert_eq!(
        notification_content("week of 01/03/24", Some(987_654_321)),
        "# Waffle Time! (week of week of 01/03/24)\nHey 987654321, It's time for the weekly waffle!\n"
    );
}

#[test]
fn content_without_role_mentions_everybody() {
    assert_eq!(
        notification_content("week of 01/03/24", None),
        "# Waffle Time! (week of week of 01/03/24)\nHey Waflers, It's time for the weekly waffle!\n"
    );
}

#[test]
fn title_names_the_week() {
    assert_eq!(thread_title("week of 01/03/24"), "week of 01/03/24 waffling");
}

#[test]
fn label_names_the_date() {
    assert_eq!(label_of("01/03/24"), "week of 01/03/24");
}

#[test]
fn week_label_takes_the_date_of_the_instant() {
    assert_eq!(week_label(1_704_283_200, 0), Some(String::from("week of 01/03/24")));
    assert_eq!(week_label(0, 0), Some(String::from("week of 01/01/70")));
}

#[test]
fn week_label_goes_by_the_local_clock() {
    assert_eq!(week_label(1_704_326_399, 0), Some(String::from("week of 01/03/24")));
    assert_eq!(week_label(1_704_326_399, 1), Some(String::from("week of 01/04/24")));
    assert_eq!(week_label(1_704_240_000, -1), Some(String::from("week of 01/02/24")));
}

#[test]
fn week_label_has_no_date_out_of_range() {
    assert_eq!(week_label(0, 86_400), None);
    assert_eq!(week_label(i64::MAX, 0), None);
}

#[test]
fn the_dated_instants_are_those_of_the_calendar() {
    assert_eq!(FIRST_DATED_INSTANT, chrono::DateTime::<chrono::Utc>::MIN_UTC.timestamp());
    assert_eq!(LAST_DATED_INSTANT, chrono::DateTime::<chrono::Utc>::MAX_UTC.timestamp());
    let first = chrono::NaiveDate::from_ymd_opt(-262_143, 1, 1).unwrap().and_hms_opt(0, 0, 0);
    let last = chrono::NaiveDate::from_ymd_opt(262_142, 12, 31).unwrap().and_hms_opt(23, 59, 59);
    assert_eq!(FIRST_DATED_INSTANT, first.unwrap().and_utc().timestamp());
    assert_eq!(LAST_DATED_INSTANT, last.unwrap().and_utc().timestamp());
}

#[test]
fn week_label_is_there_for_every_dated_instant_and_offset_within_a_day() {
    for instant in [FIRST_DATED_INSTANT, -1, 0, 1_704_283_200, LAST_DATED_INSTANT] {
        for offset in [-86_399, -1, 0, 1, 86_399] {
            assert!(week_label(instant, offset).is_some());
        }
        for offset in [i32::MIN, -86_400, 86_400, i32::MAX] {
            assert_eq!(week_label(instant, offset), None);
        }
    }
    for instant in [i64::MIN, FIRST_DATED_INSTANT - 1, LAST_DATED_INSTANT + 1, i64::MAX] {
        for offset in [-86_399, 0, 86_399] {
            assert_eq!(week_label(instant, offset), None);
        }
    }
}

#[test]
fn week_label_at_the_ends_of_the_calendar() {
    let last = chrono::DateTime::<chrono::Utc>::MAX_UTC.timestamp();
    let first = chrono::DateTime::<chrono::Utc>::MIN_UTC.timestamp();
    for instant in [first, first + 1, last - 1, last] {
        for offset in [-86_399, 0, 86_399] {
            let label = week_label(instant, offset).unwrap();
            assert!(label.starts_with("week of "));
            assert_eq!(label.len(), 16);
        }
    }
    assert_eq!(week_label(last + 1, 0), None);
    assert_eq!(week_label(first - 1, 0), None);
    assert_eq!(week_label(0, -86_400), None);
    assert_eq!(week_label(0, i32::MIN), None);
    assert_eq!(week_label(i64::MIN, i32::MAX), None);
}

#[test]
fn a_new_dispatch_starts_with_the_first_subscriber() {
    let dispatch = Dispatch::new(three(), String::from("week of 01/03/24"));
    assert_eq!(dispatch.position, 0);
    assert_eq!(dispatch.sent, None);
    assert_eq!(dispatch.subscribers, three());
    match dispatch.next_action() {
        DispatchAction::Send { channel_id, content } => {
            assert_eq!(channel_id, 11);
            assert_eq!(content, notification_content("week of 01/03/24", Some(101)));
        }
        other => panic!("a message was due, not {:?}", other),
    }
}

#[test]
fn a_thread_follows_a_delivered_message() {
    let mut dispatch = Dispatch::new(three(), String::from("week of 01/03/24"));
    dispatch.advance(Outcome::Delivered(9_001));
    match dispatch.next_action() {
        DispatchAction::CreateThread { channel_id, message_id, title } => {
            assert_eq!(channel_id, 11);
            assert_eq!(message_id, 9_001);
            assert_eq!(title, "week of 01/03/24 waffling");
        }
        other => panic!("a thread was due, not {:?}", other),
    }
}

#[test]
fn a_failed_message_to_the_second_subscriber_keeps_nothing_from_the_others() {
    let mut dispatch = Dispatch::new(three(), String::from("week of 01/03/24"));
    let mut messages = Vec::new();
    let mut threads = Vec::new();

    messages.push(sent_to(&dispatch.next_action()));
    dispatch.advance(Outcome::Delivered(1));
    threads.push(thread_in(&dispatch.next_action()));
    dispatch.advance(Outcome::Delivered(0));

    messages.push(sent_to(&dispatch.next_action()));
    dispatch.advance(Outcome::Failed);

    messages.push(sent_to(&dispatch.next_action()));
    dispatch.advance(Outcome::Delivered(3));
    threads.push(thread_in(&dispatch.next_action()));
    dispatch.advance(Outcome::Delivered(0));

    assert!(matches!(dispatch.next_action(), DispatchAction::Done));
    assert_eq!(messages, vec![11, 22, 33]);
    assert_eq!(threads, vec![(11, 1), (33, 3)]);
}

#[test]
fn a_failed_thread_moves_on_to_the_next_subscriber() {
    let mut dispatch = Dispatch::new(three(), String::from("w"));
    dispatch.advance(Outcome::Delivered(1));
    dispatch.advance(Outcome::Failed);
    assert_eq!(sent_to(&dispatch.next_action()), 22);
    assert_eq!(dispatch.position, 1);
    assert_eq!(dispatch.sent, None);
}

#[test]
fn every_subscriber_is_asked_one_message_whatever_fails() {
    for pattern in 0..8u32 {
        let mut dispatch = Dispatch::new(three(), String::from("w"));
        let mut messages = Vec::new();
        let mut steps = 0;
        loop {
            match dispatch.next_action() {
                DispatchAction::Send { channel_id, .. } => {
                    let place = messages.len();
                    messages.push(channel_id);
                    if pattern & (1 << place) == 0 {
                        dispatch.advance(Outcome::Delivered(place as u64));
                    } else {
                        dispatch.advance(Outcome::Failed);
                    }
                }
                DispatchAction::CreateThread { .. } => dispatch.advance(Outcome::Failed),
                DispatchAction::Done => break,
            }
            steps += 1;
            assert!(steps <= 6);
        }
        assert_eq!(messages, vec![11, 22, 33]);
    }
}

#[test]
fn a_dispatch_over_nobody_is_done_at_once() {
    let mut dispatch = Dispatch::new(Vec::new(), String::from("w"));
    assert!(matches!(dispatch.next_action(), DispatchAction::Done));
    dispatch.advance(Outcome::Delivered(1));
    assert!(matches!(dispatch.next_action(), DispatchAction::Done));
    assert_eq!(dispatch.position, 0);
    assert_eq!(dispatch.sent, None);
}

#[test]
fn a_finished_dispatch_stays_finished() {
    let mut dispatch = Dispatch::new(three(), String::from("w"));
    for _ in 0..3 {
        dispatch.advance(Outcome::Failed);
    }
    assert!(matches!(dispatch.next_action(), DispatchAction::Done));
    dispatch.advance(Outcome::Delivered(5));
    dispatch.advance(Outcome::Failed);
    assert!(matches!(dispatch.next_action(), DispatchAction::Done));
    assert_eq!(dispatch.position, 3);
}

#[test]
fn replies_of_the_commands() {
    assert_eq!(subscribe_reply(true), "Subscribed");
    assert_eq!(subscribe_reply(false), "Could not subscribe");
    assert_eq!(
        unsubscribe_reply(Some(Subscriber { channel_id: 1_234, role_id: None })),
        "Removed 1234's subscription"
    );
    assert_eq!(unsubscribe_reply(None), "Channel is not subscribed");
}
