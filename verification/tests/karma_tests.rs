use karma::DEFAULT_DOWN;
use karma::DEFAULT_UP;
use karma::FallbackOutcome;
use karma::GrantOutcome;
use karma::GrantRequest;
use karma::Karma;
use karma::LeaderboardResult;
use karma::Measure;
use karma::NoticeSlot;
use karma::RootCommand;
use karma::RootReply;
use karma::Stats;
use karma::Store;
use karma::StoreError;
use karma::UserCommand;
use karma::GroupCommand;
use karma::GroupReply;
use karma::run_group_command;
use karma::codec::user_key_bytes;
use karma::confirm_fallback;
use karma::decode_pending;
use karma::encode_pending;
use karma::grant;
use karma::history_series;
use karma::is_assignable_karma_expired;
use karma::is_assignable_karma_expired_at;
use karma::karma_from_text;
use karma::leaderboard;
use karma::run_root_command;
use karma::run_user_command;
use karma::slot_key_bytes;
use karma::stats;

const DAY: i64 = 86400;

fn temp_store() -> Store {
    let db = sled::Config::new().temporary(true).open().unwrap();
    Store::new(db).unwrap()
}

fn request(giver: u64, receiver: u64, chat: i64, polarity: Karma) -> GrantRequest {
    GrantRequest { giver, receiver, chat, polarity, giver_is_bot: false, receiver_is_bot: false }
}

#[test]
fn quota_expiry_boundary() {
    // A grant early on day zero expires at the following midnight,
    // strictly: at the midnight instant itself the quota still holds.
    let t: i64 = 1000;
    assert!(!is_assignable_karma_expired_at(t, t));
    assert!(!is_assignable_karma_expired_at(t, DAY - 1));
    assert!(!is_assignable_karma_expired_at(t, DAY));
    assert!(is_assignable_karma_expired_at(t, DAY + 1));
    assert!(is_assignable_karma_expired_at(t, 10 * DAY));
}

#[test]
fn quota_expiry_boundary_negative_and_late() {
    // A timestamp on the day before the epoch expires at the epoch.
    assert!(!is_assignable_karma_expired_at(-1, 0));
    assert!(is_assignable_karma_expired_at(-1, 1));
    // A timestamp in the middle of a later day.
    let t: i64 = 2 * DAY + 5;
    assert!(!is_assignable_karma_expired_at(t, 3 * DAY));
    assert!(is_assignable_karma_expired_at(t, 3 * DAY + 1));
}

#[test]
fn quota_expiry_zero_always_expired_on_the_wall_clock() {
    // A timestamp of zero means no prior grant; against the real clock
    // that is always expired.
    assert!(is_assignable_karma_expired(0));
}

#[test]
fn direct_grant_scenario() {
    // Giver: Up-quota 1 remaining, Down-quota 2 remaining, balance 5.
    // An Up-grant consumes the last Up point, sets the last-grant
    // instant, and pays the receiver one point.
    let mut store = temp_store();
    let now: i64 = 50 * DAY + 100;
    let gkey = user_key_bytes(7);
    store.up.insert(&gkey, 1).unwrap();
    store.down.insert(&gkey, 2).unwrap();
    store.karma.insert(&gkey, 5).unwrap();
    store.last.insert(&gkey, now - 10).unwrap();

    let outcome = grant(&mut store, &request(7, 8, -100, Karma::Up), now).unwrap();
    assert_eq!(outcome, GrantOutcome::Direct { balance: 1 });

    let rkey = user_key_bytes(8);
    assert_eq!(store.up.get_or(&gkey, DEFAULT_UP).unwrap(), 0);
    assert_eq!(store.down.get_or(&gkey, DEFAULT_DOWN).unwrap(), 2);
    assert_eq!(store.last.get_or(&gkey, 0).unwrap(), now);
    assert_eq!(store.karma.get_or(&rkey, 0).unwrap(), 1);
    assert_eq!(store.karma.get_or(&gkey, 0).unwrap(), 5);
    let series = history_series(&store, 8).unwrap();
    assert_eq!(series, vec![Measure { timestamp: now, karma: 1 }]);
}

#[test]
fn exhausted_after_last_point() {
    // Once the last Up point is gone, the next Up request is offered
    // the fallback, and nothing changes.
    let mut store = temp_store();
    let now: i64 = 50 * DAY + 100;
    let gkey = user_key_bytes(7);
    store.up.insert(&gkey, 1).unwrap();
    store.last.insert(&gkey, now - 10).unwrap();

    let first = grant(&mut store, &request(7, 8, -100, Karma::Up), now).unwrap();
    assert_eq!(first, GrantOutcome::Direct { balance: 1 });

    let second = grant(&mut store, &request(7, 8, -100, Karma::Up), now + 60).unwrap();
    assert_eq!(second, GrantOutcome::QuotaExhausted { polarity: Karma::Up, receiver: 8 });
    let rkey = user_key_bytes(8);
    assert_eq!(store.karma.get_or(&rkey, 0).unwrap(), 1);
}

#[test]
fn fallback_insufficient_karma() {
    // Quota exhausted and balance zero: the confirmation fails and
    // leaves both balances alone.
    let mut store = temp_store();
    let now: i64 = 9 * DAY + 30;
    let gkey = user_key_bytes(7);
    let rkey = user_key_bytes(8);
    store.up.insert(&gkey, 0).unwrap();
    store.last.insert(&gkey, now - 5).unwrap();
    store.karma.insert(&rkey, 4).unwrap();

    let outcome = confirm_fallback(&mut store, 7, 8, &Karma::Up, now).unwrap();
    assert_eq!(outcome, FallbackOutcome::InsufficientKarma);
    assert_eq!(store.karma.get_or(&gkey, 0).unwrap(), 0);
    assert_eq!(store.karma.get_or(&rkey, 0).unwrap(), 4);
}

#[test]
fn fallback_spends_own_karma() {
    // Quota exhausted, balance 5: the giver pays one point, the
    // receiver gains one, and the daily window is not refreshed.
    let mut store = temp_store();
    let now: i64 = 9 * DAY + 30;
    let gkey = user_key_bytes(7);
    let rkey = user_key_bytes(8);
    store.up.insert(&gkey, 0).unwrap();
    store.last.insert(&gkey, now - 5).unwrap();
    store.karma.insert(&gkey, 5).unwrap();

    let outcome = confirm_fallback(&mut store, 7, 8, &Karma::Up, now).unwrap();
    assert_eq!(
        outcome,
        FallbackOutcome::Granted { receiver_balance: 1, giver_balance: 4, spent_own_karma: true }
    );
    assert_eq!(store.karma.get_or(&gkey, 0).unwrap(), 4);
    assert_eq!(store.karma.get_or(&rkey, 0).unwrap(), 1);
    // The last-grant instant is only refreshed on the quota sub-path.
    assert_eq!(store.last.get_or(&gkey, 0).unwrap(), now - 5);
    assert_eq!(
        history_series(&store, 8).unwrap(),
        vec![Measure { timestamp: now, karma: 1 }]
    );
}

#[test]
fn fallback_uses_fresh_quota_when_reset() {
    // If the quota reset between offer and confirmation, a quota point
    // funds the transfer, not the giver's balance.
    let mut store = temp_store();
    let now: i64 = 9 * DAY + 30;
    let gkey = user_key_bytes(7);
    let rkey = user_key_bytes(8);
    store.up.insert(&gkey, 0).unwrap();
    store.last.insert(&gkey, now - 3 * DAY).unwrap();
    store.karma.insert(&gkey, 5).unwrap();

    let outcome = confirm_fallback(&mut store, 7, 8, &Karma::Up, now).unwrap();
    assert_eq!(
        outcome,
        FallbackOutcome::Granted { receiver_balance: 1, giver_balance: 5, spent_own_karma: false }
    );
    assert_eq!(store.karma.get_or(&gkey, 0).unwrap(), 5);
    assert_eq!(store.up.get_or(&gkey, DEFAULT_UP).unwrap(), DEFAULT_UP - 1);
    assert_eq!(store.last.get_or(&gkey, 0).unwrap(), now);
    assert_eq!(store.karma.get_or(&rkey, 0).unwrap(), 1);
}

#[test]
fn history_log_capped_at_one_hundred() {
    // 105 grants to one receiver: the log holds exactly the 100 most
    // recent samples, in chronological order.
    let mut store = temp_store();
    for i in 0..105i64 {
        // Each grant happens on a fresh day, so the quota always resets.
        let now: i64 = 2 * DAY * i + DAY;
        let outcome = grant(&mut store, &request(7, 8, -100, Karma::Up), now).unwrap();
        assert_eq!(outcome, GrantOutcome::Direct { balance: i + 1 });
    }
    let series = history_series(&store, 8).unwrap();
    assert_eq!(series.len(), 100);
    // The oldest five samples were dropped: the log starts at the sixth
    // grant (balance 6) and ends at the latest (balance 105).
    assert_eq!(series[0], Measure { timestamp: 2 * DAY * 5 + DAY, karma: 6 });
    assert_eq!(series[99], Measure { timestamp: 2 * DAY * 104 + DAY, karma: 105 });
    for w in series.windows(2) {
        assert!(w[0].timestamp <= w[1].timestamp);
        assert_eq!(w[0].karma + 1, w[1].karma);
    }
}

#[test]
fn leaderboard_empty_and_after_one_grant() {
    // No members recorded: the distinct no-members result.  After one
    // Up-grant from A to B, exactly {A: 0, B: 1}, B first.
    let mut store = temp_store();
    assert_eq!(leaderboard(&store, -100).unwrap(), LeaderboardResult::NoMembers);

    let outcome = grant(&mut store, &request(1, 2, -100, Karma::Up), 5 * DAY).unwrap();
    assert_eq!(outcome, GrantOutcome::Direct { balance: 1 });
    match leaderboard(&store, -100).unwrap() {
        LeaderboardResult::Ranked(rows) => {
            assert_eq!(rows, vec![(2u64, 1i64), (1u64, 0i64)]);
        }
        LeaderboardResult::NoMembers => panic!("two members were recorded"),
    }
    // Another group knows nothing of it.
    assert_eq!(leaderboard(&store, -200).unwrap(), LeaderboardResult::NoMembers);
}

#[test]
fn leaderboard_membership_does_not_duplicate() {
    let mut store = temp_store();
    grant(&mut store, &request(1, 2, -100, Karma::Up), 5 * DAY).unwrap();
    grant(&mut store, &request(1, 2, -100, Karma::Up), 5 * DAY + 10).unwrap();
    match leaderboard(&store, -100).unwrap() {
        LeaderboardResult::Ranked(rows) => {
            assert_eq!(rows, vec![(2u64, 2i64), (1u64, 0i64)]);
        }
        LeaderboardResult::NoMembers => panic!("two members were recorded"),
    }
}

#[test]
fn stats_projects_reset_without_writing() {
    // Right after the reset boundary, stats reports the defaults, while
    // the stored counters still hold the pre-reset values until a grant
    // actually resets them.
    let mut store = temp_store();
    let now1: i64 = 20 * DAY + 40;
    let gkey = user_key_bytes(7);
    grant(&mut store, &request(7, 8, -100, Karma::Up), now1).unwrap();
    assert_eq!(store.up.get_or(&gkey, DEFAULT_UP).unwrap(), DEFAULT_UP - 1);

    let now2: i64 = now1 + 3 * DAY;
    let report = stats(&store, 7, now2).unwrap();
    assert_eq!(report, Stats { karma: 0, up: DEFAULT_UP, down: DEFAULT_DOWN });
    // The low-level read still sees the stored pre-reset counter.
    assert_eq!(store.up.get_or(&gkey, DEFAULT_UP).unwrap(), DEFAULT_UP - 1);
    assert_eq!(store.last.get_or(&gkey, 0).unwrap(), now1);
}

#[test]
fn stats_before_reset_shows_stored_counters() {
    let mut store = temp_store();
    let now: i64 = 20 * DAY + 40;
    grant(&mut store, &request(7, 8, -100, Karma::Down), now).unwrap();
    let report = stats(&store, 7, now + 50).unwrap();
    assert_eq!(report, Stats { karma: 0, up: DEFAULT_UP, down: DEFAULT_DOWN - 1 });
    let receiver_report = stats(&store, 8, now + 50).unwrap();
    assert_eq!(receiver_report, Stats { karma: -1, up: DEFAULT_UP, down: DEFAULT_DOWN });
}

#[test]
fn grants_rejected_on_preconditions() {
    let mut store = temp_store();
    let now: i64 = 4 * DAY;
    // Self-grant.
    let self_req = request(7, 7, -100, Karma::Up);
    assert_eq!(grant(&mut store, &self_req, now).unwrap(), GrantOutcome::Rejected);
    // Automated giver.
    let mut bot_req = request(7, 8, -100, Karma::Up);
    bot_req.giver_is_bot = true;
    assert_eq!(grant(&mut store, &bot_req, now).unwrap(), GrantOutcome::Rejected);
    // Automated receiver.
    let mut bot_rcv = request(7, 8, -100, Karma::Up);
    bot_rcv.receiver_is_bot = true;
    assert_eq!(grant(&mut store, &bot_rcv, now).unwrap(), GrantOutcome::Rejected);
    // Nothing was written.
    assert_eq!(leaderboard(&store, -100).unwrap(), LeaderboardResult::NoMembers);
    assert_eq!(store.karma.get_or(&user_key_bytes(8), 0).unwrap(), 0);
}

#[test]
fn down_grants_may_push_balance_negative() {
    let mut store = temp_store();
    let now: i64 = 4 * DAY;
    let r1 = grant(&mut store, &request(7, 8, -100, Karma::Down), now).unwrap();
    let r2 = grant(&mut store, &request(7, 8, -100, Karma::Down), now + 10).unwrap();
    assert_eq!(r1, GrantOutcome::Direct { balance: -1 });
    assert_eq!(r2, GrantOutcome::Direct { balance: -2 });
    // The Down quota of two is now exhausted.
    let r3 = grant(&mut store, &request(7, 8, -100, Karma::Down), now + 20).unwrap();
    assert_eq!(r3, GrantOutcome::QuotaExhausted { polarity: Karma::Down, receiver: 8 });
}

#[test]
fn polarity_read_from_text() {
    assert_eq!(karma_from_text("+1"), Some(Karma::Up));
    assert_eq!(karma_from_text("+"), Some(Karma::Up));
    assert_eq!(karma_from_text("-1 well deserved"), Some(Karma::Down));
    assert_eq!(karma_from_text("thanks"), None);
    assert_eq!(karma_from_text(""), None);
    assert_eq!(karma_from_text("1+"), None);
}

#[test]
fn pending_token_round_trip() {
    let token = encode_pending(&Karma::Up, 5);
    assert_eq!(decode_pending(&token), Some((Karma::Up, 5)));
    let token = encode_pending(&Karma::Down, u64::MAX);
    assert_eq!(decode_pending(&token), Some((Karma::Down, u64::MAX)));
}

#[test]
fn pending_token_exact_rendering() {
    // The payload is one polarity byte and eight little-endian receiver
    // bytes, rendered in standard base64.
    assert_eq!(encode_pending(&Karma::Up, 5), "AAUAAAAAAAAA");
    assert_eq!(encode_pending(&Karma::Down, u64::MAX), "Af//////////");
    assert_eq!(decode_pending("AAUAAAAAAAAA"), Some((Karma::Up, 5)));
    assert_eq!(decode_pending("not base64 at all!"), None);
    assert_eq!(decode_pending(""), None);
}

#[test]
fn root_commands_reset_expirations() {
    let mut store = temp_store();
    let now: i64 = 6 * DAY + 7;
    let gkey = user_key_bytes(7);
    grant(&mut store, &request(7, 8, -100, Karma::Up), now).unwrap();
    assert_eq!(store.last.get_or(&gkey, 0).unwrap(), now);

    let reply = run_root_command(&mut store, &RootCommand::Reset(7)).unwrap();
    assert_eq!(reply, RootReply::ResetDone);
    assert_eq!(store.last.get(&gkey).unwrap(), None);
    // The quota counters themselves are untouched; the next grant sees
    // an expired window and resets them.
    assert_eq!(store.up.get_or(&gkey, DEFAULT_UP).unwrap(), DEFAULT_UP - 1);

    grant(&mut store, &request(9, 8, -100, Karma::Up), now).unwrap();
    let reply = run_root_command(&mut store, &RootCommand::ResetAll).unwrap();
    assert_eq!(reply, RootReply::ResetDone);
    assert_eq!(store.last.get(&user_key_bytes(9)).unwrap(), None);

    let reply = run_root_command(&mut store, &RootCommand::Info).unwrap();
    assert_eq!(reply, RootReply::InfoRequested);
}

#[test]
fn user_commands_both_report_stats() {
    let mut store = temp_store();
    let now: i64 = 6 * DAY + 7;
    grant(&mut store, &request(7, 8, -100, Karma::Up), now).unwrap();
    let a = run_user_command(&store, &UserCommand::Start, 7, now + 1).unwrap();
    let b = run_user_command(&store, &UserCommand::Stats, 7, now + 1).unwrap();
    assert_eq!(a, b);
    assert_eq!(a, Stats { karma: 0, up: DEFAULT_UP - 1, down: DEFAULT_DOWN });
}

#[test]
fn corrupt_record_reports_decoding_error() {
    // Bytes that do not decode as a balance are a decoding failure,
    // distinct from a storage failure.
    let db = sled::Config::new().temporary(true).open().unwrap();
    let raw_karma = db.open_tree("karma").unwrap();
    raw_karma.insert("7", &b"garbage"[..]).unwrap();
    let store = Store::new(db).unwrap();
    match stats(&store, 7, 1000) {
        Err(StoreError::DecodingError) => {}
        other => panic!("expected a decoding error, got {:?}", other.is_ok()),
    }
}

#[test]
fn stored_encoding_is_little_endian_with_length_prefix() {
    // The store keeps records in the documented stable encoding: eight
    // little-endian bytes per integer, a length prefix per list.
    let db = sled::Config::new().temporary(true).open().unwrap();
    let raw_karma = db.open_tree("karma").unwrap();
    let raw_members = db.open_tree("members").unwrap();
    let mut store = Store::new(db).unwrap();
    grant(&mut store, &request(1, 2, -100, Karma::Up), 5 * DAY).unwrap();
    let bal = raw_karma.get("2").unwrap().unwrap();
    assert_eq!(bal.as_ref(), &[1, 0, 0, 0, 0, 0, 0, 0]);
    let members = raw_members.get("-100").unwrap().unwrap();
    assert_eq!(
        members.as_ref(),
        &[
            2, 0, 0, 0, 0, 0, 0, 0, // two members
            1, 0, 0, 0, 0, 0, 0, 0, // the giver
            2, 0, 0, 0, 0, 0, 0, 0, // the receiver
        ]
    );
}

#[test]
fn notification_slot_keys() {
    assert_eq!(slot_key_bytes(-100, &NoticeSlot::Status), b"-100-status");
    assert_eq!(slot_key_bytes(-100, &NoticeSlot::Leaderboard), b"-100-leaderboard");
    assert_eq!(slot_key_bytes(42, &NoticeSlot::Chart), b"42-chart");
    assert_eq!(slot_key_bytes(-100, &NoticeSlot::Receiver(8)), b"-100-8");
}

#[test]
fn last_message_reference_is_overwritten() {
    let mut store = temp_store();
    let key = slot_key_bytes(-100, &NoticeSlot::Leaderboard);
    assert_eq!(store.last_message.get(&key).unwrap(), None);
    store.last_message.insert(&key, 31).unwrap();
    assert_eq!(store.last_message.get(&key).unwrap(), Some(31));
    store.last_message.insert(&key, 57).unwrap();
    assert_eq!(store.last_message.get(&key).unwrap(), Some(57));
}

#[test]
fn group_commands_dispatch() {
    let mut store = temp_store();
    let now: i64 = 6 * DAY + 7;
    grant(&mut store, &request(7, 8, -100, Karma::Up), now).unwrap();

    match run_group_command(&store, &GroupCommand::Leaderboard, -100, 7).unwrap() {
        GroupReply::Leaderboard(LeaderboardResult::Ranked(rows)) => {
            assert_eq!(rows, vec![(8u64, 1i64), (7u64, 0i64)]);
        }
        other => panic!("expected a ranked leaderboard, got {:?}", other),
    }
    match run_group_command(&store, &GroupCommand::Chart, -100, 8).unwrap() {
        GroupReply::Chart(series) => {
            assert_eq!(series, vec![Measure { timestamp: now, karma: 1 }]);
        }
        other => panic!("expected a chart series, got {:?}", other),
    }
}

#[test]
fn corrupt_quota_counter_aborts_the_grant() {
    // The giver's stored counter does not decode: the grant aborts with
    // a decoding failure and pays nobody.
    let db = sled::Config::new().temporary(true).open().unwrap();
    let raw_up = db.open_tree("up").unwrap();
    raw_up.insert("7", &[1, 2, 3][..]).unwrap();
    let mut store = Store::new(db).unwrap();
    let now: i64 = 100;  // day zero: a last-grant of zero is not expired yet
    store.last.insert(&user_key_bytes(7), 50).unwrap();
    match grant(&mut store, &request(7, 8, -100, Karma::Up), now) {
        Err(StoreError::DecodingError) => {}
        other => panic!("expected a decoding error, got ok={:?}", other.is_ok()),
    }
    assert_eq!(store.karma.get_or(&user_key_bytes(8), 0).unwrap(), 0);
}

#[test]
fn fallback_confirmation_by_the_receiver_overwrites_the_debit() {
    // The confirmation path does not re-check that giver and receiver
    // differ; when they coincide on the balance-funded path, the
    // receiver update wins over the debit.
    let mut store = temp_store();
    let now: i64 = 9 * DAY + 30;
    let key = user_key_bytes(7);
    store.up.insert(&key, 0).unwrap();
    store.last.insert(&key, now - 5).unwrap();
    store.karma.insert(&key, 5).unwrap();

    let outcome = confirm_fallback(&mut store, 7, 7, &Karma::Up, now).unwrap();
    assert_eq!(
        outcome,
        FallbackOutcome::Granted { receiver_balance: 6, giver_balance: 4, spent_own_karma: true }
    );
    assert_eq!(store.karma.get_or(&key, 0).unwrap(), 6);
}

#[test]
fn identifiers_at_the_edges_of_their_range() {
    let mut store = temp_store();
    let now: i64 = 3 * DAY;
    let chat = i64::MIN;
    let giver = u64::MAX;
    let outcome = grant(&mut store, &request(giver, 1, chat, Karma::Up), now).unwrap();
    assert_eq!(outcome, GrantOutcome::Direct { balance: 1 });
    match leaderboard(&store, chat).unwrap() {
        LeaderboardResult::Ranked(rows) => {
            assert_eq!(rows, vec![(1u64, 1i64), (u64::MAX, 0i64)]);
        }
        LeaderboardResult::NoMembers => panic!("two members were recorded"),
    }
}

#[test]
fn history_codec_round_trip() {
    let samples = vec![
        Measure { timestamp: 0, karma: 0 },
        Measure { timestamp: i64::MIN, karma: i64::MAX },
        Measure { timestamp: 12 * DAY, karma: -42 },
    ];
    let bytes = karma::codec::encode_measures(&samples);
    assert_eq!(karma::codec::decode_measures(&bytes), Some(samples));
    assert_eq!(karma::codec::decode_measures(&bytes[1..].to_vec()), None);
}

#[test]
fn member_codec_round_trip() {
    let members: Vec<u64> = vec![1, u64::MAX, 0, 77];
    let bytes = karma::codec::encode_members(&members);
    assert_eq!(karma::codec::decode_members(&bytes), Some(members));
    let empty: Vec<u64> = Vec::new();
    let bytes = karma::codec::encode_members(&empty);
    assert_eq!(karma::codec::decode_members(&bytes), Some(empty));
}
