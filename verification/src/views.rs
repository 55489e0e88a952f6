//! Aggregation views over the ledger: leaderboard ranking, per-user
//! stats with a projected quota reset, the raw history series for
//! charting, and the administrative expiration resets.

use vstd::prelude::*;

use crate::business::DEFAULT_DOWN;
use crate::business::DEFAULT_UP;
use crate::business::quota_expired_at;
use crate::codec::chat_key;
use crate::codec::chat_key_bytes;
use crate::codec::user_key;
use crate::codec::user_key_bytes;
use crate::db::Measure;
use crate::db::Store;
use crate::db::StoreView;
use crate::db::empty_entries;
use crate::db::i64_at_or;
use crate::db::i64_wf_at;
use crate::db::measures_at;
use crate::db::measures_wf_at;
use crate::db::members_at;
use crate::db::members_wf_at;
use crate::error::StoreError;
use vstd::multiset::Multiset;
use vstd::seq_lib::lemma_multiset_commutative;

verus! {

/// A user's stats: balance, and the effective quota of each polarity
/// left today (the daily reset projected, not written back).
#[derive(Clone, Copy, PartialEq, Eq, Structural, Debug)]
pub struct Stats {
    pub karma: i64,
    pub up: i64,
    pub down: i64,
}

/// What `stats` reports: the stored balance, and the quota counters as
/// they would read after the projected daily reset.
pub open spec fn stats_spec(v: StoreView, user: u64, now: i64) -> Stats {
    let g = user_key(user);
    let last = i64_at_or(v.last, g, 0);
    let expired = quota_expired_at(last as int, now as int);
    Stats {
        karma: i64_at_or(v.karma, g, 0),
        up: if expired {
            DEFAULT_UP
        } else {
            i64_at_or(v.up, g, DEFAULT_UP)
        },
        down: if expired {
            DEFAULT_DOWN
        } else {
            i64_at_or(v.down, g, DEFAULT_DOWN)
        },
    }
}

/// Whether every record `stats` would read decodes properly.
pub open spec fn stats_wf(v: StoreView, user: u64, now: i64) -> bool {
    let g = user_key(user);
    let last = i64_at_or(v.last, g, 0);
    let expired = quota_expired_at(last as int, now as int);
    &&& i64_wf_at(v.last, g)
    &&& i64_wf_at(v.karma, g)
    &&& (!expired ==> i64_wf_at(v.up, g) && i64_wf_at(v.down, g))
}

/// Reports a user's balance and effective remaining quota.  Read-only:
/// the projected reset never mutates the stored counters.
pub fn stats(store: &Store, user: u64, now: i64) -> (r: Result<Stats, StoreError>)
    ensures
        r matches Ok(s) ==> stats_wf(store@, user, now) && s == stats_spec(store@, user, now),
        r matches Err(e) && e is DecodingError ==> !stats_wf(store@, user, now),
{
    let gkey: Vec<u8> = user_key_bytes(user);
    let last_ts: i64 = match store.last.get_or(gkey.as_slice(), 0) {
        Ok(v) => v,
        Err(e) => {
            return Err(e);
        },
    };
    let expired: bool = crate::business::is_assignable_karma_expired_at(last_ts, now);
    let karma: i64 = match store.karma.get_or(gkey.as_slice(), 0) {
        Ok(v) => v,
        Err(e) => {
            return Err(e);
        },
    };
    if expired {
        Ok(Stats { karma, up: DEFAULT_UP, down: DEFAULT_DOWN })
    } else {
        let up: i64 = match store.up.get_or(gkey.as_slice(), DEFAULT_UP) {
            Ok(v) => v,
            Err(e) => {
                return Err(e);
            },
        };
        let down: i64 = match store.down.get_or(gkey.as_slice(), DEFAULT_DOWN) {
            Ok(v) => v,
            Err(e) => {
                return Err(e);
            },
        };
        Ok(Stats { karma, up, down })
    }
}

/// Returns a user's stored history log, oldest sample first.
pub fn history_series(store: &Store, user: u64) -> (r: Result<Vec<Measure>, StoreError>)
    ensures
        r matches Ok(v) ==> measures_wf_at(store@.graph, user_key(user)) && v@ == measures_at(
            store@.graph,
            user_key(user),
        ),
        r matches Err(e) && e is DecodingError ==> !measures_wf_at(store@.graph, user_key(user)),
{
    let key: Vec<u8> = user_key_bytes(user);
    store.graph.get_or(key.as_slice(), Vec::new())
}

/// Whether a ranking is ordered by balance, highest first.
pub open spec fn sorted_desc(s: Seq<(u64, i64)>) -> bool {
    forall|i: int, j: int| 0 <= i < j < s.len() ==> s[i].1 >= s[j].1
}

/// The (identity, balance) pairs a leaderboard draws from: each member
/// of the group with that member's stored balance.
pub open spec fn expected_pairs(karma: Map<Seq<u8>, Seq<u8>>, ms: Seq<u64>) -> Seq<(u64, i64)> {
    ms.map_values(|id: u64| (id, i64_at_or(karma, user_key(id), 0)))
}

proof fn lemma_insert_multiset<A>(s: Seq<A>, p: int, x: A)
    requires
        0 <= p <= s.len(),
    ensures
        s.insert(p, x).to_multiset() == s.to_multiset().insert(x),
{
    broadcast use vstd::seq_lib::group_to_multiset_ensures;

    assert(s.insert(p, x) =~= (s.take(p) + seq![x]) + s.skip(p));
    lemma_multiset_commutative(s.take(p) + seq![x], s.skip(p));
    lemma_multiset_commutative(s.take(p), seq![x]);
    assert(seq![x] =~= Seq::<A>::empty().push(x));
    assert(seq![x].to_multiset() =~= Multiset::<A>::empty().insert(x));
    assert(s.take(p) + s.skip(p) =~= s);
    lemma_multiset_commutative(s.take(p), s.skip(p));
    assert(s.insert(p, x).to_multiset() =~= s.to_multiset().insert(x));
}

/// Orders a list of (identity, balance) pairs by balance, highest first.
/// The result is a permutation of the input; the order among equal
/// balances is left open.
fn sort_pairs_desc(v: Vec<(u64, i64)>) -> (r: Vec<(u64, i64)>)
    ensures
        sorted_desc(r@),
        r@.to_multiset() == v@.to_multiset(),
        r@.len() == v@.len(),
{
    broadcast use vstd::seq_lib::group_to_multiset_ensures;

    let mut out: Vec<(u64, i64)> = Vec::new();
    let mut i: usize = 0;
    proof {
        assert(v@.take(0) =~= out@);
    }
    while i < v.len()
        invariant
            i <= v@.len(),
            sorted_desc(out@),
            out@.len() == i,
            out@.to_multiset() == v@.take(i as int).to_multiset(),
        decreases v@.len() - i,
    {
        let x: (u64, i64) = v[i];
        let mut p: usize = 0;
        while p < out.len() && out[p].1 >= x.1
            invariant
                p <= out@.len(),
                forall|a: int| 0 <= a < p ==> out@[a].1 >= x.1,
            decreases out@.len() - p,
        {
            p = p + 1;
        }
        out.insert(p, x);
        proof {
            broadcast use vstd::seq_lib::group_to_multiset_ensures;

            lemma_insert_multiset(out@.remove(p as int), p as int, x);
            assert(out@.remove(p as int).insert(p as int, x) =~= out@);
            assert(v@.take(i + 1) =~= v@.take(i as int).push(x));
        }
        i = i + 1;
    }
    proof {
        assert(v@.take(v@.len() as int) =~= v@);
    }
    out
}

/// A leaderboard: either the group has no recorded members, or a ranking
/// of every member by balance, highest first.
#[derive(PartialEq, Eq, Debug)]
pub enum LeaderboardResult {
    NoMembers,
    Ranked(Vec<(u64, i64)>),
}

/// Ranks every recorded member of the group by stored balance, highest
/// first.  A group with no recorded members gets the distinct
/// `NoMembers` result, never an empty ranking.
pub fn leaderboard(store: &Store, chat: i64) -> (r: Result<LeaderboardResult, StoreError>)
    ensures
        r matches Ok(lr) ==> members_wf_at(store@.members, chat_key(chat)) && match lr {
            LeaderboardResult::NoMembers => members_at(store@.members, chat_key(chat)).len() == 0,
            LeaderboardResult::Ranked(v) => {
                let ms = members_at(store@.members, chat_key(chat));
                &&& ms.len() > 0
                &&& v@.len() == ms.len()
                &&& sorted_desc(v@)
                &&& v@.to_multiset() == expected_pairs(store@.karma, ms).to_multiset()
            },
        },
        r matches Err(e) && e is DecodingError ==> !(members_wf_at(store@.members, chat_key(chat))
            && (forall|j: int|
            0 <= j < members_at(store@.members, chat_key(chat)).len() ==> i64_wf_at(
                store@.karma,
                user_key(members_at(store@.members, chat_key(chat))[j]),
            ))),
{
    let ckey: Vec<u8> = chat_key_bytes(chat);
    let members: Vec<u64> = match store.members.get_or(ckey.as_slice(), Vec::new()) {
        Ok(v) => v,
        Err(e) => {
            return Err(e);
        },
    };
    if members.len() == 0 {
        return Ok(LeaderboardResult::NoMembers);
    }
    let mut pairs: Vec<(u64, i64)> = Vec::new();
    let mut i: usize = 0;
    while i < members.len()
        invariant
            i <= members@.len(),
            members@ == members_at(store@.members, chat_key(chat)),
            members_wf_at(store@.members, chat_key(chat)),
            pairs@.len() == i,
            forall|j: int| 0 <= j < i ==> i64_wf_at(store@.karma, user_key(members@[j])),
            pairs@ =~= expected_pairs(store@.karma, members@.take(i as int)),
        decreases members@.len() - i,
    {
        let id: u64 = members[i];
        let ukey: Vec<u8> = user_key_bytes(id);
        let bal: i64 = match store.karma.get_or(ukey.as_slice(), 0) {
            Ok(v) => v,
            Err(e) => {
                return Err(e);
            },
        };
        pairs.push((id, bal));
        proof {
            assert(pairs@ =~= expected_pairs(store@.karma, members@.take(i + 1)));
        }
        i = i + 1;
    }
    proof {
        assert(members@.take(members@.len() as int) =~= members@);
    }
    let ranked: Vec<(u64, i64)> = sort_pairs_desc(pairs);
    Ok(LeaderboardResult::Ranked(ranked))
}

/// A store after one user's last-grant instant is forgotten: that user's
/// next grant sees an expired quota.
pub open spec fn reset_user_spec(v: StoreView, user: u64) -> StoreView {
    StoreView { last: v.last.remove(user_key(user)), ..v }
}

/// A store after every last-grant instant is forgotten.
pub open spec fn reset_all_spec(v: StoreView) -> StoreView {
    StoreView { last: empty_entries(), ..v }
}

/// An administrative command: forget one user's (or everyone's)
/// last-grant instant, or identify a user.
#[derive(Clone, Copy, PartialEq, Eq, Structural, Debug)]
pub enum RootCommand {
    ResetAll,
    Reset(u64),
    Info,
}

/// What an administrative command came to: a reset was applied, or the
/// caller should render the identification it asked for.
#[derive(Clone, Copy, PartialEq, Eq, Structural, Debug)]
pub enum RootReply {
    ResetDone,
    InfoRequested,
}

/// Applies an administrative command to the store.  `Info` reads and
/// writes nothing; rendering the identification is the notification
/// layer's business.
pub fn run_root_command(store: &mut Store, cmd: &RootCommand) -> (r: Result<
    RootReply,
    StoreError,
>)
    ensures
        r matches Ok(rep) ==> match *cmd {
            RootCommand::Reset(user) => final(store)@ == reset_user_spec(old(store)@, user) && rep
                is ResetDone,
            RootCommand::ResetAll => final(store)@ == reset_all_spec(old(store)@) && rep
                is ResetDone,
            RootCommand::Info => final(store)@ == old(store)@ && rep is InfoRequested,
        },
        r matches Err(e) && e is DecodingError ==> match *cmd {
            RootCommand::Reset(user) => !i64_wf_at(old(store)@.last, user_key(user)),
            RootCommand::ResetAll => false,
            RootCommand::Info => false,
        },
        *cmd is Info ==> r is Ok,
{
    match cmd {
        RootCommand::Reset(user) => {
            let ukey: Vec<u8> = user_key_bytes(*user);
            match store.last.remove(ukey.as_slice()) {
                Ok(_) => {
                    proof {
                        assert(store@ =~~= reset_user_spec(old(store)@, *user));
                    }
                    Ok(RootReply::ResetDone)
                },
                Err(e) => Err(e),
            }
        },
        RootCommand::ResetAll => {
            match store.last.clear() {
                Ok(()) => {
                    proof {
                        assert(store@ =~~= reset_all_spec(old(store)@));
                    }
                    Ok(RootReply::ResetDone)
                },
                Err(e) => Err(e),
            }
        },
        RootCommand::Info => Ok(RootReply::InfoRequested),
    }
}

/// A private-chat command: both start and stats show the caller their
/// stats.
#[derive(Clone, Copy, PartialEq, Eq, Structural, Debug)]
pub enum UserCommand {
    Start,
    Stats,
}

/// Runs a private-chat command for `user`: either variant reports the
/// caller's stats.
pub fn run_user_command(store: &Store, cmd: &UserCommand, user: u64, now: i64) -> (r: Result<
    Stats,
    StoreError,
>)
    ensures
        r matches Ok(s) ==> stats_wf(store@, user, now) && s == stats_spec(store@, user, now),
        r matches Err(e) && e is DecodingError ==> !stats_wf(store@, user, now),
{
    match cmd {
        UserCommand::Start => stats(store, user, now),
        UserCommand::Stats => stats(store, user, now),
    }
}

/// A group-chat command: show the leaderboard, or the history series of
/// one user for charting.
#[derive(Clone, Copy, PartialEq, Eq, Structural, Debug)]
pub enum GroupCommand {
    Leaderboard,
    Chart,
}

/// What a group-chat command came to.
#[derive(PartialEq, Eq, Debug)]
pub enum GroupReply {
    Leaderboard(LeaderboardResult),
    Chart(Vec<Measure>),
}

/// Runs a group-chat command: the leaderboard of `chat`, or the history
/// series of `user`.
pub fn run_group_command(store: &Store, cmd: &GroupCommand, chat: i64, user: u64) -> (r: Result<
    GroupReply,
    StoreError,
>)
    ensures
        r matches Ok(rep) ==> match rep {
            GroupReply::Leaderboard(lr) => *cmd is Leaderboard && members_wf_at(
                store@.members,
                chat_key(chat),
            ) && match lr {
                LeaderboardResult::NoMembers => members_at(
                    store@.members,
                    chat_key(chat),
                ).len() == 0,
                LeaderboardResult::Ranked(v) => {
                    let ms = members_at(store@.members, chat_key(chat));
                    &&& ms.len() > 0
                    &&& v@.len() == ms.len()
                    &&& sorted_desc(v@)
                    &&& v@.to_multiset() == expected_pairs(store@.karma, ms).to_multiset()
                },
            },
            GroupReply::Chart(v) => *cmd is Chart && measures_wf_at(store@.graph, user_key(user))
                && v@ == measures_at(store@.graph, user_key(user)),
        },
{
    match cmd {
        GroupCommand::Leaderboard => match leaderboard(store, chat) {
            Ok(lr) => Ok(GroupReply::Leaderboard(lr)),
            Err(e) => Err(e),
        },
        GroupCommand::Chart => match history_series(store, user) {
            Ok(v) => Ok(GroupReply::Chart(v)),
            Err(e) => Err(e),
        },
    }
}

/// A semantic slot for the last notification message posted to a group:
/// one per notification kind, so stale notices can be replaced.
#[derive(Clone, Copy, PartialEq, Eq, Structural, Debug)]
pub enum NoticeSlot {
    /// The quota-exhausted notice.
    Status,
    /// The leaderboard posting.
    Leaderboard,
    /// The chart posting.
    Chart,
    /// The balance-update notice about one receiver.
    Receiver(u64),
}

/// The key suffix of a notification slot: a dash and the slot's name,
/// or a dash and the receiver's decimal identifier.
pub open spec fn slot_suffix(s: NoticeSlot) -> Seq<u8> {
    match s {
        // "-status"
        NoticeSlot::Status => seq![45u8, 115u8, 116u8, 97u8, 116u8, 117u8, 115u8],
        // "-leaderboard"
        NoticeSlot::Leaderboard => seq![
            45u8,
            108u8,
            101u8,
            97u8,
            100u8,
            101u8,
            114u8,
            98u8,
            111u8,
            97u8,
            114u8,
            100u8,
        ],
        // "-chart"
        NoticeSlot::Chart => seq![45u8, 99u8, 104u8, 97u8, 114u8, 116u8],
        NoticeSlot::Receiver(u) => seq![45u8] + crate::codec::u64_dec_digits(u as nat),
    }
}

/// The last-message key of a notification slot in a group.
pub open spec fn slot_key(chat: i64, s: NoticeSlot) -> Seq<u8> {
    chat_key(chat) + slot_suffix(s)
}

/// Builds the last-message key bytes of a notification slot.
pub fn slot_key_bytes(chat: i64, slot: &NoticeSlot) -> (r: Vec<u8>)
    ensures
        r@ == slot_key(chat, *slot),
{
    let mut out: Vec<u8> = chat_key_bytes(chat);
    out.push(45);
    match slot {
        NoticeSlot::Status => {
            out.push(115);
            out.push(116);
            out.push(97);
            out.push(116);
            out.push(117);
            out.push(115);
        },
        NoticeSlot::Leaderboard => {
            out.push(108);
            out.push(101);
            out.push(97);
            out.push(100);
            out.push(101);
            out.push(114);
            out.push(98);
            out.push(111);
            out.push(97);
            out.push(114);
            out.push(100);
        },
        NoticeSlot::Chart => {
            out.push(99);
            out.push(104);
            out.push(97);
            out.push(114);
            out.push(116);
        },
        NoticeSlot::Receiver(u) => {
            crate::codec::push_u64_dec(*u, &mut out);
        },
    }
    proof {
        assert(out@ =~= slot_key(chat, *slot));
    }
    out
}

} // verus!
