//! Laws of the transfer engine, proved from the specifications of its
//! state transitions.

use vstd::prelude::*;

use crate::business::GRAPH_MAX_SIZE;
use crate::business::quota_expired_at;
use crate::codec::lemma_i64_roundtrip;
use crate::codec::lemma_user_key_injective;
use crate::codec::lemma_measures_roundtrip;
use crate::codec::user_key;
use crate::db::StoreView;
use crate::db::i64_at_or;
use crate::db::Measure;
use crate::db::measures_at;
use crate::engine::FallbackOutcome;
use crate::engine::GrantOutcome;
use crate::engine::GrantRequest;
use crate::engine::Karma;
use crate::engine::fallback_spec;
use crate::engine::grant_allowed;
use crate::engine::grant_spec;
use crate::engine::spec_avail;

verus! {

/// After a direct grant consumes the giver's last quota point, a second
/// request of the same polarity from the same giver, made before any
/// reset, is offered the fallback — never a silent direct success — and
/// changes nothing.
pub proof fn lemma_exhausted_after_last_point(
    pre: StoreView,
    req: GrantRequest,
    now1: i64,
    now2: i64,
)
    requires
        grant_allowed(req),
        spec_avail(pre, req.giver, req.polarity, now1) == 1,
        !quota_expired_at(now1 as int, now2 as int),
    ensures
        grant_spec(pre, req, now1).1 is Direct,
        grant_spec(grant_spec(pre, req, now1).0, req, now2).1 == (GrantOutcome::QuotaExhausted {
            polarity: req.polarity,
            receiver: req.receiver,
        }),
        grant_spec(grant_spec(pre, req, now1).0, req, now2).0 == grant_spec(pre, req, now1).0,
{
    let mid = grant_spec(pre, req, now1).0;
    let g = user_key(req.giver);
    lemma_i64_roundtrip(now1 as int);
    lemma_i64_roundtrip(0);
    assert(i64_at_or(mid.last, g, 0) == now1);
    assert(i64_at_or(crate::engine::quota_entries(mid, req.polarity), g, 0) == 0);
}

/// A fallback confirmation by a giver whose quota of that polarity is
/// still exhausted and whose own balance is below one point always
/// fails with the insufficient-karma result, and changes nothing: in
/// particular both the giver's and the receiver's balances stay as they
/// were.
pub proof fn lemma_fallback_insufficient(
    pre: StoreView,
    giver: u64,
    receiver: u64,
    k: Karma,
    now: i64,
)
    requires
        spec_avail(pre, giver, k, now) < 1,
        i64_at_or(pre.karma, user_key(giver), 0) < 1,
    ensures
        fallback_spec(pre, giver, receiver, k, now).1 == FallbackOutcome::InsufficientKarma,
        fallback_spec(pre, giver, receiver, k, now).0 == pre,
{
}

/// The other polarity.
pub open spec fn opposite(k: Karma) -> Karma {
    match k {
        Karma::Up => Karma::Down,
        Karma::Down => Karma::Up,
    }
}

/// What one direct grant does, record by record: the giver's counter of
/// the requested polarity drops by one while the other polarity's
/// partition is untouched, the giver's last-grant instant becomes `now`,
/// the receiver's balance moves by the polarity's delta while the
/// giver's balance stays, and — while the history is under its cap —
/// the receiver's history gains exactly the sample of the new balance
/// taken at `now`.  The outcome announces the receiver's new balance.
pub proof fn lemma_direct_grant_effects(pre: StoreView, req: GrantRequest, now: i64)
    requires
        grant_allowed(req),
        !quota_expired_at(i64_at_or(pre.last, user_key(req.giver), 0) as int, now as int),
        spec_avail(pre, req.giver, req.polarity, now) >= 1,
        measures_at(pre.graph, user_key(req.receiver)).len() < GRAPH_MAX_SIZE,
    ensures
        ({
            let post = grant_spec(pre, req, now).0;
            let o = grant_spec(pre, req, now).1;
            let g = user_key(req.giver);
            let rk = user_key(req.receiver);
            let avail = spec_avail(pre, req.giver, req.polarity, now);
            let new_bal = crate::engine::spec_apply_delta(
                i64_at_or(pre.karma, rk, 0),
                req.polarity,
            );
            &&& o == (GrantOutcome::Direct { balance: new_bal })
            &&& i64_at_or(crate::engine::quota_entries(post, req.polarity), g, 0) == avail - 1
            &&& crate::engine::quota_entries(post, opposite(req.polarity))
                == crate::engine::quota_entries(pre, opposite(req.polarity))
            &&& i64_at_or(post.last, g, 0) == now
            &&& i64_at_or(post.karma, rk, 0) == new_bal
            &&& i64_at_or(post.karma, g, 0) == i64_at_or(pre.karma, g, 0)
            &&& measures_at(post.graph, rk) == measures_at(pre.graph, rk).push(
                Measure { timestamp: now, karma: new_bal },
            )
        }),
{
    let g = user_key(req.giver);
    let rk = user_key(req.receiver);
    let avail = spec_avail(pre, req.giver, req.polarity, now);
    let new_bal = crate::engine::spec_apply_delta(i64_at_or(pre.karma, rk, 0), req.polarity);
    let new_log = measures_at(pre.graph, rk).push(Measure { timestamp: now, karma: new_bal });
    if g == rk {
        lemma_user_key_injective(req.giver, req.receiver);
    }
    lemma_i64_roundtrip((avail - 1) as int);
    lemma_i64_roundtrip(now as int);
    lemma_i64_roundtrip(new_bal as int);
    assert(crate::engine::truncate_log(new_log) == new_log);
    lemma_measures_roundtrip(new_log);
}

/// The smaller of two lengths.
pub open spec fn len_min(a: nat, b: nat) -> nat {
    if a <= b {
        a
    } else {
        b
    }
}

/// A direct grant leaves the receiver's history log at the lesser of
/// its previous length plus one and the cap: the log never exceeds one
/// hundred samples, however many grants accumulate.
pub proof fn lemma_history_bounded(pre: StoreView, req: GrantRequest, now: i64)
    requires
        grant_spec(pre, req, now).1 is Direct,
    ensures
        measures_at(grant_spec(pre, req, now).0.graph, user_key(req.receiver)).len()
            <= GRAPH_MAX_SIZE,
        measures_at(grant_spec(pre, req, now).0.graph, user_key(req.receiver)).len() == len_min(
            measures_at(pre.graph, user_key(req.receiver)).len() + 1,
            GRAPH_MAX_SIZE as nat,
        ),
{
    let rk = user_key(req.receiver);
    let post = grant_spec(pre, req, now).0;
    let old_log = measures_at(pre.graph, rk);
    let new_bal = crate::engine::spec_apply_delta(
        i64_at_or(pre.karma, rk, 0),
        req.polarity,
    );
    let new_log = crate::engine::truncate_log(
        old_log.push(crate::db::Measure { timestamp: now, karma: new_bal }),
    );
    assert(new_log.len() <= GRAPH_MAX_SIZE);
    lemma_measures_roundtrip(new_log);
}

/// A balance-funded or quota-funded fallback leaves the receiver's
/// history log at the lesser of its previous length plus one and the
/// cap, just as a direct grant does.
pub proof fn lemma_history_bounded_fallback(
    pre: StoreView,
    giver: u64,
    receiver: u64,
    k: Karma,
    now: i64,
)
    requires
        fallback_spec(pre, giver, receiver, k, now).1 is Granted,
    ensures
        measures_at(fallback_spec(pre, giver, receiver, k, now).0.graph, user_key(receiver)).len()
            <= GRAPH_MAX_SIZE,
        measures_at(fallback_spec(pre, giver, receiver, k, now).0.graph, user_key(receiver)).len()
            == len_min(
            measures_at(pre.graph, user_key(receiver)).len() + 1,
            GRAPH_MAX_SIZE as nat,
        ),
{
    let rk = user_key(receiver);
    let old_log = measures_at(pre.graph, rk);
    let new_bal = crate::engine::spec_apply_delta(i64_at_or(pre.karma, rk, 0), k);
    let new_log = crate::engine::truncate_log(
        old_log.push(crate::db::Measure { timestamp: now, karma: new_bal }),
    );
    assert(new_log.len() <= GRAPH_MAX_SIZE);
    lemma_measures_roundtrip(new_log);
}

} // verus!

