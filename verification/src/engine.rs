//! The transfer engine: executes karma grants and the quota-exhaustion
//! fallback protocol.
//!
//! A grant `(giver, receiver, polarity)` first refreshes the giver's
//! daily quota if it has expired, then either consumes a quota point and
//! applies the transfer (the direct path), or offers the giver the chance
//! to spend their own balance instead (the fallback path, confirmed
//! separately).  Every state change is stated exactly, as a function of
//! the store's previous contents.

use vstd::prelude::*;

use crate::business::DEFAULT_DOWN;
use crate::business::DEFAULT_UP;
use crate::business::GRAPH_MAX_SIZE;
use crate::business::is_assignable_karma_expired_at;
use crate::business::quota_expired_at;
use crate::codec::chat_key;
use crate::codec::chat_key_bytes;
use crate::codec::enc_i64;
use crate::codec::le_value;
use crate::codec::enc_measures;
use crate::codec::enc_members;
use crate::codec::user_key;
use crate::codec::user_key_bytes;
use crate::db::Measure;
use crate::db::Store;
use crate::db::StoreView;
use crate::db::i64_at_or;
use crate::db::i64_wf_at;
use crate::db::measures_at;
use crate::db::measures_wf_at;
use crate::db::members_at;
use crate::db::members_wf_at;
use crate::error::StoreError;

verus! {

/// The polarity of a grant: award one point or deduct one point.
#[derive(Clone, Copy, PartialEq, Eq, Structural, Debug)]
pub enum Karma {
    Up,
    Down,
}

/// The number of grants of this polarity a giver may make each day.
pub open spec fn spec_default_quota(k: Karma) -> i64 {
    match k {
        Karma::Up => DEFAULT_UP,
        Karma::Down => DEFAULT_DOWN,
    }
}

/// A receiver's balance after one grant of polarity `k`.  The balance has
/// no enforced floor or ceiling; at the edges of the representable range
/// it wraps.
pub open spec fn spec_apply_delta(b: i64, k: Karma) -> i64 {
    match k {
        Karma::Up => if b == i64::MAX {
            i64::MIN
        } else {
            (b + 1) as i64
        },
        Karma::Down => if b == i64::MIN {
            i64::MAX
        } else {
            (b - 1) as i64
        },
    }
}

/// A receiver's balance after one grant of polarity `k`.
pub fn apply_delta(b: i64, k: &Karma) -> (r: i64)
    ensures
        r == spec_apply_delta(b, *k),
{
    match k {
        Karma::Up => {
            if b == i64::MAX {
                i64::MIN
            } else {
                b + 1
            }
        },
        Karma::Down => {
            if b == i64::MIN {
                i64::MAX
            } else {
                b - 1
            }
        },
    }
}

/// A history log after appending one sample: the oldest entries are
/// dropped so that at most the most recent hundred remain.
pub open spec fn truncate_log(s: Seq<Measure>) -> Seq<Measure> {
    if s.len() > GRAPH_MAX_SIZE {
        s.skip(s.len() - GRAPH_MAX_SIZE)
    } else {
        s
    }
}

/// Appends one sample to a history log and drops the oldest entries
/// beyond the cap.
pub fn push_sample(log: Vec<Measure>, m: Measure) -> (r: Vec<Measure>)
    ensures
        r@ == truncate_log(log@.push(m)),
        r@.len() <= GRAPH_MAX_SIZE,
{
    let mut log = log;
    log.push(m);
    if log.len() > GRAPH_MAX_SIZE {
        let start: usize = log.len() - GRAPH_MAX_SIZE;
        let mut out: Vec<Measure> = Vec::new();
        let mut i: usize = start;
        while i < log.len()
            invariant
                start <= i <= log.len(),
                log.len() > GRAPH_MAX_SIZE,
                start == log@.len() - GRAPH_MAX_SIZE,
                out@ == log@.subrange(start as int, i as int),
            decreases log@.len() - i,
        {
            let next: Measure = log[i];
            out.push(next);
            proof {
                assert(out@ =~= log@.subrange(start as int, i + 1));
            }
            i = i + 1;
        }
        proof {
            assert(out@ =~= truncate_log(log@));
        }
        out
    } else {
        log
    }
}

/// A membership list after recording one participant: appended at the
/// end unless already present.
pub open spec fn spec_add_member(s: Seq<u64>, id: u64) -> Seq<u64> {
    if s.contains(id) {
        s
    } else {
        s.push(id)
    }
}

/// Records one participant in a membership list.
pub fn add_member(v: Vec<u64>, id: u64) -> (r: Vec<u64>)
    ensures
        r@ == spec_add_member(v@, id),
{
    let mut i: usize = 0;
    while i < v.len()
        invariant
            i <= v@.len(),
            forall|j: int| 0 <= j < i ==> v@[j] != id,
        decreases v@.len() - i,
    {
        if v[i] == id {
            proof {
                assert(v@.contains(id));
            }
            return v;
        }
        i = i + 1;
    }
    proof {
        assert(!v@.contains(id));
    }
    let mut v = v;
    v.push(id);
    v
}

/// A karma transfer request, as resolved by the inbound layer: who gives,
/// who receives, in which group, and with which polarity.  The two
/// `is_bot` flags carry whether either identity is an automated one.
#[derive(Clone, Copy, PartialEq, Eq, Structural, Debug)]
pub struct GrantRequest {
    pub giver: u64,
    pub receiver: u64,
    pub chat: i64,
    pub polarity: Karma,
    pub giver_is_bot: bool,
    pub receiver_is_bot: bool,
}

/// The outcome of a grant request.
#[derive(Clone, Copy, PartialEq, Eq, Structural, Debug)]
pub enum GrantOutcome {
    /// A precondition was not met; nothing happened and nothing is owed.
    Rejected,
    /// A quota point was spent; the receiver's balance is now this.
    Direct { balance: i64 },
    /// No quota point of this polarity is left today: the giver may
    /// confirm spending their own balance instead.
    QuotaExhausted { polarity: Karma, receiver: u64 },
}

/// The outcome of a fallback confirmation.
#[derive(Clone, Copy, PartialEq, Eq, Structural, Debug)]
pub enum FallbackOutcome {
    /// The giver's own balance is below one point; nothing changed.
    InsufficientKarma,
    /// The transfer went through, funded by a fresh quota point if one
    /// had become available again, else by the giver's own balance.
    Granted { receiver_balance: i64, giver_balance: i64, spent_own_karma: bool },
}

/// Whether a grant request passes the engine's preconditions: distinct
/// identities, neither automated.
pub open spec fn grant_allowed(req: GrantRequest) -> bool {
    req.giver != req.receiver && !req.giver_is_bot && !req.receiver_is_bot
}

/// The quota partition of the given polarity.
pub open spec fn quota_entries(v: StoreView, k: Karma) -> Map<Seq<u8>, Seq<u8>> {
    match k {
        Karma::Up => v.up,
        Karma::Down => v.down,
    }
}

/// A store after the giver's two quota counters are reset to their
/// defaults (stored counters are removed; an absent counter reads as the
/// default).
pub open spec fn reset_quota(v: StoreView, g: Seq<u8>) -> StoreView {
    StoreView { up: v.up.remove(g), down: v.down.remove(g), ..v }
}

/// A store after the giver's counter of one polarity is set.
pub open spec fn set_quota(v: StoreView, k: Karma, g: Seq<u8>, value: i64) -> StoreView {
    match k {
        Karma::Up => StoreView { up: v.up.insert(g, enc_i64(value as int)), ..v },
        Karma::Down => StoreView { down: v.down.insert(g, enc_i64(value as int)), ..v },
    }
}

/// The giver's remaining quota of polarity `k` at instant `now`,
/// projecting the daily reset.
pub open spec fn spec_avail(pre: StoreView, giver: u64, k: Karma, now: i64) -> i64 {
    let g = user_key(giver);
    let last = i64_at_or(pre.last, g, 0);
    if quota_expired_at(last as int, now as int) {
        spec_default_quota(k)
    } else {
        i64_at_or(quota_entries(pre, k), g, spec_default_quota(k))
    }
}

/// Whether every record a grant request would read decodes properly.
pub open spec fn grant_wf(pre: StoreView, req: GrantRequest, now: i64) -> bool {
    grant_allowed(req) ==> {
        let g = user_key(req.giver);
        let last = i64_at_or(pre.last, g, 0);
        let expired = quota_expired_at(last as int, now as int);
        &&& i64_wf_at(pre.last, g)
        &&& (expired ==> i64_wf_at(pre.up, g) && i64_wf_at(pre.down, g))
        &&& (!expired ==> i64_wf_at(quota_entries(pre, req.polarity), g))
        &&& (spec_avail(pre, req.giver, req.polarity, now) >= 1 ==> {
            &&& i64_wf_at(pre.karma, user_key(req.receiver))
            &&& measures_wf_at(pre.graph, user_key(req.receiver))
            &&& members_wf_at(pre.members, chat_key(req.chat))
        })
    }
}

/// What a grant request does: the store contents afterwards, and the
/// outcome reported to the caller.
pub open spec fn grant_spec(pre: StoreView, req: GrantRequest, now: i64) -> (
    StoreView,
    GrantOutcome,
) {
    if !grant_allowed(req) {
        (pre, GrantOutcome::Rejected)
    } else {
        let g = user_key(req.giver);
        let last = i64_at_or(pre.last, g, 0);
        let expired = quota_expired_at(last as int, now as int);
        let v1 = if expired {
            reset_quota(pre, g)
        } else {
            pre
        };
        let avail = i64_at_or(quota_entries(v1, req.polarity), g, spec_default_quota(req.polarity));
        if avail < 1 {
            (v1, GrantOutcome::QuotaExhausted { polarity: req.polarity, receiver: req.receiver })
        } else {
            let rk = user_key(req.receiver);
            let ck = chat_key(req.chat);
            let new_bal = spec_apply_delta(i64_at_or(v1.karma, rk, 0), req.polarity);
            let new_log = truncate_log(
                measures_at(v1.graph, rk).push(Measure { timestamp: now, karma: new_bal }),
            );
            let new_mem = spec_add_member(
                spec_add_member(members_at(v1.members, ck), req.giver),
                req.receiver,
            );
            let v2 = set_quota(v1, req.polarity, g, (avail - 1) as i64);
            let v3 = StoreView {
                last: v2.last.insert(g, enc_i64(now as int)),
                graph: v2.graph.insert(rk, enc_measures(new_log)),
                karma: v2.karma.insert(rk, enc_i64(new_bal as int)),
                members: v2.members.insert(ck, enc_members(new_mem)),
                ..v2
            };
            (v3, GrantOutcome::Direct { balance: new_bal })
        }
    }
}

impl Store {
    /// The giver's stored counter of one polarity, defaulted.
    fn quota_get_or(&self, k: &Karma, key: &[u8]) -> (r: Result<i64, StoreError>)
        ensures
            r matches Ok(v) ==> i64_wf_at(quota_entries(self@, *k), key@) && v == i64_at_or(
                quota_entries(self@, *k),
                key@,
                spec_default_quota(*k),
            ),
            r matches Err(e) ==> match e {
                StoreError::DecodingError => !i64_wf_at(quota_entries(self@, *k), key@),
                StoreError::DatabaseError(_) => true,
            },
    {
        match k {
            Karma::Up => self.up.get_or(key, DEFAULT_UP),
            Karma::Down => self.down.get_or(key, DEFAULT_DOWN),
        }
    }

    /// Stores the giver's counter of one polarity.
    fn quota_insert(&mut self, k: &Karma, key: &[u8], value: i64) -> (r: Result<(), StoreError>)
        ensures
            r is Ok ==> final(self)@ == set_quota(old(self)@, *k, key@, value),
            r matches Err(e) ==> e is DatabaseError,
    {
        match k {
            Karma::Up => {
                let r = self.up.insert(key, value);
                proof {
                    if r is Ok {
                        assert(self@ =~~= set_quota(old(self)@, *k, key@, value));
                    }
                }
                r
            },
            Karma::Down => {
                let r = self.down.insert(key, value);
                proof {
                    if r is Ok {
                        assert(self@ =~~= set_quota(old(self)@, *k, key@, value));
                    }
                }
                r
            },
        }
    }
}

/// Executes a karma grant.  On success the store's new contents and the
/// reported outcome are exactly those of `grant_spec`; on a well-formed
/// store the only possible failure is the storage layer's own.
pub fn grant(store: &mut Store, req: &GrantRequest, now: i64) -> (r: Result<
    GrantOutcome,
    StoreError,
>)
    ensures
        r matches Ok(o) ==> grant_wf(old(store)@, *req, now) && final(store)@ == grant_spec(
            old(store)@,
            *req,
            now,
        ).0 && o == grant_spec(old(store)@, *req, now).1,
        grant_wf(old(store)@, *req, now) && (r matches Err(e) && e is DecodingError) ==> false,
        !grant_allowed(*req) ==> r is Ok,
{
    if req.giver == req.receiver || req.giver_is_bot || req.receiver_is_bot {
        return Ok(GrantOutcome::Rejected);
    }
    let gkey: Vec<u8> = user_key_bytes(req.giver);
    let last_ts: i64 = match store.last.get_or(gkey.as_slice(), 0) {
        Ok(v) => v,
        Err(e) => {
            return Err(e);
        },
    };
    let expired: bool = is_assignable_karma_expired_at(last_ts, now);
    if expired {
        match store.up.remove(gkey.as_slice()) {
            Ok(_) => (),
            Err(e) => {
                return Err(e);
            },
        }
        match store.down.remove(gkey.as_slice()) {
            Ok(_) => (),
            Err(e) => {
                return Err(e);
            },
        }
    }
    let avail: i64 = match store.quota_get_or(&req.polarity, gkey.as_slice()) {
        Ok(v) => v,
        Err(e) => {
            return Err(e);
        },
    };
    if avail < 1 {
        return Ok(GrantOutcome::QuotaExhausted { polarity: req.polarity, receiver: req.receiver });
    }
    match store.quota_insert(&req.polarity, gkey.as_slice(), avail - 1) {
        Ok(()) => (),
        Err(e) => {
            return Err(e);
        },
    }
    match store.last.insert(gkey.as_slice(), now) {
        Ok(()) => (),
        Err(e) => {
            return Err(e);
        },
    }
    let rkey: Vec<u8> = user_key_bytes(req.receiver);
    let bal: i64 = match store.karma.get_or(rkey.as_slice(), 0) {
        Ok(v) => v,
        Err(e) => {
            return Err(e);
        },
    };
    let new_bal: i64 = apply_delta(bal, &req.polarity);
    let log: Vec<Measure> = match store.graph.get_or(rkey.as_slice(), Vec::new()) {
        Ok(v) => v,
        Err(e) => {
            return Err(e);
        },
    };
    match store.karma.insert(rkey.as_slice(), new_bal) {
        Ok(()) => (),
        Err(e) => {
            return Err(e);
        },
    }
    let log2: Vec<Measure> = push_sample(log, Measure { timestamp: now, karma: new_bal });
    match store.graph.insert(rkey.as_slice(), &log2) {
        Ok(()) => (),
        Err(e) => {
            return Err(e);
        },
    }
    let ckey: Vec<u8> = chat_key_bytes(req.chat);
    let mem: Vec<u64> = match store.members.get_or(ckey.as_slice(), Vec::new()) {
        Ok(v) => v,
        Err(e) => {
            return Err(e);
        },
    };
    let mem2: Vec<u64> = add_member(add_member(mem, req.giver), req.receiver);
    match store.members.insert(ckey.as_slice(), &mem2) {
        Ok(()) => (),
        Err(e) => {
            return Err(e);
        },
    }
    proof {
        assert(store@ =~~= grant_spec(old(store)@, *req, now).0);
    }
    Ok(GrantOutcome::Direct { balance: new_bal })
}

/// The polarity a message text signals: a leading `+` is an Up grant, a
/// leading `-` a Down grant, anything else is no grant at all.
pub open spec fn spec_karma_of_text(s: Seq<char>) -> Option<Karma> {
    if s.len() > 0 && s[0] == '+' {
        Some(Karma::Up)
    } else if s.len() > 0 && s[0] == '-' {
        Some(Karma::Down)
    } else {
        None
    }
}

/// Reads the lexically signalled polarity off a message text.
pub fn karma_from_text(s: &str) -> (r: Option<Karma>)
    ensures
        r == spec_karma_of_text(s@),
{
    let n: usize = s.unicode_len();
    if n == 0 {
        None
    } else {
        let c: char = s.get_char(0);
        if c == '+' {
            Some(Karma::Up)
        } else if c == '-' {
            Some(Karma::Down)
        } else {
            None
        }
    }
}

/// The byte a polarity is carried as inside a pending-offer token.
pub open spec fn polarity_tag(k: Karma) -> u8 {
    match k {
        Karma::Up => 0,
        Karma::Down => 1,
    }
}

/// The payload of a pending-offer token: the polarity tag, then the
/// receiver identifier as eight little-endian bytes.
pub open spec fn pending_bytes(k: Karma, receiver: u64) -> Seq<u8> {
    seq![polarity_tag(k)] + crate::codec::le_bytes(receiver as nat, 8)
}

/// What base64 makes of a byte string (standard alphabet, padded).
pub uninterp spec fn b64_of(bytes: Seq<u8>) -> Seq<char>;

#[verifier::external_type_specification]
#[verifier::external_body]
pub struct ExB64DecodeError(base64::DecodeError);

/// Relies on base64::encode: the standard-alphabet, padded rendering,
/// a function of the input bytes alone.
#[verifier::external_body]
fn b64_encode(bytes: &Vec<u8>) -> (r: String)
    ensures
        r@ == b64_of(bytes@),
{
    base64::encode(bytes.as_slice())
}

/// Relies on base64::decode: it inverts base64::encode.
#[verifier::external_body]
fn b64_decode(s: &str) -> (r: Result<Vec<u8>, base64::DecodeError>)
    ensures
        r is Err ==> (forall|v: Seq<u8>| s@ != b64_of(v)),
        r matches Ok(b) ==> (forall|v: Seq<u8>| s@ == b64_of(v) ==> b@ == v),
{
    base64::decode(s)
}

/// Renders a quota-exhausted offer `(polarity, receiver)` as an opaque
/// token fit for round-tripping through the notification layer.
pub fn encode_pending(polarity: &Karma, receiver: u64) -> (r: String)
    ensures
        r@ == b64_of(pending_bytes(*polarity, receiver)),
{
    let mut buf: Vec<u8> = Vec::new();
    let tag: u8 = match polarity {
        Karma::Up => 0,
        Karma::Down => 1,
    };
    buf.push(tag);
    crate::codec::push_le_bytes(receiver, 8, &mut buf);
    proof {
        assert(buf@ =~= pending_bytes(*polarity, receiver));
    }
    b64_encode(&buf)
}

/// Reads a pending-offer token back into `(polarity, receiver)`.  Every
/// token made by `encode_pending` is accepted and yields the pair it was
/// made from; anything else may be refused.
pub fn decode_pending(s: &str) -> (r: Option<(Karma, u64)>)
    ensures
        forall|k: Karma, u: u64| s@ == b64_of(pending_bytes(k, u)) ==> r == Some((k, u)),
{
    let bytes: Vec<u8> = match b64_decode(s) {
        Ok(b) => b,
        Err(_) => {
            return None;
        },
    };
    if bytes.len() != 9 {
        proof {
            assert forall|k: Karma, u: u64| s@ != b64_of(pending_bytes(k, u)) by {
                crate::codec::lemma_le_bytes_len(u as nat, 8);
            }
        }
        return None;
    }
    let tag: u8 = bytes[0];
    let receiver: u64 = crate::codec::read_le_u64(&bytes, 1);
    proof {
        assert forall|k: Karma, u: u64| s@ == b64_of(pending_bytes(k, u)) implies bytes@
            =~= pending_bytes(k, u) by {
        }
        assert forall|k: Karma, u: u64|
            bytes@ == pending_bytes(k, u) implies polarity_tag(k) == bytes@[0] && u as nat
            == le_value(bytes@.subrange(1, 9)) by {
            crate::codec::lemma_le_bytes_len(u as nat, 8);
            crate::codec::lemma_pow256_values();
            crate::codec::lemma_le_roundtrip(u as nat, 8);
            assert(pending_bytes(k, u).subrange(1, 9) =~= crate::codec::le_bytes(u as nat, 8));
        }
    }
    if tag == 0 {
        Some((Karma::Up, receiver))
    } else if tag == 1 {
        Some((Karma::Down, receiver))
    } else {
        None
    }
}

/// Whether every record a fallback confirmation would read decodes
/// properly.
pub open spec fn fallback_wf(
    pre: StoreView,
    giver: u64,
    receiver: u64,
    k: Karma,
    now: i64,
) -> bool {
    let g = user_key(giver);
    let rk = user_key(receiver);
    let last = i64_at_or(pre.last, g, 0);
    let expired = quota_expired_at(last as int, now as int);
    &&& i64_wf_at(pre.karma, rk)
    &&& i64_wf_at(pre.last, g)
    &&& (expired ==> i64_wf_at(pre.up, g) && i64_wf_at(pre.down, g))
    &&& (!expired ==> i64_wf_at(quota_entries(pre, k), g))
    &&& i64_wf_at(pre.karma, g)
    &&& ((spec_avail(pre, giver, k, now) >= 1 || i64_at_or(pre.karma, g, 0) >= 1)
        ==> measures_wf_at(pre.graph, rk))
}

/// What a fallback confirmation does: the store contents afterwards, and
/// the outcome reported to the caller.
///
/// If the giver's quota of the original polarity has become available
/// again, a quota point is consumed as in a direct grant (and the
/// last-grant instant refreshed); otherwise one point of the giver's own
/// balance funds the transfer, and the daily quota window is untouched.
pub open spec fn fallback_spec(
    pre: StoreView,
    giver: u64,
    receiver: u64,
    k: Karma,
    now: i64,
) -> (StoreView, FallbackOutcome) {
    let g = user_key(giver);
    let rk = user_key(receiver);
    let new_rbal = spec_apply_delta(i64_at_or(pre.karma, rk, 0), k);
    let last = i64_at_or(pre.last, g, 0);
    let expired = quota_expired_at(last as int, now as int);
    let v1 = if expired {
        reset_quota(pre, g)
    } else {
        pre
    };
    let avail = i64_at_or(quota_entries(v1, k), g, spec_default_quota(k));
    let gbal = i64_at_or(v1.karma, g, 0);
    let new_log = truncate_log(
        measures_at(v1.graph, rk).push(Measure { timestamp: now, karma: new_rbal }),
    );
    if avail >= 1 {
        let v2 = set_quota(v1, k, g, (avail - 1) as i64);
        let v3 = StoreView {
            last: v2.last.insert(g, enc_i64(now as int)),
            graph: v2.graph.insert(rk, enc_measures(new_log)),
            karma: v2.karma.insert(rk, enc_i64(new_rbal as int)),
            ..v2
        };
        (
            v3,
            FallbackOutcome::Granted {
                receiver_balance: new_rbal,
                giver_balance: gbal,
                spent_own_karma: false,
            },
        )
    } else if gbal < 1 {
        (v1, FallbackOutcome::InsufficientKarma)
    } else {
        let v3 = StoreView {
            karma: v1.karma.insert(g, enc_i64(gbal - 1)).insert(rk, enc_i64(new_rbal as int)),
            graph: v1.graph.insert(rk, enc_measures(new_log)),
            ..v1
        };
        (
            v3,
            FallbackOutcome::Granted {
                receiver_balance: new_rbal,
                giver_balance: (gbal - 1) as i64,
                spent_own_karma: true,
            },
        )
    }
}

/// Executes a fallback confirmation: the giver has accepted the offer to
/// complete an earlier quota-exhausted grant.  On success the store's new
/// contents and the reported outcome are exactly those of
/// `fallback_spec`; on a well-formed store the only possible failure is
/// the storage layer's own.
pub fn confirm_fallback(
    store: &mut Store,
    giver: u64,
    receiver: u64,
    polarity: &Karma,
    now: i64,
) -> (r: Result<FallbackOutcome, StoreError>)
    ensures
        r matches Ok(o) ==> fallback_wf(old(store)@, giver, receiver, *polarity, now)
            && final(store)@ == fallback_spec(old(store)@, giver, receiver, *polarity, now).0
            && o == fallback_spec(old(store)@, giver, receiver, *polarity, now).1,
        fallback_wf(old(store)@, giver, receiver, *polarity, now) && (r matches Err(e) && e
            is DecodingError) ==> false,
{
    let rkey: Vec<u8> = user_key_bytes(receiver);
    let gkey: Vec<u8> = user_key_bytes(giver);
    let rbal: i64 = match store.karma.get_or(rkey.as_slice(), 0) {
        Ok(v) => v,
        Err(e) => {
            return Err(e);
        },
    };
    let new_rbal: i64 = apply_delta(rbal, polarity);
    let last_ts: i64 = match store.last.get_or(gkey.as_slice(), 0) {
        Ok(v) => v,
        Err(e) => {
            return Err(e);
        },
    };
    let expired: bool = is_assignable_karma_expired_at(last_ts, now);
    if expired {
        match store.up.remove(gkey.as_slice()) {
            Ok(_) => (),
            Err(e) => {
                return Err(e);
            },
        }
        match store.down.remove(gkey.as_slice()) {
            Ok(_) => (),
            Err(e) => {
                return Err(e);
            },
        }
    }
    let avail: i64 = match store.quota_get_or(polarity, gkey.as_slice()) {
        Ok(v) => v,
        Err(e) => {
            return Err(e);
        },
    };
    let gbal: i64 = match store.karma.get_or(gkey.as_slice(), 0) {
        Ok(v) => v,
        Err(e) => {
            return Err(e);
        },
    };
    if avail >= 1 {
        match store.quota_insert(polarity, gkey.as_slice(), avail - 1) {
            Ok(()) => (),
            Err(e) => {
                return Err(e);
            },
        }
        match store.last.insert(gkey.as_slice(), now) {
            Ok(()) => (),
            Err(e) => {
                return Err(e);
            },
        }
        let log: Vec<Measure> = match store.graph.get_or(rkey.as_slice(), Vec::new()) {
            Ok(v) => v,
            Err(e) => {
                return Err(e);
            },
        };
        match store.karma.insert(rkey.as_slice(), new_rbal) {
            Ok(()) => (),
            Err(e) => {
                return Err(e);
            },
        }
        let log2: Vec<Measure> = push_sample(log, Measure { timestamp: now, karma: new_rbal });
        match store.graph.insert(rkey.as_slice(), &log2) {
            Ok(()) => (),
            Err(e) => {
                return Err(e);
            },
        }
        proof {
            assert(store@ =~~= fallback_spec(old(store)@, giver, receiver, *polarity, now).0);
        }
        Ok(FallbackOutcome::Granted {
            receiver_balance: new_rbal,
            giver_balance: gbal,
            spent_own_karma: false,
        })
    } else if gbal < 1 {
        Ok(FallbackOutcome::InsufficientKarma)
    } else {
        match store.karma.insert(gkey.as_slice(), gbal - 1) {
            Ok(()) => (),
            Err(e) => {
                return Err(e);
            },
        }
        let log: Vec<Measure> = match store.graph.get_or(rkey.as_slice(), Vec::new()) {
            Ok(v) => v,
            Err(e) => {
                return Err(e);
            },
        };
        match store.karma.insert(rkey.as_slice(), new_rbal) {
            Ok(()) => (),
            Err(e) => {
                return Err(e);
            },
        }
        let log2: Vec<Measure> = push_sample(log, Measure { timestamp: now, karma: new_rbal });
        match store.graph.insert(rkey.as_slice(), &log2) {
            Ok(()) => (),
            Err(e) => {
                return Err(e);
            },
        }
        proof {
            assert(store@ =~~= fallback_spec(old(store)@, giver, receiver, *polarity, now).0);
        }
        Ok(FallbackOutcome::Granted {
            receiver_balance: new_rbal,
            giver_balance: gbal - 1,
            spent_own_karma: true,
        })
    }
}

} // verus!
