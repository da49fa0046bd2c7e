//! Disappearing (ephemeral) messages.
use vstd::prelude::*;
use crate::crypto::session::EncryptedMessage;

verus! {

/// When the timer of a disappearing message starts.
#[derive(Clone, Copy, Debug, PartialEq, Eq, Structural)]
pub enum DisappearMode {
    AfterSend,
    AfterRead,
    Never,
}

/// The disappearing policy of a chat.
pub type DisappearingPolicy = DisappearMode;

/// A message that disappears `ttl_secs` seconds after its timer starts.
#[derive(Clone, Debug)]
pub struct EphemeralMessage {
    pub encrypted: EncryptedMessage,
    pub mode: DisappearMode,
    pub ttl_secs: u32,
    pub timer_start: Option<i64>,
    pub read: bool,
}

/// Whether the message has a running timer: a mode other than `Never`, a nonzero lifetime and
/// a start time.
pub open spec fn timer_running(m: EphemeralMessage) -> bool {
    m.mode != DisappearMode::Never && m.ttl_secs != 0 && m.timer_start is Some
}

/// The expiry time of a message with a running timer.
pub open spec fn expiry(m: EphemeralMessage) -> int {
    m.timer_start->0 + m.ttl_secs
}

/// Expiry of a running timer fits a 64-bit time.
pub open spec fn expiry_fits(m: EphemeralMessage) -> bool {
    timer_running(m) ==> expiry(m) <= i64::MAX
}

/// Whether the message has expired at `now`: its timer runs and `now` has reached its expiry.
pub open spec fn is_expired_spec(m: EphemeralMessage, now: i64) -> bool {
    timer_running(m) && now >= expiry(m)
}

/// The seconds left at `now` while the timer runs (never below zero); `None` when it does not.
pub open spec fn remaining_spec(m: EphemeralMessage, now: i64) -> Option<int> {
    if timer_running(m) {
        Some(if expiry(m) - now > 0 { expiry(m) - now } else { 0 })
    } else {
        None
    }
}

impl EphemeralMessage {
    /// A new unread message; in `AfterSend` mode with a nonzero lifetime its timer starts at the
    /// message's send time, otherwise it has not started.
    pub fn new(encrypted: EncryptedMessage, mode: DisappearMode, ttl_secs: u32) -> (r: Self)
        ensures
            r.encrypted == encrypted,
            r.mode == mode,
            r.ttl_secs == ttl_secs,
            r.read == false,
            r.timer_start == (if mode == DisappearMode::AfterSend && ttl_secs > 0 {
                Some(encrypted.timestamp)
            } else {
                None
            }),
    {
        let timer_start = if mode == DisappearMode::AfterSend && ttl_secs > 0 {
            Some(encrypted.timestamp)
        } else {
            None
        };
        EphemeralMessage { encrypted, mode, ttl_secs, timer_start, read: false }
    }

    /// Marks the message read at `now`; the first time, an `AfterRead` message with a nonzero
    /// lifetime starts its timer at `now`. Marking again changes nothing.
    pub fn mark_read(&mut self, now: i64)
        ensures
            final(self).read,
            final(self).encrypted == old(self).encrypted,
            final(self).mode == old(self).mode,
            final(self).ttl_secs == old(self).ttl_secs,
            final(self).timer_start == (if !old(self).read && old(self).mode == DisappearMode::AfterRead
                && old(self).ttl_secs > 0 {
                Some(now)
            } else {
                old(self).timer_start
            }),
    {
        if !self.read {
            self.read = true;
            if self.mode == DisappearMode::AfterRead && self.ttl_secs > 0 {
                self.timer_start = Some(now);
            }
        }
    }

    /// Whether the message has expired at `now`.
    pub fn is_expired(&self, now: i64) -> (r: bool)
        requires
            expiry_fits(*self),
        ensures
            r == is_expired_spec(*self, now),
    {
        if self.mode == DisappearMode::Never || self.ttl_secs == 0 {
            return false;
        }
        match self.timer_start {
            Some(start) => now >= start + self.ttl_secs as i64,
            None => false,
        }
    }

    /// Seconds left at `now` (never below zero) while the timer runs; `None` when it does not.
    pub fn seconds_remaining(&self, now: i64) -> (r: Option<i64>)
        requires
            expiry_fits(*self),
            timer_running(*self) ==> expiry(*self) - now >= i64::MIN && expiry(*self) - now <= i64::MAX,
        ensures
            !timer_running(*self) ==> r is None,
            timer_running(*self) ==> r == Some(
                (if expiry(*self) - now > 0 {
                    expiry(*self) - now
                } else {
                    0
                }) as i64,
            ),
            r is None <==> remaining_spec(*self, now) is None,
            r matches Some(x) ==> remaining_spec(*self, now) == Some(x as int),
    {
        if self.mode == DisappearMode::Never || self.ttl_secs == 0 {
            return None;
        }
        let start = match self.timer_start {
            Some(s) => s,
            None => return None,
        };
        let left = start + self.ttl_secs as i64 - now;
        Some(if left > 0 { left } else { 0 })
    }
}

/// Keeps the messages that have not expired at `now`, in order.
pub fn sweep_expired(messages: Vec<EphemeralMessage>, now: i64) -> (r: Vec<EphemeralMessage>)
    requires
        forall|i: int| 0 <= i < messages@.len() ==> expiry_fits(#[trigger] messages@[i]),
    ensures
        r@ == messages@.filter(|m: EphemeralMessage| !is_expired_spec(m, now)),
{
    let ghost orig = messages@;
    let ghost keep = |m: EphemeralMessage| !is_expired_spec(m, now);
    let mut rest = messages;
    let mut out: Vec<EphemeralMessage> = Vec::new();
    let n = rest.len();
    let mut i: usize = 0;
    assert(orig.subrange(0, 0) =~= Seq::<EphemeralMessage>::empty());
    while i < n
        invariant
            n == orig.len(),
            i <= n,
            rest@ == orig.subrange(i as int, n as int),
            out@ == orig.subrange(0, i as int).filter(keep),
            forall|j: int| 0 <= j < orig.len() ==> expiry_fits(#[trigger] orig[j]),
            keep == (|m: EphemeralMessage| !is_expired_spec(m, now)),
        decreases n - i,
    {
        let m = rest.remove(0);
        assert(m == orig[i as int]);
        let expired = m.is_expired(now);
        proof {
            let s_next = orig.subrange(0, i + 1);
            assert(s_next.drop_last() =~= orig.subrange(0, i as int));
            assert(s_next.last() == orig[i as int]);
            reveal_with_fuel(Seq::<EphemeralMessage>::filter, 1);
            assert(expired == is_expired_spec(m, now));
            assert(keep(m) == !expired);
            assert(s_next.filter(keep) == (if keep(m) {
                orig.subrange(0, i as int).filter(keep).push(m)
            } else {
                orig.subrange(0, i as int).filter(keep)
            }));
        }
        if !expired {
            out.push(m);
        }
        i = i + 1;
        assert(rest@ =~= orig.subrange(i as int, n as int));
    }
    assert(orig.subrange(0, n as int) =~= orig);
    out
}


/// When a disappearing message expires. A message whose timer runs (its mode is not `Never`,
/// its lifetime is nonzero and its timer has started) is expired at `now` exactly when `now`
/// has reached its timer start plus its lifetime, whatever its mode: exactly when the seconds
/// remaining are zero. A message whose timer does not run never expires. Once expired, it stays
/// expired at every later time.
pub proof fn law_expiry(m: EphemeralMessage, now: i64, later: i64, mode: DisappearMode)
    ensures
        m.mode != DisappearMode::Never && m.ttl_secs != 0 && m.timer_start is Some ==> (is_expired_spec(m, now)
            <==> now >= m.timer_start->0 + m.ttl_secs),
        !(m.mode != DisappearMode::Never && m.ttl_secs != 0 && m.timer_start is Some) ==> !is_expired_spec(m, now),
        is_expired_spec(m, now) <==> remaining_spec(m, now) == Some(0int),
        now <= later && is_expired_spec(m, now) ==> is_expired_spec(m, later),
        m.mode != DisappearMode::Never && mode != DisappearMode::Never ==> is_expired_spec(m, now)
            == is_expired_spec(EphemeralMessage { mode: mode, ..m }, now),
{
}

} // verus!
