//! Pacing of a replay against the high-water mark.
//!
//! The replay counts the messages it has sent. When the count reaches the
//! high-water mark it pauses for a fixed cool-down and starts counting again
//! from zero.

use vstd::arithmetic::div_mod::{lemma_fundamental_div_mod, lemma_mod_pos_bound};
use vstd::prelude::*;

verus! {

/// The high-water mark used when neither the command line nor the transport
/// names one.
pub const DEFAULT_HWM: i32 = 1000;

/// How long a pause lasts, in milliseconds.
pub const COOL_DOWN_MS: u64 = 100;

/// The high-water mark that paces a replay: the one given on the command
/// line; without it the transport's own; without that `DEFAULT_HWM`.
pub open spec fn resolved_hwm(flag: Option<i32>, transport: Option<i32>) -> i32 {
    match flag {
        Some(hwm) => hwm,
        None => match transport {
            Some(hwm) => hwm,
            None => DEFAULT_HWM,
        },
    }
}

/// Chooses the high-water mark that paces a replay.
///
/// `flag` is the value given on the command line, `transport` the socket's
/// current send-side mark, if it could be read.
pub fn resolve_hwm(flag: Option<i32>, transport: Option<i32>) -> (hwm: i32)
    ensures
        hwm == resolved_hwm(flag, transport),
{
    match flag {
        Some(hwm) => hwm,
        None => match transport {
            Some(hwm) => hwm,
            None => DEFAULT_HWM,
        },
    }
}

/// One step of the counter: the count after the step, and whether the replay
/// pauses. `sent` tells whether the step sent a message.
pub open spec fn tick(hwm: int, count: int, sent: bool) -> (int, bool) {
    let reached = if sent {
        count + 1
    } else {
        count
    };
    if reached >= hwm {
        (0, true)
    } else {
        (reached, false)
    }
}

/// The count after `sends` messages sent in a row, starting from zero.
pub open spec fn count_after(hwm: int, sends: nat) -> int
    decreases sends,
{
    if sends == 0 {
        0
    } else {
        tick(hwm, count_after(hwm, (sends - 1) as nat), true).0
    }
}

/// Whether the replay pauses right after the message number `sends`, counted
/// from one.
pub open spec fn pauses_after(hwm: int, sends: nat) -> bool {
    sends >= 1 && tick(hwm, count_after(hwm, (sends - 1) as nat), true).1
}

/// The counter of outstanding sends.
#[derive(Debug)]
pub struct Throttle {
    hwm: i32,
    count: i32,
}

impl Throttle {
    #[verifier::type_invariant]
    spec fn inv(self) -> bool {
        &&& 0 <= self.count
        &&& self.hwm >= 1 ==> self.count < self.hwm
        &&& self.hwm < 1 ==> self.count == 0
    }

    /// The high-water mark.
    pub closed spec fn hwm(self) -> int {
        self.hwm as int
    }

    /// The messages sent since the last pause.
    pub closed spec fn count(self) -> int {
        self.count as int
    }

    /// A counter at zero.
    pub fn new(hwm: i32) -> (throttle: Self)
        ensures
            throttle.hwm() == hwm,
            throttle.count() == 0,
    {
        Throttle { hwm, count: 0 }
    }

    /// The high-water mark.
    pub fn high_water_mark(&self) -> (hwm: i32)
        ensures
            hwm == self.hwm(),
    {
        self.hwm
    }

    /// The messages sent since the last pause.
    pub fn outstanding(&self) -> (count: i32)
        ensures
            count == self.count(),
            0 <= count,
            self.hwm() >= 1 ==> count < self.hwm(),
    {
        proof {
            use_type_invariant(self);
        }
        self.count
    }

    /// Counts one step of the replay and tells whether to pause after it.
    ///
    /// A step that sent a message adds one to the count. If the count has then
    /// reached the high-water mark, the replay pauses and the count goes back
    /// to zero.
    pub fn step(&mut self, sent: bool) -> (pause: bool)
        ensures
            final(self).hwm() == old(self).hwm(),
            final(self).count() == tick(old(self).hwm(), old(self).count(), sent).0,
            pause == tick(old(self).hwm(), old(self).count(), sent).1,
    {
        proof {
            use_type_invariant(&*self);
        }
        let reached: i32 = if sent {
            self.count + 1
        } else {
            self.count
        };
        if reached >= self.hwm {
            self.count = 0;
            true
        } else {
            self.count = reached;
            false
        }
    }
}

/// The count after `q` full rounds of `hwm` messages and `r` more.
proof fn lemma_count_after_rounds(hwm: int, q: nat, r: nat)
    requires
        hwm >= 1,
        r < hwm,
    ensures
        count_after(hwm, (q * hwm + r) as nat) == r,
    decreases q, r,
{
    if r > 0 {
        lemma_count_after_rounds(hwm, q, (r - 1) as nat);
        assert((q * hwm + r - 1) as nat == (q * hwm + (r - 1)) as nat);
    } else if q > 0 {
        assert((q - 1) * hwm + (hwm - 1) == q * hwm - 1) by (nonlinear_arith);
        assert(q * hwm >= 1) by (nonlinear_arith)
            requires
                q >= 1,
                hwm >= 1,
        ;
        lemma_count_after_rounds(hwm, (q - 1) as nat, (hwm - 1) as nat);
        assert(((q - 1) as nat * hwm + (hwm - 1) as nat) as nat == (q * hwm + r - 1) as nat);
    } else {
        assert(q * hwm == 0) by (nonlinear_arith)
            requires
                q == 0,
        ;
    }
}

/// With a high-water mark of `hwm >= 1`, the replay pauses after every
/// `hwm`-th message that it sends, and only then.
///
/// After `sends` messages the count is `sends % hwm`. The replay pauses right
/// after a message exactly if the number of messages sent is then a multiple
/// of `hwm`, so before message `hwm + 1` can be sent, and the count is zero
/// after every pause.
pub proof fn lemma_pause_every_hwm_sends(hwm: int, sends: nat)
    requires
        hwm >= 1,
    ensures
        count_after(hwm, sends) == sends % (hwm as nat),
        sends >= 1 ==> (pauses_after(hwm, sends) <==> sends % (hwm as nat) == 0),
        pauses_after(hwm, sends) ==> count_after(hwm, sends) == 0,
{
    let q = sends as int / hwm;
    let r = sends as int % hwm;
    lemma_fundamental_div_mod(sends as int, hwm);
    lemma_mod_pos_bound(sends as int, hwm);
    assert(sends == hwm * q + r);
    assert(q >= 0) by (nonlinear_arith)
        requires
            sends == hwm * q + r,
            hwm >= 1,
            0 <= r < hwm,
            sends >= 0,
    ;
    assert(hwm * q == q * hwm) by (nonlinear_arith);
    lemma_count_after_rounds(hwm, q as nat, r as nat);
    assert((q as nat * hwm + r as nat) as nat == sends);
    if sends >= 1 {
        let before = (sends - 1) as nat;
        let qb = before as int / hwm;
        let rb = before as int % hwm;
        lemma_fundamental_div_mod(before as int, hwm);
        lemma_mod_pos_bound(before as int, hwm);
        assert(qb >= 0) by (nonlinear_arith)
            requires
                before == hwm * qb + rb,
                hwm >= 1,
                0 <= rb < hwm,
                before >= 0,
        ;
        assert(hwm * qb == qb * hwm) by (nonlinear_arith);
        lemma_count_after_rounds(hwm, qb as nat, rb as nat);
        assert((qb as nat * hwm + rb as nat) as nat == before);
        assert(count_after(hwm, before) == rb);
        assert(count_after(hwm, sends) == tick(hwm, rb, true).0);
    }
}

/// One more message after `sends` of them: the count goes from `sends % hwm`
/// to `(sends + 1) % hwm`, and the replay pauses exactly if that is zero.
pub proof fn lemma_next_send(hwm: int, sends: nat)
    requires
        hwm >= 1,
    ensures
        tick(hwm, (sends % (hwm as nat)) as int, true) == (
            ((sends + 1) % (hwm as nat)) as int,
            (sends + 1) % (hwm as nat) == 0,
        ),
{
    lemma_pause_every_hwm_sends(hwm, sends);
    lemma_pause_every_hwm_sends(hwm, sends + 1);
    assert(count_after(hwm, sends + 1) == tick(hwm, count_after(hwm, sends), true).0);
    assert(pauses_after(hwm, sends + 1) == tick(hwm, count_after(hwm, sends), true).1);
}

/// A step that sends nothing neither pauses nor changes the count, as long as
/// the high-water mark is at least one.
pub proof fn lemma_idle_step_keeps_count(hwm: int, count: int)
    requires
        hwm >= 1,
        0 <= count < hwm,
    ensures
        tick(hwm, count, false) == (count, false),
{
}

} // verus!
