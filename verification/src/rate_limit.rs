//! The memory of the last wake-up of each service, which limits wake-ups
//! to one per address in every window of five seconds.

use vstd::prelude::*;
use crate::text::same_text;

verus! {

/// Length of the window in nanoseconds: five seconds.
pub const WINDOW_NANOS: u128 = 5_000_000_000;

/// One remembered call.
pub struct CallRecord {
    pub ip: String,
    /// Nanoseconds since the epoch.
    pub at: u128,
}

/// Some record is for `ip`.
pub open spec fn recorded(calls: Seq<CallRecord>, ip: Seq<char>) -> bool {
    exists|i: int| 0 <= i < calls.len() && (#[trigger] calls[i]).ip@ == ip
}

/// The position of the record for `ip`, where there is one.
pub open spec fn record_index(calls: Seq<CallRecord>, ip: Seq<char>) -> int {
    choose|i: int| 0 <= i < calls.len() && (#[trigger] calls[i]).ip@ == ip
}

/// No address has two records.
pub open spec fn one_record_each(calls: Seq<CallRecord>) -> bool {
    forall|i: int, j: int|
        0 <= i < j < calls.len() ==> (#[trigger] calls[i]).ip@ != (#[trigger] calls[j]).ip@
}

/// What a call for an address at `now` meets, given the time `last` of the
/// accepted call before it.
pub enum Admission {
    /// No earlier call, or one at least five seconds ago.
    Admitted,
    /// The earlier call is less than five seconds old.
    Limited,
    /// The earlier call lies after `now`: the clock went back.
    ClockWentBack,
}

/// The rule of the window.
pub open spec fn admission(last: Option<u128>, now: u128) -> Admission {
    match last {
        None => Admission::Admitted,
        Some(t) => if t > now {
            Admission::ClockWentBack
        } else if now - t < WINDOW_NANOS {
            Admission::Limited
        } else {
            Admission::Admitted
        },
    }
}

/// Decides on a call at `now` whose predecessor was at `last`.
pub fn decide_admission(last: Option<u128>, now: u128) -> (verdict: Admission)
    ensures
        verdict == admission(last, now),
{
    match last {
        None => Admission::Admitted,
        Some(t) => if t > now {
            Admission::ClockWentBack
        } else if now - t < WINDOW_NANOS {
            Admission::Limited
        } else {
            Admission::Admitted
        },
    }
}

/// Remembers, for each address, when its last wake-up was accepted.
pub struct RateLimiter {
    calls: Vec<CallRecord>,
}

impl View for RateLimiter {
    type V = Map<Seq<char>, u128>;

    closed spec fn view(&self) -> Map<Seq<char>, u128> {
        Map::new(
            |ip: Seq<char>| recorded(self.calls@, ip),
            |ip: Seq<char>| self.calls@[record_index(self.calls@, ip)].at,
        )
    }
}

/// The time of the last accepted call for `ip`.
pub open spec fn last_call(calls: Map<Seq<char>, u128>, ip: Seq<char>) -> Option<u128> {
    if calls.dom().contains(ip) {
        Some(calls[ip])
    } else {
        None
    }
}

impl RateLimiter {
    #[verifier::type_invariant]
    spec fn inv(self) -> bool {
        one_record_each(self.calls@)
    }

    /// A limiter that remembers no call.
    pub fn new() -> (limiter: RateLimiter)
        ensures
            limiter@ == Map::<Seq<char>, u128>::empty(),
    {
        let limiter = RateLimiter { calls: Vec::new() };
        assert(limiter@ =~= Map::<Seq<char>, u128>::empty());
        limiter
    }

    fn find(&self, ip: &str) -> (found: Option<usize>)
        ensures
            one_record_each(self.calls@),
            match found {
                Some(i) => i < self.calls@.len() && self.calls@[i as int].ip@ == ip@ && recorded(
                    self.calls@,
                    ip@,
                ) && record_index(self.calls@, ip@) == i,
                None => !recorded(self.calls@, ip@),
            },
    {
        proof {
            use_type_invariant(self);
        }
        let mut i: usize = 0;
        while i < self.calls.len()
            invariant
                i <= self.calls.len(),
                one_record_each(self.calls@),
                forall|k: int| 0 <= k < i ==> (#[trigger] self.calls@[k]).ip@ != ip@,
            decreases self.calls.len() - i,
        {
            if same_text(self.calls[i].ip.as_str(), ip) {
                proof {
                    let j = record_index(self.calls@, ip@);
                    assert(self.calls@[i as int].ip@ == ip@);
                    if j < i {
                        assert(self.calls@[j].ip@ != self.calls@[i as int].ip@);
                    } else if i < j {
                        assert(self.calls@[i as int].ip@ != self.calls@[j].ip@);
                    }
                }
                return Some(i);
            }
            i += 1;
        }
        None
    }

    /// When the last call for `ip` was accepted, if ever.
    pub fn last_called(&self, ip: &str) -> (last: Option<u128>)
        ensures
            last == last_call(self@, ip@),
    {
        match self.find(ip) {
            Some(i) => Some(self.calls[i].at),
            None => None,
        }
    }

    /// Remembers a call for `ip` at `now`, replacing the earlier one.
    pub fn record(&mut self, ip: &str, now: u128)
        ensures
            final(self)@ == old(self)@.insert(ip@, now),
    {
        let found = self.find(ip);
        let ghost before = self.calls@;
        let mut calls: Vec<CallRecord> = Vec::new();
        std::mem::swap(&mut self.calls, &mut calls);
        match found {
            Some(i) => {
                calls[i].at = now;
                proof {
                    assert(calls@[i as int].ip@ == ip@);
                    assert forall|k: int| 0 <= k < calls@.len() implies (#[trigger] calls@[k]).ip@
                        == before[k].ip@ by {}
                }
            },
            None => {
                calls.push(CallRecord { ip: ip.to_owned(), at: now });
                proof {
                    assert forall|k: int| 0 <= k < before.len() implies (#[trigger] calls@[k])
                        == before[k] by {}
                }
            },
        }
        proof {
            assert(one_record_each(calls@));
        }
        std::mem::swap(&mut self.calls, &mut calls);
        proof {
            let after = self.calls@;
            assert forall|k: Seq<char>| recorded(after, k) == (recorded(before, k) || k
                == ip@) by {
                if recorded(before, k) {
                    let j = record_index(before, k);
                    assert(after[j].ip@ == k);
                }
                if k == ip@ {
                    match found {
                        Some(i) => {
                            assert(after[i as int].ip@ == k);
                        },
                        None => {
                            assert(after[before.len() as int].ip@ == k);
                        },
                    }
                }
                if recorded(after, k) && k != ip@ {
                    let j = record_index(after, k);
                    assert(before[j].ip@ == k);
                }
            }
            assert forall|k: Seq<char>| recorded(after, k) implies after[record_index(after, k)].at
                == (if k == ip@ {
                now
            } else {
                before[record_index(before, k)].at
            }) by {
                let j = record_index(after, k);
                if k == ip@ {
                    match found {
                        Some(i) => {
                            if j != i as int {
                                if j < i {
                                    assert(after[j].ip@ != after[i as int].ip@);
                                } else {
                                    assert(after[i as int].ip@ != after[j].ip@);
                                }
                            }
                        },
                        None => {
                            if j < before.len() {
                                assert(before[j].ip@ == k);
                            }
                        },
                    }
                } else {
                    assert(before[j].ip@ == k);
                    let j2 = record_index(before, k);
                    if j2 < j {
                        assert(before[j2].ip@ != before[j].ip@);
                    } else if j < j2 {
                        assert(before[j].ip@ != before[j2].ip@);
                    }
                }
            }
            assert(self@ =~= old(self)@.insert(ip@, now));
        }
    }
}

} // verus!
