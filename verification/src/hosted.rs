//! The routing core of the hosted runtime: one router owns the per-vat
//! mailboxes and the sleeping-vat set, and decides which vat runs next. The
//! host wraps this in its channels and worker threads; every decision is
//! taken here.

use vstd::prelude::*;
use crate::vm_core::{Msg, Vat};

verus! {

/// Routing failed: a message or vat referenced a vat id the router has no
/// mailbox for.
#[derive(Debug, Clone, Copy, PartialEq, Eq, Structural)]
pub enum RouteError {
    UnknownVat,
}

/// The index of the first sleeping vat with the given id, or -1.
pub open spec fn find_sleeping(s: Seq<Vat>, vat_id: u32) -> int
    decreases s.len(),
{
    if s.len() == 0 {
        -1
    } else if s[0].vat_id == vat_id {
        0
    } else if find_sleeping(s.drop_first(), vat_id) == -1 {
        -1
    } else {
        1 + find_sleeping(s.drop_first(), vat_id)
    }
}

pub proof fn lemma_find_sleeping(s: Seq<Vat>, vat_id: u32)
    ensures
        find_sleeping(s, vat_id) == -1 ==> forall|i: int| 0 <= i < s.len() ==> s[i].vat_id
            != vat_id,
        find_sleeping(s, vat_id) != -1 ==> 0 <= find_sleeping(s, vat_id) < s.len()
            && s[find_sleeping(s, vat_id)].vat_id == vat_id && (forall|i: int|
            0 <= i < find_sleeping(s, vat_id) ==> s[i].vat_id != vat_id),
    decreases s.len(),
{
    if s.len() > 0 && s[0].vat_id != vat_id {
        lemma_find_sleeping(s.drop_first(), vat_id);
        if find_sleeping(s, vat_id) == -1 {
            assert forall|i: int| 0 <= i < s.len() implies s[i].vat_id != vat_id by {
                if i > 0 {
                    assert(s.drop_first()[i - 1].vat_id != vat_id);
                }
            }
        } else {
            assert forall|i: int| 0 <= i < find_sleeping(s, vat_id) implies s[i].vat_id != vat_id
                by {
                if i > 0 {
                    assert(s.drop_first()[i - 1].vat_id != vat_id);
                }
            }
        }
    }
}

/// The index of the mailbox for the given vat id, or -1.
pub open spec fn find_inbox(s: Seq<(u32, Vec<Msg>)>, vat_id: u32) -> int
    decreases s.len(),
{
    if s.len() == 0 {
        -1
    } else if s[0].0 == vat_id {
        0
    } else if find_inbox(s.drop_first(), vat_id) == -1 {
        -1
    } else {
        1 + find_inbox(s.drop_first(), vat_id)
    }
}

pub proof fn lemma_find_inbox(s: Seq<(u32, Vec<Msg>)>, vat_id: u32)
    ensures
        find_inbox(s, vat_id) == -1 ==> forall|i: int| 0 <= i < s.len() ==> s[i].0 != vat_id,
        find_inbox(s, vat_id) != -1 ==> 0 <= find_inbox(s, vat_id) < s.len()
            && s[find_inbox(s, vat_id)].0 == vat_id && (forall|i: int|
            0 <= i < find_inbox(s, vat_id) ==> s[i].0 != vat_id),
    decreases s.len(),
{
    if s.len() > 0 && s[0].0 != vat_id {
        lemma_find_inbox(s.drop_first(), vat_id);
        if find_inbox(s, vat_id) == -1 {
            assert forall|i: int| 0 <= i < s.len() implies s[i].0 != vat_id by {
                if i > 0 {
                    assert(s.drop_first()[i - 1].0 != vat_id);
                }
            }
        } else {
            assert forall|i: int| 0 <= i < find_inbox(s, vat_id) implies s[i].0 != vat_id by {
                if i > 0 {
                    assert(s.drop_first()[i - 1].0 != vat_id);
                }
            }
        }
    }
}

/// The shared routing state: one queued-mail list per vat and the set of
/// parked vats. The single routing loop owns it; nothing else mutates it.
pub struct Router {
    pub vat_inboxes: Vec<(u32, Vec<Msg>)>,
    pub sleeping_vats: Vec<Vat>,
}

impl Router {
    pub fn new() -> (r: Router)
        ensures
            r.vat_inboxes@.len() == 0,
            r.sleeping_vats@.len() == 0,
    {
        Router { vat_inboxes: Vec::new(), sleeping_vats: Vec::new() }
    }

    /// Registers a mailbox for a vat id.
    pub fn add_vat_inbox(&mut self, vat_id: u32)
        ensures
            final(self).vat_inboxes@.len() == old(self).vat_inboxes@.len() + 1,
            final(self).vat_inboxes@.subrange(0, old(self).vat_inboxes@.len() as int) == old(
                self,
            ).vat_inboxes@,
            final(self).vat_inboxes@.last().0 == vat_id,
            final(self).vat_inboxes@.last().1@.len() == 0,
            final(self).sleeping_vats == old(self).sleeping_vats,
    {
        self.vat_inboxes.push((vat_id, Vec::new()));
        proof {
            assert(self.vat_inboxes@.subrange(0, old(self).vat_inboxes@.len() as int) =~= old(
                self,
            ).vat_inboxes@);
        }
    }

    /// Sleep/wake, delivery half: an incoming message is queued into its
    /// destination vat's mailbox; if that vat is sleeping, it leaves the
    /// sleeping set — exactly one vat, returned for re-enqueueing, exactly
    /// once.
    pub fn triage_msg(&mut self, msg: Msg) -> (r: Result<Option<Vat>, RouteError>)
        ensures
            match r {
                Result::Ok(woken) => {
                    let si = find_sleeping(old(self).sleeping_vats@, msg.dst_address.vat_id);
                    let bi = find_inbox(old(self).vat_inboxes@, msg.dst_address.vat_id);
                    &&& bi != -1
                    &&& (woken is Some <==> si != -1)
                    &&& (si != -1 ==> woken == Option::Some(old(self).sleeping_vats@[si])
                        && final(self).sleeping_vats@ == old(self).sleeping_vats@.remove(si))
                    &&& (si == -1 ==> final(self).sleeping_vats == old(self).sleeping_vats)
                    &&& final(self).vat_inboxes@ == old(self).vat_inboxes@.update(
                        bi,
                        (old(self).vat_inboxes@[bi].0, final(self).vat_inboxes@[bi].1),
                    )
                    &&& final(self).vat_inboxes@[bi].1@ == old(self).vat_inboxes@[bi].1@.push(msg)
                },
                Result::Err(e) => e == RouteError::UnknownVat && find_inbox(
                    old(self).vat_inboxes@,
                    msg.dst_address.vat_id,
                ) == -1,
            },
    {
        let dst = msg.dst_address.vat_id;
        proof {
            lemma_find_inbox(self.vat_inboxes@, dst);
            lemma_find_sleeping(self.sleeping_vats@, dst);
        }
        let nb = self.vat_inboxes.len();
        let mut bi: usize = 0;
        let mut found_b = false;
        while bi < nb && !found_b
            invariant
                0 <= bi <= nb,
                nb == self.vat_inboxes@.len(),
                self == old(self),
                dst == msg.dst_address.vat_id,
                !found_b ==> forall|j: int| 0 <= j < bi ==> self.vat_inboxes@[j].0
                    != msg.dst_address.vat_id,
                found_b ==> bi > 0 && self.vat_inboxes@[bi - 1].0 == msg.dst_address.vat_id && (
                forall|j: int| 0 <= j < bi - 1 ==> self.vat_inboxes@[j].0
                    != msg.dst_address.vat_id),
            decreases nb - bi,
        {
            if self.vat_inboxes[bi].0 == dst {
                found_b = true;
            }
            bi = bi + 1;
        }
        if !found_b {
            return Result::Err(RouteError::UnknownVat);
        }
        let bidx = bi - 1;
        proof {
            assert(find_inbox(self.vat_inboxes@, dst) == bidx as int) by {
                lemma_find_inbox(self.vat_inboxes@, dst);
            }
        }
        // wake a sleeping destination vat
        let ns = self.sleeping_vats.len();
        let mut si: usize = 0;
        let mut found_s = false;
        while si < ns && !found_s
            invariant
                0 <= si <= ns,
                ns == self.sleeping_vats@.len(),
                self == old(self),
                dst == msg.dst_address.vat_id,
                !found_s ==> forall|j: int| 0 <= j < si ==> self.sleeping_vats@[j].vat_id
                    != msg.dst_address.vat_id,
                found_s ==> si > 0 && self.sleeping_vats@[si - 1].vat_id == msg.dst_address.vat_id
                    && (forall|j: int| 0 <= j < si - 1 ==> self.sleeping_vats@[j].vat_id
                    != msg.dst_address.vat_id),
            decreases ns - si,
        {
            if self.sleeping_vats[si].vat_id == dst {
                found_s = true;
            }
            si = si + 1;
        }
        let woken: Option<Vat> = if found_s {
            let sidx = si - 1;
            proof {
                assert(find_sleeping(self.sleeping_vats@, dst) == sidx as int) by {
                    lemma_find_sleeping(self.sleeping_vats@, dst);
                }
            }
            let vtr = self.sleeping_vats.remove(sidx);
            Option::Some(vtr)
        } else {
            proof {
                lemma_find_sleeping(old(self).sleeping_vats@, dst);
            }
            Option::None
        };
        let ghost pre_boxes = self.vat_inboxes@;
        let mut entry = self.vat_inboxes.remove(bidx);
        entry.1.push(msg);
        self.vat_inboxes.insert(bidx, entry);
        proof {
            crate::vm_core::lemma_remove_insert_is_update(
                pre_boxes,
                bidx as int,
                self.vat_inboxes@[bidx as int],
            );
        }
        Result::Ok(woken)
    }

    /// Sleep/wake, parking half: a vat whose mailbox is empty is parked in
    /// the sleeping set; otherwise the queued mail moves into the vat's
    /// inbox, its outbox becomes the new queue, and the vat is handed back
    /// for the worker pool.
    pub fn deliver_mail(&mut self, cv: Vat) -> (r: Result<Option<Vat>, RouteError>)
        ensures
            match r {
                Result::Ok(out) => {
                    let bi = find_inbox(old(self).vat_inboxes@, cv.vat_id);
                    let parked = old(self).vat_inboxes@[bi].1@.len() == 0;
                    &&& bi != -1
                    &&& (parked ==> out is None)
                    &&& (parked ==> final(self).sleeping_vats@ == old(self).sleeping_vats@.push(cv))
                    &&& (parked ==> final(self).vat_inboxes == old(self).vat_inboxes)
                    &&& (!parked ==> (out matches Some(v2) && ({
                        &&& v2.vat_id == cv.vat_id
                        &&& v2.inbox@ == cv.inbox@ + old(self).vat_inboxes@[bi].1@
                        &&& v2.outbox@.len() == 0
                        &&& v2.entities == cv.entities
                        &&& v2.op_stack == cv.op_stack
                        &&& v2.call_stack == cv.call_stack
                        &&& v2.promise_stack == cv.promise_stack
                        &&& v2.code == cv.code
                    })))
                    &&& (!parked ==> final(self).sleeping_vats == old(self).sleeping_vats)
                    &&& (!parked ==> final(self).vat_inboxes@ == old(self).vat_inboxes@.update(
                        bi,
                        (cv.vat_id, final(self).vat_inboxes@[bi].1),
                    ))
                    &&& (!parked ==> final(self).vat_inboxes@[bi].1@ == cv.outbox@)
                },
                Result::Err(e) => e == RouteError::UnknownVat && find_inbox(
                    old(self).vat_inboxes@,
                    cv.vat_id,
                ) == -1,
            },
    {
        let vid = cv.vat_id;
        let nb = self.vat_inboxes.len();
        let mut bi: usize = 0;
        let mut found_b = false;
        while bi < nb && !found_b
            invariant
                0 <= bi <= nb,
                nb == self.vat_inboxes@.len(),
                self == old(self),
                vid == cv.vat_id,
                !found_b ==> forall|j: int| 0 <= j < bi ==> self.vat_inboxes@[j].0 != cv.vat_id,
                found_b ==> bi > 0 && self.vat_inboxes@[bi - 1].0 == cv.vat_id && (forall|j: int|
                    0 <= j < bi - 1 ==> self.vat_inboxes@[j].0 != cv.vat_id),
            decreases nb - bi,
        {
            if self.vat_inboxes[bi].0 == vid {
                found_b = true;
            }
            bi = bi + 1;
        }
        if !found_b {
            proof {
                lemma_find_inbox(self.vat_inboxes@, vid);
            }
            return Result::Err(RouteError::UnknownVat);
        }
        let bidx = bi - 1;
        proof {
            assert(find_inbox(self.vat_inboxes@, vid) == bidx as int) by {
                lemma_find_inbox(self.vat_inboxes@, vid);
            }
        }
        let mut cur = cv;
        if self.vat_inboxes[bidx].1.len() == 0 {
            self.sleeping_vats.push(cur);
            proof {
                assert(self.sleeping_vats@ =~= old(self).sleeping_vats@.push(
                    self.sleeping_vats@.last(),
                ));
            }
            return Result::Ok(Option::None);
        }
        let ghost pre_boxes = self.vat_inboxes@;
        let mut entry = self.vat_inboxes.remove(bidx);
        let mut queued: Vec<Msg> = Vec::new();
        core::mem::swap(&mut queued, &mut entry.1);
        core::mem::swap(&mut entry.1, &mut cur.outbox);
        cur.inbox.append(&mut queued);
        self.vat_inboxes.insert(bidx, entry);
        proof {
            crate::vm_core::lemma_remove_insert_is_update(
                pre_boxes,
                bidx as int,
                self.vat_inboxes@[bidx as int],
            );
        }
        Result::Ok(Option::Some(cur))
    }
}

} // verus!
