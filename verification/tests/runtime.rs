//! The routing core: parking, waking and mailbox delivery.

use pleroma::ast::Hvalue;
use pleroma::hosted::{RouteError, Router};
use pleroma::vm_core::{EntityAddress, Msg, MsgContents, Vat};

fn note(to_vat: u32) -> Msg {
    Msg {
        src_address: EntityAddress::new(0, 0, 0),
        dst_address: EntityAddress::new(0, to_vat, 0),
        contents: MsgContents::Response { result: Hvalue::Hu8(1), dst_promise: None },
    }
}

#[test]
fn sleep_then_wake_exactly_once() {
    let mut router = Router::new();
    router.add_vat_inbox(7);
    let vat = Vat::new(7, Vec::new());
    // an empty mailbox parks the vat
    let parked = router.deliver_mail(vat).unwrap();
    assert!(parked.is_none());
    assert_eq!(router.sleeping_vats.len(), 1);
    // the next addressed message removes it and hands it back, once
    let woken = router.triage_msg(note(7)).unwrap();
    let woken = woken.expect("the sleeping vat wakes");
    assert_eq!(woken.vat_id, 7);
    assert_eq!(router.sleeping_vats.len(), 0);
    // a further message to the same vat wakes nothing more
    let again = router.triage_msg(note(7)).unwrap();
    assert!(again.is_none());
    // the queued mail moves into the vat's inbox on the next delivery
    let ran = router.deliver_mail(woken).unwrap().expect("mail is waiting");
    assert_eq!(ran.inbox.len(), 2);
    assert_eq!(ran.outbox.len(), 0);
}

#[test]
fn outbox_traffic_swaps_into_the_queue() {
    let mut router = Router::new();
    router.add_vat_inbox(3);
    assert!(router.triage_msg(note(3)).unwrap().is_none());
    let mut vat = Vat::new(3, Vec::new());
    vat.outbox.push(note(9));
    let ran = router.deliver_mail(vat).unwrap().unwrap();
    assert_eq!(ran.inbox.len(), 1);
    assert_eq!(ran.outbox.len(), 0);
    // the vat's outgoing mail became the new queued mail for vat 3
    assert_eq!(router.vat_inboxes[0].1.len(), 1);
    assert_eq!(router.vat_inboxes[0].1[0].dst_address.vat_id, 9);
}

#[test]
fn unknown_vat_is_a_routing_error() {
    let mut router = Router::new();
    assert_eq!(router.triage_msg(note(1)).unwrap_err(), RouteError::UnknownVat);
    let vat = Vat::new(2, Vec::new());
    assert_eq!(router.deliver_mail(vat).unwrap_err(), RouteError::UnknownVat);
}
