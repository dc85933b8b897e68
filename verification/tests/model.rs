//! The runtime data model: value maps, vats and entity creation.

use pleroma::ast::Hvalue;
use pleroma::monad::{entity_defaults, Monad};
use pleroma::multitasking::{allocate_stack, Scheduler};
use pleroma::node::Node;
use pleroma::pbin::load_entity_data_table;
use pleroma::sem::ScopeTree;
use pleroma::vm_core::{EntityAddress, Promise, ValMap, Vat};
use pleroma::zeno::{ZenoInfra, ZenoSupra};

#[test]
fn val_map_inserts_and_overwrites() {
    let mut m = ValMap::new();
    assert!(m.get(&String::from("x")).is_none());
    m.set(&String::from("x"), Hvalue::Hu8(1));
    m.set(&String::from("y"), Hvalue::Hu8(2));
    m.set(&String::from("x"), Hvalue::Hu8(3));
    assert!(matches!(m.get(&String::from("x")), Some(Hvalue::Hu8(3))));
    assert!(matches!(m.get(&String::from("y")), Some(Hvalue::Hu8(2))));
    assert_eq!(m.entries.len(), 2);
}

#[test]
fn entity_creation_assigns_dense_ids_and_self() {
    let mut vat = Vat::new(4, Vec::new());
    let a = vat.create_entity_code(0, 0, &ValMap::new());
    let b = vat.create_entity_code(1, 0, &ValMap::new());
    assert_eq!(a.entity_id, 0);
    assert_eq!(b.entity_id, 1);
    assert_eq!(b.vat_id, 4);
    let ent = &vat.entities[1];
    match ent.data.get(&String::from("self")) {
        Some(Hvalue::EntityAddress(addr)) => {
            assert_eq!(*addr, EntityAddress::new(0, 4, 1));
        },
        other => panic!("self binding missing: {:?}", other),
    }
}

#[test]
fn promise_records_start_unresolved() {
    let p = Promise::new(Some(3), Some(EntityAddress::new(0, 1, 2)));
    assert!(!p.resolved);
    assert!(p.on_resolve.is_empty());
    assert_eq!(p.src_promise, Some(3));
}

#[test]
fn vat_send_msg_queues_the_bootstrap_request() {
    let mut vat = Vat::new(0, Vec::new());
    vat.send_msg(5);
    assert_eq!(vat.outbox.len(), 1);
    assert_eq!(vat.outbox[0].dst_address.vat_id, 5);
}

#[test]
fn monad_boots_a_vat_with_its_defaults() {
    let m = Monad::new();
    assert_eq!(m.def.name, "Monad");
    // a module whose data table binds field "limit" of entity 0 to byte 9
    let module = vec![1u8, 0, b'l', b'i', b'm', b'i', b't', 0, 0x01, 9];
    let mut loc = 0usize;
    let entries = load_entity_data_table(&mut loc, &module).unwrap();
    let defaults = entity_defaults(&entries, 0);
    assert!(matches!(defaults.get(&String::from("limit")), Some(Hvalue::Hu8(9))));
    let vat = pleroma::monad::load_monad(module).unwrap();
    assert_eq!(vat.vat_id, 1);
    assert_eq!(vat.entities.len(), 1);
    assert!(matches!(
        vat.entities[0].data.get(&String::from("limit")),
        Some(Hvalue::Hu8(9))
    ));
}

#[test]
fn scope_tree_finds_only_its_own_symbols() {
    let mut scope = ScopeTree::new(None);
    assert!(scope.find_symbol(&String::from("a")).is_none());
    scope.symbols.push((String::from("a"), pleroma::ast::AstNode::Error));
    assert!(scope.find_symbol(&String::from("a")).is_some());
    assert!(scope.find_symbol(&String::from("b")).is_none());
}

#[test]
fn scheduler_assigns_fresh_pids() {
    let mut s = Scheduler::new();
    s.new_process(100, 64);
    s.new_process(200, 64);
    assert_eq!(s.process_queue.len(), 2);
    assert_eq!(s.process_queue[0].pid, 1);
    assert_eq!(s.process_queue[1].pid, 2);
    assert_eq!(s.process_queue[1].ip, 200);
    let stack = allocate_stack(16);
    assert_eq!(stack.len(), 16);
    assert!(stack.iter().all(|b| *b == 0));
}

#[test]
fn file_service_stubs_answer_empty() {
    let r = ZenoSupra::checkout(&pleroma::ast::AstNode::Error);
    assert!(matches!(r, Hvalue::HNone));
    let r2 = ZenoInfra::read_chunk(&pleroma::ast::AstNode::Error);
    assert!(matches!(r2, Hvalue::HNone));
    let n = Node::new();
    assert!(n.vats.is_empty() && n.code.is_empty());
}
