//! Receiving-side runner scenarios: register, write, close, discard, the
//! injected failure paths, and caller-contract violations.

use snap_transfer::msg::{RaftMsg, SnapDescriptor, SnapEntry, SnapKey};
use snap_transfer::registry::Registry;
use snap_transfer::runner::{Action, IoVerdict, Runner, Task};
use snap_transfer::store::SnapStore;

fn key(region_id: u64, term: u64, idx: u64) -> SnapKey {
    SnapKey { region_id, term, idx }
}

fn msg_for(region_id: u64, term: u64, idx: u64) -> RaftMsg {
    RaftMsg {
        descriptor: Some(SnapDescriptor { region_id, term, idx }),
        meta: vec![0xAA, 0xBB],
    }
}

fn malformed_msg() -> RaftMsg {
    RaftMsg { descriptor: None, meta: vec![] }
}

fn all_ok() -> IoVerdict {
    IoVerdict { acquire_ok: true, write_ok: true, save_ok: true }
}

#[test]
fn receive_round_trip_commits_the_concatenation() {
    let k = key(1, 5, 10);
    let mut runner = Runner::new();
    let mut reg = Registry::new();
    let mut store = SnapStore::new();
    let m = msg_for(1, 5, 10);

    let out = runner.run(&mut reg, &mut store, Task::Register(7, m.clone()), all_ok());
    assert!(out.is_empty());
    assert!(reg.contains(k, SnapEntry::Receiving));
    assert!(runner.has_token(7));

    let out = runner.run(&mut reg, &mut store, Task::Write(7, b"abc".to_vec()), all_ok());
    assert!(out.is_empty());
    let out = runner.run(&mut reg, &mut store, Task::Write(7, b"def".to_vec()), all_ok());
    assert!(out.is_empty());

    let out = runner.run(&mut reg, &mut store, Task::Close(7), all_ok());
    assert_eq!(out, vec![Action::Forward(m), Action::CloseConn(7)]);
    assert_eq!(store.read(k).expect("file committed"), b"abcdef".to_vec());
    assert!(!reg.contains(k, SnapEntry::Receiving));
    assert!(!runner.has_token(7));
}

#[test]
fn round_trip_is_independent_of_write_boundaries() {
    let k = key(2, 1, 1);
    for cuts in [vec![b"abcdef".to_vec()], vec![b"a".to_vec(), b"bcde".to_vec(), b"f".to_vec()]] {
        let mut runner = Runner::new();
        let mut reg = Registry::new();
        let mut store = SnapStore::new();
        runner.run(&mut reg, &mut store, Task::Register(3, msg_for(2, 1, 1)), all_ok());
        for c in cuts {
            runner.run(&mut reg, &mut store, Task::Write(3, c), all_ok());
        }
        runner.run(&mut reg, &mut store, Task::Close(3), all_ok());
        assert_eq!(store.read(k).expect("file committed"), b"abcdef".to_vec());
    }
}

#[test]
fn discard_leaves_nothing_behind() {
    let k2 = key(9, 2, 2);
    let mut runner = Runner::new();
    let mut reg = Registry::new();
    let mut store = SnapStore::new();
    runner.run(&mut reg, &mut store, Task::Register(9, msg_for(9, 2, 2)), all_ok());
    runner.run(&mut reg, &mut store, Task::Write(9, b"partial".to_vec()), all_ok());
    let out = runner.run(&mut reg, &mut store, Task::Discard(9), all_ok());
    assert!(out.is_empty());
    assert!(!store.has(k2));
    assert!(!reg.contains(k2, SnapEntry::Receiving));
    assert!(!runner.has_token(9));
}

#[test]
fn existing_complete_file_skips_receiving() {
    let k = key(4, 4, 4);
    let mut runner = Runner::new();
    let mut reg = Registry::new();
    let mut store = SnapStore::new();
    store.save(k, b"already here".to_vec());
    let m = msg_for(4, 4, 4);
    let out = runner.run(&mut reg, &mut store, Task::Register(11, m.clone()), all_ok());
    assert_eq!(out, vec![Action::Forward(m), Action::CloseConn(11)]);
    assert!(!reg.contains(k, SnapEntry::Receiving));
    assert!(!runner.has_token(11));
    assert_eq!(store.read(k).expect("file untouched"), b"already here".to_vec());
}

#[test]
fn unknown_token_operations_are_ignored() {
    let mut runner = Runner::new();
    let mut reg = Registry::new();
    let mut store = SnapStore::new();
    let out = runner.run(&mut reg, &mut store, Task::Write(42, b"xy".to_vec()), all_ok());
    assert!(out.is_empty());
    let out = runner.run(&mut reg, &mut store, Task::Close(42), all_ok());
    assert!(out.is_empty());
    let out = runner.run(&mut reg, &mut store, Task::Discard(42), all_ok());
    assert!(out.is_empty());
    assert!(!runner.has_token(42));
}

#[test]
fn malformed_register_closes_the_connection() {
    let mut runner = Runner::new();
    let mut reg = Registry::new();
    let mut store = SnapStore::new();
    let out = runner.run(&mut reg, &mut store, Task::Register(5, malformed_msg()), all_ok());
    assert_eq!(out, vec![Action::CloseConn(5)]);
    assert!(!runner.has_token(5));
}

#[test]
fn failed_acquire_closes_without_registering() {
    let k = key(6, 6, 6);
    let mut runner = Runner::new();
    let mut reg = Registry::new();
    let mut store = SnapStore::new();
    let io = IoVerdict { acquire_ok: false, write_ok: true, save_ok: true };
    let out = runner.run(&mut reg, &mut store, Task::Register(6, msg_for(6, 6, 6)), io);
    assert_eq!(out, vec![Action::CloseConn(6)]);
    assert!(!reg.contains(k, SnapEntry::Receiving));
    assert!(!runner.has_token(6));
}

#[test]
fn failed_write_abandons_the_receive() {
    let k = key(7, 7, 7);
    let mut runner = Runner::new();
    let mut reg = Registry::new();
    let mut store = SnapStore::new();
    runner.run(&mut reg, &mut store, Task::Register(8, msg_for(7, 7, 7)), all_ok());
    let io = IoVerdict { acquire_ok: true, write_ok: false, save_ok: true };
    let out = runner.run(&mut reg, &mut store, Task::Write(8, b"zz".to_vec()), io);
    assert_eq!(out, vec![Action::CloseConn(8)]);
    assert!(!reg.contains(k, SnapEntry::Receiving));
    assert!(!runner.has_token(8));
    assert!(!store.has(k));
}

#[test]
fn failed_save_closes_without_forwarding() {
    let k = key(8, 8, 8);
    let mut runner = Runner::new();
    let mut reg = Registry::new();
    let mut store = SnapStore::new();
    runner.run(&mut reg, &mut store, Task::Register(2, msg_for(8, 8, 8)), all_ok());
    runner.run(&mut reg, &mut store, Task::Write(2, b"bytes".to_vec()), all_ok());
    let io = IoVerdict { acquire_ok: true, write_ok: true, save_ok: false };
    let out = runner.run(&mut reg, &mut store, Task::Close(2), io);
    assert_eq!(out, vec![Action::CloseConn(2)]);
    assert!(!store.has(k));
    assert!(!reg.contains(k, SnapEntry::Receiving));
    assert!(!runner.has_token(2));
}

#[test]
fn duplicate_register_for_same_identity_is_rejected() {
    let k = key(3, 3, 3);
    let mut runner = Runner::new();
    let mut reg = Registry::new();
    let mut store = SnapStore::new();
    runner.run(&mut reg, &mut store, Task::Register(1, msg_for(3, 3, 3)), all_ok());
    let out = runner.run(&mut reg, &mut store, Task::Register(2, msg_for(3, 3, 3)), all_ok());
    assert_eq!(out, vec![Action::CloseConn(2)]);
    assert!(runner.has_token(1));
    assert!(!runner.has_token(2));
    assert!(reg.contains(k, SnapEntry::Receiving));
}

#[test]
fn send_to_is_dispatched_without_blocking() {
    let mut runner = Runner::new();
    let mut reg = Registry::new();
    let mut store = SnapStore::new();
    let m = msg_for(10, 1, 2);
    let task = Task::SendTo { addr: String::from("peer-1"), msg: m.clone() };
    let out = runner.run(&mut reg, &mut store, task, all_ok());
    assert_eq!(out, vec![Action::Dispatch { addr: String::from("peer-1"), msg: m }]);
}

#[test]
fn close_helper_yields_the_close_instruction() {
    let runner = Runner::new();
    assert_eq!(runner.close(12), Action::CloseConn(12));
}

#[test]
fn task_kind_names() {
    assert_eq!(Task::Register(1, malformed_msg()).kind_name(), "register");
    assert_eq!(Task::Write(1, vec![]).kind_name(), "write");
    assert_eq!(Task::Close(1).kind_name(), "close");
    assert_eq!(Task::Discard(1).kind_name(), "discard");
    assert_eq!(
        Task::SendTo { addr: String::new(), msg: malformed_msg() }.kind_name(),
        "send"
    );
}
