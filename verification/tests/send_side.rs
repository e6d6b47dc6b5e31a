//! Outbound pipeline scenarios, the signal decisions, and the bounded pool
//! admission rules.

use snap_transfer::msg::{RaftMsg, SnapDescriptor, SnapEntry, SnapKey};
use snap_transfer::pool::{Pool, SendJob, DEFAULT_SENDER_POOL_SIZE};
use snap_transfer::registry::Registry;
use snap_transfer::send::{conclude_send, prepare_send, send_snap, ChunkMsg, SendError};
use snap_transfer::signal::{signal_action, SignalAction, SignalKind};
use snap_transfer::store::SnapStore;

fn key(region_id: u64, term: u64, idx: u64) -> SnapKey {
    SnapKey { region_id, term, idx }
}

fn msg_for(region_id: u64, term: u64, idx: u64) -> RaftMsg {
    RaftMsg {
        descriptor: Some(SnapDescriptor { region_id, term, idx }),
        meta: vec![1, 2, 3],
    }
}

#[test]
fn successful_send_streams_meta_then_chunks_and_deletes() {
    let k = key(20, 2, 9);
    let mut reg = Registry::new();
    let mut store = SnapStore::new();
    store.save(k, b"snapshot-bytes".to_vec());
    let m = msg_for(20, 2, 9);
    let (res, msgs) = send_snap(&mut reg, &mut store, m.clone(), true);
    assert_eq!(res, Ok(()));
    assert_eq!(msgs.len(), 2);
    assert_eq!(msgs[0], ChunkMsg::Meta(m));
    assert_eq!(msgs[1], ChunkMsg::Data(b"snapshot-bytes".to_vec()));
    assert!(!store.has(k));
    assert!(!reg.contains(k, SnapEntry::Sending));
}

#[test]
fn failed_network_keeps_the_file_for_a_resend() {
    let k = key(21, 1, 1);
    let mut reg = Registry::new();
    let mut store = SnapStore::new();
    store.save(k, b"keep me".to_vec());
    let (res, msgs) = send_snap(&mut reg, &mut store, msg_for(21, 1, 1), false);
    assert_eq!(res, Err(SendError::NetworkFailed));
    assert_eq!(msgs.len(), 2);
    assert_eq!(store.read(k).expect("file still there"), b"keep me".to_vec());
    assert!(!reg.contains(k, SnapEntry::Sending));
}

#[test]
fn missing_file_reports_the_error_and_releases() {
    let k3 = key(22, 3, 3);
    let mut reg = Registry::new();
    let mut store = SnapStore::new();
    let (res, msgs) = send_snap(&mut reg, &mut store, msg_for(22, 3, 3), true);
    assert_eq!(res, Err(SendError::MissingFile));
    assert!(msgs.is_empty());
    assert!(!reg.contains(k3, SnapEntry::Sending));
}

#[test]
fn malformed_identity_fails_before_registering() {
    let mut reg = Registry::new();
    let mut store = SnapStore::new();
    let m = RaftMsg { descriptor: None, meta: vec![] };
    let (res, msgs) = send_snap(&mut reg, &mut store, m, true);
    assert_eq!(res, Err(SendError::MalformedIdentity));
    assert!(msgs.is_empty());
}

#[test]
fn empty_file_streams_only_the_announcement() {
    let k = key(23, 1, 4);
    let mut reg = Registry::new();
    let mut store = SnapStore::new();
    store.save(k, vec![]);
    let m = msg_for(23, 1, 4);
    let (res, msgs) = send_snap(&mut reg, &mut store, m.clone(), true);
    assert_eq!(res, Ok(()));
    assert_eq!(msgs, vec![ChunkMsg::Meta(m)]);
}

#[test]
fn prepare_holds_the_marker_until_conclude() {
    let k = key(24, 5, 5);
    let mut reg = Registry::new();
    let mut store = SnapStore::new();
    store.save(k, b"xy".to_vec());
    let (got_key, msgs) =
        prepare_send(&mut reg, &store, msg_for(24, 5, 5)).expect("prepare succeeds");
    assert_eq!(got_key, k);
    assert_eq!(msgs.len(), 2);
    assert!(reg.contains(k, SnapEntry::Sending));
    let res = conclude_send(&mut reg, &mut store, got_key, true);
    assert_eq!(res, Ok(()));
    assert!(!reg.contains(k, SnapEntry::Sending));
    assert!(!store.has(k));
}

#[test]
fn pool_admission_is_bounded_and_fifo() {
    let mut pool = Pool::new(DEFAULT_SENDER_POOL_SIZE);
    for i in 0..5u64 {
        pool.submit(SendJob { addr: format!("peer-{}", i), msg: msg_for(i, 1, 1) });
    }
    let j0 = pool.try_start().expect("worker free");
    let j1 = pool.try_start().expect("worker free");
    let j2 = pool.try_start().expect("worker free");
    assert_eq!(j0.addr, "peer-0");
    assert_eq!(j1.addr, "peer-1");
    assert_eq!(j2.addr, "peer-2");
    assert_eq!(pool.running(), 3);
    assert!(pool.try_start().is_none(), "no worker may exceed the bound");
    pool.finish();
    let j3 = pool.try_start().expect("freed worker takes the next in line");
    assert_eq!(j3.addr, "peer-3");
    assert_eq!(pool.running(), 3);
    assert_eq!(pool.waiting(), 1);
}

#[test]
fn idle_pool_has_nothing_to_start() {
    let mut pool = Pool::new(2);
    assert!(pool.try_start().is_none());
    assert_eq!(pool.running(), 0);
    assert_eq!(pool.waiting(), 0);
}

#[test]
fn signal_decisions_match_the_rules() {
    assert_eq!(signal_action(SignalKind::Term), SignalAction::Quit);
    assert_eq!(signal_action(SignalKind::Int), SignalAction::Quit);
    assert_eq!(signal_action(SignalKind::Usr1), SignalAction::DumpStats);
    assert_eq!(signal_action(SignalKind::Usr2), SignalAction::ProfileMemory);
}
