use header_sync::codec::encode_request;
use header_sync::planner::{get_headers_from_node, plan, ChainView, Peer, Plan, SyncMode};

fn peer(mode: SyncMode, best: u64, synced: u64) -> Peer {
    Peer {
        node_hash: 7,
        best_block_num: best,
        total_difficulty: 1000,
        synced_block_num: synced,
        mode,
        last_request_num: 0,
        last_request_timestamp: 5,
    }
}

fn view(synced: u64, staged_max: u64, speed: u64) -> ChainView {
    ChainView { total_difficulty: 10, synced, staged_max, speed }
}

#[test]
fn lightning_jumps_ahead() {
    let v = view(1000, 1000 + 5 * 48 - 1, 30);
    let p = peer(SyncMode::Lightning, 1480 + 48 + 1, 0);
    assert_eq!(plan(&p, &v), Plan::Request { from: 1480, size: 48 });
}

#[test]
fn lightning_with_enough_staged_starts_after_it() {
    let v = view(1000, 1000 + 5 * 48 + 1, 30);
    let p = peer(SyncMode::Lightning, 1480 + 48, 0);
    assert_eq!(plan(&p, &v), Plan::Request { from: 1242, size: 48 });
}

#[test]
fn lightning_jump_follows_speed() {
    let p = peer(SyncMode::Lightning, 100_000, 0);
    assert_eq!(plan(&p, &view(1000, 1000, 50)), Plan::Request { from: 1600, size: 48 });
    assert_eq!(plan(&p, &view(1000, 1000, 100)), Plan::Request { from: 2200, size: 48 });
    assert_eq!(plan(&p, &view(1000, 1000, 101)), Plan::Request { from: 2200, size: 48 });
    assert_eq!(plan(&p, &view(1000, 1000, 40)), Plan::Request { from: 1480, size: 48 });
}

#[test]
fn lightning_continues_after_staged() {
    let p = peer(SyncMode::Lightning, 100_000, 0);
    assert_eq!(plan(&p, &view(1000, 1240, 30)), Plan::Request { from: 1241, size: 48 });
}

#[test]
fn lightning_near_peer_head_switches_to_thunder() {
    let mut p = peer(SyncMode::Lightning, 1480 + 48, 0);
    let v = view(1000, 1000, 30);
    assert_eq!(plan(&p, &v), Plan::Switch(SyncMode::Thunder));
    let before = p;
    assert!(get_headers_from_node(&mut p, &v, 99).is_none());
    assert_eq!(p, Peer { mode: SyncMode::Thunder, ..before });
}

#[test]
fn lightning_at_top_of_range_switches() {
    let p = peer(SyncMode::Lightning, u64::MAX, 0);
    assert_eq!(plan(&p, &view(u64::MAX - 10, 0, 30)), Plan::Switch(SyncMode::Thunder));
}

#[test]
fn normal_far_ahead() {
    let p = peer(SyncMode::Normal, 200, 0);
    assert_eq!(plan(&p, &view(100, 0, 0)), Plan::Request { from: 97, size: 64 });
}

#[test]
fn normal_other_branches() {
    assert_eq!(plan(&peer(SyncMode::Normal, 40, 0), &view(30, 0, 0)), Plan::Request { from: 15, size: 64 });
    assert_eq!(plan(&peer(SyncMode::Normal, 40, 0), &view(10, 0, 0)), Plan::Request { from: 1, size: 64 });
    assert_eq!(plan(&peer(SyncMode::Normal, 150, 0), &view(100, 0, 0)), Plan::Request { from: 84, size: 64 });
    assert_eq!(plan(&peer(SyncMode::Normal, 36, 0), &view(100, 0, 0)), Plan::Request { from: 84, size: 64 });
    assert_eq!(plan(&peer(SyncMode::Normal, 35, 0), &view(100, 0, 0)), Plan::Idle);
    assert_eq!(plan(&peer(SyncMode::Normal, u64::MAX, 0), &view(u64::MAX, 0, 0)), Plan::Request { from: u64::MAX - 16, size: 64 });
}

#[test]
fn thunder_backfills() {
    assert_eq!(plan(&peer(SyncMode::Thunder, 0, 0), &view(100, 0, 0)), Plan::Request { from: 97, size: 48 });
    assert_eq!(plan(&peer(SyncMode::Thunder, 0, 0), &view(2, 0, 0)), Plan::Request { from: 1, size: 48 });
}

#[test]
fn backward_and_forward() {
    assert_eq!(plan(&peer(SyncMode::Backward, 0, 100), &view(0, 0, 0)), Plan::Request { from: 36, size: 64 });
    assert_eq!(plan(&peer(SyncMode::Backward, 0, 64), &view(0, 0, 0)), Plan::Idle);
    assert_eq!(plan(&peer(SyncMode::Forward, 0, 100), &view(0, 0, 0)), Plan::Request { from: 101, size: 64 });
    assert_eq!(plan(&peer(SyncMode::Forward, 0, u64::MAX), &view(0, 0, 0)), Plan::Idle);
}

#[test]
fn peer_not_ahead_gets_nothing() {
    let mut p = peer(SyncMode::Forward, 500, 100);
    p.total_difficulty = 10;
    let before = p;
    assert_eq!(plan(&p, &view(0, 0, 0)), Plan::Idle);
    assert!(get_headers_from_node(&mut p, &view(0, 0, 0), 9).is_none());
    assert_eq!(p, before);
}

#[test]
fn request_bookkeeping_resets_timer_on_new_range() {
    let mut p = peer(SyncMode::Normal, 200, 0);
    let v = view(100, 0, 0);
    let e = get_headers_from_node(&mut p, &v, 1234).unwrap();
    assert_eq!(e.body, encode_request(97, 64));
    assert_eq!(e.len, 12);
    assert_eq!(p.last_request_num, 97);
    assert_eq!(p.last_request_timestamp, 1234);
    let e = get_headers_from_node(&mut p, &v, 5678).unwrap();
    assert_eq!(e.body, encode_request(97, 64));
    assert_eq!(p.last_request_num, 97);
    assert_eq!(p.last_request_timestamp, 1234);
}
