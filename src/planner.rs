use vstd::prelude::*;
use crate::codec::{Action, Envelope, headers_request, request_body, REQUEST_SIZE};

verus! {

/// Distance that separates a peer far ahead from one roughly level, and the
/// step taken back when recovering from a reorganisation.
pub const BACKWARD_SYNC_STEP: u64 = 64;

/// Number of headers asked for in the far-ahead and backfill modes.
pub const LARGE_REQUEST_SIZE: u32 = 48;

/// How the next range is chosen for a peer.
#[derive(PartialEq, Eq, Structural, Clone, Copy, Debug)]
pub enum SyncMode {
    /// Probe far ahead of what is imported while the gap is large.
    Lightning,
    /// Backfill densely just behind the imported frontier.
    Thunder,
    /// Steady state.
    Normal,
    /// Step back to recover from a reorganisation.
    Backward,
    /// Plain catch-up from the peer's synced block.
    Forward,
}

/// What the node knows of a connected peer.
#[derive(PartialEq, Eq, Structural, Clone, Copy, Debug)]
pub struct Peer {
    pub node_hash: u64,
    pub best_block_num: u64,
    pub total_difficulty: u128,
    pub synced_block_num: u64,
    pub mode: SyncMode,
    pub last_request_num: u64,
    /// When the requested range last changed, in milliseconds since the epoch.
    pub last_request_timestamp: u64,
}

/// The node's own view of its chain when a request is planned.
#[derive(PartialEq, Eq, Structural, Clone, Copy, Debug)]
pub struct ChainView {
    /// Total difficulty of the node's best chain.
    pub total_difficulty: u128,
    /// Highest block fully imported.
    pub synced: u64,
    /// Highest block downloaded but not yet imported.
    pub staged_max: u64,
    /// Recent import throughput, in headers per second.
    pub speed: u64,
}

/// The decision for one peer in one cycle.
#[derive(PartialEq, Eq, Structural, Clone, Copy, Debug)]
pub enum Plan {
    /// Ask the peer for `size` headers from block `from`.
    Request { from: u64, size: u32 },
    /// Ask nothing and move the peer to another mode.
    Switch(SyncMode),
    /// Ask nothing this cycle.
    Idle,
}

/// How far ahead of the imported frontier a far-ahead probe starts, given
/// the import throughput.
pub open spec fn jump_size(speed: int) -> int {
    if speed <= 40 {
        480
    } else if speed <= 100 {
        12 * speed
    } else {
        1200
    }
}

/// Where a far-ahead probe starts: a jump past the imported frontier while
/// little is staged, else just past what is staged.
pub open spec fn lightning_start(view: ChainView) -> int {
    if view.synced + 5 * LARGE_REQUEST_SIZE > view.staged_max {
        view.synced + jump_size(view.speed as int)
    } else {
        view.staged_max + 1
    }
}

/// `n - back`, or 1 when that is below 1.
pub open spec fn back_off(n: int, back: int) -> int {
    if n - back >= 1 {
        n - back
    } else {
        1
    }
}

/// What to do for `peer` in this cycle.
pub open spec fn plan_spec(peer: Peer, view: ChainView) -> Plan {
    if peer.total_difficulty <= view.total_difficulty {
        Plan::Idle
    } else {
        match peer.mode {
            SyncMode::Lightning => {
                let start = lightning_start(view);
                if peer.best_block_num > start + LARGE_REQUEST_SIZE {
                    Plan::Request { from: start as u64, size: LARGE_REQUEST_SIZE }
                } else {
                    Plan::Switch(SyncMode::Thunder)
                }
            },
            SyncMode::Thunder => Plan::Request {
                from: back_off(view.synced as int, 3) as u64,
                size: LARGE_REQUEST_SIZE,
            },
            SyncMode::Normal => {
                let s = view.synced as int;
                let n = peer.best_block_num as int;
                if n >= s + BACKWARD_SYNC_STEP {
                    Plan::Request { from: back_off(s, 3) as u64, size: REQUEST_SIZE }
                } else if s < BACKWARD_SYNC_STEP {
                    Plan::Request { from: back_off(s, 15) as u64, size: REQUEST_SIZE }
                } else if n >= s - BACKWARD_SYNC_STEP {
                    Plan::Request { from: (s - 16) as u64, size: REQUEST_SIZE }
                } else {
                    Plan::Idle
                }
            },
            SyncMode::Backward => {
                if peer.synced_block_num > BACKWARD_SYNC_STEP {
                    Plan::Request {
                        from: (peer.synced_block_num - BACKWARD_SYNC_STEP) as u64,
                        size: REQUEST_SIZE,
                    }
                } else {
                    Plan::Idle
                }
            },
            SyncMode::Forward => {
                if peer.synced_block_num < u64::MAX {
                    Plan::Request { from: (peer.synced_block_num + 1) as u64, size: REQUEST_SIZE }
                } else {
                    Plan::Idle
                }
            },
        }
    }
}

/// `n - back`, or 1 when that is below 1.
fn back_off_exec(n: u64, back: u64) -> (r: u64)
    ensures
        r as int == back_off(n as int, back as int),
{
    if n > back {
        n - back
    } else {
        1
    }
}

/// Decides what to do for `peer` in this cycle.
pub fn plan(peer: &Peer, view: &ChainView) -> (r: Plan)
    ensures
        r == plan_spec(*peer, *view),
{
    if peer.total_difficulty <= view.total_difficulty {
        return Plan::Idle;
    }
    match peer.mode {
        SyncMode::Lightning => {
            let large = LARGE_REQUEST_SIZE as u64;
            let little_staged = view.staged_max < 5 * large || view.synced > view.staged_max - 5
                * large;
            let start: Option<u64> = if little_staged {
                let jump: u64 = if view.speed <= 40 {
                    480
                } else if view.speed <= 100 {
                    12 * view.speed
                } else {
                    1200
                };
                view.synced.checked_add(jump)
            } else {
                view.staged_max.checked_add(1)
            };
            match start {
                Some(s) if s < u64::MAX - large && peer.best_block_num > s + large => {
                    Plan::Request { from: s, size: LARGE_REQUEST_SIZE }
                },
                _ => Plan::Switch(SyncMode::Thunder),
            }
        },
        SyncMode::Thunder => Plan::Request {
            from: back_off_exec(view.synced, 3),
            size: LARGE_REQUEST_SIZE,
        },
        SyncMode::Normal => {
            let s = view.synced;
            let n = peer.best_block_num;
            if s <= u64::MAX - BACKWARD_SYNC_STEP && n >= s + BACKWARD_SYNC_STEP {
                Plan::Request { from: back_off_exec(s, 3), size: REQUEST_SIZE }
            } else if s < BACKWARD_SYNC_STEP {
                Plan::Request { from: back_off_exec(s, 15), size: REQUEST_SIZE }
            } else if n >= s - BACKWARD_SYNC_STEP {
                Plan::Request { from: s - 16, size: REQUEST_SIZE }
            } else {
                Plan::Idle
            }
        },
        SyncMode::Backward => {
            if peer.synced_block_num > BACKWARD_SYNC_STEP {
                Plan::Request {
                    from: peer.synced_block_num - BACKWARD_SYNC_STEP,
                    size: REQUEST_SIZE,
                }
            } else {
                Plan::Idle
            }
        },
        SyncMode::Forward => {
            if peer.synced_block_num < u64::MAX {
                Plan::Request { from: peer.synced_block_num + 1, size: REQUEST_SIZE }
            } else {
                Plan::Idle
            }
        },
    }
}

/// The peer after a request from block `from` at time `now`: the stall
/// timer restarts only when the requested block changed.
pub open spec fn after_request(peer: Peer, from: u64, now: u64) -> Peer {
    Peer {
        last_request_num: from,
        last_request_timestamp: if peer.last_request_num != from {
            now
        } else {
            peer.last_request_timestamp
        },
        ..peer
    }
}

/// Plans this cycle for `node` at time `now` (milliseconds since the
/// epoch), records it on the peer, and returns the request to send to it,
/// if any.
pub fn get_headers_from_node(node: &mut Peer, view: &ChainView, now: u64) -> (r: Option<Envelope>)
    ensures
        match plan_spec(*old(node), *view) {
            Plan::Request { from, size } => {
                &&& *final(node) == after_request(*old(node), from, now)
                &&& r matches Some(e) && e.action == Action::HeadersReq && e.len == 12
                    && e.body@ == request_body(from as nat, size as nat)
            },
            Plan::Switch(mode) => {
                &&& *final(node) == (Peer { mode, ..*old(node) })
                &&& r is None
            },
            Plan::Idle => {
                &&& *final(node) == *old(node)
                &&& r is None
            },
        },
{
    match plan(node, view) {
        Plan::Request { from, size } => {
            if node.last_request_num != from {
                node.last_request_timestamp = now;
            }
            node.last_request_num = from;
            Some(headers_request(from, size))
        },
        Plan::Switch(mode) => {
            node.mode = mode;
            None
        },
        Plan::Idle => None,
    }
}

} // verus!
