//! Load-generator frames for the gateway client: fresh order ids, the deterministic
//! add/cancel/market mix, and the choice of a resting order to cancel.

use std::collections::VecDeque;
use rand::Rng;
use rand::rngs::SmallRng;
use vstd::prelude::*;
use crate::distributed_wire::{WireCommand, WireFrame};
use crate::types::Side;

verus! {

/// `rand::rngs::SmallRng`, a seeded pseudo-random generator; opaque to Verus.
#[verifier::external_type_specification]
#[verifier::external_body]
pub struct ExSmallRng(SmallRng);

/// `Rng::gen_range(0..n)` on a `SmallRng` (which panics on an empty range): an index
/// below `n`. Which index comes out depends on the generator's state and is not stated.
#[verifier::external_body]
fn random_below(rng: &mut SmallRng, n: usize) -> (r: usize)
    requires
        n > 0,
    ensures
        r < n,
{
    rng.gen_range(0..n)
}

/// The positions of the lists, among the first `n`, that hold at least one order, in
/// increasing order.
pub open spec fn open_lists_below(lists: Seq<VecDeque<u64>>, n: int) -> Seq<int>
    decreases n,
{
    if n <= 0 {
        Seq::empty()
    } else {
        let before = open_lists_below(lists, n - 1);
        if lists[n - 1]@.len() > 0 {
            before.push(n - 1)
        } else {
            before
        }
    }
}

/// The positions of the lists that hold at least one order, in increasing order.
pub open spec fn open_lists(lists: Seq<VecDeque<u64>>) -> Seq<int> {
    open_lists_below(lists, lists.len() as int)
}

/// The listed positions below `n` are the positions below `n` of non-empty lists.
proof fn lemma_open_lists_below(lists: Seq<VecDeque<u64>>, n: int)
    requires
        0 <= n <= lists.len(),
    ensures
        forall|k: int| 0 <= k < open_lists_below(lists, n).len() ==> {
            let p = #[trigger] open_lists_below(lists, n)[k];
            0 <= p < n && lists[p]@.len() > 0
        },
        forall|p: int| 0 <= p < n && #[trigger] lists[p]@.len() > 0 ==> open_lists_below(lists, n).contains(p),
        open_lists_below(lists, n).len() <= n,
    decreases n,
{
    if n > 0 {
        lemma_open_lists_below(lists, n - 1);
        let before = open_lists_below(lists, n - 1);
        if lists[n - 1]@.len() > 0 {
            assert forall|p: int| 0 <= p < n && #[trigger] lists[p]@.len() > 0 implies open_lists_below(lists, n).contains(p) by {
                if p < n - 1 {
                    let k = choose|k: int| 0 <= k < before.len() && before[k] == p;
                    assert(open_lists_below(lists, n)[k] == p);
                } else {
                    assert(open_lists_below(lists, n)[before.len() as int] == p);
                }
            }
        }
    }
}

/// The positions of the non-empty lists, in increasing order.
fn open_list_positions(open_by_instrument: &Vec<VecDeque<u64>>) -> (r: Vec<usize>)
    ensures
        r@.len() == open_lists(open_by_instrument@).len(),
        forall|k: int| 0 <= k < r@.len() ==> #[trigger] r@[k] as int == open_lists(open_by_instrument@)[k],
{
    let mut positions: Vec<usize> = Vec::new();
    let mut ix: usize = 0;
    while ix < open_by_instrument.len()
        invariant
            ix <= open_by_instrument@.len(),
            positions@.len() == open_lists_below(open_by_instrument@, ix as int).len(),
            forall|k: int| 0 <= k < positions@.len() ==> #[trigger] positions@[k] as int == open_lists_below(open_by_instrument@, ix as int)[k],
        decreases open_by_instrument@.len() - ix,
    {
        if open_by_instrument[ix].len() > 0 {
            positions.push(ix);
        }
        ix += 1;
    }
    positions
}

/// The cancel target that draws `pick` and `pos` select: the `pos`-th order of the
/// `pick`-th non-empty list, with the instrument numbered from 1 by its list's position.
pub open spec fn cancel_target_at(lists: Seq<VecDeque<u64>>, pick: int, pos: int) -> Option<(u32, u64)> {
    let open = open_lists(lists);
    if 0 <= pick < open.len() && 0 <= pos < lists[open[pick]]@.len() {
        Some((#[verifier::truncate] ((open[pick] + 1) as u32), lists[open[pick]]@[pos]))
    } else {
        None
    }
}

/// Takes the order that the draws `pick` and `pos` select (see [`cancel_target_at`]) off
/// its list; with draws out of range nothing changes and the result is `None`.
pub fn take_cancel_target(open_by_instrument: &mut Vec<VecDeque<u64>>, pick: usize, pos: usize) -> (r: Option<(u32, u64)>)
    ensures
        r == cancel_target_at(old(open_by_instrument)@, pick as int, pos as int),
        r is None ==> final(open_by_instrument)@ == old(open_by_instrument)@,
        r is Some ==> {
            let qi = open_lists(old(open_by_instrument)@)[pick as int];
            &&& final(open_by_instrument)@.len() == old(open_by_instrument)@.len()
            &&& final(open_by_instrument)@[qi]@ == old(open_by_instrument)@[qi]@.remove(pos as int)
            &&& forall|j: int|
                0 <= j < old(open_by_instrument)@.len() && j != qi ==> #[trigger] final(open_by_instrument)@[j]
                    == old(open_by_instrument)@[j]
        },
{
    let positions = open_list_positions(open_by_instrument);
    proof {
        lemma_open_lists_below(open_by_instrument@, open_by_instrument@.len() as int);
    }
    if pick >= positions.len() {
        return None;
    }
    let qi = positions[pick];
    assert(qi as int == open_lists(open_by_instrument@)[pick as int]);
    assert(qi < open_by_instrument.len());
    if pos >= open_by_instrument[qi].len() {
        return None;
    }
    let ghost before = open_by_instrument@;
    let mut open = open_by_instrument.remove(qi);
    let order_id = match open.remove(pos) {
        Some(id) => id,
        None => {
            proof {
                assert(false);
            }
            0
        },
    };
    open_by_instrument.insert(qi, open);
    proof {
        assert(order_id == before[qi as int]@[pos as int]);
        assert forall|j: int| 0 <= j < before.len() && j != qi implies #[trigger] open_by_instrument@[j] == before[j] by {
            if j < qi {
            } else {
            }
        }
    }
    Some((#[verifier::truncate] ((qi + 1) as u32), order_id))
}

/// Picks an open order to cancel: a random instrument among those with open orders, then
/// a random one of that instrument's open orders, which is taken off its list (see
/// [`take_cancel_target`]). `None` when no list holds an order.
pub fn pick_cancel_target(rng: &mut SmallRng, open_by_instrument: &mut Vec<VecDeque<u64>>) -> (r: Option<(u32, u64)>)
    ensures
        r is None <==> forall|i: int| 0 <= i < old(open_by_instrument)@.len() ==> #[trigger] old(open_by_instrument)@[i]@.len() == 0,
        r is None ==> final(open_by_instrument)@ == old(open_by_instrument)@,
        r is Some ==> exists|pick: int, pos: int|
            {
                &&& 0 <= pick < open_lists(old(open_by_instrument)@).len()
                &&& 0 <= pos < old(open_by_instrument)@[open_lists(old(open_by_instrument)@)[pick]]@.len()
                &&& r == #[trigger] cancel_target_at(old(open_by_instrument)@, pick, pos)
                &&& final(open_by_instrument)@.len() == old(open_by_instrument)@.len()
                &&& final(open_by_instrument)@[open_lists(old(open_by_instrument)@)[pick]]@
                    == old(open_by_instrument)@[open_lists(old(open_by_instrument)@)[pick]]@.remove(pos)
                &&& forall|j: int|
                    0 <= j < old(open_by_instrument)@.len() && j != open_lists(old(open_by_instrument)@)[pick]
                        ==> #[trigger] final(open_by_instrument)@[j] == old(open_by_instrument)@[j]
            },
{
    let positions = open_list_positions(open_by_instrument);
    proof {
        lemma_open_lists_below(open_by_instrument@, open_by_instrument@.len() as int);
    }
    if positions.len() == 0 {
        proof {
            assert forall|i: int| 0 <= i < open_by_instrument@.len() implies #[trigger] open_by_instrument@[i]@.len() == 0 by {
                if open_by_instrument@[i]@.len() > 0 {
                    assert(open_lists(open_by_instrument@).contains(i));
                }
            }
        }
        return None;
    }
    let pick = random_below(rng, positions.len());
    let qi = positions[pick];
    assert(qi as int == open_lists(open_by_instrument@)[pick as int]);
    let pos = random_below(rng, open_by_instrument[qi].len());
    let ghost before = open_by_instrument@;
    let r = take_cancel_target(open_by_instrument, pick, pos);
    proof {
        assert(before[open_lists(before)[0]]@.len() > 0);
        assert(r == cancel_target_at(before, pick as int, pos as int));
    }
    r
}

/// First id handed out by worker `worker_id` (ids of different workers are 10^9 apart).
pub open spec fn first_id(worker_id: usize) -> u64 {
    let start = worker_id as int * 1_000_000_000 + 2;
    if start > u64::MAX {
        u64::MAX
    } else {
        start as u64
    }
}

/// Hands out the next order id and advances the counter; after the counter wraps to
/// zero, it restarts at the worker's own range.
pub fn bump_next_id(next_id: &mut u64, worker_id: usize) -> (id: u64)
    ensures
        id == *old(next_id),
        *final(next_id) == if id == 0 {
            first_id(worker_id)
        } else if id == u64::MAX {
            0
        } else {
            (id + 1) as u64
        },
{
    let id = *next_id;
    *next_id = next_id.wrapping_add(1);
    if id == 0 {
        *next_id = match (worker_id as u64).checked_mul(1_000_000_000) {
            Some(v) => v.saturating_add(2),
            None => u64::MAX,
        };
    }
    id
}

/// `a + b` modulo `2^64`.
pub open spec fn wrap_add(a: u64, b: int) -> u64 {
    ((a as int + b) % 0x1_0000_0000_0000_0000) as u64
}

/// The id the `k`-th command of a deterministic frame uses.
pub open spec fn nth_id(order_id: u64, k: int) -> u64 {
    wrap_add(order_id, k)
}

/// The instrument of an id: ids are spread round-robin over `1..=instruments`.
pub open spec fn instrument_of(id: u64, instruments: u32) -> u32 {
    ((id as u32) % instruments + 1) as u32
}

/// The order to cancel before the `k`-th command: the id of the latest add so far, or
/// the one carried in.
pub open spec fn cancel_before(i: u64, order_id: u64, k: int, carried: Option<u64>) -> Option<u64>
    decreases k,
{
    if k <= 0 {
        carried
    } else if wrap_add(i, k - 1) % 10 <= 5 {
        Some(nth_id(order_id, k - 1))
    } else {
        cancel_before(i, order_id, k - 1, carried)
    }
}

/// The remainder of `id` read as an `i64`, divided by 50 and truncated toward zero (so
/// negative for ids above `i64::MAX`).
pub open spec fn price_band(id: u64) -> i64 {
    if id <= i64::MAX {
        (id % 50) as i64
    } else {
        (-((0x1_0000_0000_0000_0000 - id) % 50)) as i64
    }
}

fn band(id: u64) -> (r: i64)
    ensures
        r == price_band(id),
{
    if id <= i64::MAX as u64 {
        (id % 50) as i64
    } else {
        -((((u64::MAX - id) + 1) % 50) as i64)
    }
}

/// The command at cycle position `seq` with id `current`, given the order to cancel.
pub open spec fn command_at(seq: u64, current: u64, instruments: u32, cancel: Option<u64>) -> WireCommand {
    let instrument_id = instrument_of(current, instruments);
    let phase = seq % 10;
    if phase <= 5 {
        WireCommand::Add {
            id: current,
            participant_id: 100,
            instrument_id,
            side: Side::Buy,
            price: (100 + price_band(current)) as i64,
            quantity: 1,
        }
    } else if phase <= 7 {
        WireCommand::CancelById {
            order_id: match cancel {
                Some(c) => c,
                None => current,
            },
            instrument_id,
        }
    } else if phase == 8 {
        WireCommand::Add { id: current, participant_id: 101, instrument_id, side: Side::Sell, price: 250, quantity: 5 }
    } else {
        WireCommand::Market { id: current, participant_id: 102, instrument_id, side: Side::Buy, quantity: 5 }
    }
}

/// The `k`-th command of a deterministic frame: per ten commands, six buys at 100 plus
/// the id's price band, two cancels of the latest add, one sell at 250 and one market buy.
pub open spec fn nth_command(i: u64, order_id: u64, instruments: u32, k: int, carried: Option<u64>) -> WireCommand {
    command_at(wrap_add(i, k), nth_id(order_id, k), instruments, cancel_before(i, order_id, k, carried))
}

fn command_for(seq: u64, current: u64, instruments: u32, cancel_id: &mut Option<u64>) -> (cmd: WireCommand)
    requires
        instruments > 0,
    ensures
        cmd == command_at(seq, current, instruments, *old(cancel_id)),
        *final(cancel_id) == if seq % 10 <= 5 {
            Some(current)
        } else {
            *old(cancel_id)
        },
{
    let instrument_id = ((current as u32) % instruments) + 1;
    let phase = seq % 10;
    if phase <= 5 {
        *cancel_id = Some(current);
        WireCommand::Add {
            id: current,
            participant_id: 100,
            instrument_id,
            side: Side::Buy,
            price: 100 + band(current),
            quantity: 1,
        }
    } else if phase <= 7 {
        let oid = match *cancel_id {
            Some(c) => c,
            None => current,
        };
        WireCommand::CancelById { order_id: oid, instrument_id }
    } else if phase == 8 {
        WireCommand::Add { id: current, participant_id: 101, instrument_id, side: Side::Sell, price: 250, quantity: 5 }
    } else {
        WireCommand::Market { id: current, participant_id: 102, instrument_id, side: Side::Buy, quantity: 5 }
    }
}

proof fn lemma_wrap_add_step(a: u64, k: int)
    requires
        k >= 0,
    ensures
        wrap_add(a, k + 1) == wrap_add(wrap_add(a, k), 1),
{
    let m = 0x1_0000_0000_0000_0000int;
    let x = a as int + k;
    assert((x + 1) % m == ((x % m) + 1) % m) by (nonlinear_arith)
        requires
            m > 0,
            x >= 0,
    {
        vstd::arithmetic::div_mod::lemma_add_mod_noop(x, 1, m);
    }
}

/// Builds `batch_size` commands of the deterministic mix, starting at cycle position `i`
/// and id `order_id`; `cancel_id` carries the latest add across frames.
pub fn workload_frame_deterministic(
    i: u64,
    order_id: u64,
    instruments: u32,
    batch_size: usize,
    cancel_id: &mut Option<u64>,
) -> (frame: WireFrame)
    requires
        instruments > 0,
    ensures
        frame.commands@.len() == batch_size,
        forall|k: int| 0 <= k < batch_size ==> #[trigger] frame.commands@[k] == nth_command(
            i,
            order_id,
            instruments,
            k,
            *old(cancel_id),
        ),
        *final(cancel_id) == cancel_before(i, order_id, batch_size as int, *old(cancel_id)),
{
    let ghost carried = *cancel_id;
    let mut commands: Vec<WireCommand> = Vec::new();
    let mut offset: usize = 0;
    let mut current: u64 = order_id;
    let mut seq: u64 = i;
    while offset < batch_size
        invariant
            instruments > 0,
            offset <= batch_size,
            commands@.len() == offset,
            current == nth_id(order_id, offset as int),
            seq == wrap_add(i, offset as int),
            *cancel_id == cancel_before(i, order_id, offset as int, carried),
            forall|k: int| 0 <= k < offset ==> #[trigger] commands@[k] == nth_command(
                i,
                order_id,
                instruments,
                k,
                carried,
            ),
        decreases batch_size - offset,
    {
        let cmd = command_for(seq, current, instruments, cancel_id);
        commands.push(cmd);
        proof {
            lemma_wrap_add_step(order_id, offset as int);
            lemma_wrap_add_step(i, offset as int);
        }
        current = current.wrapping_add(1);
        seq = seq.wrapping_add(1);
        offset = offset + 1;
    }
    WireFrame { commands }
}

} // verus!
