//! The burst detector: two fields at the start of a pool's storage, updated after each trade.
//!
//! The first field is the step of the last trade. The second is the burst level: it rises with
//! every trade that follows another quickly and halves with every other trade.
use vstd::prelude::*;
use crate::bytes::{
    law_read_back, law_write_is_local, lemma_u64_at_bound, le_value, read_u64, u64_at, with_u64,
    write_u64,
};
use crate::fee::min;

verus! {

/// Where the step of the last trade stands in storage.
pub const LAST_STEP_OFFSET: usize = 0;

/// Where the burst level stands in storage.
pub const LEVEL_OFFSET: usize = 8;

/// Bytes of storage that the detector uses.
pub const DETECTOR_SIZE: usize = 16;

/// A trade within fewer steps than this after the last one raises the level.
pub const QUICK_STEPS: u64 = 20;

/// How much a quick trade adds to the level.
pub const LEVEL_RISE: u64 = 25;

/// The highest level that a quick trade leads to.
pub const MAX_LEVEL: u64 = 100;

/// Bytes of a trade notice before the storage: tag, side, input, output, the two reserves, step.
pub const NOTICE_SIZE: usize = 42;

/// Where the step stands in a trade notice.
pub const STEP_OFFSET: usize = 34;

/// The step of the last trade, as `storage` has it.
pub open spec fn last_step(storage: Seq<u8>) -> nat {
    u64_at(storage, LAST_STEP_OFFSET as int)
}

/// The burst level, as `storage` has it.
pub open spec fn level(storage: Seq<u8>) -> nat {
    u64_at(storage, LEVEL_OFFSET as int)
}

/// Whether a trade at `step` follows the last one quickly. Steps before the last one count.
pub open spec fn is_quick(storage: Seq<u8>, step: int) -> bool {
    step - last_step(storage) < QUICK_STEPS
}

/// The level after a trade at `step`.
pub open spec fn next_level(storage: Seq<u8>, step: int) -> nat {
    if is_quick(storage, step) {
        min(level(storage) + LEVEL_RISE, MAX_LEVEL as int) as nat
    } else {
        level(storage) / 2
    }
}

/// Storage after a trade at `step`.
pub open spec fn recorded(storage: Seq<u8>, step: nat) -> Seq<u8> {
    with_u64(
        with_u64(storage, LAST_STEP_OFFSET as int, step),
        LEVEL_OFFSET as int,
        next_level(storage, step as int),
    )
}

/// Whether the level can be raised in 64 bits, where a trade at `step` has to raise it.
pub open spec fn level_fits(storage: Seq<u8>, step: int) -> bool {
    is_quick(storage, step) ==> level(storage) + LEVEL_RISE <= u64::MAX
}

/// The step of a trade notice.
pub open spec fn notice_step(data: Seq<u8>) -> nat {
    u64_at(data, STEP_OFFSET as int)
}

/// Whether both a notice and storage are long enough for the detector.
pub open spec fn is_heard(data: Seq<u8>, storage: Seq<u8>) -> bool {
    data.len() >= NOTICE_SIZE && storage.len() >= DETECTOR_SIZE
}

/// Whether the notice `data` can be worked into `storage` in 64 bits.
pub open spec fn notice_fits(data: Seq<u8>, storage: Seq<u8>) -> bool {
    is_heard(data, storage) ==> level_fits(storage, notice_step(data) as int)
}

/// Storage after the notice `data`; a notice or storage that is too short changes nothing.
pub open spec fn after_notice(data: Seq<u8>, storage: Seq<u8>) -> Seq<u8> {
    if is_heard(data, storage) {
        recorded(storage, notice_step(data))
    } else {
        storage
    }
}

/// Tells whether `after_swap` may be called with these arguments.
pub fn after_swap_fits(data: &[u8], storage: &[u8]) -> (fits: bool)
    ensures
        fits == notice_fits(data@, storage@),
{
    if data.len() < NOTICE_SIZE || storage.len() < DETECTOR_SIZE {
        return true;
    }
    let step: u64 = read_u64(data, STEP_OFFSET);
    let delta: u64 = step.saturating_sub(read_u64(storage, LAST_STEP_OFFSET));
    delta >= QUICK_STEPS || read_u64(storage, LEVEL_OFFSET) <= u64::MAX - LEVEL_RISE
}

/// Updates the burst detector in `storage` for the trade that `data` tells of. Where `data` ends
/// before its step, or `storage` before the level, nothing changes.
pub fn after_swap(data: &[u8], storage: &mut [u8])
    requires
        notice_fits(data@, old(storage)@),
    ensures
        final(storage)@ == after_notice(data@, old(storage)@),
{
    if data.len() < NOTICE_SIZE || storage.len() < DETECTOR_SIZE {
        return;
    }
    let step: u64 = read_u64(data, STEP_OFFSET);

    let last_trade_step: u64 = read_u64(storage, LAST_STEP_OFFSET);
    let burst_level: u64 = read_u64(storage, LEVEL_OFFSET);

    let delta: u64 = step.saturating_sub(last_trade_step);
    let new_burst: u64 = if delta < QUICK_STEPS {
        (burst_level + LEVEL_RISE).min(MAX_LEVEL)
    } else {
        burst_level / 2
    };

    write_u64(storage, LAST_STEP_OFFSET, step);
    write_u64(storage, LEVEL_OFFSET, new_burst);
}

/// After a trade storage tells its step and the new level; every byte after the detector's own
/// is as it was.
pub proof fn law_trade_is_recorded(storage: Seq<u8>, step: u64)
    requires
        storage.len() >= DETECTOR_SIZE,
        level_fits(storage, step as int),
    ensures
        last_step(recorded(storage, step as nat)) == step,
        level(recorded(storage, step as nat)) == next_level(storage, step as int),
        recorded(storage, step as nat).len() == storage.len(),
        forall|k: int|
            DETECTOR_SIZE <= k < storage.len() ==> recorded(storage, step as nat)[k] == storage[k],
{
    let stepped = with_u64(storage, LAST_STEP_OFFSET as int, step as nat);
    let new_level = next_level(storage, step as int);
    lemma_u64_at_bound(storage, LEVEL_OFFSET as int);
    law_read_back(storage, LAST_STEP_OFFSET as int, step);
    law_write_is_local(stepped, LEVEL_OFFSET as int, new_level as u64, LAST_STEP_OFFSET as int);
    law_read_back(stepped, LEVEL_OFFSET as int, new_level as u64);
}

/// A quick trade never lowers a level within its range, any other trade never raises it, and
/// neither takes it out of its range.
pub proof fn law_level_moves(storage: Seq<u8>, step: u64)
    requires
        level(storage) <= MAX_LEVEL,
    ensures
        level_fits(storage, step as int),
        next_level(storage, step as int) <= MAX_LEVEL,
        is_quick(storage, step as int) ==> level(storage) <= next_level(storage, step as int),
        !is_quick(storage, step as int) ==> next_level(storage, step as int) <= level(storage),
{
}

/// Storage of `size` bytes, zero at first, after trades at the given steps.
pub open spec fn history(size: nat, steps: Seq<u64>) -> Seq<u8>
    decreases steps.len(),
{
    if steps.len() == 0 {
        Seq::new(size, |k: int| 0u8)
    } else {
        recorded(history(size, steps.drop_last()), steps.last() as nat)
    }
}

/// However a pool is traded from the start, its level stays within range, its storage tells the
/// last step, the bytes after the detector's own stay zero, and the next trade can be recorded.
pub proof fn law_every_history(size: nat, steps: Seq<u64>, next: u64)
    requires
        size >= DETECTOR_SIZE,
    ensures
        history(size, steps).len() == size,
        level(history(size, steps)) <= MAX_LEVEL,
        last_step(history(size, steps)) == if steps.len() == 0 {
            0
        } else {
            steps.last()
        },
        forall|k: int| DETECTOR_SIZE <= k < size ==> history(size, steps)[k] == 0,
        level_fits(history(size, steps), next as int),
    decreases steps.len(),
{
    if steps.len() == 0 {
        reveal_with_fuel(le_value, 9);
    } else {
        let before = history(size, steps.drop_last());
        law_every_history(size, steps.drop_last(), steps.last());
        law_level_moves(before, steps.last());
        law_trade_is_recorded(before, steps.last());
    }
}

/// The level halves with every trade that does not follow the last one quickly, so a pool that
/// trades slowly forgets its bursts: seven such trades take any level within range to zero.
pub proof fn law_bursts_are_forgotten(storage: Seq<u8>, steps: Seq<u64>)
    requires
        storage.len() >= DETECTOR_SIZE,
        level(storage) <= MAX_LEVEL,
        steps.len() == 7,
        steps[0] - last_step(storage) >= QUICK_STEPS,
        forall|k: int| 0 < k < steps.len() ==> #[trigger] steps[k] - steps[k - 1] >= QUICK_STEPS,
    ensures
        level(
            steps.fold_left(storage, |kept: Seq<u8>, step: u64| recorded(kept, step as nat)),
        ) == 0,
{
    let record = |kept: Seq<u8>, step: u64| recorded(kept, step as nat);
    let s1 = recorded(storage, steps[0] as nat);
    let s2 = recorded(s1, steps[1] as nat);
    let s3 = recorded(s2, steps[2] as nat);
    let s4 = recorded(s3, steps[3] as nat);
    let s5 = recorded(s4, steps[4] as nat);
    let s6 = recorded(s5, steps[5] as nat);
    law_trade_is_recorded(storage, steps[0]);
    law_trade_is_recorded(s1, steps[1]);
    law_trade_is_recorded(s2, steps[2]);
    law_trade_is_recorded(s3, steps[3]);
    law_trade_is_recorded(s4, steps[4]);
    law_trade_is_recorded(s5, steps[5]);
    law_trade_is_recorded(s6, steps[6]);
    reveal_with_fuel(Seq::fold_left, 8);
    assert(steps.drop_last().drop_last().drop_last().drop_last().drop_last().drop_last().drop_last()
        =~= Seq::empty());
}

/// What a notice leaves in storage, field by field. A trade fewer than 20 steps after the last one,
/// or not after it, takes the level up by 25 but no higher than 100; any other halves it, rounded
/// down. The notice's step becomes the last step and the bytes after the first sixteen stay. A
/// notice of under 42 bytes, or storage of under 16, leaves everything as it was.
pub proof fn law_after_swap(data: Seq<u8>, storage: Seq<u8>)
    requires
        data.len() >= 42 && storage.len() >= 16 && le_value(data, 34, 8) < le_value(storage, 0, 8)
            + 20 ==> le_value(storage, 8, 8) + 25 <= u64::MAX,
    ensures
        after_notice(data, storage).len() == storage.len(),
        forall|k: int| 16 <= k < storage.len() ==> after_notice(data, storage)[k] == storage[k],
        data.len() >= 42 && storage.len() >= 16 ==> ({
            let step = le_value(data, 34, 8);
            let last = le_value(storage, 0, 8);
            let before = le_value(storage, 8, 8);
            let after = le_value(after_notice(data, storage), 8, 8);
            &&& le_value(after_notice(data, storage), 0, 8) == step
            &&& step < last + 20 && before < 75 ==> after == before + 25
            &&& step < last + 20 && before >= 75 ==> after == 100
            &&& step >= last + 20 ==> 2 * after <= before < 2 * after + 2
        }),
        data.len() < 42 || storage.len() < 16 ==> after_notice(data, storage) == storage,
{
    if data.len() >= 42 && storage.len() >= 16 {
        lemma_u64_at_bound(data, 34);
        law_trade_is_recorded(storage, le_value(data, 34, 8) as u64);
    }
}

/// A notice can be worked in unless it has to add 25 to a level that leaves no room for that in
/// 64 bits.
pub proof fn law_what_fits(data: Seq<u8>, storage: Seq<u8>)
    ensures
        !notice_fits(data, storage) <==> data.len() >= 42 && storage.len() >= 16 && le_value(
            data,
            34,
            8,
        ) < le_value(storage, 0, 8) + 20 && le_value(storage, 8, 8) + 25 > u64::MAX,
{
}

} // verus!
