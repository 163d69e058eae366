//! Answering encoded instructions.
use vstd::prelude::*;
use vstd::string::*;
use crate::burst::{
    after_notice, after_swap, after_swap_fits, law_after_swap, notice_fits, notice_step, recorded,
    NOTICE_SIZE,
};
use crate::bytes::le_value;
use crate::swap::{compute_swap, quote, STORAGE_SIZE};

verus! {

/// The strategy's name.
pub const NAME: &'static str = "My Strategy";

/// The model that the strategy names as its author.
pub const MODEL_USED: &'static str = "GPT-5.3-Codex";

/// Bytes of a trade notice with the storage that follows it.
pub const NOTICE_WITH_STORAGE_SIZE: usize = NOTICE_SIZE + STORAGE_SIZE;

/// What an instruction asks the host to do.
#[derive(Debug, PartialEq, Eq)]
pub enum Response {
    /// Nothing.
    Silence,
    /// Return a number.
    Number(u64),
    /// Return bytes.
    Bytes(&'static [u8]),
    /// Keep new storage.
    Storage([u8; STORAGE_SIZE]),
}

/// A response, with its bytes as sequences.
pub enum Reply {
    /// Nothing.
    Silence,
    /// Return a number.
    Number(int),
    /// Return bytes.
    Bytes(Seq<u8>),
    /// Keep new storage.
    Storage(Seq<u8>),
}

impl View for Response {
    type V = Reply;

    open spec fn view(&self) -> Reply {
        match *self {
            Response::Silence => Reply::Silence,
            Response::Number(value) => Reply::Number(value as int),
            Response::Bytes(bytes) => Reply::Bytes(bytes@),
            Response::Storage(storage) => Reply::Storage(storage@),
        }
    }
}

/// The storage that a trade notice carries.
pub open spec fn notice_storage(data: Seq<u8>) -> Seq<u8> {
    data.subrange(NOTICE_SIZE as int, NOTICE_WITH_STORAGE_SIZE as int)
}

/// The reply to an instruction, by its first byte.
pub open spec fn reply(data: Seq<u8>) -> Reply {
    if data.len() == 0 {
        Reply::Silence
    } else if data[0] == 0 || data[0] == 1 {
        Reply::Number(quote(data))
    } else if data[0] == 2 {
        if data.len() >= NOTICE_WITH_STORAGE_SIZE {
            Reply::Storage(after_notice(data, notice_storage(data)))
        } else {
            Reply::Silence
        }
    } else if data[0] == 3 {
        Reply::Bytes(NAME.spec_bytes())
    } else if data[0] == 4 {
        Reply::Bytes(MODEL_USED.spec_bytes())
    } else {
        Reply::Silence
    }
}

/// Whether the reply to `data` can be computed in 64 bits.
pub open spec fn reply_fits(data: Seq<u8>) -> bool {
    data.len() >= NOTICE_WITH_STORAGE_SIZE && data[0] == 2 ==> notice_fits(
        data,
        notice_storage(data),
    )
}

/// The model that the strategy names as its author.
pub fn get_model_used() -> (model: &'static str)
    ensures
        model@ == "GPT-5.3-Codex"@,
        model == MODEL_USED,
{
    MODEL_USED
}

/// The storage at the end of a trade notice.
fn take_storage(data: &[u8]) -> (storage: [u8; STORAGE_SIZE])
    requires
        data@.len() >= NOTICE_WITH_STORAGE_SIZE,
    ensures
        storage@ == notice_storage(data@),
{
    let mut storage: [u8; STORAGE_SIZE] = [0u8;STORAGE_SIZE];
    let mut i: usize = 0;
    while i < STORAGE_SIZE
        invariant
            data@.len() >= NOTICE_WITH_STORAGE_SIZE,
            i <= STORAGE_SIZE,
            forall|k: int| 0 <= k < i ==> storage@[k] == data@[NOTICE_SIZE + k],
        decreases STORAGE_SIZE - i,
    {
        storage[i] = data[NOTICE_SIZE + i];
        i = i + 1;
    }
    assert(storage@ =~= notice_storage(data@));
    storage
}

/// Tells whether `process_instruction` may be called with this instruction.
pub fn process_instruction_fits(instruction_data: &[u8]) -> (fits: bool)
    ensures
        fits == reply_fits(instruction_data@),
{
    if instruction_data.len() < NOTICE_WITH_STORAGE_SIZE || instruction_data[0] != 2 {
        return true;
    }
    let storage: [u8; STORAGE_SIZE] = take_storage(instruction_data);
    after_swap_fits(instruction_data, &storage)
}

/// Decides what to do for an instruction. Its first byte tells what it is: 0 and 1 ask for a
/// quote on that side, 2 tells of a trade, 3 asks for the name, 4 for the model.
pub fn process_instruction(instruction_data: &[u8]) -> (response: Response)
    requires
        reply_fits(instruction_data@),
    ensures
        response@ == reply(instruction_data@),
{
    if instruction_data.is_empty() {
        return Response::Silence;
    }
    match instruction_data[0] {
        0 | 1 => Response::Number(compute_swap(instruction_data)),
        2 => {
            if instruction_data.len() >= NOTICE_WITH_STORAGE_SIZE {
                let mut new_storage: [u8; STORAGE_SIZE] = take_storage(instruction_data);
                after_swap(instruction_data, &mut new_storage);
                Response::Storage(new_storage)
            } else {
                Response::Silence
            }
        },
        3 => Response::Bytes(NAME.as_bytes()),
        4 => Response::Bytes(get_model_used().as_bytes()),
        _ => Response::Silence,
    }
}

/// The two ways to hear of a trade agree: the storage that the reply to a notice carries is the
/// storage that `after_swap` leaves of the storage in the notice.
pub proof fn law_notices_agree(data: Seq<u8>)
    requires
        data.len() >= NOTICE_WITH_STORAGE_SIZE,
        data[0] == 2,
    ensures
        reply(data) == Reply::Storage(after_notice(data, notice_storage(data))),
        after_notice(data, notice_storage(data)) == recorded(
            notice_storage(data),
            notice_step(data),
        ),
        after_notice(data, notice_storage(data)).len() == STORAGE_SIZE,
        reply_fits(data) <==> notice_fits(data, notice_storage(data)),
{
}

/// The two ways to ask for a quote agree: a request on either side is answered with the number
/// that `compute_swap` gives for the same bytes.
pub proof fn law_quotes_agree(data: Seq<u8>)
    requires
        data.len() > 0,
        data[0] <= 1,
    ensures
        reply(data) == Reply::Number(quote(data)),
        reply_fits(data),
{
}

/// Only a full notice changes storage; an empty instruction, an unknown one and a notice that is
/// cut short are met with silence.
pub proof fn law_silence(data: Seq<u8>)
    ensures
        reply(data) is Storage <==> data.len() >= NOTICE_WITH_STORAGE_SIZE && data[0] == 2,
        reply(data) is Silence <==> data.len() == 0 || data[0] > 4 || (data[0] == 2 && data.len()
            < NOTICE_WITH_STORAGE_SIZE),
{
}

/// The reply to a full notice, byte by byte: storage whose first field is the notice's step, whose
/// second is the carried level raised by 25 up to 100, or halved where the step lies 20 or more
/// after the carried one, and whose other bytes are those that the notice carries. Nothing else in
/// the notice counts.
pub proof fn law_notice_reply(data: Seq<u8>)
    requires
        data.len() >= 1066,
        data[0] == 2,
        le_value(data, 34, 8) < le_value(data, 42, 8) + 20 ==> le_value(data, 50, 8) + 25
            <= u64::MAX,
    ensures
        reply(data) is Storage,
        ({
            let kept = reply(data)->Storage_0;
            let step = le_value(data, 34, 8);
            let last = le_value(data, 42, 8);
            let before = le_value(data, 50, 8);
            let after = le_value(kept, 8, 8);
            &&& kept.len() == 1024
            &&& forall|k: int| 16 <= k < 1024 ==> kept[k] == data[42 + k]
            &&& le_value(kept, 0, 8) == step
            &&& step < last + 20 && before < 75 ==> after == before + 25
            &&& step < last + 20 && before >= 75 ==> after == 100
            &&& step >= last + 20 ==> 2 * after <= before < 2 * after + 2
        }),
{
    let storage = notice_storage(data);
    assert(le_value(storage, 0, 8) == le_value(data, 42, 8) && le_value(storage, 8, 8) == le_value(
        data,
        50,
        8,
    )) by {
        reveal_with_fuel(le_value, 9);
    }
    law_after_swap(data, storage);
}

/// An instruction can be answered unless it is a full notice that has to add 25 to a level that
/// leaves no room for that in 64 bits.
pub proof fn law_what_can_be_answered(data: Seq<u8>)
    ensures
        !reply_fits(data) <==> data.len() >= 1066 && data[0] == 2 && le_value(data, 34, 8)
            < le_value(data, 42, 8) + 20 && le_value(data, 50, 8) + 25 > u64::MAX,
{
    reveal_with_fuel(le_value, 9);
}

/// What the first byte of an instruction leads to, whatever follows it: 0 and 1 to a number, 2 to
/// storage where the notice is full, 3 to the name, 4 to the model, in ASCII, and all else to
/// silence.
pub proof fn law_dispatch(data: Seq<u8>)
    ensures
        data.len() == 0 ==> reply(data) is Silence,
        data.len() > 0 && (data[0] == 0 || data[0] == 1) ==> reply(data) == Reply::Number(
            quote(data),
        ),
        data.len() >= 1066 && data[0] == 2 ==> reply(data) is Storage,
        0 < data.len() < 1066 && data[0] == 2 ==> reply(data) is Silence,
        data.len() > 0 && data[0] == 3 ==> reply(data) == Reply::Bytes(
            seq![77u8, 121, 32, 83, 116, 114, 97, 116, 101, 103, 121],
        ),
        data.len() > 0 && data[0] == 4 ==> reply(data) == Reply::Bytes(
            seq![71u8, 80, 84, 45, 53, 46, 51, 45, 67, 111, 100, 101, 120],
        ),
        data.len() > 0 && data[0] >= 5 ==> reply(data) is Silence,
{
    reveal_strlit("My Strategy");
    reveal_strlit("GPT-5.3-Codex");
    is_ascii_spec_bytes(NAME);
    is_ascii_spec_bytes(MODEL_USED);
    assert(NAME.is_ascii());
    assert(MODEL_USED.is_ascii());
    assert(NAME.spec_bytes() =~= seq![77u8, 121, 32, 83, 116, 114, 97, 116, 101, 103, 121]);
    assert(MODEL_USED.spec_bytes()
        =~= seq![71u8, 80, 84, 45, 53, 46, 51, 45, 67, 111, 100, 101, 120]);
}

/// A response stands for what it holds.
pub proof fn law_response_holds(
    value: u64,
    bytes: &'static [u8],
    storage: [u8; STORAGE_SIZE],
)
    ensures
        Response::Silence@ == Reply::Silence,
        Response::Number(value)@ == Reply::Number(value as int),
        Response::Bytes(bytes)@ == Reply::Bytes(bytes@),
        Response::Storage(storage)@ == Reply::Storage(storage@),
{
}

} // verus!
