use prop_amm_strategy::bytes::{read_u64, write_u64};
use prop_amm_strategy::program::process_instruction_fits;
use prop_amm_strategy::{after_swap, compute_swap, get_model_used, process_instruction, Response};

fn notice(step: u64, last: u64, level: u64) -> Vec<u8> {
    let mut data = vec![0u8; 1066];
    for k in 0..data.len() {
        data[k] = (k % 251) as u8;
    }
    data[0] = 2;
    write_u64(&mut data, 34, step);
    write_u64(&mut data, 42, last);
    write_u64(&mut data, 50, level);
    data
}

#[test]
fn an_empty_instruction_is_met_with_silence() {
    assert_eq!(process_instruction(&[]), Response::Silence);
}

#[test]
fn an_unknown_instruction_is_met_with_silence() {
    assert_eq!(process_instruction(&[5]), Response::Silence);
    assert_eq!(process_instruction(&[255; 2000]), Response::Silence);
}

#[test]
fn names_are_told() {
    assert_eq!(process_instruction(&[3]), Response::Bytes(b"My Strategy"));
    assert_eq!(process_instruction(&[4, 1, 2]), Response::Bytes(b"GPT-5.3-Codex"));
    assert_eq!(get_model_used(), "GPT-5.3-Codex");
}

#[test]
fn a_request_is_answered_with_its_quote() {
    for side in [0u8, 1] {
        let mut data = vec![0u8; 1049];
        data[0] = side;
        write_u64(&mut data, 1, 1_000_000_000);
        write_u64(&mut data, 9, 100_000_000_000);
        write_u64(&mut data, 17, 10_000_000_000_000);
        let expected = if side == 0 { 9_929_014 } else { 98_323_646_193 };
        assert_eq!(compute_swap(&data), expected);
        assert_eq!(process_instruction(&data), Response::Number(expected));
    }
    assert_eq!(process_instruction(&[0]), Response::Number(0));
    assert_eq!(process_instruction(&[1]), Response::Number(0));
}

#[test]
fn a_notice_is_answered_with_new_storage() {
    let data = notice(105, 100, 60);
    match process_instruction(&data) {
        Response::Storage(kept) => {
            assert_eq!(read_u64(&kept, 0), 105);
            assert_eq!(read_u64(&kept, 8), 85);
            assert_eq!(kept[16..], data[58..1066]);
        }
        other => panic!("unexpected {other:?}"),
    }
}

#[test]
fn both_ways_to_hear_of_a_trade_agree() {
    for (step, last, level) in [(105, 100, 60), (200, 100, 61), (3, 100, 99), (0, 0, 0)] {
        let mut data = notice(step, last, level);
        data.extend_from_slice(&[1, 2, 3]);
        let mut kept = [0u8; 1024];
        kept.copy_from_slice(&data[42..1066]);
        after_swap(&data, &mut kept);
        assert_eq!(process_instruction(&data), Response::Storage(kept));
    }
}

#[test]
fn a_notice_cut_short_is_met_with_silence() {
    let data = notice(105, 100, 60);
    assert_eq!(process_instruction(&data[..1065]), Response::Silence);
    assert_eq!(process_instruction(&[2]), Response::Silence);
}

#[test]
fn an_instruction_that_does_not_fit_is_told() {
    assert!(process_instruction_fits(&notice(105, 100, u64::MAX - 25)));
    assert!(!process_instruction_fits(&notice(105, 100, u64::MAX - 24)));
    assert!(process_instruction_fits(&notice(120, 100, u64::MAX)));
    assert!(process_instruction_fits(&notice(105, 100, u64::MAX)[..1065]));
    assert!(process_instruction_fits(&[]));
    let mut data = notice(105, 100, u64::MAX);
    data[0] = 0;
    assert!(process_instruction_fits(&data));
}
