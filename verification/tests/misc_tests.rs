use prop_amm_starter::instruction::{decode_instruction, report_storage, Instruction};
use prop_amm_starter::report::seed_range;

#[test]
fn instruction_tags() {
    assert_eq!(decode_instruction(&[]), Instruction::Ignored);
    assert_eq!(decode_instruction(&[0, 9]), Instruction::Quote);
    assert_eq!(decode_instruction(&[1]), Instruction::Quote);
    assert_eq!(decode_instruction(&[2]), Instruction::AfterSwap);
    assert_eq!(decode_instruction(&[3]), Instruction::Name);
    assert_eq!(decode_instruction(&[4]), Instruction::ModelUsed);
    assert_eq!(decode_instruction(&[5]), Instruction::Ignored);
}

#[test]
fn report_storage_copies_the_state() {
    let mut data = vec![0u8; 42 + 1024];
    for (i, b) in data.iter_mut().enumerate() {
        *b = (i % 251) as u8;
    }
    let buf = report_storage(&data).unwrap();
    assert_eq!(buf.len(), 1024);
    assert_eq!(&buf[..], &data[42..]);
    assert!(report_storage(&data[..42 + 1023]).is_none());
}

#[test]
fn seed_range_min_max() {
    assert_eq!(seed_range(&[]), None);
    assert_eq!(seed_range(&[7]), Some((7, 7)));
    assert_eq!(seed_range(&[5, 3, 9, 4]), Some((3, 9)));
}
