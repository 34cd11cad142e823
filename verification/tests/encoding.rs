use binius_web_snark::bank::{Operation, RegisterBank, Tag, MAX_LOG_SIZE};
use binius_web_snark::error::SessionError;
use binius_web_snark::utils::{
    block_at, extract_output, load_input, load_words, pad_input, padding_count,
};
use binius_web_snark::width::WidthClass;

#[test]
fn padding_count_reaches_the_next_multiple() {
    assert_eq!(padding_count(3, 16), 13);
    assert_eq!(padding_count(0, 16), 0);
    assert_eq!(padding_count(16, 16), 0);
    assert_eq!(padding_count(17, 16), 15);
    assert_eq!(padding_count(31, 16), 1);
    assert_eq!(padding_count(24, 25), 1);
    assert_eq!(padding_count(25, 25), 0);
    assert_eq!(padding_count(26, 25), 24);
    assert_eq!(padding_count(7, 1), 0);
}

#[test]
fn padding_is_aligned_and_short_for_many_lengths() {
    for block in [1usize, 2, 16, 25] {
        for len in 0usize..200 {
            let pad = padding_count(len, block);
            assert_eq!((len + pad) % block, 0);
            assert!(pad < block);
        }
    }
}

#[test]
fn load_input_keeps_length_and_order() {
    let mut bank = RegisterBank::new();
    let handles = load_input(&mut bank, Tag::Input, vec![0xaa, 0xbb, 0xcc], 7).unwrap();
    assert_eq!(handles, vec![0, 1, 2]);
    assert_eq!(bank.len(), 3);
    assert_eq!(bank.operation_count(), 3);
    assert_eq!(bank.read(0), Ok(0xaa));
    assert_eq!(bank.read(1), Ok(0xbb));
    assert_eq!(bank.read(2), Ok(0xcc));
    for h in 0..3 {
        let r = bank.register(h).unwrap();
        assert_eq!(r.tag, Tag::Input);
        assert_eq!(r.width, WidthClass::EightBit);
        assert_eq!(r.log_size, 7);
        assert!(matches!(bank.operation(h), Operation::Commit { out } if *out == h));
    }
}

#[test]
fn load_words_makes_lanes_of_64_bits() {
    let mut bank = RegisterBank::new();
    let first = load_input(&mut bank, Tag::Input, vec![9], 3).unwrap();
    assert_eq!(first, vec![0]);
    let handles = load_words(&mut bank, Tag::Input, vec![u64::MAX, 0, 7], 3).unwrap();
    assert_eq!(handles, vec![1, 2, 3]);
    assert_eq!(bank.read(1), Ok(u64::MAX));
    assert_eq!(bank.read(2), Ok(0));
    assert_eq!(bank.read(3), Ok(7));
    assert_eq!(bank.register(1).unwrap().width, WidthClass::SixtyFourBit);
}

#[test]
fn load_input_of_nothing_allocates_nothing() {
    let mut bank = RegisterBank::new();
    assert_eq!(load_input(&mut bank, Tag::Input, vec![], 7), Ok(vec![]));
    assert_eq!(load_input(&mut bank, Tag::Input, vec![], 99), Ok(vec![]));
    assert_eq!(load_words(&mut bank, Tag::Input, vec![], 99), Ok(vec![]));
    assert_eq!(bank.len(), 0);
}

#[test]
fn load_input_fails_when_the_bank_rejects_the_row_count() {
    let mut bank = RegisterBank::new();
    assert_eq!(
        load_input(&mut bank, Tag::Input, vec![1, 2], MAX_LOG_SIZE + 1),
        Err(SessionError::RegisterAllocation)
    );
    assert_eq!(
        load_words(&mut bank, Tag::Input, vec![1], MAX_LOG_SIZE + 1),
        Err(SessionError::RegisterAllocation)
    );
    assert_eq!(bank.len(), 0);
    assert_eq!(bank.operation_count(), 0);
    assert_eq!(load_input(&mut bank, Tag::Input, vec![1, 2], MAX_LOG_SIZE), Ok(vec![0, 1]));
}

#[test]
fn pad_input_appends_zero_registers() {
    let mut bank = RegisterBank::new();
    let mut registers = load_input(&mut bank, Tag::Input, vec![0xaa, 0xbb, 0xcc], 7).unwrap();
    assert_eq!(pad_input(&mut bank, &mut registers, 16, 7, WidthClass::EightBit), Ok(()));
    assert_eq!(registers, (0..16).collect::<Vec<usize>>());
    assert_eq!(bank.len(), 16);
    for h in 3..16 {
        let r = bank.register(h).unwrap();
        assert_eq!(r.tag, Tag::InputPadding);
        assert_eq!(r.width, WidthClass::EightBit);
        assert_eq!(r.value, Some(0));
    }
    assert_eq!(bank.read(2), Ok(0xcc));
}

#[test]
fn pad_input_leaves_whole_blocks_alone() {
    let mut bank = RegisterBank::new();
    let mut registers = load_words(&mut bank, Tag::Input, (0..25).collect(), 7).unwrap();
    assert_eq!(pad_input(&mut bank, &mut registers, 25, 7, WidthClass::SixtyFourBit), Ok(()));
    assert_eq!(registers.len(), 25);
    assert_eq!(bank.len(), 25);
    let mut none: Vec<usize> = vec![];
    assert_eq!(pad_input(&mut bank, &mut none, 16, 99, WidthClass::EightBit), Ok(()));
    assert!(none.is_empty());
}

#[test]
fn pad_input_fails_when_the_bank_rejects_the_row_count() {
    let mut bank = RegisterBank::new();
    let mut registers = load_input(&mut bank, Tag::Input, vec![1], 7).unwrap();
    assert_eq!(
        pad_input(&mut bank, &mut registers, 16, 32, WidthClass::EightBit),
        Err(SessionError::RegisterAllocation)
    );
    assert_eq!(registers, vec![0]);
    assert_eq!(bank.len(), 1);
}

#[test]
fn block_at_copies_a_slice() {
    let registers: Vec<usize> = (10..60).collect();
    assert_eq!(block_at(&registers, 0, 3), vec![10, 11, 12]);
    assert_eq!(block_at(&registers, 25, 25), (35..60).collect::<Vec<usize>>());
    assert_eq!(block_at(&registers, 50, 0), Vec::<usize>::new());
}

#[test]
fn extract_output_reads_in_state_order() {
    let mut bank = RegisterBank::new();
    let handles = load_words(&mut bank, Tag::Input, vec![5, 6, 0xffff_ffff_ffff_ffff], 2).unwrap();
    assert_eq!(
        extract_output(&bank, &vec![handles[2], handles[0], handles[1]]),
        Ok(vec![0xffff_ffff_ffff_ffff, 5, 6])
    );
    assert_eq!(extract_output(&bank, &vec![]), Ok(vec![]));
}

#[test]
fn extract_output_widens_words_of_one_bit_registers() {
    let mut bank = RegisterBank::new();
    let h = bank.constant(Tag::Init, 7, WidthClass::OneBit, 0x1234_5678_9abc_def0).unwrap();
    let b = bank.constant(Tag::Init, 7, WidthClass::EightBit, 0x1234_5678_9abc_def0).unwrap();
    assert_eq!(extract_output(&bank, &vec![h, b]), Ok(vec![0x9abc_def0, 0x1234_5678_9abc_def0]));
}

#[test]
fn extract_output_fails_on_an_unbound_register() {
    let mut bank = RegisterBank::new();
    let bound = bank.constant(Tag::Init, 7, WidthClass::OneBit, 1).unwrap();
    let unbound = bank.allocate_register(Tag::Input, 7, WidthClass::OneBit).unwrap();
    assert_eq!(extract_output(&bank, &vec![bound, unbound]), Err(SessionError::Readback));
    assert_eq!(extract_output(&bank, &vec![bound, 77]), Err(SessionError::Readback));
    bank.bind(unbound, 3);
    assert_eq!(extract_output(&bank, &vec![bound, unbound]), Ok(vec![1, 3]));
}
