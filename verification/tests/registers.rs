use binius_web_snark::bank::{Operation, RegisterBank, Tag, MAX_LOG_SIZE};
use binius_web_snark::error::{Algorithm, SessionError};
use binius_web_snark::width::WidthClass;

#[test]
fn width_classes_have_their_bits_and_levels() {
    assert_eq!(WidthClass::OneBit.bits(), 1);
    assert_eq!(WidthClass::EightBit.bits(), 8);
    assert_eq!(WidthClass::SixtyFourBit.bits(), 64);
    assert_eq!(WidthClass::OneBit.tower_level(), 0);
    assert_eq!(WidthClass::EightBit.tower_level(), 3);
    assert_eq!(WidthClass::SixtyFourBit.tower_level(), 6);
    for w in [WidthClass::OneBit, WidthClass::EightBit, WidthClass::SixtyFourBit] {
        assert_eq!(1u32 << w.tower_level(), w.bits());
    }
}

#[test]
fn algorithms_have_their_sizes() {
    assert_eq!(Algorithm::Sha256.block_size(), 16);
    assert_eq!(Algorithm::Sha256.state_size(), 8);
    assert_eq!(Algorithm::Keccak.block_size(), 25);
    assert_eq!(Algorithm::Keccak.state_size(), 25);
}

#[test]
fn a_new_bank_is_empty() {
    let bank = RegisterBank::new();
    assert_eq!(bank.len(), 0);
    assert_eq!(bank.operation_count(), 0);
    assert!(bank.register(0).is_none());
    assert!(!bank.is_bound(0));
    assert_eq!(bank.read(0), Err(SessionError::Readback));
}

#[test]
fn allocate_then_bind_then_read() {
    let mut bank = RegisterBank::new();
    let h = bank.allocate_register(Tag::Input, 7, WidthClass::EightBit).unwrap();
    assert_eq!(h, 0);
    assert!(!bank.is_bound(h));
    assert_eq!(bank.read(h), Err(SessionError::Readback));
    bank.bind(h, 0xab);
    assert!(bank.is_bound(h));
    assert_eq!(bank.read(h), Ok(0xab));
    let r = bank.register(h).unwrap();
    assert_eq!(r.value, Some(0xab));
    assert_eq!(r.log_size, 7);
    let second = bank.allocate_register(Tag::InputPadding, 7, WidthClass::EightBit).unwrap();
    assert_eq!(second, 1);
    assert_eq!(bank.read(h), Ok(0xab));
}

#[test]
fn the_bank_rejects_a_large_row_count() {
    let mut bank = RegisterBank::new();
    assert_eq!(
        bank.allocate_register(Tag::Input, MAX_LOG_SIZE + 1, WidthClass::OneBit),
        Err(SessionError::RegisterAllocation)
    );
    assert_eq!(
        bank.constant(Tag::Init, usize::MAX, WidthClass::OneBit, 1),
        Err(SessionError::RegisterAllocation)
    );
    assert_eq!(bank.len(), 0);
    assert_eq!(bank.allocate_register(Tag::Input, MAX_LOG_SIZE, WidthClass::OneBit), Ok(0));
}

#[test]
fn every_row_of_a_register_holds_the_same_value() {
    let mut bank = RegisterBank::new();
    let h = bank.constant(Tag::Init, 3, WidthClass::SixtyFourBit, 42).unwrap();
    assert_eq!(bank.rows(h), 8);
    for row in 0..8 {
        assert_eq!(bank.read_row(h, row), bank.read(h));
        assert_eq!(bank.read_row(h, row), Ok(42));
    }
    assert_eq!(bank.read_row(h, 8), Err(SessionError::Readback));
    assert_eq!(bank.read_row(h + 1, 0), Err(SessionError::Readback));
    let single = bank.constant(Tag::Init, 0, WidthClass::SixtyFourBit, 1).unwrap();
    assert_eq!(bank.rows(single), 1);
    assert_eq!(bank.read_row(single, 0), Ok(1));
    assert_eq!(bank.read_row(single, 1), Err(SessionError::Readback));
    let unbound = bank.allocate_register(Tag::Input, 3, WidthClass::EightBit).unwrap();
    assert_eq!(bank.read_row(unbound, 0), Err(SessionError::Readback));
    let wide = bank.constant(Tag::Init, MAX_LOG_SIZE, WidthClass::OneBit, 5).unwrap();
    assert_eq!(bank.rows(wide), 1u64 << 31);
    assert_eq!(bank.read_row(wide, (1u64 << 31) - 1), Ok(5));
}

#[test]
fn xor_combines_bound_values() {
    let mut bank = RegisterBank::new();
    let a = bank.constant(Tag::Init, 7, WidthClass::SixtyFourBit, 0b1100).unwrap();
    let b = bank.constant(Tag::Init, 7, WidthClass::SixtyFourBit, 0b1010).unwrap();
    let x = bank.xor(a, b).unwrap();
    assert_eq!(x, 2);
    assert_eq!(bank.read(x), Ok(0b0110));
    let r = bank.register(x).unwrap();
    assert_eq!(r.tag, Tag::Xor);
    assert_eq!(r.width, WidthClass::SixtyFourBit);
    assert_eq!(r.log_size, 7);
    assert!(matches!(bank.operation(2), Operation::Xor { a: 0, b: 1, out: 2 }));
    let unbound = bank.allocate_register(Tag::Input, 7, WidthClass::SixtyFourBit).unwrap();
    let y = bank.xor(a, unbound).unwrap();
    assert!(!bank.is_bound(y));
}

#[test]
fn xor_rejects_registers_that_do_not_match() {
    let mut bank = RegisterBank::new();
    let a = bank.constant(Tag::Init, 7, WidthClass::SixtyFourBit, 1).unwrap();
    let narrow = bank.constant(Tag::Init, 7, WidthClass::EightBit, 1).unwrap();
    let short = bank.constant(Tag::Init, 6, WidthClass::SixtyFourBit, 1).unwrap();
    assert_eq!(bank.xor(a, narrow), None);
    assert_eq!(bank.xor(a, short), None);
    assert_eq!(bank.xor(a, 99), None);
    assert_eq!(bank.xor(99, a), None);
    assert_eq!(bank.len(), 3);
    assert_eq!(bank.operation_count(), 3);
}

#[test]
fn compress_records_eight_unbound_registers() {
    let mut bank = RegisterBank::new();
    let mut block = vec![];
    for i in 0..16 {
        block.push(bank.constant(Tag::Input, 7, WidthClass::EightBit, i).unwrap());
    }
    let mut state = vec![];
    for i in 0..8 {
        state.push(bank.constant(Tag::Init, 7, WidthClass::OneBit, i).unwrap());
    }
    let next = bank.compress(&state, &block, 7).unwrap();
    assert_eq!(next, (24..32).collect::<Vec<usize>>());
    assert_eq!(bank.len(), 32);
    for h in 24..32 {
        let r = bank.register(h).unwrap();
        assert_eq!(r.tag, Tag::Compress);
        assert_eq!(r.width, WidthClass::OneBit);
        assert_eq!(r.log_size, 7);
        assert_eq!(r.value, None);
    }
    match bank.operation(24) {
        Operation::Compress { state: s, block: b, out } => {
            assert_eq!(s, &state);
            assert_eq!(b, &block);
            assert_eq!(*out, 24);
        }
        other => panic!("{:?}", other),
    }
}

#[test]
fn compress_rejects_a_state_or_block_of_the_wrong_shape() {
    let mut bank = RegisterBank::new();
    let mut block = vec![];
    for i in 0..16 {
        block.push(bank.constant(Tag::Input, 7, WidthClass::EightBit, i).unwrap());
    }
    let mut state = vec![];
    for i in 0..8 {
        state.push(bank.constant(Tag::Init, 7, WidthClass::OneBit, i).unwrap());
    }
    assert_eq!(bank.compress(&state, &block, 6), None);
    assert_eq!(bank.compress(&state[..7].to_vec(), &block, 7), None);
    assert_eq!(bank.compress(&state, &block[..15].to_vec(), 7), None);
    assert_eq!(bank.compress(&block[..8].to_vec(), &block, 7), None);
    let mut unknown = block.clone();
    unknown[15] = 1000;
    assert_eq!(bank.compress(&state, &unknown, 7), None);
    assert_eq!(bank.compress(&state, &block, MAX_LOG_SIZE + 1), None);
    assert_eq!(bank.len(), 24);
    assert_eq!(bank.operation_count(), 24);
}

#[test]
fn permute_records_twenty_five_unbound_lanes() {
    let mut bank = RegisterBank::new();
    let mut state = vec![];
    for i in 0..25 {
        state.push(bank.constant(Tag::Init, 7, WidthClass::SixtyFourBit, i).unwrap());
    }
    let next = bank.permute(&state, 7).unwrap();
    assert_eq!(next, (25..50).collect::<Vec<usize>>());
    for h in 25..50 {
        let r = bank.register(h).unwrap();
        assert_eq!(r.tag, Tag::Permute);
        assert_eq!(r.width, WidthClass::SixtyFourBit);
        assert_eq!(r.value, None);
    }
    assert!(matches!(bank.operation(25), Operation::Permute { out: 25, .. }));
    assert_eq!(bank.permute(&state[..24].to_vec(), 7), None);
    assert_eq!(bank.permute(&state, 8), None);
    let narrow = bank.constant(Tag::Init, 7, WidthClass::OneBit, 0).unwrap();
    let mut mixed = state.clone();
    mixed[3] = narrow;
    assert_eq!(bank.permute(&mixed, 7), None);
}

#[test]
fn is_uniform_checks_rows_and_width() {
    let mut bank = RegisterBank::new();
    let a = bank.constant(Tag::Init, 7, WidthClass::SixtyFourBit, 0).unwrap();
    let b = bank.constant(Tag::Init, 7, WidthClass::EightBit, 0).unwrap();
    assert!(bank.is_uniform(&vec![a, b], 7, None));
    assert!(bank.is_uniform(&vec![], 3, Some(WidthClass::OneBit)));
    assert!(bank.is_uniform(&vec![a, a], 7, Some(WidthClass::SixtyFourBit)));
    assert!(!bank.is_uniform(&vec![a, b], 7, Some(WidthClass::SixtyFourBit)));
    assert!(!bank.is_uniform(&vec![a, b], 6, None));
    assert!(!bank.is_uniform(&vec![a, 2], 7, None));
}

#[test]
fn tags_have_their_labels() {
    assert_eq!(Tag::Input.label(), "input");
    assert_eq!(Tag::InputPadding.label(), "input_padding");
    assert_eq!(Tag::Init.label(), "INIT");
    assert_eq!(Tag::Xor.label(), "xor");
    assert_eq!(Tag::Compress.label(), "sha256");
    assert_eq!(Tag::Permute.label(), "keccakf");
}
