use binius_web_snark::bank::{Operation, RegisterBank, Tag, MAX_LOG_SIZE};
use binius_web_snark::codec::decode_hex;
use binius_web_snark::error::{Algorithm, SessionError};
use binius_web_snark::sha2;
use binius_web_snark::sha3;
use binius_web_snark::utils::{extract_output, load_input, load_words};
use binius_web_snark::width::WidthClass;

const IV: [u64; 8] = [
    0x6a09e667, 0xbb67ae85, 0x3c6ef372, 0xa54ff53a, 0x510e527f, 0x9b05688c, 0x1f83d9ab, 0x5be0cd19,
];

#[test]
fn sha256_initial_state_is_the_standard_one() {
    let mut bank = RegisterBank::new();
    let state = sha2::init_state(&mut bank, 7).unwrap();
    assert_eq!(state, (0..8).collect::<Vec<usize>>());
    assert_eq!(extract_output(&bank, &state), Ok(IV.to_vec()));
    for (i, h) in state.iter().enumerate() {
        assert_eq!(sha2::init_word(i) as u64, IV[i]);
        let r = bank.register(*h).unwrap();
        assert_eq!(r.tag, Tag::Init);
        assert_eq!(r.width, WidthClass::OneBit);
        assert!(matches!(bank.operation(*h), Operation::Constant { out } if out == h));
    }
    let mut used = RegisterBank::new();
    load_input(&mut used, Tag::Input, vec![1, 2, 3], 5).unwrap();
    let later = sha2::init_state(&mut used, 5).unwrap();
    assert_eq!(later, (3..11).collect::<Vec<usize>>());
    assert_eq!(extract_output(&used, &later), Ok(IV.to_vec()));
}

#[test]
fn keccak_initial_state_is_zero() {
    let mut bank = RegisterBank::new();
    let state = sha3::init_state(&mut bank, 7).unwrap();
    assert_eq!(state.len(), 25);
    assert_eq!(extract_output(&bank, &state), Ok(vec![0u64; 25]));
    assert_eq!(bank.register(24).unwrap().width, WidthClass::SixtyFourBit);
}

#[test]
fn initial_states_fail_when_the_bank_rejects_the_row_count() {
    let mut bank = RegisterBank::new();
    assert_eq!(sha2::init_state(&mut bank, 32), Err(SessionError::RegisterAllocation));
    assert_eq!(sha3::init_state(&mut bank, 32), Err(SessionError::RegisterAllocation));
    assert_eq!(bank.len(), 0);
}

#[test]
fn sha256_of_three_bytes_is_one_compression() {
    let message = decode_hex("aabbcc").unwrap();
    let mut bank = RegisterBank::new();
    let state = sha2::trace_gen(&mut bank, message, 7).unwrap();
    assert_eq!(state, (24..32).collect::<Vec<usize>>());
    assert_eq!(bank.len(), 32);
    assert_eq!(bank.operation_count(), 25);
    assert_eq!(bank.read(0), Ok(0xaa));
    assert_eq!(bank.read(1), Ok(0xbb));
    assert_eq!(bank.read(2), Ok(0xcc));
    for h in 3..16 {
        assert_eq!(bank.register(h).unwrap().tag, Tag::InputPadding);
        assert_eq!(bank.read(h), Ok(0));
    }
    assert_eq!(extract_output(&bank, &(16..24).collect()), Ok(IV.to_vec()));
    match bank.operation(24) {
        Operation::Compress { state: s, block: b, out } => {
            assert_eq!(s, &(16..24).collect::<Vec<usize>>());
            assert_eq!(b, &(0..16).collect::<Vec<usize>>());
            assert_eq!(*out, 24);
        }
        other => panic!("{:?}", other),
    }
    assert_eq!(extract_output(&bank, &state), Err(SessionError::Readback));
    for (i, h) in state.iter().enumerate() {
        bank.bind(*h, 0xdead_0000_0000_0000 + i as u64);
    }
    assert_eq!(extract_output(&bank, &state), Ok((0..8).collect::<Vec<u64>>()));
}

#[test]
fn sha256_of_nothing_is_the_initial_state() {
    let mut bank = RegisterBank::new();
    let state = sha2::trace_gen(&mut bank, vec![], 7).unwrap();
    assert_eq!(bank.len(), 8);
    assert_eq!(extract_output(&bank, &state), Ok(IV.to_vec()));
}

#[test]
fn sha256_chains_block_after_block() {
    let mut bank = RegisterBank::new();
    let state = sha2::trace_gen(&mut bank, (0..33).collect(), 7).unwrap();
    // 33 bytes, 15 of padding, 8 of initial state, 3 compressions of 8.
    assert_eq!(bank.len(), 33 + 15 + 8 + 24);
    assert_eq!(state, (72..80).collect::<Vec<usize>>());
    let mut previous: Vec<usize> = (48..56).collect();
    for k in 0..3 {
        match bank.operation(56 + k) {
            Operation::Compress { state: s, block: b, out } => {
                assert_eq!(s, &previous);
                assert_eq!(b, &(16 * k..16 * (k + 1)).collect::<Vec<usize>>());
                previous = (*out..*out + 8).collect();
            }
            other => panic!("{:?}", other),
        }
    }
    assert_eq!(previous, state);
}

#[test]
fn sha256_chain_names_the_block_that_was_rejected() {
    let mut bank = RegisterBank::new();
    let mut input = load_input(&mut bank, Tag::Input, vec![1; 16], 7).unwrap();
    input.extend(load_input(&mut bank, Tag::Input, vec![2; 16], 6).unwrap());
    let state = sha2::init_state(&mut bank, 7).unwrap();
    let before = bank.len();
    assert_eq!(
        sha2::chain(&mut bank, state, &input, 7),
        Err(SessionError::BlockTransform { block_index: 1, algorithm: Algorithm::Sha256 })
    );
    assert_eq!(bank.len(), before + 8);

    let mut other = RegisterBank::new();
    assert_eq!(
        sha2::sha2(&mut other, vec![500], 7, WidthClass::EightBit),
        Err(SessionError::BlockTransform { block_index: 0, algorithm: Algorithm::Sha256 })
    );
}

#[test]
fn sha256_fails_when_the_bank_rejects_the_row_count() {
    let mut bank = RegisterBank::new();
    assert_eq!(
        sha2::trace_gen(&mut bank, vec![1, 2, 3], MAX_LOG_SIZE + 1),
        Err(SessionError::RegisterAllocation)
    );
    assert_eq!(
        sha2::sha2(&mut bank, vec![], MAX_LOG_SIZE + 1, WidthClass::EightBit),
        Err(SessionError::RegisterAllocation)
    );
    assert_eq!(bank.len(), 0);
}

#[test]
fn chaining_is_deterministic() {
    let mut first = RegisterBank::new();
    let mut second = RegisterBank::new();
    let a = sha2::trace_gen(&mut first, (0..40).collect(), 7).unwrap();
    let b = sha2::trace_gen(&mut second, (0..40).collect(), 7).unwrap();
    assert_eq!(a, b);
    assert_eq!(first.len(), second.len());
    assert_eq!(first.operation_count(), second.operation_count());
    for h in 0..first.len() {
        let x = first.register(h).unwrap();
        let y = second.register(h).unwrap();
        assert_eq!((x.tag, x.width, x.log_size, x.value), (y.tag, y.width, y.log_size, y.value));
    }
    let mut third = RegisterBank::new();
    let mut fourth = RegisterBank::new();
    assert_eq!(
        sha3::trace_gen(&mut third, (0..30).collect(), 7),
        sha3::trace_gen(&mut fourth, (0..30).collect(), 7)
    );
    assert_eq!(third.len(), fourth.len());
}

#[test]
fn permutation_of_twenty_five_lanes() {
    let mut bank = RegisterBank::new();
    let state = sha3::permutation_only(&mut bank, (0..25).collect(), 6).unwrap();
    // 25 lanes, no padding, 25 of initial state, 25 combined lanes, 25 permuted.
    assert_eq!(bank.len(), 100);
    assert_eq!(bank.operation_count(), 76);
    assert_eq!(state, (75..100).collect::<Vec<usize>>());
    for h in 0..100 {
        assert_eq!(bank.register(h).unwrap().log_size, 7);
        assert_eq!(bank.register(h).unwrap().width, WidthClass::SixtyFourBit);
    }
    // Absorbing into the zero state leaves the lanes as they are.
    assert_eq!(extract_output(&bank, &(50..75).collect()), Ok((0..25).collect::<Vec<u64>>()));
    for i in 0..25 {
        assert!(matches!(
            bank.operation(50 + i),
            Operation::Xor { a, b, out } if *a == 25 + i && *b == i && *out == 50 + i
        ));
    }
    match bank.operation(75) {
        Operation::Permute { state: s, out } => {
            assert_eq!(s, &(50..75).collect::<Vec<usize>>());
            assert_eq!(*out, 75);
        }
        other => panic!("{:?}", other),
    }
    assert_eq!(extract_output(&bank, &state), Err(SessionError::Readback));
    for h in &state {
        bank.bind(*h, 1000 + *h as u64);
    }
    assert_eq!(extract_output(&bank, &state), Ok((1075..1100).collect::<Vec<u64>>()));
}

#[test]
fn permutation_wants_exactly_twenty_five_lanes() {
    let mut bank = RegisterBank::new();
    assert_eq!(
        sha3::permutation_only(&mut bank, (0..24).collect(), 6),
        Err(SessionError::InputShape)
    );
    assert_eq!(
        sha3::permutation_only(&mut bank, (0..26).collect(), 6),
        Err(SessionError::InputShape)
    );
    assert_eq!(sha3::permutation_only(&mut bank, vec![], 6), Err(SessionError::InputShape));
    assert_eq!(bank.len(), 0);
    assert_eq!(bank.operation_count(), 0);
}

#[test]
fn permutation_fails_when_the_bank_rejects_the_row_count() {
    let mut bank = RegisterBank::new();
    assert_eq!(
        sha3::permutation_only(&mut bank, (0..25).collect(), MAX_LOG_SIZE),
        Err(SessionError::RegisterAllocation)
    );
    assert_eq!(
        sha3::permutation_only(&mut bank, (0..25).collect(), usize::MAX),
        Err(SessionError::RegisterAllocation)
    );
    assert_eq!(bank.len(), 0);
    assert!(sha3::permutation_only(&mut bank, (0..25).collect(), MAX_LOG_SIZE - 1).is_ok());
    assert_eq!(bank.register(0).unwrap().log_size, MAX_LOG_SIZE);
}

#[test]
fn keccak_pads_and_chains() {
    let mut bank = RegisterBank::new();
    let state = sha3::trace_gen(&mut bank, (1..=26).collect(), 7).unwrap();
    // 26 lanes, 24 of padding, 25 of initial state, 2 blocks of 25 + 25.
    assert_eq!(bank.len(), 26 + 24 + 25 + 100);
    assert_eq!(state, (150..175).collect::<Vec<usize>>());
    assert_eq!(bank.register(26).unwrap().tag, Tag::InputPadding);
    assert_eq!(bank.read(49), Ok(0));
    // The second block is absorbed into the permuted state, which is unbound.
    assert!(matches!(bank.operation(26 + 24 + 25 + 25 + 1), Operation::Xor { a: 100, b: 25, .. }));
    assert!(!bank.is_bound(125));
    assert_eq!(bank.read(75), Ok(1));
}

#[test]
fn keccak_of_nothing_is_the_zero_state() {
    let mut bank = RegisterBank::new();
    let state = sha3::trace_gen(&mut bank, vec![], 7).unwrap();
    assert_eq!(bank.len(), 25);
    assert_eq!(extract_output(&bank, &state), Ok(vec![0u64; 25]));
}

#[test]
fn keccak_rejects_lanes_that_are_not_64_bits_wide() {
    let mut bank = RegisterBank::new();
    let bytes = load_input(&mut bank, Tag::Input, vec![7; 25], 7).unwrap();
    assert_eq!(
        sha3::sha3(&mut bank, bytes, 7),
        Err(SessionError::BlockTransform { block_index: 0, algorithm: Algorithm::Keccak })
    );
    let mut other = RegisterBank::new();
    let good = load_words(&mut other, Tag::Input, vec![7; 25], 7).unwrap();
    let mut input = good.clone();
    input.extend(load_words(&mut other, Tag::Input, vec![7; 25], 5).unwrap());
    let state = sha3::init_state(&mut other, 7).unwrap();
    assert_eq!(
        sha3::chain(&mut other, state, &input, 7),
        Err(SessionError::BlockTransform { block_index: 1, algorithm: Algorithm::Keccak })
    );
    assert_eq!(
        sha3::sha3(&mut other, vec![], 32),
        Err(SessionError::RegisterAllocation)
    );
}

#[test]
fn absorb_combines_lane_by_lane() {
    let mut bank = RegisterBank::new();
    let state = load_words(&mut bank, Tag::Init, (0..25).map(|i| i * 3).collect(), 4).unwrap();
    let block = load_words(&mut bank, Tag::Input, (0..25).map(|i| i + 100).collect(), 4).unwrap();
    let lanes = sha3::absorb(&mut bank, &state, &block, 4).unwrap();
    assert_eq!(lanes, (50..75).collect::<Vec<usize>>());
    let expected: Vec<u64> = (0..25u64).map(|i| (i * 3) ^ (i + 100)).collect();
    assert_eq!(extract_output(&bank, &lanes), Ok(expected));
    assert_eq!(sha3::absorb(&mut bank, &state, &block, 5), None);
    assert_eq!(sha3::absorb(&mut bank, &state, &block[..24].to_vec(), 4), None);
    assert_eq!(bank.len(), 75);
}
