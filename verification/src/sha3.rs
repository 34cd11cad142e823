//! The Keccak variant: sponge absorption followed by the permutation
//! transform, block after block.

use vstd::prelude::*;
use crate::bank::{
    handles_from, BankView, Register, RegisterBank, Step, Tag, MAX_LOG_SIZE, PERMUTE_STATE,
};
use crate::error::{Algorithm, SessionError};
use crate::utils::{
    append, block_at, lemma_appended_push, load_words, pad_input, padding_needed, reports, zeros,
    Outcome,
};
use crate::width::WidthClass;

verus! {

/// Number of input registers in one block.
pub const CHUNK_SIZE: usize = 25;

/// The bank with the initial state of Keccak appended: 25 constant lanes of
/// 64 bits that hold zero.
pub open spec fn with_initial_state(bank: BankView, log_size: usize) -> BankView {
    bank.constants(Tag::Init, zeros(PERMUTE_STATE as nat), log_size, WidthClass::SixtyFourBit)
}

/// A block can be absorbed into a state: both have 25 lanes of 64 bits with
/// `2^log_size` rows.
pub open spec fn accepts_absorb(
    bank: BankView,
    state: Seq<usize>,
    block: Seq<usize>,
    log_size: usize,
) -> bool {
    &&& log_size <= MAX_LOG_SIZE
    &&& state.len() == PERMUTE_STATE
    &&& block.len() == PERMUTE_STATE
    &&& bank.uniform(state, log_size, Some(WidthClass::SixtyFourBit))
    &&& bank.uniform(block, log_size, Some(WidthClass::SixtyFourBit))
}

/// The bank after the first `lanes` lanes of `block` were combined into
/// `state`: lane `i` of the result is the exclusive or of `state[i]` and
/// `block[i]`.
pub open spec fn absorbed(
    bank: BankView,
    state: Seq<usize>,
    block: Seq<usize>,
    log_size: usize,
    lanes: nat,
) -> BankView {
    BankView {
        registers: bank.registers + Seq::new(
            lanes,
            |i: int|
                Register {
                    tag: Tag::Xor,
                    width: WidthClass::SixtyFourBit,
                    log_size,
                    value: bank.xor_value(state[i], block[i]),
                },
        ),
        steps: bank.steps + Seq::new(
            lanes,
            |i: int|
                Step::Xor { a: state[i], b: block[i], out: (bank.registers.len() + i) as usize },
        ),
    }
}

/// The chain over the blocks `k, k + 1, ..` of `input`, from `state`: each
/// block in turn is absorbed into the state that the block before it left,
/// and the result is permuted. A trailing part of `input` that fills no
/// block is not read.
pub open spec fn chain_from(
    bank: BankView,
    state: Seq<usize>,
    input: Seq<usize>,
    log_size: usize,
    k: nat,
) -> Outcome
    decreases input.len() - k * CHUNK_SIZE,
{
    if (k + 1) * CHUNK_SIZE > input.len() {
        Outcome { bank, state, failed_at: None }
    } else {
        let block = input.subrange(k * CHUNK_SIZE as int, (k + 1) * CHUNK_SIZE as int);
        if !accepts_absorb(bank, state, block, log_size) {
            Outcome { bank, state, failed_at: Some(k as usize) }
        } else {
            let mixed = absorbed(bank, state, block, log_size, PERMUTE_STATE as nat);
            chain_from(
                mixed.permute(handles_from(bank.next_handle(), PERMUTE_STATE as nat), log_size),
                handles_from(mixed.next_handle(), PERMUTE_STATE as nat),
                input,
                log_size,
                k + 1,
            )
        }
    }
}

/// What [`sha3`] does to a bank: pad `input` with zero lanes, append the
/// initial state, and chain over all blocks.
pub open spec fn sha3_outcome(bank: BankView, input: Seq<usize>, log_size: usize) -> Outcome {
    let pad = padding_needed(input.len(), CHUNK_SIZE as nat);
    let padded = bank.committed(
        Tag::InputPadding,
        zeros(pad),
        log_size,
        WidthClass::SixtyFourBit,
    );
    chain_from(
        with_initial_state(padded, log_size),
        handles_from(padded.next_handle(), PERMUTE_STATE as nat),
        input + handles_from(bank.next_handle(), pad),
        log_size,
        0,
    )
}

/// What [`trace_gen`] does to a bank: commit one lane per word of `input`,
/// then run [`sha3`] over them.
pub open spec fn trace_outcome(bank: BankView, input: Seq<u64>, log_size: usize) -> Outcome {
    sha3_outcome(
        bank.committed(Tag::Input, input, log_size, WidthClass::SixtyFourBit),
        handles_from(bank.next_handle(), input.len()),
        log_size,
    )
}

/// Appends the initial state of Keccak to the bank and returns its handles.
///
/// Fails with [`SessionError::RegisterAllocation`], leaving the bank as it
/// was, when the bank rejects `log_size`.
pub fn init_state(bank: &mut RegisterBank, log_size: usize) -> (r: Result<Vec<usize>, SessionError>)
    requires
        old(bank)@.wf(),
    ensures
        final(bank)@.wf(),
        r.is_err() <==> log_size > MAX_LOG_SIZE,
        r.is_err() ==> r == Err::<Vec<usize>, SessionError>(SessionError::RegisterAllocation)
            && final(bank)@ == old(bank)@,
        r.is_ok() ==> r.unwrap()@ == handles_from(old(bank)@.next_handle(), PERMUTE_STATE as nat)
            && final(bank)@ == with_initial_state(old(bank)@, log_size),
        r.is_ok() ==> forall|i: int|
            0 <= i < PERMUTE_STATE ==> final(bank)@.is_bound(#[trigger] r.unwrap()@[i]) && final(bank)@.output_word(r.unwrap()@[i]) == 0,
{
    if log_size > MAX_LOG_SIZE {
        return Err(SessionError::RegisterAllocation);
    }
    let mut state: Vec<usize> = Vec::new();
    proof {
        let want = old(bank)@.constants(Tag::Init, zeros(0), log_size, WidthClass::SixtyFourBit);
        assert(bank@.registers =~= want.registers);
        assert(bank@.steps =~= want.steps);
        assert(state@ =~= handles_from(old(bank)@.next_handle(), 0));
    }
    let mut i: usize = 0;
    while i < PERMUTE_STATE
        invariant
            i <= PERMUTE_STATE,
            log_size <= MAX_LOG_SIZE,
            bank@.wf(),
            bank@ == old(bank)@.constants(
                Tag::Init,
                zeros(i as nat),
                log_size,
                WidthClass::SixtyFourBit,
            ),
            state@ == handles_from(old(bank)@.next_handle(), i as nat),
        decreases PERMUTE_STATE - i,
    {
        let h: usize = append(bank, Tag::Init, 0, log_size, WidthClass::SixtyFourBit, true);
        state.push(h);
        proof {
            lemma_appended_push(
                old(bank)@,
                Tag::Init,
                zeros(i as nat),
                0,
                log_size,
                WidthClass::SixtyFourBit,
                true,
            );
            assert(zeros(i as nat).push(0u64) =~= zeros((i + 1) as nat));
        }
        i += 1;
    }
    proof {
        assert forall|j: int| 0 <= j < PERMUTE_STATE implies bank@.is_bound(
            #[trigger] state@[j],
        ) && bank@.output_word(state@[j]) == 0 by {
            assert(bank@.registers[state@[j] as int].value == Some(0u64));
        }
    }
    Ok(state)
}

/// The sponge absorb step: combines `block` into `state` lane by lane with
/// the exclusive-or primitive, and returns the handles of the 25 combined
/// lanes.
///
/// Returns `None`, leaving the bank as it was, when `state` and `block` are
/// not both 25 lanes of 64 bits with `2^log_size` rows.
pub fn absorb(bank: &mut RegisterBank, state: &Vec<usize>, block: &Vec<usize>, log_size: usize) -> (r:
    Option<Vec<usize>>)
    requires
        old(bank)@.wf(),
    ensures
        final(bank)@.wf(),
        accepts_absorb(old(bank)@, state@, block@, log_size) ==> r.is_some() && r.unwrap()@
            == handles_from(old(bank)@.next_handle(), PERMUTE_STATE as nat) && final(bank)@
            == absorbed(old(bank)@, state@, block@, log_size, PERMUTE_STATE as nat),
        !accepts_absorb(old(bank)@, state@, block@, log_size) ==> r.is_none() && final(bank)@
            == old(bank)@,
{
    if log_size > MAX_LOG_SIZE || state.len() != PERMUTE_STATE || block.len() != PERMUTE_STATE {
        return None;
    }
    if !bank.is_uniform(state, log_size, Some(WidthClass::SixtyFourBit)) || !bank.is_uniform(
        block,
        log_size,
        Some(WidthClass::SixtyFourBit),
    ) {
        return None;
    }
    let mut lanes: Vec<usize> = Vec::new();
    proof {
        let want = absorbed(old(bank)@, state@, block@, log_size, 0);
        assert(bank@.registers =~= want.registers);
        assert(bank@.steps =~= want.steps);
        assert(lanes@ =~= handles_from(old(bank)@.next_handle(), 0));
    }
    let mut i: usize = 0;
    while i < PERMUTE_STATE
        invariant
            i <= PERMUTE_STATE,
            state@.len() == PERMUTE_STATE,
            block@.len() == PERMUTE_STATE,
            old(bank)@.wf(),
            accepts_absorb(old(bank)@, state@, block@, log_size),
            bank@.wf(),
            bank@ == absorbed(old(bank)@, state@, block@, log_size, i as nat),
            lanes@ == handles_from(old(bank)@.next_handle(), i as nat),
        decreases PERMUTE_STATE - i,
    {
        let a: usize = state[i];
        let b: usize = block[i];
        let ghost before = bank@;
        proof {
            assert(old(bank)@.has(state@[i as int]));
            assert(old(bank)@.has(block@[i as int]));
            assert(before.registers[a as int] == old(bank)@.registers[a as int]);
            assert(before.registers[b as int] == old(bank)@.registers[b as int]);
            assert(before.accepts_xor(a, b));
            assert(before.xor_value(a, b) == old(bank)@.xor_value(a, b));
        }
        lanes.push(bank.xor(a, b).unwrap());
        proof {
            let want = absorbed(old(bank)@, state@, block@, log_size, (i + 1) as nat);
            assert(bank@.registers =~= want.registers);
            assert(bank@.steps =~= want.steps);
            assert(lanes@ =~= handles_from(old(bank)@.next_handle(), (i + 1) as nat));
        }
        i += 1;
    }
    Some(lanes)
}

/// Chains absorption and permutation over the blocks of `input`, in order,
/// starting from `state`: block `k + 1` is absorbed into the state that
/// block `k` produced.
///
/// Fails with [`SessionError::BlockTransform`], carrying the index of the
/// block, when a block cannot be absorbed; the bank then holds the blocks
/// before that one.
pub fn chain(bank: &mut RegisterBank, state: Vec<usize>, input: &Vec<usize>, log_size: usize) -> (r:
    Result<Vec<usize>, SessionError>)
    requires
        old(bank)@.wf(),
        input@.len() % CHUNK_SIZE as nat == 0,
    ensures
        final(bank)@.wf(),
        final(bank)@ == chain_from(old(bank)@, state@, input@, log_size, 0).bank,
        reports(r, chain_from(old(bank)@, state@, input@, log_size, 0), Algorithm::Keccak),
{
    let blocks: usize = input.len() / CHUNK_SIZE;
    let mut current: Vec<usize> = state;
    let mut k: usize = 0;
    while k < blocks
        invariant
            k <= blocks,
            blocks * CHUNK_SIZE == input@.len() <= usize::MAX,
            bank@.wf(),
            chain_from(old(bank)@, state@, input@, log_size, 0) == chain_from(
                bank@,
                current@,
                input@,
                log_size,
                k as nat,
            ),
        decreases blocks - k,
    {
        let block: Vec<usize> = block_at(input, k * CHUNK_SIZE, CHUNK_SIZE);
        let mixed: Vec<usize> = match absorb(bank, &current, &block, log_size) {
            Some(lanes) => lanes,
            None => {
                return Err(
                    SessionError::BlockTransform { block_index: k, algorithm: Algorithm::Keccak },
                );
            },
        };
        assert(bank@.accepts_permute(mixed@, log_size));
        current = bank.permute(&mixed, log_size).unwrap();
        k += 1;
    }
    Ok(current)
}

/// Pads `input` to whole blocks with zero lanes, appends the initial state,
/// and chains over all blocks. Returns the handles of the final state.
///
/// Fails with [`SessionError::RegisterAllocation`], leaving the bank as it
/// was, when the bank rejects `log_size`; with
/// [`SessionError::BlockTransform`] when a block cannot be absorbed.
pub fn sha3(bank: &mut RegisterBank, input: Vec<usize>, log_size: usize) -> (r: Result<
    Vec<usize>,
    SessionError,
>)
    requires
        old(bank)@.wf(),
    ensures
        final(bank)@.wf(),
        log_size > MAX_LOG_SIZE ==> r == Err::<Vec<usize>, SessionError>(
            SessionError::RegisterAllocation,
        ) && final(bank)@ == old(bank)@,
        log_size <= MAX_LOG_SIZE ==> final(bank)@ == sha3_outcome(old(bank)@, input@, log_size).bank
            && reports(r, sha3_outcome(old(bank)@, input@, log_size), Algorithm::Keccak),
        log_size <= MAX_LOG_SIZE && old(bank)@.uniform(
            input@,
            log_size,
            Some(WidthClass::SixtyFourBit),
        ) ==> r.is_ok() && r.unwrap()@.len() == PERMUTE_STATE,
{
    if log_size > MAX_LOG_SIZE {
        return Err(SessionError::RegisterAllocation);
    }
    let mut padded: Vec<usize> = input;
    match pad_input(bank, &mut padded, CHUNK_SIZE, log_size, WidthClass::SixtyFourBit) {
        Ok(()) => {},
        Err(e) => {
            return Err(e);
        },
    }
    let r = match init_state(bank, log_size) {
        Ok(state) => chain(bank, state, &padded, log_size),
        Err(e) => Err(e),
    };
    proof {
        if old(bank)@.uniform(input@, log_size, Some(WidthClass::SixtyFourBit)) {
            law_sha3_succeeds(old(bank)@, input@, log_size);
        }
    }
    r
}

/// Encodes the words of `input` as lanes of 64 bits and runs [`sha3`] over
/// them. Returns the handles of the final state, whose registers the backend
/// binds when it performs the recorded operations.
///
/// Fails with [`SessionError::RegisterAllocation`], leaving the bank as it
/// was, when the bank rejects `log_size`.
pub fn trace_gen(bank: &mut RegisterBank, input: Vec<u64>, log_size: usize) -> (r: Result<
    Vec<usize>,
    SessionError,
>)
    requires
        old(bank)@.wf(),
    ensures
        final(bank)@.wf(),
        log_size > MAX_LOG_SIZE ==> r == Err::<Vec<usize>, SessionError>(
            SessionError::RegisterAllocation,
        ) && final(bank)@ == old(bank)@,
        log_size <= MAX_LOG_SIZE ==> final(bank)@ == trace_outcome(
            old(bank)@,
            input@,
            log_size,
        ).bank && reports(r, trace_outcome(old(bank)@, input@, log_size), Algorithm::Keccak),
        log_size <= MAX_LOG_SIZE ==> r.is_ok() && r.unwrap()@.len() == PERMUTE_STATE,
{
    if log_size > MAX_LOG_SIZE {
        return Err(SessionError::RegisterAllocation);
    }
    let r = match load_words(bank, Tag::Input, input, log_size) {
        Ok(registers) => sha3(bank, registers, log_size),
        Err(e) => Err(e),
    };
    proof {
        law_trace_gen_succeeds(old(bank)@, input@, log_size);
    }
    r
}

/// Runs one permutation over exactly 25 lanes: the lanes are absorbed into a
/// zero state, which leaves their values as they are, and the result is
/// permuted. Every register has `2^(min_log_size + 1)` rows.
///
/// Fails with [`SessionError::InputShape`] when `input` does not hold
/// exactly 25 lanes, and with [`SessionError::RegisterAllocation`] when the
/// bank rejects the row-count exponent; either way no register is allocated.
pub fn permutation_only(bank: &mut RegisterBank, input: Vec<u64>, min_log_size: usize) -> (r:
    Result<Vec<usize>, SessionError>)
    requires
        old(bank)@.wf(),
    ensures
        final(bank)@.wf(),
        input@.len() != PERMUTE_STATE ==> r == Err::<Vec<usize>, SessionError>(
            SessionError::InputShape,
        ) && final(bank)@ == old(bank)@,
        input@.len() == PERMUTE_STATE && min_log_size >= MAX_LOG_SIZE ==> r == Err::<
            Vec<usize>,
            SessionError,
        >(SessionError::RegisterAllocation) && final(bank)@ == old(bank)@,
        input@.len() == PERMUTE_STATE && min_log_size < MAX_LOG_SIZE ==> r.is_ok() && r.unwrap()@
            == trace_outcome(old(bank)@, input@, (min_log_size + 1) as usize).state && final(bank)@
            == trace_outcome(old(bank)@, input@, (min_log_size + 1) as usize).bank,
{
    if input.len() != PERMUTE_STATE {
        return Err(SessionError::InputShape);
    }
    if min_log_size >= MAX_LOG_SIZE {
        return Err(SessionError::RegisterAllocation);
    }
    trace_gen(bank, input, min_log_size + 1)
}

/// A chain only appends registers to the bank.
pub proof fn lemma_chain_grows(
    bank: BankView,
    state: Seq<usize>,
    input: Seq<usize>,
    log_size: usize,
    k: nat,
)
    ensures
        chain_from(bank, state, input, log_size, k).bank.registers.len() >= bank.registers.len(),
    decreases input.len() - k * CHUNK_SIZE,
{
    if (k + 1) * CHUNK_SIZE <= input.len() {
        let block = input.subrange(k * CHUNK_SIZE as int, (k + 1) * CHUNK_SIZE as int);
        if accepts_absorb(bank, state, block, log_size) {
            let mixed = absorbed(bank, state, block, log_size, PERMUTE_STATE as nat);
            lemma_chain_grows(
                mixed.permute(handles_from(bank.next_handle(), PERMUTE_STATE as nat), log_size),
                handles_from(mixed.next_handle(), PERMUTE_STATE as nat),
                input,
                log_size,
                k + 1,
            );
        }
    }
}

/// The hash state keeps its size along a chain: 25 lanes go in, 25 come out,
/// whatever the number of blocks.
pub proof fn law_state_size_is_kept(
    bank: BankView,
    state: Seq<usize>,
    input: Seq<usize>,
    log_size: usize,
    k: nat,
)
    requires
        state.len() == PERMUTE_STATE,
    ensures
        chain_from(bank, state, input, log_size, k).state.len() == PERMUTE_STATE,
    decreases input.len() - k * CHUNK_SIZE,
{
    if (k + 1) * CHUNK_SIZE <= input.len() {
        let block = input.subrange(k * CHUNK_SIZE as int, (k + 1) * CHUNK_SIZE as int);
        if accepts_absorb(bank, state, block, log_size) {
            let mixed = absorbed(bank, state, block, log_size, PERMUTE_STATE as nat);
            law_state_size_is_kept(
                mixed.permute(handles_from(bank.next_handle(), PERMUTE_STATE as nat), log_size),
                handles_from(mixed.next_handle(), PERMUTE_STATE as nat),
                input,
                log_size,
                k + 1,
            );
        }
    }
}

/// No block is rejected along a chain whose state and input registers are
/// all lanes of 64 bits with `2^log_size` rows, as long as the handles of
/// the registers it creates fit in a machine word.
pub proof fn law_uniform_chain_succeeds(
    bank: BankView,
    state: Seq<usize>,
    input: Seq<usize>,
    log_size: usize,
    k: nat,
)
    requires
        log_size <= MAX_LOG_SIZE,
        state.len() == PERMUTE_STATE,
        bank.uniform(state, log_size, Some(WidthClass::SixtyFourBit)),
        bank.uniform(input, log_size, Some(WidthClass::SixtyFourBit)),
        chain_from(bank, state, input, log_size, k).bank.registers.len() <= usize::MAX,
    ensures
        chain_from(bank, state, input, log_size, k).failed_at.is_none(),
    decreases input.len() - k * CHUNK_SIZE,
{
    if (k + 1) * CHUNK_SIZE <= input.len() {
        let block = input.subrange(k * CHUNK_SIZE as int, (k + 1) * CHUNK_SIZE as int);
        assert(bank.uniform(block, log_size, Some(WidthClass::SixtyFourBit))) by {
            assert forall|i: int| 0 <= i < block.len() implies {
                &&& bank.has(#[trigger] block[i])
                &&& bank.registers[block[i] as int].log_size == log_size
                &&& bank.registers[block[i] as int].width == WidthClass::SixtyFourBit
            } by {
                assert(block[i] == input[k * CHUNK_SIZE + i]);
            }
        }
        let mixed = absorbed(bank, state, block, log_size, PERMUTE_STATE as nat);
        let next = mixed.permute(handles_from(bank.next_handle(), PERMUTE_STATE as nat), log_size);
        let next_state = handles_from(mixed.next_handle(), PERMUTE_STATE as nat);
        lemma_chain_grows(next, next_state, input, log_size, k + 1);
        assert(next.uniform(input, log_size, Some(WidthClass::SixtyFourBit))) by {
            assert forall|i: int| 0 <= i < input.len() implies {
                &&& next.has(#[trigger] input[i])
                &&& next.registers[input[i] as int].log_size == log_size
                &&& next.registers[input[i] as int].width == WidthClass::SixtyFourBit
            } by {
                assert(bank.has(input[i]));
            }
        }
        assert(next.uniform(next_state, log_size, Some(WidthClass::SixtyFourBit)));
        law_uniform_chain_succeeds(next, next_state, input, log_size, k + 1);
    }
}

/// [`sha3`] succeeds on every input whose registers are all lanes of 64 bits
/// with `2^log_size` rows, as long as the handles of the registers it
/// creates fit in a machine word; and the state it returns has 25 lanes.
pub proof fn law_sha3_succeeds(bank: BankView, input: Seq<usize>, log_size: usize)
    requires
        log_size <= MAX_LOG_SIZE,
        bank.uniform(input, log_size, Some(WidthClass::SixtyFourBit)),
        sha3_outcome(bank, input, log_size).bank.registers.len() <= usize::MAX,
    ensures
        sha3_outcome(bank, input, log_size).failed_at.is_none(),
        sha3_outcome(bank, input, log_size).state.len() == PERMUTE_STATE,
{
    let pad = padding_needed(input.len(), CHUNK_SIZE as nat);
    let padded = bank.committed(
        Tag::InputPadding,
        zeros(pad),
        log_size,
        WidthClass::SixtyFourBit,
    );
    let ready = with_initial_state(padded, log_size);
    let state = handles_from(padded.next_handle(), PERMUTE_STATE as nat);
    let blocks = input + handles_from(bank.next_handle(), pad);
    lemma_chain_grows(ready, state, blocks, log_size, 0);
    law_state_size_is_kept(ready, state, blocks, log_size, 0);
    assert(ready.uniform(state, log_size, Some(WidthClass::SixtyFourBit)));
    assert(ready.uniform(blocks, log_size, Some(WidthClass::SixtyFourBit))) by {
        assert forall|i: int| 0 <= i < blocks.len() implies {
            &&& ready.has(#[trigger] blocks[i])
            &&& ready.registers[blocks[i] as int].log_size == log_size
            &&& ready.registers[blocks[i] as int].width == WidthClass::SixtyFourBit
        } by {
            if i < input.len() {
                assert(bank.has(input[i]));
            }
        }
    }
    law_uniform_chain_succeeds(ready, state, blocks, log_size, 0);
}

/// [`trace_gen`] succeeds whenever the bank accepts `log_size`, as long as
/// the handles of the registers it creates fit in a machine word.
pub proof fn law_trace_gen_succeeds(bank: BankView, input: Seq<u64>, log_size: usize)
    requires
        log_size <= MAX_LOG_SIZE,
        trace_outcome(bank, input, log_size).bank.registers.len() <= usize::MAX,
    ensures
        trace_outcome(bank, input, log_size).failed_at.is_none(),
        trace_outcome(bank, input, log_size).state.len() == PERMUTE_STATE,
{
    let loaded = bank.committed(Tag::Input, input, log_size, WidthClass::SixtyFourBit);
    let registers = handles_from(bank.next_handle(), input.len());
    let pad = padding_needed(registers.len(), CHUNK_SIZE as nat);
    let padded = loaded.committed(
        Tag::InputPadding,
        zeros(pad),
        log_size,
        WidthClass::SixtyFourBit,
    );
    lemma_chain_grows(
        with_initial_state(padded, log_size),
        handles_from(padded.next_handle(), PERMUTE_STATE as nat),
        registers + handles_from(loaded.next_handle(), pad),
        log_size,
        0,
    );
    assert(loaded.uniform(registers, log_size, Some(WidthClass::SixtyFourBit)));
    law_sha3_succeeds(loaded, registers, log_size);
}

/// Absorbing a block into a state of zero lanes leaves the values of the
/// block as they are: lane `i` of the result is bound to the value of
/// `block[i]`.
pub proof fn law_absorb_into_zero_is_identity(
    bank: BankView,
    state: Seq<usize>,
    block: Seq<usize>,
    log_size: usize,
    i: int,
)
    requires
        bank.registers.len() + PERMUTE_STATE <= usize::MAX,
        accepts_absorb(bank, state, block, log_size),
        0 <= i < PERMUTE_STATE,
        bank.is_bound(state[i]),
        bank.value(state[i]) == 0,
        bank.is_bound(block[i]),
    ensures
        absorbed(bank, state, block, log_size, PERMUTE_STATE as nat).is_bound(
            handles_from(bank.next_handle(), PERMUTE_STATE as nat)[i],
        ),
        absorbed(bank, state, block, log_size, PERMUTE_STATE as nat).value(
            handles_from(bank.next_handle(), PERMUTE_STATE as nat)[i],
        ) == bank.value(block[i]),
{
    let v: u64 = bank.value(block[i]);
    assert(0u64 ^ v == v) by (bit_vector);
}

/// A chain is write-once: it leaves every register and every operation that
/// the bank held before as it was.
pub proof fn law_chain_keeps_what_was(
    bank: BankView,
    state: Seq<usize>,
    input: Seq<usize>,
    log_size: usize,
    k: nat,
)
    ensures
        chain_from(bank, state, input, log_size, k).bank.registers.len() >= bank.registers.len(),
        chain_from(bank, state, input, log_size, k).bank.steps.len() >= bank.steps.len(),
        forall|h: int|
            0 <= h < bank.registers.len() ==> #[trigger] chain_from(
                bank,
                state,
                input,
                log_size,
                k,
            ).bank.registers[h] == bank.registers[h],
        forall|i: int|
            0 <= i < bank.steps.len() ==> #[trigger] chain_from(
                bank,
                state,
                input,
                log_size,
                k,
            ).bank.steps[i] == bank.steps[i],
    decreases input.len() - k * CHUNK_SIZE,
{
    if (k + 1) * CHUNK_SIZE <= input.len() {
        let block = input.subrange(k * CHUNK_SIZE as int, (k + 1) * CHUNK_SIZE as int);
        if accepts_absorb(bank, state, block, log_size) {
            let mixed = absorbed(bank, state, block, log_size, PERMUTE_STATE as nat);
            let next = mixed.permute(
                handles_from(bank.next_handle(), PERMUTE_STATE as nat),
                log_size,
            );
            law_chain_keeps_what_was(
                next,
                handles_from(mixed.next_handle(), PERMUTE_STATE as nat),
                input,
                log_size,
                k + 1,
            );
            assert forall|h: int| 0 <= h < bank.registers.len() implies next.registers[h]
                == bank.registers[h] by {}
            assert forall|i: int| 0 <= i < bank.steps.len() implies next.steps[i]
                == bank.steps[i] by {}
        }
    }
}

/// Number of registers that one block adds to the bank: 25 combined lanes
/// and 25 permuted lanes.
pub const REGISTERS_PER_BLOCK: usize = 50;

/// Number of operations that one block records: 25 exclusive ors and one
/// permutation.
pub const STEPS_PER_BLOCK: usize = 26;

/// The state that block `j` is absorbed into, in a chain that starts with
/// block `k` from `state` in a bank whose next handle is `first`: the given
/// state for the first block, and for every later block the 25 lanes that
/// the permutation of the block before it produced.
pub open spec fn state_before(state: Seq<usize>, first: usize, k: nat, j: nat) -> Seq<usize> {
    if j <= k {
        state
    } else {
        handles_from(
            (first + REGISTERS_PER_BLOCK * (j - k - 1) + PERMUTE_STATE) as usize,
            PERMUTE_STATE as nat,
        )
    }
}

/// Chaining is strictly sequential: in a chain that succeeds, the operations
/// recorded for block `j` combine each lane of that block with the same lane
/// of the state that block `j - 1` produced, and then permute the 25
/// combined lanes.
pub proof fn law_chain_is_sequential(
    bank: BankView,
    state: Seq<usize>,
    input: Seq<usize>,
    log_size: usize,
    k: nat,
    j: nat,
    lane: int,
)
    requires
        k <= j,
        (j + 1) * CHUNK_SIZE <= input.len(),
        0 <= lane < PERMUTE_STATE,
        state.len() == PERMUTE_STATE,
        chain_from(bank, state, input, log_size, k).failed_at.is_none(),
        chain_from(bank, state, input, log_size, k).bank.registers.len() <= usize::MAX,
    ensures
        bank.steps.len() + STEPS_PER_BLOCK * (j - k) + PERMUTE_STATE < chain_from(
            bank,
            state,
            input,
            log_size,
            k,
        ).bank.steps.len(),
        chain_from(bank, state, input, log_size, k).bank.steps[bank.steps.len() + STEPS_PER_BLOCK
            * (j - k) + lane] == (Step::Xor {
            a: state_before(state, bank.next_handle(), k, j)[lane],
            b: input[j * CHUNK_SIZE + lane],
            out: (bank.registers.len() + REGISTERS_PER_BLOCK * (j - k) + lane) as usize,
        }),
        chain_from(bank, state, input, log_size, k).bank.steps[bank.steps.len() + STEPS_PER_BLOCK
            * (j - k) + PERMUTE_STATE] == (Step::Permute {
            state: handles_from(
                (bank.registers.len() + REGISTERS_PER_BLOCK * (j - k)) as usize,
                PERMUTE_STATE as nat,
            ),
            out: (bank.registers.len() + REGISTERS_PER_BLOCK * (j - k) + PERMUTE_STATE) as usize,
        }),
    decreases input.len() - k * CHUNK_SIZE,
{
    assert((k + 1) * CHUNK_SIZE <= input.len()) by (nonlinear_arith)
        requires
            k <= j,
            (j + 1) * CHUNK_SIZE <= input.len(),
    ;
    let block = input.subrange(k * CHUNK_SIZE as int, (k + 1) * CHUNK_SIZE as int);
    let mixed = absorbed(bank, state, block, log_size, PERMUTE_STATE as nat);
    let next = mixed.permute(handles_from(bank.next_handle(), PERMUTE_STATE as nat), log_size);
    let next_state = handles_from(mixed.next_handle(), PERMUTE_STATE as nat);
    law_chain_keeps_what_was(next, next_state, input, log_size, k + 1);
    if j > k {
        law_chain_is_sequential(next, next_state, input, log_size, k + 1, j, lane);
        assert(state_before(next_state, next.next_handle(), k + 1, j) =~= state_before(
            state,
            bank.next_handle(),
            k,
            j,
        ));
    } else {
        let at = bank.steps.len() as int;
        assert(next.steps[at + lane] == Step::Xor {
            a: state[lane],
            b: block[lane],
            out: (bank.registers.len() + lane) as usize,
        });
        assert(next.steps[at + PERMUTE_STATE] == Step::Permute {
            state: handles_from(bank.next_handle(), PERMUTE_STATE as nat),
            out: mixed.next_handle(),
        });
    }
}

/// The initial state always decodes to 25 zero lanes, whatever the bank
/// held before.
pub proof fn law_initial_state_is_zero(bank: BankView, log_size: usize, i: int)
    requires
        bank.registers.len() + PERMUTE_STATE <= usize::MAX,
        0 <= i < PERMUTE_STATE,
    ensures
        with_initial_state(bank, log_size).is_bound(
            handles_from(bank.next_handle(), PERMUTE_STATE as nat)[i],
        ),
        with_initial_state(bank, log_size).output_word(
            handles_from(bank.next_handle(), PERMUTE_STATE as nat)[i],
        ) == 0,
{
    let h = handles_from(bank.next_handle(), PERMUTE_STATE as nat)[i];
    assert(with_initial_state(bank, log_size).registers[h as int].value == Some(0u64));
}

/// Chaining has no hidden input: the same bank, state and input always give
/// the same final state and the same bank.
pub proof fn law_chain_is_deterministic(
    bank: BankView,
    other_bank: BankView,
    state: Seq<usize>,
    other_state: Seq<usize>,
    input: Seq<usize>,
    other_input: Seq<usize>,
    log_size: usize,
)
    requires
        bank.registers =~= other_bank.registers,
        bank.steps =~= other_bank.steps,
        state =~= other_state,
        input =~= other_input,
    ensures
        chain_from(bank, state, input, log_size, 0) == chain_from(
            other_bank,
            other_state,
            other_input,
            log_size,
            0,
        ),
{
}

} // verus!
