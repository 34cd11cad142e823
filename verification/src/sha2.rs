//! The SHA-256 variant: Merkle–Damgård chaining of the compression transform.

use vstd::prelude::*;
use crate::bank::{
    handles_from, BankView, RegisterBank, Step, Tag, COMPRESS_STATE, MAX_LOG_SIZE,
};
use crate::error::{Algorithm, SessionError};
use crate::utils::{
    append, block_at, lemma_appended_push, load_input, pad_input, padding_needed, reports, widened,
    zeros, Outcome,
};
use crate::width::WidthClass;

verus! {

/// Number of input registers in one block.
pub const CHUNK_SIZE: usize = 16;

/// The `i`-th word of the standard initial state of SHA-256.
pub open spec fn iv_word(i: int) -> u32 {
    if i == 0 {
        0x6a09e667
    } else if i == 1 {
        0xbb67ae85
    } else if i == 2 {
        0x3c6ef372
    } else if i == 3 {
        0xa54ff53a
    } else if i == 4 {
        0x510e527f
    } else if i == 5 {
        0x9b05688c
    } else if i == 6 {
        0x1f83d9ab
    } else {
        0x5be0cd19
    }
}

/// The first `n` words of the standard initial state, widened.
pub open spec fn iv_words(n: nat) -> Seq<u64> {
    Seq::new(n, |i: int| iv_word(i) as u64)
}

/// The `i`-th word of the standard initial state of SHA-256.
pub fn init_word(i: usize) -> (w: u32)
    requires
        i < COMPRESS_STATE,
    ensures
        w == iv_word(i as int),
{
    if i == 0 {
        0x6a09e667
    } else if i == 1 {
        0xbb67ae85
    } else if i == 2 {
        0x3c6ef372
    } else if i == 3 {
        0xa54ff53a
    } else if i == 4 {
        0x510e527f
    } else if i == 5 {
        0x9b05688c
    } else if i == 6 {
        0x1f83d9ab
    } else {
        0x5be0cd19
    }
}

/// The bank with the initial state of SHA-256 appended: 8 constant registers
/// of one-bit rows that hold the standard words.
pub open spec fn with_initial_state(bank: BankView, log_size: usize) -> BankView {
    bank.constants(Tag::Init, iv_words(COMPRESS_STATE as nat), log_size, WidthClass::OneBit)
}

/// The chain over the blocks `k, k + 1, ..` of `input`, from `state`: each
/// block in turn is compressed into the state that the block before it left.
/// A trailing part of `input` that fills no block is not read.
pub open spec fn chain_from(
    bank: BankView,
    state: Seq<usize>,
    input: Seq<usize>,
    log_size: usize,
    k: nat,
) -> Outcome
    decreases input.len() - k * CHUNK_SIZE,
{
    if (k + 1) * CHUNK_SIZE > input.len() {
        Outcome { bank, state, failed_at: None }
    } else {
        let block = input.subrange(k * CHUNK_SIZE as int, (k + 1) * CHUNK_SIZE as int);
        if !bank.accepts_compress(state, block, log_size) {
            Outcome { bank, state, failed_at: Some(k as usize) }
        } else {
            chain_from(
                bank.compress(state, block, log_size),
                handles_from(bank.next_handle(), COMPRESS_STATE as nat),
                input,
                log_size,
                k + 1,
            )
        }
    }
}

/// What [`sha2`] does to a bank: pad `input` with zero registers of class
/// `width`, append the initial state, and chain over all blocks.
pub open spec fn sha2_outcome(
    bank: BankView,
    input: Seq<usize>,
    log_size: usize,
    width: WidthClass,
) -> Outcome {
    let pad = padding_needed(input.len(), CHUNK_SIZE as nat);
    let padded = bank.committed(Tag::InputPadding, zeros(pad), log_size, width);
    chain_from(
        with_initial_state(padded, log_size),
        handles_from(padded.next_handle(), COMPRESS_STATE as nat),
        input + handles_from(bank.next_handle(), pad),
        log_size,
        0,
    )
}

/// Appends the initial state of SHA-256 to the bank and returns its handles.
///
/// Fails with [`SessionError::RegisterAllocation`], leaving the bank as it
/// was, when the bank rejects `log_size`.
pub fn init_state(bank: &mut RegisterBank, log_size: usize) -> (r: Result<Vec<usize>, SessionError>)
    requires
        old(bank)@.wf(),
    ensures
        final(bank)@.wf(),
        r.is_err() <==> log_size > MAX_LOG_SIZE,
        r.is_err() ==> r == Err::<Vec<usize>, SessionError>(SessionError::RegisterAllocation)
            && final(bank)@ == old(bank)@,
        r.is_ok() ==> r.unwrap()@ == handles_from(old(bank)@.next_handle(), COMPRESS_STATE as nat)
            && final(bank)@ == with_initial_state(old(bank)@, log_size),
        r.is_ok() ==> forall|i: int|
            0 <= i < COMPRESS_STATE ==> final(bank)@.is_bound(#[trigger] r.unwrap()@[i]) && final(bank)@.output_word(r.unwrap()@[i]) == iv_word(i),
{
    if log_size > MAX_LOG_SIZE {
        return Err(SessionError::RegisterAllocation);
    }
    let mut state: Vec<usize> = Vec::new();
    proof {
        let want = old(bank)@.constants(Tag::Init, iv_words(0), log_size, WidthClass::OneBit);
        assert(bank@.registers =~= want.registers);
        assert(bank@.steps =~= want.steps);
        assert(state@ =~= handles_from(old(bank)@.next_handle(), 0));
    }
    let mut i: usize = 0;
    while i < COMPRESS_STATE
        invariant
            i <= COMPRESS_STATE,
            log_size <= MAX_LOG_SIZE,
            bank@.wf(),
            bank@ == old(bank)@.constants(
                Tag::Init,
                iv_words(i as nat),
                log_size,
                WidthClass::OneBit,
            ),
            state@ == handles_from(old(bank)@.next_handle(), i as nat),
        decreases COMPRESS_STATE - i,
    {
        let word: u64 = init_word(i) as u64;
        let h: usize = append(bank, Tag::Init, word, log_size, WidthClass::OneBit, true);
        state.push(h);
        proof {
            lemma_appended_push(
                old(bank)@,
                Tag::Init,
                iv_words(i as nat),
                word,
                log_size,
                WidthClass::OneBit,
                true,
            );
            assert(iv_words(i as nat).push(word) =~= iv_words((i + 1) as nat));
        }
        i += 1;
    }
    proof {
        assert forall|j: int| 0 <= j < COMPRESS_STATE implies bank@.is_bound(
            #[trigger] state@[j],
        ) && bank@.output_word(state@[j]) == iv_word(j) by {
            assert(bank@.registers[state@[j] as int].value == Some(iv_word(j) as u64));
            assert((iv_word(j) as u64) % 0x1_0000_0000 == iv_word(j) as u64);
        }
    }
    Ok(state)
}

/// Chains the compression transform over the blocks of `input`, in order,
/// starting from `state`: block `k + 1` is compressed into the state that
/// block `k` produced.
///
/// Fails with [`SessionError::BlockTransform`], carrying the index of the
/// block, when the bank rejects a compression; the bank then holds the
/// blocks before that one.
pub fn chain(bank: &mut RegisterBank, state: Vec<usize>, input: &Vec<usize>, log_size: usize) -> (r:
    Result<Vec<usize>, SessionError>)
    requires
        old(bank)@.wf(),
        input@.len() % CHUNK_SIZE as nat == 0,
    ensures
        final(bank)@.wf(),
        final(bank)@ == chain_from(old(bank)@, state@, input@, log_size, 0).bank,
        reports(r, chain_from(old(bank)@, state@, input@, log_size, 0), Algorithm::Sha256),
{
    let blocks: usize = input.len() / CHUNK_SIZE;
    let mut current: Vec<usize> = state;
    let mut k: usize = 0;
    while k < blocks
        invariant
            k <= blocks,
            blocks * CHUNK_SIZE == input@.len() <= usize::MAX,
            bank@.wf(),
            chain_from(old(bank)@, state@, input@, log_size, 0) == chain_from(
                bank@,
                current@,
                input@,
                log_size,
                k as nat,
            ),
        decreases blocks - k,
    {
        let block: Vec<usize> = block_at(input, k * CHUNK_SIZE, CHUNK_SIZE);
        match bank.compress(&current, &block, log_size) {
            Some(next) => {
                current = next;
            },
            None => {
                return Err(
                    SessionError::BlockTransform { block_index: k, algorithm: Algorithm::Sha256 },
                );
            },
        }
        k += 1;
    }
    Ok(current)
}

/// Pads `input` to whole blocks with zero registers of class `width`,
/// appends the initial state, and chains over all blocks. Returns the
/// handles of the final state.
///
/// Fails with [`SessionError::RegisterAllocation`], leaving the bank as it
/// was, when the bank rejects `log_size`; with
/// [`SessionError::BlockTransform`] when it rejects the compression of a
/// block.
pub fn sha2(bank: &mut RegisterBank, input: Vec<usize>, log_size: usize, width: WidthClass) -> (r:
    Result<Vec<usize>, SessionError>)
    requires
        old(bank)@.wf(),
    ensures
        final(bank)@.wf(),
        log_size > MAX_LOG_SIZE ==> r == Err::<Vec<usize>, SessionError>(
            SessionError::RegisterAllocation,
        ) && final(bank)@ == old(bank)@,
        log_size <= MAX_LOG_SIZE ==> final(bank)@ == sha2_outcome(
            old(bank)@,
            input@,
            log_size,
            width,
        ).bank && reports(
            r,
            sha2_outcome(old(bank)@, input@, log_size, width),
            Algorithm::Sha256,
        ),
        log_size <= MAX_LOG_SIZE && old(bank)@.uniform(input@, log_size, None) ==> r.is_ok()
            && r.unwrap()@.len() == COMPRESS_STATE,
{
    if log_size > MAX_LOG_SIZE {
        return Err(SessionError::RegisterAllocation);
    }
    let mut padded: Vec<usize> = input;
    match pad_input(bank, &mut padded, CHUNK_SIZE, log_size, width) {
        Ok(()) => {},
        Err(e) => {
            return Err(e);
        },
    }
    let r = match init_state(bank, log_size) {
        Ok(state) => chain(bank, state, &padded, log_size),
        Err(e) => Err(e),
    };
    proof {
        if old(bank)@.uniform(input@, log_size, None) {
            law_sha2_succeeds(old(bank)@, input@, log_size, width);
        }
    }
    r
}

/// Encodes the bytes of `input` as registers of 8-bit rows and runs [`sha2`]
/// over them. Returns the handles of the final state, whose registers the
/// backend binds when it performs the recorded operations.
///
/// Fails with [`SessionError::RegisterAllocation`], leaving the bank as it
/// was, when the bank rejects `log_size`.
pub fn trace_gen(bank: &mut RegisterBank, input: Vec<u8>, log_size: usize) -> (r: Result<
    Vec<usize>,
    SessionError,
>)
    requires
        old(bank)@.wf(),
    ensures
        final(bank)@.wf(),
        log_size > MAX_LOG_SIZE ==> r == Err::<Vec<usize>, SessionError>(
            SessionError::RegisterAllocation,
        ) && final(bank)@ == old(bank)@,
        log_size <= MAX_LOG_SIZE ==> final(bank)@ == trace_outcome(
            old(bank)@,
            input@,
            log_size,
        ).bank && reports(r, trace_outcome(old(bank)@, input@, log_size), Algorithm::Sha256),
        log_size <= MAX_LOG_SIZE ==> r.is_ok() && r.unwrap()@.len() == COMPRESS_STATE,
{
    if log_size > MAX_LOG_SIZE {
        return Err(SessionError::RegisterAllocation);
    }
    let r = match load_input(bank, Tag::Input, input, log_size) {
        Ok(registers) => sha2(bank, registers, log_size, WidthClass::EightBit),
        Err(e) => Err(e),
    };
    proof {
        law_trace_gen_succeeds(old(bank)@, input@, log_size);
    }
    r
}

/// What [`trace_gen`] does to a bank: commit one register of 8-bit rows per
/// byte of `input`, then run [`sha2`] over them.
pub open spec fn trace_outcome(bank: BankView, input: Seq<u8>, log_size: usize) -> Outcome {
    sha2_outcome(
        bank.committed(Tag::Input, widened(input), log_size, WidthClass::EightBit),
        handles_from(bank.next_handle(), input.len()),
        log_size,
        WidthClass::EightBit,
    )
}

/// A chain only appends registers to the bank.
pub proof fn lemma_chain_grows(
    bank: BankView,
    state: Seq<usize>,
    input: Seq<usize>,
    log_size: usize,
    k: nat,
)
    ensures
        chain_from(bank, state, input, log_size, k).bank.registers.len() >= bank.registers.len(),
    decreases input.len() - k * CHUNK_SIZE,
{
    if (k + 1) * CHUNK_SIZE <= input.len() {
        let block = input.subrange(k * CHUNK_SIZE as int, (k + 1) * CHUNK_SIZE as int);
        if bank.accepts_compress(state, block, log_size) {
            lemma_chain_grows(
                bank.compress(state, block, log_size),
                handles_from(bank.next_handle(), COMPRESS_STATE as nat),
                input,
                log_size,
                k + 1,
            );
        }
    }
}

/// The hash state keeps its size along a chain: 8 registers go in, 8 come
/// out, whatever the number of blocks.
pub proof fn law_state_size_is_kept(
    bank: BankView,
    state: Seq<usize>,
    input: Seq<usize>,
    log_size: usize,
    k: nat,
)
    requires
        state.len() == COMPRESS_STATE,
    ensures
        chain_from(bank, state, input, log_size, k).state.len() == COMPRESS_STATE,
    decreases input.len() - k * CHUNK_SIZE,
{
    if (k + 1) * CHUNK_SIZE <= input.len() {
        let block = input.subrange(k * CHUNK_SIZE as int, (k + 1) * CHUNK_SIZE as int);
        if bank.accepts_compress(state, block, log_size) {
            law_state_size_is_kept(
                bank.compress(state, block, log_size),
                handles_from(bank.next_handle(), COMPRESS_STATE as nat),
                input,
                log_size,
                k + 1,
            );
        }
    }
}

/// No compression is rejected along a chain whose state is 8 registers of
/// one-bit rows and whose input registers all have `2^log_size` rows, as long
/// as the handles of the registers it creates fit in a machine word.
pub proof fn law_uniform_chain_succeeds(
    bank: BankView,
    state: Seq<usize>,
    input: Seq<usize>,
    log_size: usize,
    k: nat,
)
    requires
        log_size <= MAX_LOG_SIZE,
        state.len() == COMPRESS_STATE,
        bank.uniform(state, log_size, Some(WidthClass::OneBit)),
        bank.uniform(input, log_size, None),
        chain_from(bank, state, input, log_size, k).bank.registers.len() <= usize::MAX,
    ensures
        chain_from(bank, state, input, log_size, k).failed_at.is_none(),
    decreases input.len() - k * CHUNK_SIZE,
{
    if (k + 1) * CHUNK_SIZE <= input.len() {
        let block = input.subrange(k * CHUNK_SIZE as int, (k + 1) * CHUNK_SIZE as int);
        assert(bank.uniform(block, log_size, None)) by {
            assert forall|i: int| 0 <= i < block.len() implies {
                &&& bank.has(#[trigger] block[i])
                &&& bank.registers[block[i] as int].log_size == log_size
            } by {
                assert(block[i] == input[k * CHUNK_SIZE + i]);
            }
        }
        let next = bank.compress(state, block, log_size);
        let next_state = handles_from(bank.next_handle(), COMPRESS_STATE as nat);
        lemma_chain_grows(next, next_state, input, log_size, k + 1);
        assert(next.uniform(input, log_size, None)) by {
            assert forall|i: int| 0 <= i < input.len() implies {
                &&& next.has(#[trigger] input[i])
                &&& next.registers[input[i] as int].log_size == log_size
            } by {
                assert(bank.has(input[i]));
            }
        }
        assert(next.uniform(next_state, log_size, Some(WidthClass::OneBit)));
        law_uniform_chain_succeeds(next, next_state, input, log_size, k + 1);
    }
}

/// [`sha2`] succeeds on every input whose registers all have `2^log_size`
/// rows, as long as the handles of the registers it creates fit in a machine
/// word; and the state it returns has 8 registers.
pub proof fn law_sha2_succeeds(bank: BankView, input: Seq<usize>, log_size: usize, width: WidthClass)
    requires
        log_size <= MAX_LOG_SIZE,
        bank.uniform(input, log_size, None),
        sha2_outcome(bank, input, log_size, width).bank.registers.len() <= usize::MAX,
    ensures
        sha2_outcome(bank, input, log_size, width).failed_at.is_none(),
        sha2_outcome(bank, input, log_size, width).state.len() == COMPRESS_STATE,
{
    let pad = padding_needed(input.len(), CHUNK_SIZE as nat);
    let padded = bank.committed(Tag::InputPadding, zeros(pad), log_size, width);
    let ready = with_initial_state(padded, log_size);
    let state = handles_from(padded.next_handle(), COMPRESS_STATE as nat);
    let blocks = input + handles_from(bank.next_handle(), pad);
    lemma_chain_grows(ready, state, blocks, log_size, 0);
    law_state_size_is_kept(ready, state, blocks, log_size, 0);
    assert(ready.uniform(state, log_size, Some(WidthClass::OneBit)));
    assert(ready.uniform(blocks, log_size, None)) by {
        assert forall|i: int| 0 <= i < blocks.len() implies {
            &&& ready.has(#[trigger] blocks[i])
            &&& ready.registers[blocks[i] as int].log_size == log_size
        } by {
            if i < input.len() {
                assert(bank.has(input[i]));
            }
        }
    }
    law_uniform_chain_succeeds(ready, state, blocks, log_size, 0);
}

/// [`trace_gen`] succeeds whenever the bank accepts `log_size`, as long as
/// the handles of the registers it creates fit in a machine word.
pub proof fn law_trace_gen_succeeds(bank: BankView, input: Seq<u8>, log_size: usize)
    requires
        log_size <= MAX_LOG_SIZE,
        trace_outcome(bank, input, log_size).bank.registers.len() <= usize::MAX,
    ensures
        trace_outcome(bank, input, log_size).failed_at.is_none(),
        trace_outcome(bank, input, log_size).state.len() == COMPRESS_STATE,
{
    let loaded = bank.committed(Tag::Input, widened(input), log_size, WidthClass::EightBit);
    let registers = handles_from(bank.next_handle(), input.len());
    let pad = padding_needed(registers.len(), CHUNK_SIZE as nat);
    let padded = loaded.committed(Tag::InputPadding, zeros(pad), log_size, WidthClass::EightBit);
    lemma_chain_grows(
        with_initial_state(padded, log_size),
        handles_from(padded.next_handle(), COMPRESS_STATE as nat),
        registers + handles_from(loaded.next_handle(), pad),
        log_size,
        0,
    );
    assert(loaded.uniform(registers, log_size, None));
    law_sha2_succeeds(loaded, registers, log_size, WidthClass::EightBit);
}

/// A chain is write-once: it leaves every register and every operation that
/// the bank held before as it was.
pub proof fn law_chain_keeps_what_was(
    bank: BankView,
    state: Seq<usize>,
    input: Seq<usize>,
    log_size: usize,
    k: nat,
)
    ensures
        chain_from(bank, state, input, log_size, k).bank.registers.len() >= bank.registers.len(),
        chain_from(bank, state, input, log_size, k).bank.steps.len() >= bank.steps.len(),
        forall|h: int|
            0 <= h < bank.registers.len() ==> #[trigger] chain_from(
                bank,
                state,
                input,
                log_size,
                k,
            ).bank.registers[h] == bank.registers[h],
        forall|i: int|
            0 <= i < bank.steps.len() ==> #[trigger] chain_from(
                bank,
                state,
                input,
                log_size,
                k,
            ).bank.steps[i] == bank.steps[i],
    decreases input.len() - k * CHUNK_SIZE,
{
    if (k + 1) * CHUNK_SIZE <= input.len() {
        let block = input.subrange(k * CHUNK_SIZE as int, (k + 1) * CHUNK_SIZE as int);
        if bank.accepts_compress(state, block, log_size) {
            let next = bank.compress(state, block, log_size);
            law_chain_keeps_what_was(
                next,
                handles_from(bank.next_handle(), COMPRESS_STATE as nat),
                input,
                log_size,
                k + 1,
            );
            assert forall|h: int| 0 <= h < bank.registers.len() implies next.registers[h]
                == bank.registers[h] by {}
            assert forall|i: int| 0 <= i < bank.steps.len() implies next.steps[i]
                == bank.steps[i] by {}
        }
    }
}

/// The state that block `j` is compressed into, in a chain that starts with
/// block `k` from `state` in a bank whose next handle is `first`: the given
/// state for the first block, and for every later block the 8 registers that
/// the block before it produced.
pub open spec fn state_before(state: Seq<usize>, first: usize, k: nat, j: nat) -> Seq<usize> {
    if j <= k {
        state
    } else {
        handles_from((first + COMPRESS_STATE * (j - k - 1)) as usize, COMPRESS_STATE as nat)
    }
}

/// Chaining is strictly sequential: in a chain that succeeds, the operation
/// recorded for block `j` compresses that block into the state that block
/// `j - 1` produced, and produces the 8 registers that follow.
pub proof fn law_chain_is_sequential(
    bank: BankView,
    state: Seq<usize>,
    input: Seq<usize>,
    log_size: usize,
    k: nat,
    j: nat,
)
    requires
        k <= j,
        (j + 1) * CHUNK_SIZE <= input.len(),
        chain_from(bank, state, input, log_size, k).failed_at.is_none(),
        chain_from(bank, state, input, log_size, k).bank.registers.len() <= usize::MAX,
    ensures
        bank.steps.len() + (j - k) < chain_from(bank, state, input, log_size, k).bank.steps.len(),
        chain_from(bank, state, input, log_size, k).bank.steps[bank.steps.len() + (j - k)] == (
        Step::Compress {
            state: state_before(state, bank.next_handle(), k, j),
            block: input.subrange(j * CHUNK_SIZE as int, (j + 1) * CHUNK_SIZE as int),
            out: (bank.registers.len() + COMPRESS_STATE * (j - k)) as usize,
        }),
    decreases input.len() - k * CHUNK_SIZE,
{
    assert((k + 1) * CHUNK_SIZE <= input.len()) by (nonlinear_arith)
        requires
            k <= j,
            (j + 1) * CHUNK_SIZE <= input.len(),
    ;
    let block = input.subrange(k * CHUNK_SIZE as int, (k + 1) * CHUNK_SIZE as int);
    let next = bank.compress(state, block, log_size);
    let next_state = handles_from(bank.next_handle(), COMPRESS_STATE as nat);
    law_chain_keeps_what_was(next, next_state, input, log_size, k + 1);
    if j > k {
        law_chain_is_sequential(next, next_state, input, log_size, k + 1, j);
        if j > k + 1 {
            assert(state_before(next_state, next.next_handle(), k + 1, j) == state_before(
                state,
                bank.next_handle(),
                k,
                j,
            ));
        }
    } else {
        assert(next.steps[bank.steps.len() as int] == Step::Compress {
            state,
            block,
            out: bank.next_handle(),
        });
    }
}

/// The initial state always decodes to the standard words, whatever the
/// bank held before.
pub proof fn law_initial_state_is_standard(bank: BankView, log_size: usize, i: int)
    requires
        bank.registers.len() + COMPRESS_STATE <= usize::MAX,
        0 <= i < COMPRESS_STATE,
    ensures
        with_initial_state(bank, log_size).is_bound(
            handles_from(bank.next_handle(), COMPRESS_STATE as nat)[i],
        ),
        with_initial_state(bank, log_size).output_word(
            handles_from(bank.next_handle(), COMPRESS_STATE as nat)[i],
        ) == iv_word(i),
{
    let h = handles_from(bank.next_handle(), COMPRESS_STATE as nat)[i];
    assert(with_initial_state(bank, log_size).registers[h as int].value == Some(
        iv_word(i) as u64,
    ));
    assert((iv_word(i) as u64) % 0x1_0000_0000 == iv_word(i) as u64);
}

/// Chaining has no hidden input: the same bank, state and input always give
/// the same final state and the same bank.
pub proof fn law_chain_is_deterministic(
    bank: BankView,
    other_bank: BankView,
    state: Seq<usize>,
    other_state: Seq<usize>,
    input: Seq<usize>,
    other_input: Seq<usize>,
    log_size: usize,
)
    requires
        bank.registers =~= other_bank.registers,
        bank.steps =~= other_bank.steps,
        state =~= other_state,
        input =~= other_input,
    ensures
        chain_from(bank, state, input, log_size, 0) == chain_from(
            other_bank,
            other_state,
            other_input,
            log_size,
            0,
        ),
{
}

} // verus!
