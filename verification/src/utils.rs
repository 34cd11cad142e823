//! Input encoding, padding and output extraction.

use vstd::prelude::*;
use crate::bank::{handles_from, BankView, Register, RegisterBank, Step, Tag, MAX_LOG_SIZE};
use crate::error::{Algorithm, SessionError};
use crate::width::WidthClass;

verus! {

/// Number of zero units that bring a sequence of `len` units up to the next
/// multiple of `block`.
pub open spec fn padding_needed(len: nat, block: nat) -> nat
    recommends
        block > 0,
{
    ((block - len % block) % (block as int)) as nat
}

/// Two to the power of 32: a register of one-bit rows holds a word of 32
/// bits.
pub const WORD_MODULUS: u64 = 0x1_0000_0000;

impl BankView {
    /// The bank after one register per value of `values` was appended, in
    /// order, each bound to its value: as constants, or else as committed
    /// literals.
    pub open spec fn appended(
        self,
        tag: Tag,
        values: Seq<u64>,
        log_size: usize,
        width: WidthClass,
        constant: bool,
    ) -> BankView {
        BankView {
            registers: self.registers + Seq::new(
                values.len(),
                |i: int| Register { tag, width, log_size, value: Some(values[i]) },
            ),
            steps: self.steps + Seq::new(
                values.len(),
                |i: int|
                    if constant {
                        Step::Constant { out: (self.registers.len() + i) as usize }
                    } else {
                        Step::Commit { out: (self.registers.len() + i) as usize }
                    },
            ),
        }
    }

    /// The bank after one register per value of `values` was committed, in
    /// order, each bound to its value.
    pub open spec fn committed(
        self,
        tag: Tag,
        values: Seq<u64>,
        log_size: usize,
        width: WidthClass,
    ) -> BankView {
        self.appended(tag, values, log_size, width, false)
    }

    /// The bank after one constant register per value of `values` was
    /// appended, in order.
    pub open spec fn constants(
        self,
        tag: Tag,
        values: Seq<u64>,
        log_size: usize,
        width: WidthClass,
    ) -> BankView {
        self.appended(tag, values, log_size, width, true)
    }

    /// The output word that a bound register stands for. A register of
    /// one-bit rows holds a 32-bit word, which is widened; any other register
    /// gives its value as it is.
    pub open spec fn output_word(self, h: usize) -> u64
        recommends
            self.is_bound(h),
    {
        match self.registers[h as int].width {
            WidthClass::OneBit => self.value(h) % WORD_MODULUS,
            _ => self.value(h),
        }
    }

    /// Every register of `handles` is bound.
    pub open spec fn all_bound(self, handles: Seq<usize>) -> bool {
        forall|i: int| 0 <= i < handles.len() ==> self.is_bound(#[trigger] handles[i])
    }
}

/// How a chain ended: the bank and the state it reached, and the index of
/// the block whose transform was rejected, if one was.
pub struct Outcome {
    pub bank: BankView,
    pub state: Seq<usize>,
    pub failed_at: Option<usize>,
}

/// Whether `r` reports `outcome`: the final state, or the rejected block.
pub open spec fn reports(r: Result<Vec<usize>, SessionError>, outcome: Outcome, algorithm: Algorithm)
    -> bool {
    match r {
        Ok(state) => outcome.failed_at.is_none() && state@ == outcome.state,
        Err(e) => outcome.failed_at.is_some() && e == (SessionError::BlockTransform {
            block_index: outcome.failed_at.unwrap(),
            algorithm,
        }),
    }
}

/// The bytes of `values`, each widened to 64 bits.
pub open spec fn widened(values: Seq<u8>) -> Seq<u64> {
    Seq::new(values.len(), |i: int| values[i] as u64)
}

/// A run of `n` zeros.
pub open spec fn zeros(n: nat) -> Seq<u64> {
    Seq::new(n, |i: int| 0u64)
}

/// Appends one register bound to `value`, as a constant or else as a
/// committed literal, and returns its handle.
pub(crate) fn append(
    bank: &mut RegisterBank,
    tag: Tag,
    value: u64,
    log_size: usize,
    width: WidthClass,
    constant: bool,
) -> (h: usize)
    requires
        old(bank)@.wf(),
        log_size <= MAX_LOG_SIZE,
    ensures
        final(bank)@.wf(),
        h == old(bank)@.next_handle(),
        final(bank)@ == old(bank)@.appended(tag, seq![value], log_size, width, constant),
{
    let h: usize = if constant {
        bank.constant(tag, log_size, width, value).unwrap()
    } else {
        let h: usize = bank.allocate_register(tag, log_size, width).unwrap();
        bank.bind(h, value);
        h
    };
    proof {
        let want = old(bank)@.appended(tag, seq![value], log_size, width, constant);
        assert(bank@.registers =~= want.registers);
        assert(bank@.steps =~= want.steps);
    }
    h
}

/// Appending `values` and then one more value is appending all of them at
/// once, and the handles run on.
pub(crate) proof fn lemma_appended_push(
    bank: BankView,
    tag: Tag,
    values: Seq<u64>,
    value: u64,
    log_size: usize,
    width: WidthClass,
    constant: bool,
)
    requires
        bank.registers.len() + values.len() <= usize::MAX,
    ensures
        bank.appended(tag, values, log_size, width, constant).appended(
            tag,
            seq![value],
            log_size,
            width,
            constant,
        ) == bank.appended(tag, values.push(value), log_size, width, constant),
        handles_from(bank.next_handle(), values.len()).push(
            bank.appended(tag, values, log_size, width, constant).next_handle(),
        ) == handles_from(bank.next_handle(), values.len() + 1),
{
    let step = bank.appended(tag, values, log_size, width, constant).appended(
        tag,
        seq![value],
        log_size,
        width,
        constant,
    );
    let whole = bank.appended(tag, values.push(value), log_size, width, constant);
    assert(step.registers =~= whole.registers);
    assert(step.steps =~= whole.steps);
    assert(handles_from(bank.next_handle(), values.len()).push(
        bank.appended(tag, values, log_size, width, constant).next_handle(),
    ) =~= handles_from(bank.next_handle(), values.len() + 1));
}

/// Creates one register of 64-bit rows per word of `values`, in order, each
/// bound to its word on all `2^log_size` rows, and returns their handles.
///
/// Fails with [`SessionError::RegisterAllocation`], leaving the bank as it
/// was, when there is a value to encode and the bank rejects `log_size`.
pub fn load_words(bank: &mut RegisterBank, tag: Tag, values: Vec<u64>, log_size: usize) -> (r:
    Result<Vec<usize>, SessionError>)
    requires
        old(bank)@.wf(),
    ensures
        final(bank)@.wf(),
        r.is_err() <==> values@.len() > 0 && log_size > MAX_LOG_SIZE,
        r.is_err() ==> r == Err::<Vec<usize>, SessionError>(SessionError::RegisterAllocation)
            && final(bank)@ == old(bank)@,
        r.is_ok() ==> r.unwrap()@ == handles_from(old(bank)@.next_handle(), values@.len())
            && final(bank)@ == old(bank)@.committed(
            tag,
            values@,
            log_size,
            WidthClass::SixtyFourBit,
        ),
{
    let mut handles: Vec<usize> = Vec::new();
    proof {
        let want = old(bank)@.committed(tag, values@.take(0), log_size, WidthClass::SixtyFourBit);
        assert(bank@.registers =~= want.registers);
        assert(bank@.steps =~= want.steps);
        assert(handles@ =~= handles_from(old(bank)@.next_handle(), 0));
    }
    if values.len() > 0 && log_size > MAX_LOG_SIZE {
        return Err(SessionError::RegisterAllocation);
    }
    let mut i: usize = 0;
    while i < values.len()
        invariant
            i <= values.len(),
            log_size <= MAX_LOG_SIZE || values.len() == 0,
            bank@.wf(),
            bank@ == old(bank)@.committed(
                tag,
                values@.take(i as int),
                log_size,
                WidthClass::SixtyFourBit,
            ),
            handles@ == handles_from(old(bank)@.next_handle(), i as nat),
        decreases values.len() - i,
    {
        let h: usize = append(bank, tag, values[i], log_size, WidthClass::SixtyFourBit, false);
        handles.push(h);
        proof {
            lemma_appended_push(
                old(bank)@,
                tag,
                values@.take(i as int),
                values@[i as int],
                log_size,
                WidthClass::SixtyFourBit,
                false,
            );
            assert(values@.take(i as int).push(values@[i as int]) =~= values@.take(i + 1));
        }
        i += 1;
    }
    assert(values@.take(i as int) =~= values@);
    Ok(handles)
}

/// Creates one register of 8-bit rows per byte of `values`, in order, each
/// bound to its byte on all `2^log_size` rows, and returns their handles.
///
/// Fails with [`SessionError::RegisterAllocation`], leaving the bank as it
/// was, when there is a value to encode and the bank rejects `log_size`.
pub fn load_input(bank: &mut RegisterBank, tag: Tag, values: Vec<u8>, log_size: usize) -> (r:
    Result<Vec<usize>, SessionError>)
    requires
        old(bank)@.wf(),
    ensures
        final(bank)@.wf(),
        r.is_err() <==> values@.len() > 0 && log_size > MAX_LOG_SIZE,
        r.is_err() ==> r == Err::<Vec<usize>, SessionError>(SessionError::RegisterAllocation)
            && final(bank)@ == old(bank)@,
        r.is_ok() ==> r.unwrap()@ == handles_from(old(bank)@.next_handle(), values@.len())
            && final(bank)@ == old(bank)@.committed(
            tag,
            widened(values@),
            log_size,
            WidthClass::EightBit,
        ),
{
    let mut handles: Vec<usize> = Vec::new();
    proof {
        let want = old(bank)@.committed(
            tag,
            widened(values@).take(0),
            log_size,
            WidthClass::EightBit,
        );
        assert(bank@.registers =~= want.registers);
        assert(bank@.steps =~= want.steps);
        assert(handles@ =~= handles_from(old(bank)@.next_handle(), 0));
    }
    if values.len() > 0 && log_size > MAX_LOG_SIZE {
        return Err(SessionError::RegisterAllocation);
    }
    let mut i: usize = 0;
    while i < values.len()
        invariant
            i <= values.len(),
            log_size <= MAX_LOG_SIZE || values.len() == 0,
            bank@.wf(),
            bank@ == old(bank)@.committed(
                tag,
                widened(values@).take(i as int),
                log_size,
                WidthClass::EightBit,
            ),
            handles@ == handles_from(old(bank)@.next_handle(), i as nat),
        decreases values.len() - i,
    {
        let value: u64 = values[i] as u64;
        let h: usize = append(bank, tag, value, log_size, WidthClass::EightBit, false);
        handles.push(h);
        proof {
            lemma_appended_push(
                old(bank)@,
                tag,
                widened(values@).take(i as int),
                value,
                log_size,
                WidthClass::EightBit,
                false,
            );
            assert(widened(values@).take(i as int).push(value) =~= widened(values@).take(i + 1));
        }
        i += 1;
    }
    assert(widened(values@).take(i as int) =~= widened(values@));
    Ok(handles)
}

/// Padding brings any length up to a multiple of the block size, and adds
/// less than one block.
pub proof fn law_padding_alignment(len: nat, block: nat)
    requires
        block > 0,
    ensures
        (len + padding_needed(len, block)) % block == 0,
        padding_needed(len, block) < block,
        len % block == 0 ==> padding_needed(len, block) == 0,
{
    let rem = len % block;
    if rem == 0 {
        assert((block as int) % (block as int) == 0) by {
            vstd::arithmetic::div_mod::lemma_mod_self_0(block as int);
        }
    } else {
        assert((block - rem) % (block as int) == block - rem) by {
            vstd::arithmetic::div_mod::lemma_small_mod((block - rem) as nat, block);
        }
        assert((len + (block - rem)) % (block as int) == 0) by {
            vstd::arithmetic::div_mod::lemma_fundamental_div_mod(len as int, block as int);
            vstd::arithmetic::div_mod::lemma_mod_multiples_vanish(
                len as int / block as int + 1,
                0,
                block as int,
            );
            assert(len + (block - rem) == (block as int) * (len as int / block as int + 1) + 0)
                by (nonlinear_arith)
                requires
                    len == (block as int) * (len as int / block as int) + rem,
            ;
        }
    }
}

/// Number of zero registers that [`pad_input`] appends to `len` registers.
pub fn padding_count(len: usize, block: usize) -> (pad: usize)
    requires
        block > 0,
    ensures
        pad == padding_needed(len as nat, block as nat),
        pad < block,
        (len + pad) % (block as int) == 0,
{
    proof {
        law_padding_alignment(len as nat, block as nat);
    }
    let rem: usize = len % block;
    if rem == 0 {
        0
    } else {
        assert((block - rem) % (block as int) == block - rem) by {
            vstd::arithmetic::div_mod::lemma_small_mod((block - rem) as nat, block as nat);
        }
        block - rem
    }
}

/// Extends `registers` to a whole number of blocks of `block` registers, with
/// fresh registers of width class `width` that are bound to zero.
///
/// Fails with [`SessionError::RegisterAllocation`], leaving the bank and the
/// sequence as they were, when padding is needed and the bank rejects
/// `log_size`.
pub fn pad_input(
    bank: &mut RegisterBank,
    registers: &mut Vec<usize>,
    block: usize,
    log_size: usize,
    width: WidthClass,
) -> (r: Result<(), SessionError>)
    requires
        old(bank)@.wf(),
        block > 0,
    ensures
        final(bank)@.wf(),
        r.is_err() <==> padding_needed(old(registers)@.len(), block as nat) > 0 && log_size
            > MAX_LOG_SIZE,
        r.is_err() ==> r == Err::<(), SessionError>(SessionError::RegisterAllocation) && final(bank)@ == old(bank)@ && final(registers)@ == old(registers)@,
        r.is_ok() ==> final(registers)@ == old(registers)@ + handles_from(
            old(bank)@.next_handle(),
            padding_needed(old(registers)@.len(), block as nat),
        ) && final(bank)@ == old(bank)@.committed(
            Tag::InputPadding,
            zeros(padding_needed(old(registers)@.len(), block as nat)),
            log_size,
            width,
        ),
        r.is_ok() ==> final(registers)@.len() % (block as nat) == 0 && final(registers)@.len()
            - old(registers)@.len() < block,
{
    let pad: usize = padding_count(registers.len(), block);
    proof {
        let want = old(bank)@.committed(Tag::InputPadding, zeros(0), log_size, width);
        assert(bank@.registers =~= want.registers);
        assert(bank@.steps =~= want.steps);
        assert(registers@ =~= old(registers)@ + handles_from(old(bank)@.next_handle(), 0));
    }
    if pad > 0 && log_size > MAX_LOG_SIZE {
        return Err(SessionError::RegisterAllocation);
    }
    let mut i: usize = 0;
    while i < pad
        invariant
            i <= pad,
            log_size <= MAX_LOG_SIZE || pad == 0,
            bank@.wf(),
            bank@ == old(bank)@.committed(Tag::InputPadding, zeros(i as nat), log_size, width),
            registers@ == old(registers)@ + handles_from(old(bank)@.next_handle(), i as nat),
        decreases pad - i,
    {
        let h: usize = append(bank, Tag::InputPadding, 0, log_size, width, false);
        registers.push(h);
        proof {
            lemma_appended_push(
                old(bank)@,
                Tag::InputPadding,
                zeros(i as nat),
                0,
                log_size,
                width,
                false,
            );
            assert(zeros(i as nat).push(0u64) =~= zeros((i + 1) as nat));
            assert(old(registers)@ + handles_from(old(bank)@.next_handle(), (i + 1) as nat)
                =~= (old(registers)@ + handles_from(old(bank)@.next_handle(), i as nat)).push(h));
        }
        i += 1;
    }
    Ok(())
}

/// The `size` handles of `registers` that start at index `start`.
pub fn block_at(registers: &Vec<usize>, start: usize, size: usize) -> (block: Vec<usize>)
    requires
        start + size <= registers@.len(),
    ensures
        block@ == registers@.subrange(start as int, start + size),
{
    let mut block: Vec<usize> = Vec::new();
    let mut i: usize = 0;
    assert(registers@.len() == registers.len());
    while i < size
        invariant
            i <= size,
            start + size <= registers@.len() <= usize::MAX,
            block@ == registers@.subrange(start as int, start + i),
        decreases size - i,
    {
        block.push(registers[start + i]);
        assert(registers@.subrange(start as int, start + i).push(registers@[start + i])
            =~= registers@.subrange(start as int, start + i + 1));
        i += 1;
    }
    block
}

/// Reads the registers of `state` back as output words, in state order.
///
/// Fails with [`SessionError::Readback`] when a register of `state` is not
/// bound.
pub fn extract_output(bank: &RegisterBank, state: &Vec<usize>) -> (r: Result<
    Vec<u64>,
    SessionError,
>)
    ensures
        r.is_ok() <==> bank@.all_bound(state@),
        r.is_err() ==> r == Err::<Vec<u64>, SessionError>(SessionError::Readback),
        r.is_ok() ==> r.unwrap()@.len() == state@.len() && forall|i: int|
            0 <= i < state@.len() ==> #[trigger] r.unwrap()@[i] == bank@.output_word(state@[i]),
{
    let mut words: Vec<u64> = Vec::new();
    let mut i: usize = 0;
    while i < state.len()
        invariant
            i <= state.len(),
            words@.len() == i,
            bank@.all_bound(state@.take(i as int)),
            forall|j: int| 0 <= j < i ==> #[trigger] words@[j] == bank@.output_word(state@[j]),
        decreases state.len() - i,
    {
        let h: usize = state[i];
        let word: u64 = match bank.register(h) {
            Some(Register { value: Some(v), width: WidthClass::OneBit, .. }) => v % WORD_MODULUS,
            Some(Register { value: Some(v), .. }) => v,
            _ => {
                return Err(SessionError::Readback);
            },
        };
        words.push(word);
        proof {
            let before = state@.take(i as int);
            let after = state@.take(i + 1);
            assert forall|j: int| 0 <= j < after.len() implies bank@.is_bound(
                #[trigger] after[j],
            ) by {
                if j < i {
                    assert(after[j] == before[j]);
                }
            }
        }
        i += 1;
    }
    assert(state@.take(i as int) =~= state@);
    Ok(words)
}

} // verus!
