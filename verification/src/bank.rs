//! The register bank of one proving session.

use vstd::prelude::*;
use crate::error::SessionError;
use crate::width::WidthClass;

verus! {

/// Largest row-count exponent that the bank accepts: the row count of a
/// register then fits in 32 bits.
pub const MAX_LOG_SIZE: usize = 31;

/// Number of registers in the state of the compression transform.
pub const COMPRESS_STATE: usize = 8;

/// Number of registers in one block of the compression transform.
pub const COMPRESS_BLOCK: usize = 16;

/// Number of lanes in the state of the permutation transform.
pub const PERMUTE_STATE: usize = 25;

/// What a register is for.
#[derive(Clone, Copy, Debug, PartialEq, Eq, Structural)]
pub enum Tag {
    Input,
    InputPadding,
    Init,
    Xor,
    Compress,
    Permute,
}

impl Tag {
    /// The name under which a register with this tag is known to the backend.
    pub open spec fn spec_label(self) -> Seq<char> {
        match self {
            Tag::Input => "input"@,
            Tag::InputPadding => "input_padding"@,
            Tag::Init => "INIT"@,
            Tag::Xor => "xor"@,
            Tag::Compress => "sha256"@,
            Tag::Permute => "keccakf"@,
        }
    }

    /// The name under which a register with this tag is known to the backend.
    pub fn label(self) -> (name: &'static str)
        ensures
            name@ == self.spec_label(),
    {
        match self {
            Tag::Input => "input",
            Tag::InputPadding => "input_padding",
            Tag::Init => "INIT",
            Tag::Xor => "xor",
            Tag::Compress => "sha256",
            Tag::Permute => "keccakf",
        }
    }
}

/// One committed register: `2^log_size` rows that all hold the same value.
#[derive(Clone, Copy, Debug)]
pub struct Register {
    pub tag: Tag,
    pub width: WidthClass,
    pub log_size: usize,
    /// The value of every row, once the register is bound.
    pub value: Option<u64>,
}

/// One primitive operation that the backend is to perform. `out` is the
/// handle of the first register that the operation creates.
#[derive(Debug)]
pub enum Operation {
    /// A register that is committed and bound to a literal value.
    Commit { out: usize },
    /// A register that holds a constant.
    Constant { out: usize },
    /// The bitwise exclusive or of two registers.
    Xor { a: usize, b: usize, out: usize },
    /// The compression of a block into a state: 8 new registers.
    Compress { state: Vec<usize>, block: Vec<usize>, out: usize },
    /// The permutation of a state: 25 new registers.
    Permute { state: Vec<usize>, out: usize },
}

/// An [`Operation`] as a mathematical value.
pub enum Step {
    Commit { out: usize },
    Constant { out: usize },
    Xor { a: usize, b: usize, out: usize },
    Compress { state: Seq<usize>, block: Seq<usize>, out: usize },
    Permute { state: Seq<usize>, out: usize },
}

impl Step {
    /// The handle of the first register that the operation creates.
    pub open spec fn out(self) -> usize {
        match self {
            Step::Commit { out } => out,
            Step::Constant { out } => out,
            Step::Xor { out, .. } => out,
            Step::Compress { out, .. } => out,
            Step::Permute { out, .. } => out,
        }
    }

    /// Number of registers that the operation creates.
    pub open spec fn size(self) -> nat {
        match self {
            Step::Compress { .. } => COMPRESS_STATE as nat,
            Step::Permute { .. } => PERMUTE_STATE as nat,
            _ => 1,
        }
    }

    /// The registers that the operation reads.
    pub open spec fn reads(self) -> Seq<usize> {
        match self {
            Step::Xor { a, b, .. } => seq![a, b],
            Step::Compress { state, block, .. } => state + block,
            Step::Permute { state, .. } => state,
            _ => Seq::empty(),
        }
    }

    /// The operation can be performed in a bank of `len` registers: the
    /// registers it creates are among them, and it reads only registers that
    /// were created before its own.
    pub open spec fn within(self, len: nat) -> bool {
        &&& self.out() + self.size() <= len
        &&& forall|i: int| 0 <= i < self.reads().len() ==> #[trigger] self.reads()[i] < self.out()
    }
}

impl View for Operation {
    type V = Step;

    open spec fn view(&self) -> Step {
        match *self {
            Operation::Commit { out } => Step::Commit { out },
            Operation::Constant { out } => Step::Constant { out },
            Operation::Xor { a, b, out } => Step::Xor { a, b, out },
            Operation::Compress { state, block, out } => Step::Compress {
                state: state@,
                block: block@,
                out,
            },
            Operation::Permute { state, out } => Step::Permute { state: state@, out },
        }
    }
}

/// The handles `first, first + 1, ..` of `n` registers created in a row.
pub open spec fn handles_from(first: usize, n: nat) -> Seq<usize> {
    Seq::new(n, |i: int| (first + i) as usize)
}

/// A register bank as a mathematical value: its registers by handle, and the
/// operations in the order in which they were recorded.
pub struct BankView {
    pub registers: Seq<Register>,
    pub steps: Seq<Step>,
}

impl BankView {
    /// Every handle fits in a machine word, every register has an accepted
    /// row-count exponent, and every operation reads only registers that
    /// were created before its own: the record can be replayed in order.
    pub open spec fn wf(self) -> bool {
        &&& self.registers.len() <= usize::MAX
        &&& forall|h: int|
            0 <= h < self.registers.len() ==> (#[trigger] self.registers[h]).log_size
                <= MAX_LOG_SIZE
        &&& forall|i: int|
            0 <= i < self.steps.len() ==> (#[trigger] self.steps[i]).within(self.registers.len())
    }

    pub open spec fn has(self, h: usize) -> bool {
        h < self.registers.len()
    }

    pub open spec fn is_bound(self, h: usize) -> bool {
        self.has(h) && self.registers[h as int].value.is_some()
    }

    /// The value that register `h` is bound to.
    pub open spec fn value(self, h: usize) -> u64
        recommends
            self.is_bound(h),
    {
        self.registers[h as int].value.unwrap()
    }

    /// Number of rows of register `h`.
    pub open spec fn rows(self, h: usize) -> nat
        recommends
            self.has(h),
    {
        vstd::arithmetic::power2::pow2(self.registers[h as int].log_size as nat)
    }

    /// What row `row` of register `h` holds: the bound value, on every row
    /// that the register has.
    pub open spec fn row_value(self, h: usize, row: nat) -> Option<u64> {
        if self.is_bound(h) && row < self.rows(h) {
            Some(self.value(h))
        } else {
            None
        }
    }

    /// The handle that the next new register gets.
    pub open spec fn next_handle(self) -> usize {
        self.registers.len() as usize
    }

    /// Every handle of `handles` names a register with row-count exponent
    /// `log_size` and, where `width` is given, of that width class.
    pub open spec fn uniform(self, handles: Seq<usize>, log_size: usize, width: Option<WidthClass>)
        -> bool {
        forall|i: int|
            0 <= i < handles.len() ==> {
                &&& self.has(#[trigger] handles[i])
                &&& self.registers[handles[i] as int].log_size == log_size
                &&& (width.is_some() ==> self.registers[handles[i] as int].width == width.unwrap())
            }
    }

    /// The bank after `register` was appended under operation `step`.
    pub open spec fn with_register(self, register: Register, step: Step) -> BankView {
        BankView {
            registers: self.registers.push(register),
            steps: self.steps.push(step),
        }
    }

    /// The bank after `n` unbound registers were appended under one
    /// operation.
    pub open spec fn with_outputs(
        self,
        n: nat,
        tag: Tag,
        width: WidthClass,
        log_size: usize,
        step: Step,
    ) -> BankView {
        BankView {
            registers: self.registers + Seq::new(
                n,
                |i: int| Register { tag, width, log_size, value: None },
            ),
            steps: self.steps.push(step),
        }
    }

    pub open spec fn allocate(self, tag: Tag, log_size: usize, width: WidthClass) -> BankView {
        self.with_register(
            Register { tag, width, log_size, value: None },
            Step::Commit { out: self.next_handle() },
        )
    }

    pub open spec fn bind(self, h: usize, value: u64) -> BankView {
        BankView {
            registers: self.registers.update(
                h as int,
                Register {
                    tag: self.registers[h as int].tag,
                    width: self.registers[h as int].width,
                    log_size: self.registers[h as int].log_size,
                    value: Some(value),
                },
            ),
            steps: self.steps,
        }
    }

    pub open spec fn constant(self, tag: Tag, log_size: usize, width: WidthClass, value: u64)
        -> BankView {
        self.with_register(
            Register { tag, width, log_size, value: Some(value) },
            Step::Constant { out: self.next_handle() },
        )
    }

    /// Two registers can be combined lane by lane: both exist, with the same
    /// width class and the same row count.
    pub open spec fn accepts_xor(self, a: usize, b: usize) -> bool {
        &&& self.has(a)
        &&& self.has(b)
        &&& self.registers[a as int].width == self.registers[b as int].width
        &&& self.registers[a as int].log_size == self.registers[b as int].log_size
    }

    /// The value of the exclusive or of `a` and `b`: known where both are
    /// bound.
    pub open spec fn xor_value(self, a: usize, b: usize) -> Option<u64> {
        if self.is_bound(a) && self.is_bound(b) {
            Some(self.value(a) ^ self.value(b))
        } else {
            None
        }
    }

    pub open spec fn xor(self, a: usize, b: usize) -> BankView {
        self.with_register(
            Register {
                tag: Tag::Xor,
                width: self.registers[a as int].width,
                log_size: self.registers[a as int].log_size,
                value: self.xor_value(a, b),
            },
            Step::Xor { a, b, out: self.next_handle() },
        )
    }

    /// The compression transform takes a state of 8 one-bit registers and a
    /// block of 16 registers, all with `2^log_size` rows.
    pub open spec fn accepts_compress(self, state: Seq<usize>, block: Seq<usize>, log_size: usize)
        -> bool {
        &&& log_size <= MAX_LOG_SIZE
        &&& state.len() == COMPRESS_STATE
        &&& block.len() == COMPRESS_BLOCK
        &&& self.uniform(state, log_size, Some(WidthClass::OneBit))
        &&& self.uniform(block, log_size, None)
    }

    pub open spec fn compress(self, state: Seq<usize>, block: Seq<usize>, log_size: usize)
        -> BankView {
        self.with_outputs(
            COMPRESS_STATE as nat,
            Tag::Compress,
            WidthClass::OneBit,
            log_size,
            Step::Compress { state, block, out: self.next_handle() },
        )
    }

    /// The permutation transform takes a state of 25 lanes of 64 bits, all
    /// with `2^log_size` rows.
    pub open spec fn accepts_permute(self, state: Seq<usize>, log_size: usize) -> bool {
        &&& log_size <= MAX_LOG_SIZE
        &&& state.len() == PERMUTE_STATE
        &&& self.uniform(state, log_size, Some(WidthClass::SixtyFourBit))
    }

    pub open spec fn permute(self, state: Seq<usize>, log_size: usize) -> BankView {
        self.with_outputs(
            PERMUTE_STATE as nat,
            Tag::Permute,
            WidthClass::SixtyFourBit,
            log_size,
            Step::Permute { state, out: self.next_handle() },
        )
    }
}

/// Every row of a bound register holds the same value: the one that the
/// register is bound to.
pub proof fn law_broadcast(bank: BankView, h: usize, row: nat, other: nat)
    requires
        bank.is_bound(h),
        row < bank.rows(h),
        other < bank.rows(h),
    ensures
        bank.row_value(h, row) == Some(bank.value(h)),
        bank.row_value(h, row) == bank.row_value(h, other),
{
}

/// Binding a register changes what that register holds and nothing else.
pub proof fn law_bind_is_local(bank: BankView, h: usize, value: u64, other: usize)
    requires
        bank.has(h),
        bank.has(other),
    ensures
        bank.bind(h, value).is_bound(h),
        bank.bind(h, value).value(h) == value,
        other != h ==> bank.bind(h, value).registers[other as int] == bank.registers[other as int],
        bank.bind(h, value).steps == bank.steps,
{
}

/// The registers of one proving session, each with the value it is bound to,
/// and the record of the primitive operations that made them.
pub struct RegisterBank {
    registers: Vec<Register>,
    operations: Vec<Operation>,
}

impl View for RegisterBank {
    type V = BankView;

    closed spec fn view(&self) -> BankView {
        BankView {
            registers: self.registers@,
            steps: Seq::new(self.operations@.len(), |i: int| self.operations@[i]@),
        }
    }
}

impl RegisterBank {
    /// An empty bank.
    pub fn new() -> (bank: RegisterBank)
        ensures
            bank@.registers.len() == 0,
            bank@.steps.len() == 0,
            bank@.wf(),
    {
        RegisterBank { registers: Vec::new(), operations: Vec::new() }
    }

    /// Number of registers.
    pub fn len(&self) -> (n: usize)
        ensures
            n == self@.registers.len(),
    {
        self.registers.len()
    }

    /// Number of recorded operations.
    pub fn operation_count(&self) -> (n: usize)
        ensures
            n == self@.steps.len(),
    {
        self.operations.len()
    }

    /// The register with handle `h`, if there is one.
    pub fn register(&self, h: usize) -> (r: Option<Register>)
        ensures
            r == (if self@.has(h) {
                Some(self@.registers[h as int])
            } else {
                None
            }),
    {
        if h < self.registers.len() {
            Some(self.registers[h])
        } else {
            None
        }
    }

    /// The `i`-th recorded operation.
    pub fn operation(&self, i: usize) -> (op: &Operation)
        requires
            i < self@.steps.len(),
        ensures
            op@ == self@.steps[i as int],
    {
        &self.operations[i]
    }

    fn record(&mut self, register: Register, op: Operation)
        ensures
            final(self)@ == old(self)@.with_register(register, op@),
            final(self)@.registers.len() <= usize::MAX,
    {
        self.registers.push(register);
        self.operations.push(op);
        assert(self@.steps =~= old(self)@.steps.push(op@));
        assert(self.registers@.len() == self.registers.len());
    }

    /// Registers a new, unbound register and returns its handle. The bank
    /// rejects a row-count exponent above [`MAX_LOG_SIZE`].
    pub fn allocate_register(&mut self, tag: Tag, log_size: usize, width: WidthClass) -> (r: Result<
        usize,
        SessionError,
    >)
        requires
            old(self)@.wf(),
        ensures
            final(self)@.wf(),
            log_size <= MAX_LOG_SIZE ==> r == Ok::<usize, SessionError>(old(self)@.next_handle())
                && final(self)@ == old(self)@.allocate(tag, log_size, width),
            log_size > MAX_LOG_SIZE ==> r == Err::<usize, SessionError>(
                SessionError::RegisterAllocation,
            ) && final(self)@ == old(self)@,
    {
        if log_size > MAX_LOG_SIZE {
            return Err(SessionError::RegisterAllocation);
        }
        let out: usize = self.registers.len();
        self.record(Register { tag, width, log_size, value: None }, Operation::Commit { out });
        Ok(out)
    }

    /// Binds an unbound register to `value`, on all of its rows.
    pub fn bind(&mut self, h: usize, value: u64)
        requires
            old(self)@.wf(),
            old(self)@.has(h),
            !old(self)@.is_bound(h),
        ensures
            final(self)@.wf(),
            final(self)@ == old(self)@.bind(h, value),
    {
        let r: Register = self.registers[h];
        self.registers.set(
            h,
            Register { tag: r.tag, width: r.width, log_size: r.log_size, value: Some(value) },
        );
        assert(self@.steps =~= old(self)@.steps);
    }

    /// Whether register `h` exists and holds a value.
    pub fn is_bound(&self, h: usize) -> (b: bool)
        ensures
            b == self@.is_bound(h),
    {
        h < self.registers.len() && self.registers[h].value.is_some()
    }

    /// The value that register `h` is bound to.
    pub fn read(&self, h: usize) -> (r: Result<u64, SessionError>)
        ensures
            self@.is_bound(h) ==> r == Ok::<u64, SessionError>(self@.value(h)),
            !self@.is_bound(h) ==> r == Err::<u64, SessionError>(SessionError::Readback),
    {
        if h < self.registers.len() {
            match self.registers[h].value {
                Some(v) => Ok(v),
                None => Err(SessionError::Readback),
            }
        } else {
            Err(SessionError::Readback)
        }
    }

    /// Number of rows of register `h`.
    pub fn rows(&self, h: usize) -> (n: u64)
        requires
            self@.wf(),
            self@.has(h),
        ensures
            n == self@.rows(h),
    {
        let e: usize = self.registers[h].log_size;
        proof {
            vstd::arithmetic::power2::lemma2_to64();
            vstd::arithmetic::power2::lemma_pow2_strictly_increases(e as nat, 32);
            vstd::bits::lemma_u64_shl_is_mul(1, e as u64);
            vstd::arithmetic::power2::lemma_pow2_pos(e as nat);
        }
        1u64 << (e as u64)
    }

    /// What one row of register `h` holds. Every row of a bound register
    /// holds the value that [`RegisterBank::read`] returns.
    pub fn read_row(&self, h: usize, row: u64) -> (r: Result<u64, SessionError>)
        requires
            self@.wf(),
        ensures
            r.is_ok() <==> self@.row_value(h, row as nat).is_some(),
            r.is_ok() ==> r == Ok::<u64, SessionError>(self@.value(h)),
            r.is_err() ==> r == Err::<u64, SessionError>(SessionError::Readback),
    {
        if h < self.registers.len() && row < self.rows(h) {
            self.read(h)
        } else {
            Err(SessionError::Readback)
        }
    }

    /// Registers a register that holds the constant `value` on every row.
    /// The bank rejects a row-count exponent above [`MAX_LOG_SIZE`].
    pub fn constant(&mut self, tag: Tag, log_size: usize, width: WidthClass, value: u64) -> (r:
        Result<usize, SessionError>)
        requires
            old(self)@.wf(),
        ensures
            final(self)@.wf(),
            log_size <= MAX_LOG_SIZE ==> r == Ok::<usize, SessionError>(old(self)@.next_handle())
                && final(self)@ == old(self)@.constant(tag, log_size, width, value),
            log_size > MAX_LOG_SIZE ==> r == Err::<usize, SessionError>(
                SessionError::RegisterAllocation,
            ) && final(self)@ == old(self)@,
    {
        if log_size > MAX_LOG_SIZE {
            return Err(SessionError::RegisterAllocation);
        }
        let out: usize = self.registers.len();
        self.record(
            Register { tag, width, log_size, value: Some(value) },
            Operation::Constant { out },
        );
        Ok(out)
    }

    /// Whether every handle of `handles` names a register with row-count
    /// exponent `log_size` and, where `width` is given, of that width class.
    pub fn is_uniform(&self, handles: &Vec<usize>, log_size: usize, width: Option<WidthClass>) -> (b:
        bool)
        ensures
            b == self@.uniform(handles@, log_size, width),
    {
        let mut i: usize = 0;
        while i < handles.len()
            invariant
                i <= handles.len(),
                self@.uniform(handles@.take(i as int), log_size, width),
            decreases handles.len() - i,
        {
            let h: usize = handles[i];
            if h >= self.registers.len() {
                return false;
            }
            let r: Register = self.registers[h];
            if r.log_size != log_size {
                return false;
            }
            match width {
                Some(w) => {
                    if r.width != w {
                        return false;
                    }
                },
                None => {},
            }
            proof {
                let before = handles@.take(i as int);
                let after = handles@.take(i + 1);
                assert forall|j: int| 0 <= j < after.len() implies {
                    &&& self@.has(#[trigger] after[j])
                    &&& self@.registers[after[j] as int].log_size == log_size
                    &&& (width.is_some() ==> self@.registers[after[j] as int].width
                        == width.unwrap())
                } by {
                    if j < i {
                        assert(after[j] == before[j]);
                    }
                }
            }
            i += 1;
        }
        assert(handles@.take(i as int) =~= handles@);
        true
    }

    /// Records the exclusive or of registers `a` and `b` as a new register.
    /// Where both are bound, the new register is bound to the exclusive or
    /// of their values.
    pub fn xor(&mut self, a: usize, b: usize) -> (r: Option<usize>)
        requires
            old(self)@.wf(),
        ensures
            final(self)@.wf(),
            old(self)@.accepts_xor(a, b) ==> r == Some(old(self)@.next_handle()) && final(self)@
                == old(self)@.xor(a, b),
            !old(self)@.accepts_xor(a, b) ==> r.is_none() && final(self)@ == old(self)@,
    {
        if a >= self.registers.len() || b >= self.registers.len() {
            return None;
        }
        let ra: Register = self.registers[a];
        let rb: Register = self.registers[b];
        if ra.width != rb.width || ra.log_size != rb.log_size {
            return None;
        }
        let value: Option<u64> = match (ra.value, rb.value) {
            (Some(x), Some(y)) => Some(x ^ y),
            _ => None,
        };
        let out: usize = self.registers.len();
        self.record(
            Register { tag: Tag::Xor, width: ra.width, log_size: ra.log_size, value },
            Operation::Xor { a, b, out },
        );
        Some(out)
    }

    fn record_outputs(&mut self, n: usize, tag: Tag, width: WidthClass, log_size: usize, op: Operation)
        -> (handles: Vec<usize>)
        requires
            old(self)@.wf(),
            log_size <= MAX_LOG_SIZE,
            op@.within(old(self)@.registers.len() + n as nat),
        ensures
            final(self)@.wf(),
            final(self)@ == old(self)@.with_outputs(n as nat, tag, width, log_size, op@),
            handles@ == handles_from(old(self)@.next_handle(), n as nat),
    {
        let first: usize = self.registers.len();
        let mut handles: Vec<usize> = Vec::new();
        let mut i: usize = 0;
        while i < n
            invariant
                i <= n,
                first == old(self)@.registers.len(),
                self.operations == old(self).operations,
                self.registers@ == old(self).registers@ + Seq::new(
                    i as nat,
                    |j: int| Register { tag, width, log_size, value: None },
                ),
                handles@ == handles_from(first, i as nat),
            decreases n - i,
        {
            handles.push(self.registers.len());
            self.registers.push(Register { tag, width, log_size, value: None });
            i += 1;
            assert(self.registers@ =~= old(self).registers@ + Seq::new(
                i as nat,
                |j: int| Register { tag, width, log_size, value: None },
            ));
            assert(handles@ =~= handles_from(first, i as nat));
        }
        self.operations.push(op);
        assert(self@.steps =~= old(self)@.steps.push(op@));
        assert(self.registers@.len() == self.registers.len());
        handles
    }

    /// Records the compression of `block` into `state` and returns the
    /// handles of the 8 registers of the next state, which are unbound until
    /// the backend has computed them.
    pub fn compress(&mut self, state: &Vec<usize>, block: &Vec<usize>, log_size: usize) -> (r:
        Option<Vec<usize>>)
        requires
            old(self)@.wf(),
        ensures
            final(self)@.wf(),
            old(self)@.accepts_compress(state@, block@, log_size) ==> r.is_some() && r.unwrap()@
                == handles_from(old(self)@.next_handle(), COMPRESS_STATE as nat) && final(self)@
                == old(self)@.compress(state@, block@, log_size),
            !old(self)@.accepts_compress(state@, block@, log_size) ==> r.is_none() && final(self)@
                == old(self)@,
    {
        if log_size > MAX_LOG_SIZE || state.len() != COMPRESS_STATE || block.len()
            != COMPRESS_BLOCK {
            return None;
        }
        if !self.is_uniform(state, log_size, Some(WidthClass::OneBit)) || !self.is_uniform(
            block,
            log_size,
            None,
        ) {
            return None;
        }
        let out: usize = self.registers.len();
        let op = Operation::Compress { state: state.clone(), block: block.clone(), out };
        assert forall|i: int| 0 <= i < op@.reads().len() implies #[trigger] op@.reads()[i]
            < out by {
            if i < state@.len() {
                assert(self@.has(state@[i]));
            } else {
                assert(self@.has(block@[i - state@.len()]));
            }
        }
        Some(self.record_outputs(COMPRESS_STATE, Tag::Compress, WidthClass::OneBit, log_size, op))
    }

    /// Records the permutation of `state` and returns the handles of the 25
    /// registers of the next state, which are unbound until the backend has
    /// computed them.
    pub fn permute(&mut self, state: &Vec<usize>, log_size: usize) -> (r: Option<Vec<usize>>)
        requires
            old(self)@.wf(),
        ensures
            final(self)@.wf(),
            old(self)@.accepts_permute(state@, log_size) ==> r.is_some() && r.unwrap()@
                == handles_from(old(self)@.next_handle(), PERMUTE_STATE as nat) && final(self)@
                == old(self)@.permute(state@, log_size),
            !old(self)@.accepts_permute(state@, log_size) ==> r.is_none() && final(self)@ == old(self)@,
    {
        if log_size > MAX_LOG_SIZE || state.len() != PERMUTE_STATE {
            return None;
        }
        if !self.is_uniform(state, log_size, Some(WidthClass::SixtyFourBit)) {
            return None;
        }
        let out: usize = self.registers.len();
        let op = Operation::Permute { state: state.clone(), out };
        assert forall|i: int| 0 <= i < op@.reads().len() implies #[trigger] op@.reads()[i]
            < out by {
            assert(self@.has(state@[i]));
        }
        Some(
            self.record_outputs(PERMUTE_STATE, Tag::Permute, WidthClass::SixtyFourBit, log_size, op),
        )
    }
}

} // verus!
