//! One proving session: the stages from a raw message to a verified proof.
//!
//! A session owns its register bank. The stages that the library performs
//! are methods that do the work; the stages that the backend performs are
//! reported to the session as events. A stage that is called out of turn
//! leaves the session as it is, and the first failure ends the session.

use vstd::prelude::*;
use crate::bank::{handles_from, BankView, RegisterBank, Tag, MAX_LOG_SIZE};
use crate::error::{Algorithm, SessionError};
use crate::sha2;
use crate::sha3;
use crate::utils::{extract_output, load_input, load_words, pad_input, padding_needed, widened, zeros};
use crate::width::WidthClass;

verus! {

/// Inverse rate of the proof system, as a base-two logarithm.
pub const LOG_INV_RATE: usize = 1;

/// Security level of the proof system, in bits.
pub const SECURITY_BITS: usize = 100;

/// Row-count exponent of the hash variants.
pub const LOG_SIZE: usize = 7;

/// How far a session has come.
#[derive(Clone, Copy, Debug, PartialEq, Eq, Structural)]
pub enum Phase {
    Init,
    Encoded,
    StateReady,
    Chained,
    Extracted,
    Finalized,
    Proven,
    Verified,
    Failed,
}

impl Phase {
    /// The output words can be seen from extraction on, unless the session
    /// failed.
    pub open spec fn shows_output(self) -> bool {
        self == Phase::Extracted || self == Phase::Finalized || self == Phase::Proven || self
            == Phase::Verified
    }

    /// The stage is one that the backend performs.
    pub open spec fn awaits_backend(self) -> bool {
        self == Phase::Extracted || self == Phase::Finalized || self == Phase::Proven
    }

    /// The phase after the backend has performed its stage.
    pub open spec fn after_backend(self) -> Phase {
        match self {
            Phase::Extracted => Phase::Finalized,
            Phase::Finalized => Phase::Proven,
            Phase::Proven => Phase::Verified,
            _ => self,
        }
    }

    /// The error of the backend's stage, where it fails.
    pub open spec fn backend_error(self) -> SessionError {
        match self {
            Phase::Extracted => SessionError::ConstraintSystem,
            Phase::Finalized => SessionError::ProofGeneration,
            _ => SessionError::Verification,
        }
    }

    /// No stage follows.
    pub open spec fn is_terminal(self) -> bool {
        self == Phase::Verified || self == Phase::Failed
    }
}

/// A session as a mathematical value.
pub struct SessionView {
    pub algorithm: Algorithm,
    pub log_size: usize,
    pub phase: Phase,
    pub bank: BankView,
    pub input: Seq<usize>,
    pub state: Seq<usize>,
    pub output: Seq<u64>,
    pub error: Option<SessionError>,
}

impl SessionView {
    pub open spec fn wf(self) -> bool {
        &&& self.bank.wf()
        &&& (self.phase == Phase::Failed) == self.error.is_some()
        &&& (self.phase == Phase::Encoded || self.phase == Phase::StateReady) ==> self.input.len()
            % self.algorithm.spec_block_size() == 0
        &&& !self.phase.shows_output() ==> self.output.len() == 0
    }

    /// The session after it failed with `e`: no output is shown.
    pub open spec fn failed(self, e: SessionError) -> SessionView {
        SessionView { phase: Phase::Failed, error: Some(e), output: Seq::empty(), ..self }
    }

    /// The session after a message of `values` was encoded as registers of
    /// class `width` and padded to whole blocks.
    pub open spec fn after_encode(self, values: Seq<u64>, width: WidthClass) -> SessionView {
        if self.phase != Phase::Init {
            self
        } else if values.len() > 0 && self.log_size > MAX_LOG_SIZE {
            self.failed(SessionError::RegisterAllocation)
        } else {
            let pad = padding_needed(values.len(), self.algorithm.spec_block_size());
            let loaded = self.bank.committed(Tag::Input, values, self.log_size, width);
            SessionView {
                phase: Phase::Encoded,
                bank: loaded.committed(Tag::InputPadding, zeros(pad), self.log_size, width),
                input: handles_from(self.bank.next_handle(), values.len()) + handles_from(
                    loaded.next_handle(),
                    pad,
                ),
                ..self
            }
        }
    }

    /// The session after the initial state of its algorithm was created.
    pub open spec fn after_init_state(self) -> SessionView {
        if self.phase != Phase::Encoded {
            self
        } else if self.log_size > MAX_LOG_SIZE {
            self.failed(SessionError::RegisterAllocation)
        } else {
            SessionView {
                phase: Phase::StateReady,
                bank: match self.algorithm {
                    Algorithm::Sha256 => sha2::with_initial_state(self.bank, self.log_size),
                    Algorithm::Keccak => sha3::with_initial_state(self.bank, self.log_size),
                },
                state: handles_from(self.bank.next_handle(), self.algorithm.spec_state_size()),
                ..self
            }
        }
    }

    /// The session after the state was chained through all blocks.
    pub open spec fn after_chain(self) -> SessionView {
        if self.phase != Phase::StateReady {
            self
        } else {
            let outcome = match self.algorithm {
                Algorithm::Sha256 => sha2::chain_from(
                    self.bank,
                    self.state,
                    self.input,
                    self.log_size,
                    0,
                ),
                Algorithm::Keccak => sha3::chain_from(
                    self.bank,
                    self.state,
                    self.input,
                    self.log_size,
                    0,
                ),
            };
            match outcome.failed_at {
                Some(k) => SessionView { bank: outcome.bank, ..self }.failed(
                    SessionError::BlockTransform { block_index: k, algorithm: self.algorithm },
                ),
                None => SessionView {
                    phase: Phase::Chained,
                    bank: outcome.bank,
                    state: outcome.state,
                    ..self
                },
            }
        }
    }

    /// The session after the backend reported `value` for register `h`.
    pub open spec fn after_bind(self, h: usize, value: u64) -> SessionView {
        if self.phase == Phase::Chained && self.bank.has(h) && !self.bank.is_bound(h) {
            SessionView { bank: self.bank.bind(h, value), ..self }
        } else {
            self
        }
    }

    /// The session after the backend rejected the transform of block
    /// `block_index`.
    pub open spec fn after_rejection(self, block_index: usize) -> SessionView {
        if self.phase == Phase::Chained {
            self.failed(
                SessionError::BlockTransform { block_index, algorithm: self.algorithm },
            )
        } else {
            self
        }
    }

    /// The session after the final state was read back.
    pub open spec fn after_extract(self) -> SessionView {
        if self.phase != Phase::Chained {
            self
        } else if self.bank.all_bound(self.state) {
            SessionView {
                phase: Phase::Extracted,
                output: Seq::new(self.state.len(), |i: int| self.bank.output_word(self.state[i])),
                ..self
            }
        } else {
            self.failed(SessionError::Readback)
        }
    }

    /// The session after the backend performed its stage, with success or
    /// without.
    pub open spec fn after_backend(self, ok: bool) -> SessionView {
        if !self.phase.awaits_backend() {
            self
        } else if ok {
            SessionView { phase: self.phase.after_backend(), ..self }
        } else {
            self.failed(self.phase.backend_error())
        }
    }
}

/// One proving session.
pub struct Session {
    algorithm: Algorithm,
    log_size: usize,
    phase: Phase,
    bank: RegisterBank,
    input: Vec<usize>,
    state: Vec<usize>,
    output: Vec<u64>,
    error: Option<SessionError>,
}

impl View for Session {
    type V = SessionView;

    closed spec fn view(&self) -> SessionView {
        SessionView {
            algorithm: self.algorithm,
            log_size: self.log_size,
            phase: self.phase,
            bank: self.bank@,
            input: self.input@,
            state: self.state@,
            output: self.output@,
            error: self.error,
        }
    }
}

impl Session {
    /// A fresh session with an empty bank.
    pub fn new(algorithm: Algorithm, log_size: usize) -> (session: Session)
        ensures
            session@.wf(),
            session@.algorithm == algorithm,
            session@.log_size == log_size,
            session@.phase == Phase::Init,
            session@.bank.registers.len() == 0,
            session@.bank.steps.len() == 0,
            session@.input.len() == 0,
            session@.state.len() == 0,
            session@.output.len() == 0,
            session@.error.is_none(),
    {
        Session {
            algorithm,
            log_size,
            phase: Phase::Init,
            bank: RegisterBank::new(),
            input: Vec::new(),
            state: Vec::new(),
            output: Vec::new(),
            error: None,
        }
    }

    pub fn algorithm(&self) -> (a: Algorithm)
        ensures
            a == self@.algorithm,
    {
        self.algorithm
    }

    pub fn log_size(&self) -> (n: usize)
        ensures
            n == self@.log_size,
    {
        self.log_size
    }

    pub fn phase(&self) -> (p: Phase)
        ensures
            p == self@.phase,
    {
        self.phase
    }

    /// Why the session failed, if it did.
    pub fn error(&self) -> (e: Option<SessionError>)
        ensures
            e == self@.error,
    {
        self.error
    }

    /// The register bank, for the backend to replay.
    pub fn bank(&self) -> (bank: &RegisterBank)
        ensures
            bank@ == self@.bank,
    {
        &self.bank
    }

    /// The handles of the padded input.
    pub fn input(&self) -> (input: &Vec<usize>)
        ensures
            input@ == self@.input,
    {
        &self.input
    }

    /// The handles of the current hash state.
    pub fn state(&self) -> (state: &Vec<usize>)
        ensures
            state@ == self@.state,
    {
        &self.state
    }

    /// The output words: shown from extraction on, and not after a failure.
    pub fn output(&self) -> (words: Option<&Vec<u64>>)
        requires
            self@.wf(),
        ensures
            words.is_some() <==> self@.phase.shows_output(),
            words.is_some() ==> words.unwrap()@ == self@.output,
    {
        match self.phase {
            Phase::Extracted | Phase::Finalized | Phase::Proven | Phase::Verified => Some(
                &self.output,
            ),
            _ => None,
        }
    }

    fn fail(&mut self, e: SessionError)
        ensures
            final(self)@ == old(self)@.failed(e),
    {
        self.phase = Phase::Failed;
        self.error = Some(e);
        self.output = Vec::new();
        assert(self.output@ =~= Seq::empty());
    }

    /// Pads the encoded input to whole blocks and moves on to `Encoded`.
    fn pad(&mut self, width: WidthClass)
        requires
            old(self)@.bank.wf(),
            old(self)@.error.is_none(),
            old(self)@.output.len() == 0,
            old(self).log_size <= MAX_LOG_SIZE || old(self)@.input.len() == 0,
        ensures
            final(self)@ == (SessionView {
                phase: Phase::Encoded,
                bank: old(self)@.bank.committed(
                    Tag::InputPadding,
                    zeros(
                        padding_needed(
                            old(self)@.input.len(),
                            old(self)@.algorithm.spec_block_size(),
                        ),
                    ),
                    old(self)@.log_size,
                    width,
                ),
                input: old(self)@.input + handles_from(
                    old(self)@.bank.next_handle(),
                    padding_needed(old(self)@.input.len(), old(self)@.algorithm.spec_block_size()),
                ),
                ..old(self)@
            }),
            final(self)@.wf(),
    {
        let block: usize = self.algorithm.block_size();
        proof {
            assert(padding_needed(0, 16) == 0);
            assert(padding_needed(0, 25) == 0);
        }
        match pad_input(&mut self.bank, &mut self.input, block, self.log_size, width) {
            Ok(()) => {
                self.phase = Phase::Encoded;
            },
            Err(e) => {
                self.fail(e);
            },
        }
    }

    /// Encodes a message of bytes as registers of 8-bit rows and pads it to
    /// whole blocks: from `Init` to `Encoded`.
    pub fn encode_bytes(&mut self, message: Vec<u8>)
        requires
            old(self)@.wf(),
        ensures
            final(self)@.wf(),
            final(self)@ == old(self)@.after_encode(widened(message@), WidthClass::EightBit),
    {
        match self.phase {
            Phase::Init => {},
            _ => {
                return ;
            },
        }
        match load_input(&mut self.bank, Tag::Input, message, self.log_size) {
            Ok(registers) => {
                self.input = registers;
                self.pad(WidthClass::EightBit);
            },
            Err(e) => {
                self.fail(e);
            },
        }
    }

    /// Encodes a message of words as registers of 64-bit rows and pads it to
    /// whole blocks: from `Init` to `Encoded`.
    pub fn encode_words(&mut self, message: Vec<u64>)
        requires
            old(self)@.wf(),
        ensures
            final(self)@.wf(),
            final(self)@ == old(self)@.after_encode(message@, WidthClass::SixtyFourBit),
    {
        match self.phase {
            Phase::Init => {},
            _ => {
                return ;
            },
        }
        match load_words(&mut self.bank, Tag::Input, message, self.log_size) {
            Ok(registers) => {
                self.input = registers;
                self.pad(WidthClass::SixtyFourBit);
            },
            Err(e) => {
                self.fail(e);
            },
        }
    }

    /// Creates the initial state of the algorithm: from `Encoded` to
    /// `StateReady`.
    pub fn init_state(&mut self)
        requires
            old(self)@.wf(),
        ensures
            final(self)@.wf(),
            final(self)@ == old(self)@.after_init_state(),
    {
        match self.phase {
            Phase::Encoded => {},
            _ => {
                return ;
            },
        }
        let r = match self.algorithm {
            Algorithm::Sha256 => sha2::init_state(&mut self.bank, self.log_size),
            Algorithm::Keccak => sha3::init_state(&mut self.bank, self.log_size),
        };
        match r {
            Ok(state) => {
                self.state = state;
                self.phase = Phase::StateReady;
            },
            Err(e) => {
                self.fail(e);
            },
        }
    }

    /// Chains the state through all blocks of the input: from `StateReady`
    /// to `Chained`.
    pub fn chain(&mut self)
        requires
            old(self)@.wf(),
        ensures
            final(self)@.wf(),
            final(self)@ == old(self)@.after_chain(),
    {
        match self.phase {
            Phase::StateReady => {},
            _ => {
                return ;
            },
        }
        let state: Vec<usize> = self.state.clone();
        let r = match self.algorithm {
            Algorithm::Sha256 => sha2::chain(&mut self.bank, state, &self.input, self.log_size),
            Algorithm::Keccak => sha3::chain(&mut self.bank, state, &self.input, self.log_size),
        };
        match r {
            Ok(next) => {
                self.state = next;
                self.phase = Phase::Chained;
            },
            Err(e) => {
                self.fail(e);
            },
        }
    }

    /// Takes the value that the backend computed for register `h`. Returns
    /// whether the register was bound: the session is `Chained`, and `h`
    /// names a register that held no value.
    pub fn bind(&mut self, h: usize, value: u64) -> (bound: bool)
        requires
            old(self)@.wf(),
        ensures
            final(self)@.wf(),
            final(self)@ == old(self)@.after_bind(h, value),
            bound == (old(self)@.phase == Phase::Chained && old(self)@.bank.has(h) && !old(self)@.bank.is_bound(h)),
    {
        match self.phase {
            Phase::Chained => {},
            _ => {
                return false;
            },
        }
        match self.bank.register(h) {
            Some(r) => {
                if r.value.is_some() {
                    return false;
                }
            },
            None => {
                return false;
            },
        }
        self.bank.bind(h, value);
        true
    }

    /// Takes the backend's refusal to transform block `block_index`: from
    /// `Chained` to `Failed`.
    pub fn transform_rejected(&mut self, block_index: usize)
        requires
            old(self)@.wf(),
        ensures
            final(self)@.wf(),
            final(self)@ == old(self)@.after_rejection(block_index),
    {
        match self.phase {
            Phase::Chained => {
                self.fail(
                    SessionError::BlockTransform { block_index, algorithm: self.algorithm },
                );
            },
            _ => {},
        }
    }

    /// Reads the final state back as output words: from `Chained` to
    /// `Extracted`.
    pub fn extract(&mut self)
        requires
            old(self)@.wf(),
        ensures
            final(self)@.wf(),
            final(self)@ == old(self)@.after_extract(),
    {
        match self.phase {
            Phase::Chained => {},
            _ => {
                return ;
            },
        }
        match extract_output(&self.bank, &self.state) {
            Ok(words) => {
                assert(words@ =~= Seq::new(
                    self@.state.len(),
                    |i: int| self@.bank.output_word(self@.state[i]),
                ));
                self.output = words;
                self.phase = Phase::Extracted;
            },
            Err(e) => {
                self.fail(e);
            },
        }
    }

    /// Takes the outcome of the stage that the backend performed: building
    /// the constraint system from `Extracted`, proving from `Finalized`,
    /// verifying from `Proven`.
    pub fn backend_done(&mut self, ok: bool)
        requires
            old(self)@.wf(),
        ensures
            final(self)@.wf(),
            final(self)@ == old(self)@.after_backend(ok),
    {
        let (next, error) = match self.phase {
            Phase::Extracted => (Phase::Finalized, SessionError::ConstraintSystem),
            Phase::Finalized => (Phase::Proven, SessionError::ProofGeneration),
            Phase::Proven => (Phase::Verified, SessionError::Verification),
            _ => {
                return ;
            },
        };
        if ok {
            self.phase = next;
        } else {
            self.fail(error);
        }
    }
}

/// A session that has failed or was verified stays as it is, whatever stage
/// is asked of it.
pub proof fn law_terminal_phases_stay(
    s: SessionView,
    values: Seq<u64>,
    width: WidthClass,
    h: usize,
    value: u64,
    ok: bool,
)
    requires
        s.phase.is_terminal(),
    ensures
        s.after_encode(values, width) == s,
        s.after_init_state() == s,
        s.after_chain() == s,
        s.after_bind(h, value) == s,
        s.after_rejection(h) == s,
        s.after_extract() == s,
        s.after_backend(ok) == s,
{
}

/// Every failure ends the session: a stage either leaves the session's
/// error as it was, or ends in `Failed` with an error and without output.
pub proof fn law_failure_is_terminal(s: SessionView, ok: bool)
    requires
        s.wf(),
    ensures
        s.after_backend(ok).phase == Phase::Failed <==> s.phase == Phase::Failed || (
        s.phase.awaits_backend() && !ok),
        s.after_backend(ok).phase == Phase::Failed ==> s.after_backend(ok).error.is_some()
            && s.after_backend(ok).output.len() == 0,
        s.after_extract().phase == Phase::Failed ==> s.after_extract().error.is_some()
            && s.after_extract().output.len() == 0,
        s.after_chain().phase == Phase::Failed ==> s.after_chain().error.is_some()
            && s.after_chain().output.len() == 0,
{
}

/// Once the final state is read back the bank is frozen: neither a value
/// that arrives late nor a stage of the backend changes it, nor the output.
pub proof fn law_bank_is_frozen_after_extraction(s: SessionView, h: usize, value: u64, ok: bool)
    requires
        s.phase.shows_output(),
    ensures
        s.after_bind(h, value) == s,
        s.after_rejection(h) == s,
        s.after_backend(ok).bank == s.bank,
        ok ==> s.after_backend(ok).output == s.output,
{
}

/// The stages of a SHA-256 session over a message of bytes do to the bank
/// what [`sha2::trace_gen`] does, and reach the same final state.
pub proof fn law_sha256_session_is_trace_gen(s: SessionView, message: Seq<u8>)
    requires
        s.phase == Phase::Init,
        s.algorithm == Algorithm::Sha256,
        s.log_size <= MAX_LOG_SIZE,
    ensures
        s.after_encode(widened(message), WidthClass::EightBit).after_init_state().after_chain().bank
            == sha2::trace_outcome(s.bank, message, s.log_size).bank,
        sha2::trace_outcome(s.bank, message, s.log_size).failed_at.is_none() ==> s.after_encode(
            widened(message),
            WidthClass::EightBit,
        ).after_init_state().after_chain().phase == Phase::Chained && s.after_encode(
            widened(message),
            WidthClass::EightBit,
        ).after_init_state().after_chain().state == sha2::trace_outcome(
            s.bank,
            message,
            s.log_size,
        ).state,
{
}

/// The stages of a Keccak session over a message of words do to the bank
/// what [`sha3::trace_gen`] does, and reach the same final state.
pub proof fn law_keccak_session_is_trace_gen(s: SessionView, message: Seq<u64>)
    requires
        s.phase == Phase::Init,
        s.algorithm == Algorithm::Keccak,
        s.log_size <= MAX_LOG_SIZE,
    ensures
        s.after_encode(message, WidthClass::SixtyFourBit).after_init_state().after_chain().bank
            == sha3::trace_outcome(s.bank, message, s.log_size).bank,
        sha3::trace_outcome(s.bank, message, s.log_size).failed_at.is_none() ==> s.after_encode(
            message,
            WidthClass::SixtyFourBit,
        ).after_init_state().after_chain().phase == Phase::Chained && s.after_encode(
            message,
            WidthClass::SixtyFourBit,
        ).after_init_state().after_chain().state == sha3::trace_outcome(
            s.bank,
            message,
            s.log_size,
        ).state,
{
}

/// A session over a well-sized message never fails before the backend is
/// asked: a SHA-256 session of bytes, or a Keccak session of words, whose
/// row-count exponent the bank accepts reaches `Chained`, as long as the
/// handles of the registers it creates fit in a machine word.
pub proof fn law_session_reaches_chained(s: SessionView, bytes: Seq<u8>, words: Seq<u64>)
    requires
        s.phase == Phase::Init,
        s.log_size <= MAX_LOG_SIZE,
        s.algorithm == Algorithm::Sha256 ==> sha2::trace_outcome(
            s.bank,
            bytes,
            s.log_size,
        ).bank.registers.len() <= usize::MAX,
        s.algorithm == Algorithm::Keccak ==> sha3::trace_outcome(
            s.bank,
            words,
            s.log_size,
        ).bank.registers.len() <= usize::MAX,
    ensures
        s.algorithm == Algorithm::Sha256 ==> s.after_encode(
            widened(bytes),
            WidthClass::EightBit,
        ).after_init_state().after_chain().phase == Phase::Chained,
        s.algorithm == Algorithm::Keccak ==> s.after_encode(
            words,
            WidthClass::SixtyFourBit,
        ).after_init_state().after_chain().phase == Phase::Chained,
{
    if s.algorithm == Algorithm::Sha256 {
        law_sha256_session_is_trace_gen(s, bytes);
        sha2::law_trace_gen_succeeds(s.bank, bytes, s.log_size);
    } else {
        law_keccak_session_is_trace_gen(s, words);
        sha3::law_trace_gen_succeeds(s.bank, words, s.log_size);
    }
}

/// The stages of the backend run in one order: each phase that the backend
/// leads to is reached from the phase before it and from no other.
pub proof fn law_backend_stages_are_ordered(s: SessionView)
    requires
        s.after_backend(true) != s,
    ensures
        s.after_backend(true).phase == Phase::Finalized <==> s.phase == Phase::Extracted,
        s.after_backend(true).phase == Phase::Proven <==> s.phase == Phase::Finalized,
        s.after_backend(true).phase == Phase::Verified <==> s.phase == Phase::Proven,
{
}

} // verus!
