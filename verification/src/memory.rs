//! Memory budget for index writers: a cap on writer buffers, on concurrently
//! active writers and on document size.
use vstd::prelude::*;
use crate::error::FlapjackError;
use crate::text::{chars_of, parse_usize_chars, parse_usize_spec};

verus! {

/// Bytes in one mebibyte.
pub const MIB: usize = 1048576;

/// Budget limits in mebibytes and writers.
#[derive(Debug, Clone, Copy, PartialEq, Eq)]
pub struct MemoryBudgetConfig {
    pub max_buffer_mb: usize,
    pub max_concurrent_writers: usize,
    pub max_doc_mb: usize,
}

/// The value of an optional setting: the parsed number where the text parses
/// as a `usize`, else `default`.
pub open spec fn setting_value(text: Option<Seq<char>>, default: usize) -> usize {
    match text {
        Some(t) => match parse_usize_spec(t) {
            Some(v) => v as usize,
            None => default,
        },
        None => default,
    }
}

/// The view of an optional string argument.
pub open spec fn opt_view(s: Option<&str>) -> Option<Seq<char>> {
    match s {
        Some(t) => Some(t@),
        None => None,
    }
}

/// Parse an optional setting, falling back to `default`.
pub fn parse_setting(text: Option<&str>, default: usize) -> (r: usize)
    ensures
        r == setting_value(opt_view(text), default),
{
    match text {
        Some(t) => {
            let cs = chars_of(t);
            match parse_usize_chars(cs.as_slice()) {
                Some(v) => v,
                None => default,
            }
        },
        None => default,
    }
}

impl MemoryBudgetConfig {
    /// The configuration built from the three optional setting texts
    /// (buffer megabytes, concurrent writers, document megabytes); each text
    /// that does not parse as a `usize` gives way to the default (31, 40, 3).
    pub fn from_values(
        max_buffer_mb: Option<&str>,
        max_concurrent_writers: Option<&str>,
        max_doc_mb: Option<&str>,
    ) -> (r: MemoryBudgetConfig)
        ensures
            r.max_buffer_mb == setting_value(opt_view(max_buffer_mb), 31),
            r.max_concurrent_writers == setting_value(opt_view(max_concurrent_writers), 40),
            r.max_doc_mb == setting_value(opt_view(max_doc_mb), 3),
    {
        MemoryBudgetConfig {
            max_buffer_mb: parse_setting(max_buffer_mb, 31),
            max_concurrent_writers: parse_setting(max_concurrent_writers, 40),
            max_doc_mb: parse_setting(max_doc_mb, 3),
        }
    }

    /// The byte sizes fit in a `usize`.
    pub open spec fn fits(&self) -> bool {
        &&& self.max_buffer_mb * MIB <= usize::MAX
        &&& self.max_doc_mb * MIB <= usize::MAX
    }

    /// (buffer bytes, concurrent writers, document bytes).
    pub fn to_bytes(&self) -> (r: (usize, usize, usize))
        requires
            self.fits(),
        ensures
            r.0 == self.max_buffer_mb * MIB,
            r.1 == self.max_concurrent_writers,
            r.2 == self.max_doc_mb * MIB,
    {
        (self.max_buffer_mb * MIB, self.max_concurrent_writers, self.max_doc_mb * MIB)
    }
}

impl Default for MemoryBudgetConfig {
    /// 31 MB buffers, 40 concurrent writers, 3 MB documents.
    fn default() -> (r: Self)
        ensures
            r.max_buffer_mb == 31,
            r.max_concurrent_writers == 40,
            r.max_doc_mb == 3,
    {
        MemoryBudgetConfig { max_buffer_mb: 31, max_concurrent_writers: 40, max_doc_mb: 3 }
    }
}

/// Proof that a writer slot was granted; hand it back with
/// [`MemoryBudget::release_writer`].
#[derive(Debug)]
pub struct WriterGuard {
    _slot: (),
}

/// The budget that index writers are admitted against.
#[derive(Debug)]
pub struct MemoryBudget {
    max_buffer_size_bytes: usize,
    max_concurrent_writers: usize,
    max_document_size_bytes: usize,
    active_writers: usize,
}

/// The state of a budget: its three limits and the number of admitted writers.
pub struct BudgetState {
    pub max_buffer: usize,
    pub max_writers: usize,
    pub max_document: usize,
    pub active: usize,
}

impl BudgetState {
    /// No more writers are active than the budget admits.
    pub open spec fn wf(self) -> bool {
        self.active <= self.max_writers
    }

    /// Whether a writer request is admitted.
    pub open spec fn admits(self) -> bool {
        self.active < self.max_writers
    }

    /// The state after a writer request: one more writer when admitted.
    pub open spec fn after_acquire(self) -> BudgetState {
        if self.admits() {
            BudgetState { active: (self.active + 1) as usize, ..self }
        } else {
            self
        }
    }

    /// The state after a writer slot is given back.
    pub open spec fn after_release(self) -> BudgetState {
        BudgetState { active: (self.active - 1) as usize, ..self }
    }

    /// The refusal of a request that is not admitted.
    pub open spec fn refusal(self) -> FlapjackError {
        FlapjackError::TooManyConcurrentWrites {
            current: (self.active + 1) as usize,
            max: self.max_writers,
        }
    }
}

impl View for MemoryBudget {
    type V = BudgetState;

    closed spec fn view(&self) -> BudgetState {
        BudgetState {
            max_buffer: self.max_buffer_size_bytes,
            max_writers: self.max_concurrent_writers,
            max_document: self.max_document_size_bytes,
            active: self.active_writers,
        }
    }
}

impl MemoryBudget {
    /// A budget with the configured limits and no active writer.
    pub fn new(config: MemoryBudgetConfig) -> (r: MemoryBudget)
        requires
            config.fits(),
        ensures
            r@ == (BudgetState {
                max_buffer: (config.max_buffer_mb * MIB) as usize,
                max_writers: config.max_concurrent_writers,
                max_document: (config.max_doc_mb * MIB) as usize,
                active: 0,
            }),
    {
        let (max_buffer, max_writers, max_doc) = config.to_bytes();
        MemoryBudget {
            max_buffer_size_bytes: max_buffer,
            max_concurrent_writers: max_writers,
            max_document_size_bytes: max_doc,
            active_writers: 0,
        }
    }

    /// Admit one more writer if fewer than the maximum are active; otherwise refuse
    /// with `TooManyConcurrentWrites`, counting the refused request in `current`.
    pub fn acquire_writer(&mut self) -> (r: Result<WriterGuard, FlapjackError>)
        requires
            old(self)@.wf(),
            old(self)@.active < usize::MAX,
        ensures
            final(self)@ == old(self)@.after_acquire(),
            r is Ok <==> old(self)@.admits(),
            !old(self)@.admits() ==> r == Err::<WriterGuard, FlapjackError>(old(self)@.refusal()),
    {
        let current = self.active_writers;
        if current >= self.max_concurrent_writers {
            return Err(
                FlapjackError::TooManyConcurrentWrites {
                    current: current + 1,
                    max: self.max_concurrent_writers,
                },
            );
        }
        self.active_writers = current + 1;
        Ok(WriterGuard { _slot: () })
    }

    /// Give a writer slot back.
    pub fn release_writer(&mut self, guard: WriterGuard)
        requires
            old(self)@.active > 0,
        ensures
            final(self)@ == old(self)@.after_release(),
    {
        let WriterGuard { _slot } = guard;
        self.active_writers = self.active_writers - 1;
    }

    /// The requested buffer size, or `BufferSizeExceeded` when it is above the budget.
    pub fn validate_buffer_size(&self, requested_size: usize) -> (r: Result<usize, FlapjackError>)
        ensures
            requested_size <= self@.max_buffer ==> r == Ok::<usize, FlapjackError>(requested_size),
            requested_size > self@.max_buffer ==> r == Err::<usize, FlapjackError>(
                FlapjackError::BufferSizeExceeded { requested: requested_size, max: self@.max_buffer },
            ),
    {
        if requested_size > self.max_buffer_size_bytes {
            return Err(
                FlapjackError::BufferSizeExceeded {
                    requested: requested_size,
                    max: self.max_buffer_size_bytes,
                },
            );
        }
        Ok(requested_size)
    }

    /// `Ok` for a document within the budget, `DocumentTooLarge` otherwise.
    pub fn validate_document_size(&self, doc_size_bytes: usize) -> (r: Result<(), FlapjackError>)
        ensures
            doc_size_bytes <= self@.max_document ==> r == Ok::<(), FlapjackError>(()),
            doc_size_bytes > self@.max_document ==> r == Err::<(), FlapjackError>(
                FlapjackError::DocumentTooLarge { size: doc_size_bytes, max: self@.max_document },
            ),
    {
        if doc_size_bytes > self.max_document_size_bytes {
            return Err(
                FlapjackError::DocumentTooLarge {
                    size: doc_size_bytes,
                    max: self.max_document_size_bytes,
                },
            );
        }
        Ok(())
    }

    /// Admit a writer with a buffer of `buffer_size` bytes: the size must fit the
    /// budget (else `BufferSizeExceeded`, nothing admitted), then a writer slot must
    /// be free (else `TooManyConcurrentWrites`). On success the validated size and
    /// the slot are returned.
    pub fn reserve_writer(&mut self, buffer_size: usize) -> (r: Result<(usize, WriterGuard), FlapjackError>)
        requires
            old(self)@.wf(),
            old(self)@.active < usize::MAX,
        ensures
            buffer_size > old(self)@.max_buffer ==> final(self)@ == old(self)@ && (r matches Err(e) && e
                == (FlapjackError::BufferSizeExceeded { requested: buffer_size, max: old(self)@.max_buffer })),
            buffer_size <= old(self)@.max_buffer ==> {
                &&& final(self)@ == old(self)@.after_acquire()
                &&& (r is Ok <==> old(self)@.admits())
                &&& (r matches Ok(ok) ==> ok.0 == buffer_size)
                &&& (!old(self)@.admits() ==> (r matches Err(e) && e == old(self)@.refusal()))
            },
    {
        let size = match self.validate_buffer_size(buffer_size) {
            Ok(s) => s,
            Err(e) => {
                return Err(e);
            },
        };
        match self.acquire_writer() {
            Ok(guard) => Ok((size, guard)),
            Err(e) => Err(e),
        }
    }

    /// Number of writers currently admitted.
    pub fn active_writers(&self) -> (r: usize)
        ensures
            r == self@.active,
    {
        self.active_writers
    }

    /// Maximum number of concurrently admitted writers.
    pub fn max_concurrent_writers(&self) -> (r: usize)
        ensures
            r == self@.max_writers,
    {
        self.max_concurrent_writers
    }

    /// Forget every admitted writer.
    pub fn reset_for_test(&mut self)
        ensures
            final(self)@ == (BudgetState { active: 0, ..old(self)@ }),
    {
        self.active_writers = 0;
    }
}

/// Admitting a writer and then giving its slot back leaves the budget as it was.
pub proof fn law_acquire_then_release_restores(s: BudgetState)
    requires
        s.wf(),
        s.admits(),
    ensures
        s.after_acquire().after_release() == s,
{
}

/// No sequence of requests, releases and resets admits more writers than the maximum.
pub proof fn law_budget_never_exceeded(s: BudgetState)
    requires
        s.wf(),
    ensures
        s.after_acquire().wf(),
        s.active > 0 ==> s.after_release().wf(),
        (BudgetState { active: 0, ..s }).wf(),
        s.after_acquire().active <= s.max_writers,
{
}

/// A refused request changes nothing.
pub proof fn law_refusal_changes_nothing(s: BudgetState)
    requires
        !s.admits(),
    ensures
        s.after_acquire() == s,
{
}

} // verus!
