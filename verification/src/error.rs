//! The library's error values.
use vstd::prelude::*;

verus! {

/// Why an operation of the library was refused.
#[derive(Debug, Clone, PartialEq, Eq)]
pub enum FlapjackError {
    /// A writer was requested while `max` writers were already active;
    /// `current` counts the refused request too.
    TooManyConcurrentWrites { current: usize, max: usize },
    /// A writer buffer larger than the budget allows was requested.
    BufferSizeExceeded { requested: usize, max: usize },
    /// A document's serialized size exceeds the budget.
    DocumentTooLarge { size: usize, max: usize },
    /// A named field is not part of the schema.
    FieldNotFound(String),
    /// A value does not have the type its field requires.
    TypeMismatch { field: String, expected: String },
    /// A required field is absent from a document.
    MissingField(String),
    /// A document is not a JSON object.
    InvalidDocument(String),
    /// No task has the given id.
    TaskNotFound(String),
    /// No tenant has the given id.
    TenantNotFound(String),
    /// The write queue refused a command.
    QueueFull,
    /// The search engine reported a failure.
    Tantivy(String),
}

/// The rejection code that a write reports for a document refused with `e`.
pub open spec fn error_code(e: FlapjackError) -> Seq<char> {
    match e {
        FlapjackError::FieldNotFound(_) => "field_not_found"@,
        FlapjackError::TypeMismatch { .. } => "type_mismatch"@,
        FlapjackError::MissingField(_) => "missing_field"@,
        FlapjackError::DocumentTooLarge { .. } => "document_too_large"@,
        _ => "validation_error"@,
    }
}

/// The rejection code of an error (`field_not_found`, `type_mismatch`,
/// `missing_field`, `document_too_large`, or `validation_error` for every other error).
pub fn classify_error(e: &FlapjackError) -> (r: String)
    ensures
        r@ == error_code(*e),
{
    match e {
        FlapjackError::FieldNotFound(_) => String::from_str("field_not_found"),
        FlapjackError::TypeMismatch { .. } => String::from_str("type_mismatch"),
        FlapjackError::MissingField(_) => String::from_str("missing_field"),
        FlapjackError::DocumentTooLarge { .. } => String::from_str("document_too_large"),
        _ => String::from_str("validation_error"),
    }
}

} // verus!
