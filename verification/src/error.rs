//! What the store reports when it turns an operation down.

use crate::models::{ModelValidationError, ModelValidationErrorView};
use crate::text::{decimal, decimal_text};
use vstd::prelude::*;
use vstd::string::*;

verus! {

/// An integrity rule of the store that an accepted input would break.
#[derive(Debug, Clone, Copy, PartialEq, Eq, Structural)]
pub enum StoreFault {
    /// A task names a category that the store does not hold.
    UnknownCategory,
    /// Every identifier the store can assign has been assigned.
    IdentifiersExhausted,
    /// Rows handed to the store do not fit together.
    InconsistentRows,
    /// The clock shows a time that cannot be written down.
    ClockUnavailable,
}

/// Why the store turned an operation down.
#[derive(Debug)]
pub enum StoreError {
    /// The input breaks the listed rules.
    Validation(Vec<ModelValidationError>),
    /// The operation names an identifier that the store does not hold.
    NotFound,
    /// The store could not carry the operation out.
    StoreFailure(StoreFault),
}

/// The value of a [`StoreError`].
pub enum StoreErrorView {
    Validation(Seq<ModelValidationErrorView>),
    NotFound,
    StoreFailure(StoreFault),
}

impl View for StoreError {
    type V = StoreErrorView;

    open spec fn view(&self) -> StoreErrorView {
        match self {
            StoreError::Validation(errors) => StoreErrorView::Validation(errors.deep_view()),
            StoreError::NotFound => StoreErrorView::NotFound,
            StoreError::StoreFailure(fault) => StoreErrorView::StoreFailure(*fault),
        }
    }
}

/// What is said of one broken rule.
pub open spec fn violation_message(e: ModelValidationErrorView) -> Seq<char> {
    match e {
        ModelValidationErrorView::Invalid(reason) => "Validation failed: "@ + reason,
        ModelValidationErrorView::Required { field } => "Field '"@ + field + "' is required"@,
        ModelValidationErrorView::TooLong { field, max } => "Field '"@ + field
            + "' exceeds maximum length of "@ + decimal(max),
    }
}

/// What is said of several broken rules: of each in turn, with `; `
/// between them.
pub open spec fn violations_message(errors: Seq<ModelValidationErrorView>) -> Seq<char>
    decreases errors.len(),
{
    if errors.len() == 0 {
        Seq::empty()
    } else if errors.len() == 1 {
        violation_message(errors[0])
    } else {
        violations_message(errors.drop_last()) + "; "@ + violation_message(errors.last())
    }
}

/// What is said of a fault of the store.
pub open spec fn fault_message(fault: StoreFault) -> Seq<char> {
    match fault {
        StoreFault::UnknownCategory => "Store failure: the category does not exist"@,
        StoreFault::IdentifiersExhausted => "Store failure: no identifier is left"@,
        StoreFault::InconsistentRows => "Store failure: the rows do not fit together"@,
        StoreFault::ClockUnavailable => "Store failure: the clock cannot be read"@,
    }
}

/// What is said of an operation that was turned down.
pub open spec fn error_message(e: StoreErrorView) -> Seq<char> {
    match e {
        StoreErrorView::Validation(errors) => "Validation error: "@ + violations_message(errors),
        StoreErrorView::NotFound => "Not found"@,
        StoreErrorView::StoreFailure(fault) => fault_message(fault),
    }
}

impl ModelValidationError {
    /// The broken rule in words.
    pub fn message(&self) -> (text: String)
        ensures
            text@ == violation_message(self@),
    {
        match self {
            ModelValidationError::Invalid(reason) => {
                let mut text = String::from_str("Validation failed: ");
                text.append(reason.as_str());
                text
            },
            ModelValidationError::Required { field } => {
                let mut text = String::from_str("Field '");
                text.append(field.as_str());
                text.append("' is required");
                text
            },
            ModelValidationError::TooLong { field, max } => {
                let mut text = String::from_str("Field '");
                text.append(field.as_str());
                text.append("' exceeds maximum length of ");
                let limit = decimal_text(*max as u64);
                text.append(limit.as_str());
                text
            },
        }
    }
}

/// The broken rules in words.
pub fn violations_text(errors: &Vec<ModelValidationError>) -> (text: String)
    ensures
        text@ == violations_message(errors.deep_view()),
{
    let ghost all = errors.deep_view();
    let mut text = String::new();
    let mut i: usize = 0;
    proof {
        assert(all.take(0) =~= Seq::empty());
    }
    while i < errors.len()
        invariant
            i <= errors.len(),
            all == errors.deep_view(),
            text@ == violations_message(all.take(i as int)),
        decreases errors.len() - i,
    {
        let one = errors[i].message();
        proof {
            let next = all.take(i as int + 1);
            assert(next.drop_last() =~= all.take(i as int));
            assert(next.last() == errors[i as int]@);
        }
        if i > 0 {
            text.append("; ");
        }
        text.append(one.as_str());
        proof {
            if i == 0 {
                assert(text@ =~= one@);
            } else {
                assert(text@ =~= violations_message(all.take(i as int)) + "; "@ + one@);
            }
        }
        i = i + 1;
    }
    proof {
        assert(all.take(i as int) =~= all);
    }
    text
}

impl StoreFault {
    /// The fault in words.
    pub fn message(&self) -> (text: String)
        ensures
            text@ == fault_message(*self),
    {
        match self {
            StoreFault::UnknownCategory => String::from_str(
                "Store failure: the category does not exist",
            ),
            StoreFault::IdentifiersExhausted => String::from_str(
                "Store failure: no identifier is left",
            ),
            StoreFault::InconsistentRows => String::from_str(
                "Store failure: the rows do not fit together",
            ),
            StoreFault::ClockUnavailable => String::from_str(
                "Store failure: the clock cannot be read",
            ),
        }
    }
}

impl StoreError {
    /// Why the operation was turned down, in words.
    pub fn message(&self) -> (text: String)
        ensures
            text@ == error_message(self@),
    {
        match self {
            StoreError::Validation(errors) => {
                let mut text = String::from_str("Validation error: ");
                let rules = violations_text(errors);
                text.append(rules.as_str());
                text
            },
            StoreError::NotFound => String::from_str("Not found"),
            StoreError::StoreFailure(fault) => fault.message(),
        }
    }
}

/// The error of an operation that could not read the clock.
pub open spec fn clock_failure() -> StoreErrorView {
    StoreErrorView::StoreFailure(StoreFault::ClockUnavailable)
}

} // verus!
