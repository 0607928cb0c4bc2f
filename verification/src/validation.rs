//! The rules an input must meet before the store accepts it.
//!
//! Validation is pure: it reads its input and reports every broken rule it
//! finds, in the order of the input's fields.

use crate::clock::{is_rfc3339, parses_as_rfc3339};
use crate::models::{
    CreateCategoryInput, CreateCategoryInputView, CreateTaskInput, CreateTaskInputView,
    ModelValidationError, ModelValidationErrorView, UpdateTaskInput, UpdateTaskInputView,
};
use crate::text::{chars_of, same_text};
use vstd::prelude::*;
use vstd::string::*;

verus! {

/// Most characters a task title may hold.
pub const TITLE_MAX: usize = 255;

/// Most characters a task description may hold.
pub const DESCRIPTION_MAX: usize = 1000;

/// Most characters a category name may hold.
pub const NAME_MAX: usize = 100;

/// What is reported of a priority outside the closed set.
pub open spec fn priority_message() -> Seq<char> {
    "Priority must be 'low', 'medium', or 'high'"@
}

/// What is reported of a due date that does not parse.
pub open spec fn date_message() -> Seq<char> {
    "Date must be in ISO 8601 format"@
}

/// What is reported of a colour that is not `#RRGGBB`.
pub open spec fn color_message() -> Seq<char> {
    "Color must be a valid hex color (e.g., #FF5733)"@
}

/// The closed set of priorities.
pub open spec fn is_priority(p: Seq<char>) -> bool {
    p == "low"@ || p == "medium"@ || p == "high"@
}

/// An ASCII hexadecimal digit, in either case.
pub open spec fn is_hex_digit(c: char) -> bool {
    ('0' <= c <= '9') || ('a' <= c <= 'f') || ('A' <= c <= 'F')
}

/// `#` followed by exactly six hexadecimal digits.
pub open spec fn is_hex_color(c: Seq<char>) -> bool {
    &&& c.len() == 7
    &&& c[0] == '#'
    &&& forall|i: int| 1 <= i < 7 ==> is_hex_digit(#[trigger] c[i])
}

/// A title is not empty and holds at most `TITLE_MAX` characters.
pub open spec fn title_ok(title: Seq<char>) -> bool {
    1 <= title.len() <= TITLE_MAX
}

/// A description, where there is one, holds at most `DESCRIPTION_MAX`
/// characters.
pub open spec fn description_ok(description: Option<Seq<char>>) -> bool {
    match description {
        Some(d) => d.len() <= DESCRIPTION_MAX,
        None => true,
    }
}

/// A due date, where there is one, parses as RFC 3339.
pub open spec fn due_date_ok(due_date: Option<Seq<char>>) -> bool {
    match due_date {
        Some(d) => is_rfc3339(d),
        None => true,
    }
}

/// A category name is not empty and holds at most `NAME_MAX` characters.
pub open spec fn name_ok(name: Seq<char>) -> bool {
    1 <= name.len() <= NAME_MAX
}

/// What is reported of a text with a lower bound of one character and an
/// upper bound of `max`.
pub open spec fn bounded_violations(field: Seq<char>, value: Seq<char>, max: nat) -> Seq<
    ModelValidationErrorView,
> {
    if value.len() == 0 {
        seq![ModelValidationErrorView::Required { field }]
    } else if value.len() > max {
        seq![ModelValidationErrorView::TooLong { field, max }]
    } else {
        Seq::empty()
    }
}

/// What is reported of an optional text with an upper bound of `max`.
pub open spec fn capped_violations(field: Seq<char>, value: Option<Seq<char>>, max: nat) -> Seq<
    ModelValidationErrorView,
> {
    match value {
        Some(v) => if v.len() > max {
            seq![ModelValidationErrorView::TooLong { field, max }]
        } else {
            Seq::empty()
        },
        None => Seq::empty(),
    }
}

/// What is reported of an optional priority.
pub open spec fn priority_violations(priority: Option<Seq<char>>) -> Seq<ModelValidationErrorView> {
    match priority {
        Some(p) => if is_priority(p) {
            Seq::empty()
        } else {
            seq![ModelValidationErrorView::Invalid(priority_message())]
        },
        None => Seq::empty(),
    }
}

/// What is reported of a due date, given whether it is acceptable.
pub open spec fn due_date_violations(acceptable: bool) -> Seq<ModelValidationErrorView> {
    if acceptable {
        Seq::empty()
    } else {
        seq![ModelValidationErrorView::Invalid(date_message())]
    }
}

/// What is reported of an optional colour.
pub open spec fn color_violations(color: Option<Seq<char>>) -> Seq<ModelValidationErrorView> {
    match color {
        Some(c) => if is_hex_color(c) {
            Seq::empty()
        } else {
            seq![ModelValidationErrorView::Invalid(color_message())]
        },
        None => Seq::empty(),
    }
}

/// Every broken rule of the four checked fields of a task, in field order,
/// given whether the due date is acceptable.
pub open spec fn task_field_violations(
    title: Option<Seq<char>>,
    description: Option<Seq<char>>,
    priority: Option<Seq<char>>,
    due_date_acceptable: bool,
) -> Seq<ModelValidationErrorView> {
    (match title {
        Some(t) => bounded_violations("title"@, t, TITLE_MAX as nat),
        None => Seq::empty(),
    }) + capped_violations("description"@, description, DESCRIPTION_MAX as nat)
        + priority_violations(priority) + due_date_violations(due_date_acceptable)
}

impl CreateTaskInputView {
    /// The input meets every rule.
    pub open spec fn is_valid(self) -> bool {
        self.is_valid_given(due_date_ok(self.due_date))
    }

    /// The input meets every rule, given whether its due date is acceptable.
    pub open spec fn is_valid_given(self, due_date_acceptable: bool) -> bool {
        &&& title_ok(self.title)
        &&& description_ok(self.description)
        &&& (self.priority matches Some(p) ==> is_priority(p))
        &&& due_date_acceptable
    }

    /// Every broken rule, in field order.
    pub open spec fn violations(self) -> Seq<ModelValidationErrorView> {
        self.violations_given(due_date_ok(self.due_date))
    }

    /// Every broken rule, in field order, given whether the due date is
    /// acceptable.
    pub open spec fn violations_given(self, due_date_acceptable: bool) -> Seq<
        ModelValidationErrorView,
    > {
        task_field_violations(
            Some(self.title),
            self.description,
            self.priority,
            due_date_acceptable,
        )
    }
}

impl UpdateTaskInputView {
    /// Every field that is present meets the rule of that field.
    pub open spec fn is_valid(self) -> bool {
        self.is_valid_given(due_date_ok(self.due_date))
    }

    /// Every field that is present meets its rule, given whether the due
    /// date is acceptable.
    pub open spec fn is_valid_given(self, due_date_acceptable: bool) -> bool {
        &&& (self.title matches Some(t) ==> title_ok(t))
        &&& description_ok(self.description)
        &&& (self.priority matches Some(p) ==> is_priority(p))
        &&& due_date_acceptable
    }

    /// Every broken rule, in field order.
    pub open spec fn violations(self) -> Seq<ModelValidationErrorView> {
        self.violations_given(due_date_ok(self.due_date))
    }

    /// Every broken rule, in field order, given whether the due date is
    /// acceptable.
    pub open spec fn violations_given(self, due_date_acceptable: bool) -> Seq<
        ModelValidationErrorView,
    > {
        task_field_violations(self.title, self.description, self.priority, due_date_acceptable)
    }
}

impl CreateCategoryInputView {
    /// The input meets every rule.
    pub open spec fn is_valid(self) -> bool {
        &&& name_ok(self.name)
        &&& (self.color matches Some(c) ==> is_hex_color(c))
    }

    /// Every broken rule, in field order.
    pub open spec fn violations(self) -> Seq<ModelValidationErrorView> {
        bounded_violations("name"@, self.name, NAME_MAX as nat) + color_violations(self.color)
    }
}

/// Calls `validator::validate_length` with a lower and an upper bound and no
/// exact length. For a string that function counts characters, so the
/// result says whether the count lies within the bounds, both included.
#[verifier::external_body]
fn length_within(value: &str, min: u64, max: u64) -> (ok: bool)
    ensures
        ok == (min <= value@.len() <= max),
{
    validator::validate_length(value, Some(min), Some(max), None)
}

/// An owned string holding the text of `s`.
fn owned(s: &str) -> (out: String)
    ensures
        out@ == s@,
{
    String::from_str(s)
}

/// Checks a text with a lower bound of one character and an upper bound
/// of `max`, adding what is broken to `errors`.
fn check_bounded(errors: &mut Vec<ModelValidationError>, field: &str, value: &str, max: usize)
    requires
        max >= 1,
    ensures
        final(errors).deep_view() == old(errors).deep_view() + bounded_violations(
            field@,
            value@,
            max as nat,
        ),
{
    let ghost before = errors.deep_view();
    if !length_within(value, 1, max as u64) {
        if length_within(value, 0, 0) {
            errors.push(ModelValidationError::Required { field: owned(field) });
        } else {
            errors.push(ModelValidationError::TooLong { field: owned(field), max });
        }
        proof {
            assert(errors.deep_view() =~= before + bounded_violations(field@, value@, max as nat));
        }
    } else {
        proof {
            assert(errors.deep_view() =~= before + bounded_violations(field@, value@, max as nat));
        }
    }
}

/// Checks an optional text with an upper bound of `max`, adding what is
/// broken to `errors`.
fn check_capped(
    errors: &mut Vec<ModelValidationError>,
    field: &str,
    value: &Option<String>,
    max: usize,
)
    ensures
        final(errors).deep_view() == old(errors).deep_view() + capped_violations(
            field@,
            crate::models::opt_text(*value),
            max as nat,
        ),
{
    let ghost before = errors.deep_view();
    let ghost expected = before + capped_violations(
        field@,
        crate::models::opt_text(*value),
        max as nat,
    );
    match value {
        Some(v) => {
            if !length_within(v.as_str(), 0, max as u64) {
                errors.push(ModelValidationError::TooLong { field: owned(field), max });
            }
        },
        None => {},
    }
    proof {
        assert(errors.deep_view() =~= expected);
    }
}

/// Checks an optional priority, adding what is broken to `errors`.
fn check_priority(errors: &mut Vec<ModelValidationError>, priority: &Option<String>)
    ensures
        final(errors).deep_view() == old(errors).deep_view() + priority_violations(
            crate::models::opt_text(*priority),
        ),
{
    let ghost before = errors.deep_view();
    let ghost expected = before + priority_violations(crate::models::opt_text(*priority));
    match priority {
        Some(p) => {
            match validate_priority(p.as_str()) {
                Ok(()) => {},
                Err(e) => {
                    errors.push(e);
                },
            }
        },
        None => {},
    }
    proof {
        assert(errors.deep_view() =~= expected);
    }
}

/// Checks an optional colour, adding what is broken to `errors`.
fn check_color(errors: &mut Vec<ModelValidationError>, color: &Option<String>)
    ensures
        final(errors).deep_view() == old(errors).deep_view() + color_violations(
            crate::models::opt_text(*color),
        ),
{
    let ghost before = errors.deep_view();
    let ghost expected = before + color_violations(crate::models::opt_text(*color));
    match color {
        Some(c) => {
            match validate_color(c.as_str()) {
                Ok(()) => {},
                Err(e) => {
                    errors.push(e);
                },
            }
        },
        None => {},
    }
    proof {
        assert(errors.deep_view() =~= expected);
    }
}

/// Adds the report of an unacceptable due date to `errors`.
fn check_due_date(errors: &mut Vec<ModelValidationError>, acceptable: bool)
    ensures
        final(errors).deep_view() == old(errors).deep_view() + due_date_violations(acceptable),
{
    let ghost before = errors.deep_view();
    match date_verdict(acceptable) {
        Ok(()) => {},
        Err(e) => {
            errors.push(e);
        },
    }
    proof {
        assert(errors.deep_view() =~= before + due_date_violations(acceptable));
    }
}

/// Whether a due date, where there is one, parses as RFC 3339.
pub fn due_date_parses(due_date: &Option<String>) -> (ok: bool)
    ensures
        ok == due_date_ok(crate::models::opt_text(*due_date)),
{
    match due_date {
        Some(d) => parses_as_rfc3339(d.as_str()),
        None => true,
    }
}

/// Accepts exactly `low`, `medium` and `high`.
pub fn validate_priority(priority: &str) -> (r: Result<(), ModelValidationError>)
    ensures
        r is Ok <==> is_priority(priority@),
        r matches Err(e) ==> e@ == ModelValidationErrorView::Invalid(priority_message()),
{
    if same_text(priority, "low") || same_text(priority, "medium") || same_text(priority, "high") {
        Ok(())
    } else {
        Err(ModelValidationError::Invalid(owned("Priority must be 'low', 'medium', or 'high'")))
    }
}

/// The verdict on a date, given whether it parsed.
pub fn date_verdict(parses: bool) -> (r: Result<(), ModelValidationError>)
    ensures
        r is Ok <==> parses,
        r matches Err(e) ==> e@ == ModelValidationErrorView::Invalid(date_message()),
{
    if parses {
        Ok(())
    } else {
        Err(ModelValidationError::Invalid(owned("Date must be in ISO 8601 format")))
    }
}

/// Accepts a date-time that parses as RFC 3339, offset included.
pub fn validate_date_format(date: &str) -> (r: Result<(), ModelValidationError>)
    ensures
        r is Ok <==> is_rfc3339(date@),
        r matches Err(e) ==> e@ == ModelValidationErrorView::Invalid(date_message()),
{
    date_verdict(parses_as_rfc3339(date))
}

/// Whether `c` is an ASCII hexadecimal digit.
fn hex_digit(c: char) -> (ok: bool)
    ensures
        ok == is_hex_digit(c),
{
    ('0' <= c && c <= '9') || ('a' <= c && c <= 'f') || ('A' <= c && c <= 'F')
}

/// Accepts `#` followed by exactly six hexadecimal digits.
pub fn validate_color(color: &str) -> (r: Result<(), ModelValidationError>)
    ensures
        r is Ok <==> is_hex_color(color@),
        r matches Err(e) ==> e@ == ModelValidationErrorView::Invalid(color_message()),
{
    let chars = chars_of(color);
    let mut ok = chars.len() == 7 && chars[0] == '#';
    if ok {
        let mut i: usize = 1;
        while i < 7
            invariant
                chars@ == color@,
                chars@.len() == 7,
                chars@[0] == '#',
                1 <= i <= 7,
                ok <==> forall|k: int| 1 <= k < i ==> is_hex_digit(#[trigger] color@[k]),
            decreases 7 - i,
        {
            if !hex_digit(chars[i]) {
                ok = false;
            }
            i = i + 1;
        }
    }
    if ok {
        Ok(())
    } else {
        Err(ModelValidationError::Invalid(owned("Color must be a valid hex color (e.g., #FF5733)")))
    }
}

/// Whether the four checked fields of a stored task meet their rules.
pub fn task_fields_valid(
    title: &str,
    description: &Option<String>,
    priority: &str,
    due_date: &Option<String>,
) -> (ok: bool)
    ensures
        ok == (title_ok(title@) && description_ok(crate::models::opt_text(*description))
            && is_priority(priority@) && due_date_ok(crate::models::opt_text(*due_date))),
{
    let title_fits = length_within(title, 1, TITLE_MAX as u64);
    let description_fits = match description {
        Some(d) => length_within(d.as_str(), 0, DESCRIPTION_MAX as u64),
        None => true,
    };
    let priority_known = match validate_priority(priority) {
        Ok(()) => true,
        Err(_) => false,
    };
    title_fits && description_fits && priority_known && due_date_parses(due_date)
}

/// Whether the two checked fields of a stored category meet their rules.
pub fn category_fields_valid(name: &str, color: &str) -> (ok: bool)
    ensures
        ok == (name_ok(name@) && is_hex_color(color@)),
{
    let name_fits = length_within(name, 1, NAME_MAX as u64);
    let color_fits = match validate_color(color) {
        Ok(()) => true,
        Err(_) => false,
    };
    name_fits && color_fits
}

impl CreateTaskInput {
    /// Checks every rule, the due date by parsing it.
    pub fn validate(&self) -> (r: Result<(), Vec<ModelValidationError>>)
        ensures
            r is Ok <==> self@.is_valid(),
            r matches Err(errors) ==> errors.deep_view() == self@.violations(),
    {
        self.validate_given(due_date_parses(&self.due_date))
    }

    /// Checks every rule, taking the caller's word on whether the due date
    /// is acceptable.
    pub fn validate_given(&self, due_date_acceptable: bool) -> (r: Result<
        (),
        Vec<ModelValidationError>,
    >)
        ensures
            r is Ok <==> self@.is_valid_given(due_date_acceptable),
            r matches Err(errors) ==> errors.deep_view() == self@.violations_given(
                due_date_acceptable,
            ),
    {
        let mut errors: Vec<ModelValidationError> = Vec::new();
        proof {
            assert(errors.deep_view() =~= Seq::empty());
        }
        check_bounded(&mut errors, "title", self.title.as_str(), TITLE_MAX);
        check_capped(&mut errors, "description", &self.description, DESCRIPTION_MAX);
        check_priority(&mut errors, &self.priority);
        check_due_date(&mut errors, due_date_acceptable);
        proof {
            assert(errors.deep_view() =~= self@.violations_given(due_date_acceptable));
        }
        if errors.len() == 0 {
            Ok(())
        } else {
            Err(errors)
        }
    }
}

impl UpdateTaskInput {
    /// Checks the rule of every field that is present, the due date by
    /// parsing it.
    pub fn validate(&self) -> (r: Result<(), Vec<ModelValidationError>>)
        ensures
            r is Ok <==> self@.is_valid(),
            r matches Err(errors) ==> errors.deep_view() == self@.violations(),
    {
        self.validate_given(due_date_parses(&self.due_date))
    }

    /// Checks the rule of every field that is present, taking the caller's
    /// word on whether the due date is acceptable.
    pub fn validate_given(&self, due_date_acceptable: bool) -> (r: Result<
        (),
        Vec<ModelValidationError>,
    >)
        ensures
            r is Ok <==> self@.is_valid_given(due_date_acceptable),
            r matches Err(errors) ==> errors.deep_view() == self@.violations_given(
                due_date_acceptable,
            ),
    {
        let mut errors: Vec<ModelValidationError> = Vec::new();
        proof {
            assert(errors.deep_view() =~= Seq::empty());
        }
        match &self.title {
            Some(t) => {
                check_bounded(&mut errors, "title", t.as_str(), TITLE_MAX);
            },
            None => {},
        }
        check_capped(&mut errors, "description", &self.description, DESCRIPTION_MAX);
        check_priority(&mut errors, &self.priority);
        check_due_date(&mut errors, due_date_acceptable);
        proof {
            assert(errors.deep_view() =~= self@.violations_given(due_date_acceptable));
        }
        if errors.len() == 0 {
            Ok(())
        } else {
            Err(errors)
        }
    }
}

impl CreateCategoryInput {
    /// Checks every rule.
    pub fn validate(&self) -> (r: Result<(), Vec<ModelValidationError>>)
        ensures
            r is Ok <==> self@.is_valid(),
            r matches Err(errors) ==> errors.deep_view() == self@.violations(),
    {
        let mut errors: Vec<ModelValidationError> = Vec::new();
        proof {
            assert(errors.deep_view() =~= Seq::empty());
        }
        check_bounded(&mut errors, "name", self.name.as_str(), NAME_MAX);
        check_color(&mut errors, &self.color);
        proof {
            assert(errors.deep_view() =~= self@.violations());
        }
        if errors.len() == 0 {
            Ok(())
        } else {
            Err(errors)
        }
    }
}

} // verus!
