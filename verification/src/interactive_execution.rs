//! Stepwise execution of a test case for debugging: the steps a test case
//! runs, the checks made on a dry run, and progress reports.

use vstd::prelude::*;
use crate::text::{owned, concat, concat4, decimal, decimal_text};
use crate::error::ExecutionError;
use crate::test_case_manager::{TestCase, RequestDefinition, AssertionDefinition, VariableExtraction, same_request};

verus! {

/// How a test case is run when debugging.
pub struct DebugOptions {
    pub dry_run: bool,
    pub verbose: bool,
    pub inspect_variables: bool,
    /// Steps to pause at, each once.
    pub breakpoints: Vec<usize>,
    pub step_through: bool,
    pub pause_on_failure: bool,
    pub capture_request_response: bool,
}

impl DebugOptions {
    /// A real run without breakpoints or stepping, pausing on failure and
    /// capturing requests and responses.
    pub fn default_options() -> (r: Self)
        ensures
            !r.dry_run && !r.verbose && !r.inspect_variables && !r.step_through,
            r.breakpoints@.len() == 0,
            r.pause_on_failure && r.capture_request_response,
    {
        DebugOptions {
            dry_run: false,
            verbose: false,
            inspect_variables: false,
            breakpoints: Vec::new(),
            step_through: false,
            pause_on_failure: true,
            capture_request_response: true,
        }
    }
}

/// Kinds of execution step.
#[derive(Clone, Copy, Debug, PartialEq, Eq, Structural)]
pub enum StepType {
    RequestExecution,
    VariableExtraction,
    AssertionValidation,
    PreConditionCheck,
    PostConditionCheck,
}

/// Kinds of problem a dry run finds.
#[derive(Clone, Copy, Debug, PartialEq, Eq, Structural)]
pub enum ValidationErrorType {
    InvalidUrl,
    MissingVariable,
    InvalidJsonPath,
    InvalidAssertion,
    CircularDependency,
    MissingAuthentication,
}

/// A problem a dry run finds, at a step.
pub struct ValidationError {
    pub step_index: usize,
    pub error_type: ValidationErrorType,
    pub message: String,
    pub suggestion: Option<String>,
}

/// A step of a test case's execution.
pub struct ExecutionStep {
    pub name: String,
    pub step_type: StepType,
    pub request: Option<RequestDefinition>,
    pub assertions: Option<Vec<AssertionDefinition>>,
    pub variable_extractions: Option<Vec<VariableExtraction>>,
}

/// Progress of an execution. Times are in milliseconds.
pub struct ProgressUpdate {
    pub execution_id: String,
    pub current_step: usize,
    pub total_steps: usize,
    pub current_test_case: String,
    pub elapsed_ms: u64,
    pub estimated_remaining_ms: Option<u64>,
    pub success_count: usize,
    pub failure_count: usize,
}

/// The number of steps of a test case: its request, each assertion, and the
/// extraction of variables when it has any.
pub open spec fn total_steps(tc: TestCase) -> int {
    1 + tc.assertions@.len() + if tc.variable_extractions is Some { 1int } else { 0int }
}

/// Counts the steps of a test case (see `total_steps`).
pub fn calculate_total_steps(test_case: &TestCase) -> (r: usize)
    requires
        test_case.assertions@.len() + 2 <= usize::MAX,
    ensures
        r == total_steps(*test_case),
{
    let mut steps: usize = 1;
    steps = steps + test_case.assertions.len();
    if test_case.variable_extractions.is_some() {
        steps = steps + 1;
    }
    steps
}

/// The steps run for a test case: the request, then the assertions when
/// there are any, then the extraction of variables when there is one.
pub open spec fn execution_steps(steps: Seq<ExecutionStep>, tc: TestCase) -> bool {
    let has_checks = tc.assertions@.len() > 0;
    let has_extraction = tc.variable_extractions is Some;
    &&& steps.len() == 1 + (if has_checks { 1int } else { 0int }) + (if has_extraction { 1int } else { 0int })
    &&& steps[0].name@ == "Execute Request"@
    &&& steps[0].step_type == StepType::RequestExecution
    &&& steps[0].request matches Some(r) && same_request(r, tc.request)
    &&& steps[0].assertions is None && steps[0].variable_extractions is None
    &&& has_checks ==> {
        &&& steps[1].name@ == "Validate Assertions"@
        &&& steps[1].step_type == StepType::AssertionValidation
        &&& steps[1].request is None && steps[1].variable_extractions is None
        &&& steps[1].assertions matches Some(a) && a@.len() == tc.assertions@.len()
    }
    &&& has_extraction ==> {
        let s = steps[steps.len() - 1];
        &&& s.name@ == "Extract Variables"@
        &&& s.step_type == StepType::VariableExtraction
        &&& s.request is None && s.assertions is None
        &&& s.variable_extractions matches Some(x) && tc.variable_extractions matches Some(y) && x@.len() == y@.len()
    }
}

/// Builds the steps of a test case (see `execution_steps`).
pub fn create_execution_steps(test_case: &TestCase) -> (r: Vec<ExecutionStep>)
    ensures
        execution_steps(r@, *test_case),
{
    let mut steps: Vec<ExecutionStep> = Vec::new();
    steps.push(ExecutionStep {
        name: owned("Execute Request"),
        step_type: StepType::RequestExecution,
        request: Some(test_case.request.duplicate()),
        assertions: None,
        variable_extractions: None,
    });
    if test_case.assertions.len() > 0 {
        let mut checks: Vec<AssertionDefinition> = Vec::new();
        let mut i: usize = 0;
        while i < test_case.assertions.len()
            invariant
                i <= test_case.assertions@.len(),
                checks@.len() == i,
            decreases test_case.assertions.len() - i,
        {
            checks.push(test_case.assertions[i].duplicate());
            i = i + 1;
        }
        steps.push(ExecutionStep {
            name: owned("Validate Assertions"),
            step_type: StepType::AssertionValidation,
            request: None,
            assertions: Some(checks),
            variable_extractions: None,
        });
    }
    match &test_case.variable_extractions {
        Some(extractions) => {
            let mut copies: Vec<VariableExtraction> = Vec::new();
            let mut i: usize = 0;
            while i < extractions.len()
                invariant
                    i <= extractions@.len(),
                    copies@.len() == i,
                decreases extractions.len() - i,
            {
                copies.push(extractions[i].duplicate());
                i = i + 1;
            }
            steps.push(ExecutionStep {
                name: owned("Extract Variables"),
                step_type: StepType::VariableExtraction,
                request: None,
                assertions: None,
                variable_extractions: Some(copies),
            });
        },
        None => {},
    }
    steps
}

/// What a dry run finds wrong with a test case: an empty URL.
pub fn validate_test_case(test_case: &TestCase) -> (r: Vec<ValidationError>)
    ensures
        test_case.request.url@.len() == 0 ==> (r@.len() == 1 && r@[0].step_index == 0
            && r@[0].error_type == ValidationErrorType::InvalidUrl
            && r@[0].message@ == "Invalid URL: "@ + "Test case execution failed: "@ + "Empty URL"@
            && (r@[0].suggestion matches Some(s) && s@ == "Check URL format and ensure all variables are defined"@)),
        test_case.request.url@.len() > 0 ==> r@.len() == 0,
{
    let mut errors: Vec<ValidationError> = Vec::new();
    if test_case.request.url.as_str().is_empty() {
        let e = ExecutionError::TestCaseFailed(owned("Empty URL"));
        let m = e.message();
        errors.push(ValidationError {
            step_index: 0,
            error_type: ValidationErrorType::InvalidUrl,
            message: concat("Invalid URL: ", m.as_str()),
            suggestion: Some(owned("Check URL format and ensure all variables are defined")),
        });
    }
    errors
}

/// Prints progress to the console.
pub struct ConsoleProgressSubscriber {
    show_details: bool,
}

impl ConsoleProgressSubscriber {
    /// Whether each step is reported.
    pub closed spec fn shows_details(&self) -> bool {
        self.show_details
    }

    /// A subscriber that reports each step when `show_details` is set.
    pub fn new(show_details: bool) -> (r: Self)
        ensures
            r.shows_details() == show_details,
    {
        ConsoleProgressSubscriber { show_details }
    }

    /// The line printed for a progress update, if steps are reported:
    /// `📊 Progress: step/total - test (elapsed ms)`, counting steps from one.
    pub fn progress_line(&self, update: &ProgressUpdate) -> (r: Option<String>)
        requires
            update.current_step < usize::MAX,
        ensures
            self.shows_details() ==> (r matches Some(t) && t@ == "📊 Progress: "@ + decimal(update.current_step as nat + 1)
                + "/"@ + decimal(update.total_steps as nat) + " - "@ + update.current_test_case@ + " ("@
                + decimal(update.elapsed_ms as nat) + "ms)"@),
            !self.shows_details() ==> r is None,
    {
        if self.show_details {
            let mut t = concat4(
                "📊 Progress: ",
                decimal_text((update.current_step + 1) as u64).as_str(),
                "/",
                decimal_text(update.total_steps as u64).as_str(),
            );
            t.append(" - ");
            t.append(update.current_test_case.as_str());
            t.append(" (");
            t.append(decimal_text(update.elapsed_ms).as_str());
            t.append("ms)");
            Some(t)
        } else {
            None
        }
    }
}

} // verus!
