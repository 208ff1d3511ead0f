//! Outcomes of executed transactions, and the checks that tests make of them.
//!
//! A check that fails returns `TransactionError::AssertionFailed` with a
//! report that holds the raw error text and every log line.

use crate::text::{
    contains_text, contains_whole_hex, dec_digits, hex_digits, joined, number_after, parse_number_after, push_dec,
    push_hex, push_joined, text_contains, text_contains_whole_hex,
};
use vstd::utf8::encode_utf8;
use vstd::prelude::*;
use vstd::string::StringExecFns;

verus! {

/// Why a transaction could not be run, or a check of its outcome failed.
#[derive(Clone, Debug, PartialEq, Eq)]
pub enum TransactionError {
    ExecutionFailed(String),
    BuildError(String),
    AssertionFailed(String),
}

/// The text of a `TransactionError`.
pub open spec fn error_text(e: TransactionError) -> Seq<char> {
    match e {
        TransactionError::ExecutionFailed(s) => "Transaction execution failed: "@ + s@,
        TransactionError::BuildError(s) => "Transaction build error: "@ + s@,
        TransactionError::AssertionFailed(s) => "Assertion failed: "@ + s@,
    }
}

impl TransactionError {
    /// The error as text.
    pub fn message(&self) -> (r: String)
        ensures
            r@ == error_text(*self),
    {
        let (mut r, s) = match self {
            TransactionError::ExecutionFailed(s) => (
                String::from_str("Transaction execution failed: "),
                s,
            ),
            TransactionError::BuildError(s) => (String::from_str("Transaction build error: "), s),
            TransactionError::AssertionFailed(s) => (String::from_str("Assertion failed: "), s),
        };
        r.append(s.as_str());
        r
    }
}

/// A transaction needs at least one signer, the first of which pays.
pub fn require_signers(count: usize) -> (r: Result<(), TransactionError>)
    ensures
        count > 0 <==> r is Ok,
        r matches Err(e) ==> e matches TransactionError::BuildError(m) && m@
            == "No signers provided"@,
{
    if count == 0 {
        return Err(TransactionError::BuildError(String::from_str("No signers provided")));
    }
    Ok(())
}

/// What the ledger reports of an execution, whether it succeeded or not.
#[derive(Clone, Debug)]
pub struct ExecutionMeta {
    /// The log lines, in the order they were written.
    pub logs: Vec<String>,
    /// The compute units consumed; a failed execution may have consumed some.
    pub compute_units_consumed: u64,
}

/// The outcome of one submitted transaction: logs and compute units, and the
/// raw error text where it failed.
#[derive(Clone, Debug)]
pub struct TransactionResult {
    inner: ExecutionMeta,
    instruction_name: Option<String>,
    error: Option<String>,
}

/// What a failure was, as far as its raw error text tells. The text is the
/// ledger's own and not a stable interface: what no rule recognises is `Other`.
#[derive(Clone, Debug, PartialEq, Eq)]
pub enum ErrorKind {
    /// An account that the transaction names does not exist.
    AccountNotFound,
    /// An account cannot pay what the transaction asks of it.
    InsufficientFunds,
    /// The program failed with its own error code.
    Custom(u32),
    /// Anything else, with the raw text.
    Other(String),
}

/// The custom error code that `error` carries, in the ledger's hexadecimal
/// rendering or else in its debug rendering, where it fits in a `u32`.
pub open spec fn custom_code(error: Seq<char>) -> Option<u32> {
    let hex = number_after(encode_utf8(error), encode_utf8("custom program error: 0x"@), 16);
    let dec = number_after(encode_utf8(error), encode_utf8("Custom("@), 10);
    if hex is Some && hex->Some_0 <= u32::MAX {
        Some(hex->Some_0 as u32)
    } else if dec is Some && dec->Some_0 <= u32::MAX {
        Some(dec->Some_0 as u32)
    } else {
        None
    }
}

/// `kind` is the classification of the raw error text `error`.
pub open spec fn classifies(kind: ErrorKind, error: Seq<char>) -> bool {
    if contains_text(error, "AccountNotFound"@) {
        kind is AccountNotFound
    } else if contains_text(error, "InsufficientFunds"@) || contains_text(
        error,
        "insufficient funds"@,
    ) {
        kind is InsufficientFunds
    } else if custom_code(error) is Some {
        kind == ErrorKind::Custom(custom_code(error)->Some_0)
    } else {
        kind matches ErrorKind::Other(t) && t@ == error
    }
}

/// Classifies the raw error text `error`.
pub fn classify_error(error: &str) -> (r: ErrorKind)
    ensures
        classifies(r, error@),
{
    if text_contains(error, "AccountNotFound") {
        return ErrorKind::AccountNotFound;
    }
    if text_contains(error, "InsufficientFunds") || text_contains(error, "insufficient funds") {
        return ErrorKind::InsufficientFunds;
    }
    match parse_number_after(error, "custom program error: 0x", 16) {
        Some(code) => {
            return ErrorKind::Custom(code);
        },
        None => {},
    }
    match parse_number_after(error, "Custom(", 10) {
        Some(code) => {
            return ErrorKind::Custom(code);
        },
        None => {},
    }
    ErrorKind::Other(error.to_owned())
}

/// The view of an optional text.
pub open spec fn opt_text(o: Option<String>) -> Option<Seq<char>> {
    match o {
        Some(s) => Some(s@),
        None => None,
    }
}

/// The view of an optional borrowed text.
pub open spec fn opt_ref_text(o: Option<&String>) -> Option<Seq<char>> {
    match o {
        Some(s) => Some(s@),
        None => None,
    }
}

/// Some line of `logs` contains `pattern`.
pub open spec fn some_log_contains(logs: Seq<String>, pattern: Seq<char>) -> bool {
    exists|i: int| 0 <= i < logs.len() && contains_text(#[trigger] logs[i]@, pattern)
}

/// The report of a failed execution.
pub open spec fn failed_report(error: Seq<char>, logs: Seq<String>) -> Seq<char> {
    "Transaction failed: "@ + error + "\nLogs:\n"@ + joined(logs)
}

/// The report of an execution that succeeded where a failure was expected.
pub open spec fn succeeded_report(logs: Seq<String>) -> Seq<char> {
    "Expected transaction to fail, but it succeeded.\nLogs:\n"@ + joined(logs)
}

/// The report of a failure whose error text lacks the expected part.
pub open spec fn wrong_error_report(expected: Seq<char>, error: Seq<char>, logs: Seq<String>) -> Seq<char> {
    "Transaction failed with unexpected error.\nExpected substring: "@ + expected
        + "\nActual error: "@ + error + "\nLogs:\n"@ + joined(logs)
}

/// The report of a success where a failure with the expected error was expected.
pub open spec fn no_error_report(expected: Seq<char>, logs: Seq<String>) -> Seq<char> {
    "Expected transaction to fail with error containing '"@ + expected
        + "', but it succeeded.\nLogs:\n"@ + joined(logs)
}

/// The report of a failure that names the expected error nowhere.
pub open spec fn missing_named_error_report(name: Seq<char>, error: Seq<char>, logs: Seq<String>) -> Seq<
    char,
> {
    "Expected Anchor error '"@ + name
        + "' not found in transaction logs or error message.\nError: "@ + error + "\nLogs:\n"@
        + joined(logs)
}

/// The report of logs that lack the expected message.
pub open spec fn missing_log_report(message: Seq<char>, logs: Seq<String>) -> Seq<char> {
    "Expected error message '"@ + message + "' not found in logs.\nLogs:\n"@ + joined(logs)
}

/// How the ledger renders a program's custom error `code`.
pub open spec fn custom_error_text(code: nat) -> Seq<char> {
    "custom program error: 0x"@ + hex_digits(code)
}

/// Each line of `logs` followed by a line break.
pub open spec fn log_lines(logs: Seq<String>) -> Seq<char>
    decreases logs.len(),
{
    if logs.len() == 0 {
        Seq::empty()
    } else {
        log_lines(logs.drop_last()) + logs.last()@ + "\n"@
    }
}

/// A readable account of an outcome: the instruction's name, the logs, the
/// error and the compute units.
pub open spec fn report_text(
    name: Option<Seq<char>>,
    logs: Seq<String>,
    error: Option<Seq<char>>,
    compute_units: u64,
) -> Seq<char> {
    "=== Transaction Logs ===\n"@ + match name {
        Some(n) => "Instruction: "@ + n + "\n"@,
        None => Seq::empty(),
    } + log_lines(logs) + match error {
        Some(e) => "Error: "@ + e + "\n"@,
        None => Seq::empty(),
    } + "Compute Units: "@ + dec_digits(compute_units as nat) + "\n========================"@
}

/// `None`, or `Some("...")` with the text quoted as it is, without escapes.
pub open spec fn quoted_option(o: Option<Seq<char>>) -> Seq<char> {
    match o {
        None => "None"@,
        Some(t) => "Some(\""@ + t + "\")"@,
    }
}

/// A one-line account of an outcome: the instruction's name, whether it
/// succeeded, the error, the compute units and the number of log lines.
pub open spec fn summary_text(
    name: Option<Seq<char>>,
    error: Option<Seq<char>>,
    compute_units: u64,
    log_count: nat,
) -> Seq<char> {
    "TransactionResult { instruction: "@ + quoted_option(name) + ", success: "@ + (if error is None {
        "true"@
    } else {
        "false"@
    }) + ", error: "@ + quoted_option(error) + ", compute_units: "@ + dec_digits(compute_units as nat)
        + ", log_count: "@ + dec_digits(log_count) + " }"@
}

/// Appends `None`, or `Some("...")` with the text quoted as it is.
fn push_quoted_option(out: &mut String, o: Option<&String>)
    ensures
        final(out)@ == old(out)@ + quoted_option(opt_ref_text(o)),
{
    match o {
        None => out.append("None"),
        Some(t) => {
            out.append("Some(\"");
            out.append(t.as_str());
            out.append("\")");
        },
    }
}

/// What `assert_success` finds wrong, if anything.
pub open spec fn success_problem(error: Option<Seq<char>>, logs: Seq<String>) -> Option<Seq<char>> {
    match error {
        None => None,
        Some(e) => Some(failed_report(e, logs)),
    }
}

/// What `assert_failure` finds wrong, if anything.
pub open spec fn failure_problem(error: Option<Seq<char>>, logs: Seq<String>) -> Option<Seq<char>> {
    match error {
        None => Some(succeeded_report(logs)),
        Some(_) => None,
    }
}

/// What `assert_error` finds wrong, if anything.
pub open spec fn error_problem(error: Option<Seq<char>>, logs: Seq<String>, expected: Seq<char>) -> Option<
    Seq<char>,
> {
    match error {
        None => Some(no_error_report(expected, logs)),
        Some(e) => if contains_text(e, expected) {
            None
        } else {
            Some(wrong_error_report(expected, e, logs))
        },
    }
}

/// What `assert_error_code` finds wrong, if anything: the error text must
/// hold the rendering of `code` with no further hexadecimal digit after it.
pub open spec fn error_code_problem(error: Option<Seq<char>>, logs: Seq<String>, code: nat) -> Option<
    Seq<char>,
> {
    match error {
        None => Some(no_error_report(custom_error_text(code), logs)),
        Some(e) => if contains_whole_hex(e, custom_error_text(code)) {
            None
        } else {
            Some(wrong_error_report(custom_error_text(code), e, logs))
        },
    }
}

/// What `assert_anchor_error` finds wrong, if anything.
pub open spec fn named_error_problem(error: Option<Seq<char>>, logs: Seq<String>, name: Seq<char>) -> Option<
    Seq<char>,
> {
    match error {
        None => Some(succeeded_report(logs)),
        Some(e) => if some_log_contains(logs, name) || contains_text(e, name) {
            None
        } else {
            Some(missing_named_error_report(name, e, logs))
        },
    }
}

/// What `assert_log_error` finds wrong, if anything.
pub open spec fn log_problem(logs: Seq<String>, message: Seq<char>) -> Option<Seq<char>> {
    if some_log_contains(logs, message) {
        None
    } else {
        Some(missing_log_report(message, logs))
    }
}

/// A check's result `r` on `this`: `this` back where nothing is wrong, else
/// the report of the problem.
pub open spec fn check_result(
    r: Result<&TransactionResult, TransactionError>,
    this: &TransactionResult,
    problem: Option<Seq<char>>,
) -> bool {
    match problem {
        None => r == Ok::<&TransactionResult, TransactionError>(this),
        Some(m) => r matches Err(TransactionError::AssertionFailed(s)) && s@ == m,
    }
}

impl TransactionResult {
    /// The log lines.
    pub closed spec fn spec_logs(&self) -> Seq<String> {
        self.inner.logs@
    }

    /// The raw error text, where the execution failed.
    pub closed spec fn spec_error(&self) -> Option<Seq<char>> {
        opt_text(self.error)
    }

    pub closed spec fn spec_compute_units(&self) -> u64 {
        self.inner.compute_units_consumed
    }

    pub closed spec fn spec_instruction_name(&self) -> Option<Seq<char>> {
        opt_text(self.instruction_name)
    }

    /// The outcome of a successful execution.
    pub fn new(result: ExecutionMeta, instruction_name: Option<String>) -> (r: Self)
        ensures
            r.spec_logs() == result.logs@,
            r.spec_compute_units() == result.compute_units_consumed,
            r.spec_error() is None,
            r.spec_instruction_name() == opt_text(instruction_name),
    {
        TransactionResult { inner: result, instruction_name, error: None }
    }

    /// The outcome of a failed execution, with its raw error text.
    pub fn new_failed(error: String, result: ExecutionMeta, instruction_name: Option<String>) -> (r: Self)
        ensures
            r.spec_logs() == result.logs@,
            r.spec_compute_units() == result.compute_units_consumed,
            r.spec_error() == Some(error@),
            r.spec_instruction_name() == opt_text(instruction_name),
    {
        TransactionResult { inner: result, instruction_name, error: Some(error) }
    }

    /// Checks that the execution succeeded.
    pub fn assert_success(&self) -> (r: Result<&Self, TransactionError>)
        ensures
            check_result(r, self, success_problem(self.spec_error(), self.spec_logs())),
    {
        match &self.error {
            None => Ok(self),
            Some(e) => {
                let mut m = String::from_str("Transaction failed: ");
                m.append(e.as_str());
                m.append("\nLogs:\n");
                push_joined(&mut m, self.inner.logs.as_slice());
                Err(TransactionError::AssertionFailed(m))
            },
        }
    }

    /// Whether the execution succeeded.
    pub fn is_success(&self) -> (r: bool)
        ensures
            r == self.spec_error() is None,
    {
        self.error.is_none()
    }

    /// The raw error text, where the execution failed.
    pub fn error(&self) -> (r: Option<&String>)
        ensures
            opt_ref_text(r) == self.spec_error(),
    {
        self.error.as_ref()
    }

    /// The log lines, in order.
    pub fn logs(&self) -> (r: &[String])
        ensures
            r@ == self.spec_logs(),
    {
        self.inner.logs.as_slice()
    }

    /// Whether some log line contains `message`.
    pub fn has_log(&self, message: &str) -> (r: bool)
        ensures
            r == some_log_contains(self.spec_logs(), message@),
    {
        match self.find_log(message) {
            Some(_) => true,
            None => false,
        }
    }

    /// The first log line that contains `pattern`.
    pub fn find_log(&self, pattern: &str) -> (r: Option<&String>)
        ensures
            r is None <==> !some_log_contains(self.spec_logs(), pattern@),
            r matches Some(line) ==> exists|i: int|
                0 <= i < self.spec_logs().len() && line@ == self.spec_logs()[i]@ && contains_text(
                    self.spec_logs()[i]@,
                    pattern@,
                ) && forall|j: int|
                    0 <= j < i ==> !contains_text(#[trigger] self.spec_logs()[j]@, pattern@),
    {
        let logs = &self.inner.logs;
        let mut i: usize = 0;
        while i < logs.len()
            invariant
                logs@ == self.spec_logs(),
                i <= logs@.len(),
                forall|j: int| 0 <= j < i ==> !contains_text(#[trigger] logs@[j]@, pattern@),
            decreases logs@.len() - i,
        {
            if text_contains(logs[i].as_str(), pattern) {
                return Some(&logs[i]);
            }
            i = i + 1;
        }
        None
    }

    /// The compute units consumed, also by a failed execution.
    pub fn compute_units(&self) -> (r: u64)
        ensures
            r == self.spec_compute_units(),
    {
        self.inner.compute_units_consumed
    }

    /// What the ledger reported.
    pub fn inner(&self) -> (r: &ExecutionMeta)
        ensures
            r.logs@ == self.spec_logs(),
            r.compute_units_consumed == self.spec_compute_units(),
    {
        &self.inner
    }

    /// The name of the instruction, where one was given.
    pub fn instruction_name(&self) -> (r: Option<&String>)
        ensures
            opt_ref_text(r) == self.spec_instruction_name(),
    {
        self.instruction_name.as_ref()
    }

    /// What the failure was, where the execution failed.
    pub fn error_kind(&self) -> (r: Option<ErrorKind>)
        ensures
            self.spec_error() is None <==> r is None,
            r matches Some(k) ==> classifies(k, self.spec_error()->Some_0),
    {
        match &self.error {
            None => None,
            Some(e) => Some(classify_error(e.as_str())),
        }
    }

    /// A one-line account of the outcome: instruction, success, error,
    /// compute units and number of log lines.
    pub fn summary(&self) -> (r: String)
        ensures
            r@ == summary_text(
                self.spec_instruction_name(),
                self.spec_error(),
                self.spec_compute_units(),
                self.spec_logs().len(),
            ),
    {
        let mut r = String::from_str("TransactionResult { instruction: ");
        push_quoted_option(&mut r, self.instruction_name.as_ref());
        r.append(", success: ");
        if self.error.is_none() {
            r.append("true");
        } else {
            r.append("false");
        }
        r.append(", error: ");
        push_quoted_option(&mut r, self.error.as_ref());
        r.append(", compute_units: ");
        push_dec(&mut r, self.inner.compute_units_consumed);
        r.append(", log_count: ");
        push_dec(&mut r, self.inner.logs.len() as u64);
        r.append(" }");
        proof {
            assert(r@ =~= summary_text(
                self.spec_instruction_name(),
                self.spec_error(),
                self.spec_compute_units(),
                self.spec_logs().len(),
            ));
        }
        r
    }

    /// A readable account of the outcome, for printing.
    pub fn log_report(&self) -> (r: String)
        ensures
            r@ == report_text(
                self.spec_instruction_name(),
                self.spec_logs(),
                self.spec_error(),
                self.spec_compute_units(),
            ),
    {
        let mut r = String::from_str("=== Transaction Logs ===\n");
        match &self.instruction_name {
            Some(n) => {
                r.append("Instruction: ");
                r.append(n.as_str());
                r.append("\n");
            },
            None => {},
        }
        let ghost head = r@;
        let logs = &self.inner.logs;
        let mut i: usize = 0;
        proof {
            assert(logs@.subrange(0, 0) =~= Seq::<String>::empty());
            assert(head + log_lines(Seq::<String>::empty()) =~= head);
        }
        while i < logs.len()
            invariant
                i <= logs@.len(),
                r@ == head + log_lines(logs@.subrange(0, i as int)),
            decreases logs@.len() - i,
        {
            proof {
                assert(logs@.subrange(0, i + 1).drop_last() =~= logs@.subrange(0, i as int));
            }
            r.append(logs[i].as_str());
            r.append("\n");
            proof {
                assert(r@ =~= head + log_lines(logs@.subrange(0, i + 1)));
            }
            i = i + 1;
        }
        proof {
            assert(logs@.subrange(0, logs@.len() as int) =~= logs@);
        }
        match &self.error {
            Some(e) => {
                r.append("Error: ");
                r.append(e.as_str());
                r.append("\n");
            },
            None => {},
        }
        r.append("Compute Units: ");
        push_dec(&mut r, self.inner.compute_units_consumed);
        r.append("\n========================");
        proof {
            assert(r@ =~= report_text(
                self.spec_instruction_name(),
                self.spec_logs(),
                self.spec_error(),
                self.spec_compute_units(),
            ));
        }
        r
    }

    /// Checks that the execution failed.
    pub fn assert_failure(&self) -> (r: Result<&Self, TransactionError>)
        ensures
            check_result(r, self, failure_problem(self.spec_error(), self.spec_logs())),
    {
        match &self.error {
            Some(_) => Ok(self),
            None => {
                let mut m = String::from_str("Expected transaction to fail, but it succeeded.\nLogs:\n");
                push_joined(&mut m, self.inner.logs.as_slice());
                Err(TransactionError::AssertionFailed(m))
            },
        }
    }

    /// Checks that the execution failed with an error text that contains
    /// `expected_error`.
    pub fn assert_error(&self, expected_error: &str) -> (r: Result<&Self, TransactionError>)
        ensures
            check_result(r, self, error_problem(self.spec_error(), self.spec_logs(), expected_error@)),
    {
        match &self.error {
            Some(e) => {
                if text_contains(e.as_str(), expected_error) {
                    Ok(self)
                } else {
                    let mut m = String::from_str(
                        "Transaction failed with unexpected error.\nExpected substring: ",
                    );
                    m.append(expected_error);
                    m.append("\nActual error: ");
                    m.append(e.as_str());
                    m.append("\nLogs:\n");
                    push_joined(&mut m, self.inner.logs.as_slice());
                    Err(TransactionError::AssertionFailed(m))
                }
            },
            None => {
                let mut m = String::from_str("Expected transaction to fail with error containing '");
                m.append(expected_error);
                m.append("', but it succeeded.\nLogs:\n");
                push_joined(&mut m, self.inner.logs.as_slice());
                Err(TransactionError::AssertionFailed(m))
            },
        }
    }

    /// Checks that the execution failed with the program's custom error
    /// `error_code`, and with no other code that merely starts the same way.
    pub fn assert_error_code(&self, error_code: u32) -> (r: Result<&Self, TransactionError>)
        ensures
            check_result(
                r,
                self,
                error_code_problem(self.spec_error(), self.spec_logs(), error_code as nat),
            ),
    {
        let mut pattern = String::from_str("custom program error: 0x");
        push_hex(&mut pattern, error_code as u64);
        match &self.error {
            None => self.assert_error(pattern.as_str()),
            Some(e) => {
                if text_contains_whole_hex(e.as_str(), pattern.as_str()) {
                    Ok(self)
                } else {
                    let mut m = String::from_str(
                        "Transaction failed with unexpected error.\nExpected substring: ",
                    );
                    m.append(pattern.as_str());
                    m.append("\nActual error: ");
                    m.append(e.as_str());
                    m.append("\nLogs:\n");
                    push_joined(&mut m, self.inner.logs.as_slice());
                    Err(TransactionError::AssertionFailed(m))
                }
            },
        }
    }

    /// Checks that the execution failed, and that its error text or a log line
    /// names `error_name`.
    pub fn assert_anchor_error(&self, error_name: &str) -> (r: Result<&Self, TransactionError>)
        ensures
            check_result(r, self, named_error_problem(self.spec_error(), self.spec_logs(), error_name@)),
    {
        match &self.error {
            None => self.assert_failure(),
            Some(e) => {
                if self.has_log(error_name) || text_contains(e.as_str(), error_name) {
                    Ok(self)
                } else {
                    let mut m = String::from_str("Expected Anchor error '");
                    m.append(error_name);
                    m.append("' not found in transaction logs or error message.\nError: ");
                    m.append(e.as_str());
                    m.append("\nLogs:\n");
                    push_joined(&mut m, self.inner.logs.as_slice());
                    Err(TransactionError::AssertionFailed(m))
                }
            },
        }
    }

    /// Checks that some log line contains `error_message`.
    pub fn assert_log_error(&self, error_message: &str) -> (r: Result<&Self, TransactionError>)
        ensures
            check_result(r, self, log_problem(self.spec_logs(), error_message@)),
    {
        if self.has_log(error_message) {
            Ok(self)
        } else {
            let mut m = String::from_str("Expected error message '");
            m.append(error_message);
            m.append("' not found in logs.\nLogs:\n");
            push_joined(&mut m, self.inner.logs.as_slice());
            Err(TransactionError::AssertionFailed(m))
        }
    }
}

} // verus!
