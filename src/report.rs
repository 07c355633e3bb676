//! The typed tree of a test run.
use vstd::prelude::*;

verus! {

/// The terminal result of a single test case.
#[derive(Debug, Clone, Copy, PartialEq, Eq, Structural)]
pub enum TestResult {
    Failed,
    Passed,
    Skipped,
}

/// One fragment of an explanation of a failure.
#[derive(Debug)]
pub enum FailureDetail {
    Message(String),
    StackTrace(String),
}

/// A sequence of explanation fragments, in document order.
#[derive(Debug)]
pub struct FailureInfo {
    pub details: Vec<FailureDetail>,
}

/// A child node of a suite or a case.
#[derive(Debug)]
pub enum TestDetail {
    TestCase(TestCase),
    TestSuite(TestSuite),
    Failure(FailureInfo),
    /// Captured console output.
    Output(String),
    /// Properties of the node; only its presence is kept.
    Properties,
    /// Why a case was skipped or is inconclusive.
    Reason(FailureInfo),
}

/// A single test execution.
#[derive(Debug)]
pub struct TestCase {
    pub name: String,
    pub result: TestResult,
    pub details: Vec<TestDetail>,
}

/// A named group of cases and nested suites, with the counters that the
/// document gives for it (they are not recomputed from the children).
#[derive(Debug)]
pub struct TestSuite {
    pub kind: String,
    pub name: String,
    pub failed: usize,
    pub passed: usize,
    pub skipped: usize,
    pub total: usize,
    pub details: Vec<TestDetail>,
}

/// The root of a report: its top-level suites, in document order.
#[derive(Debug)]
pub struct TestSummary {
    pub test_suites: Vec<TestSuite>,
}

/// Two failure fragments are of the same kind with the same text.
pub open spec fn same_fragment(x: FailureDetail, y: FailureDetail) -> bool {
    match x {
        FailureDetail::Message(p) => y is Message && p@ == y->Message_0@,
        FailureDetail::StackTrace(p) => y is StackTrace && p@ == y->StackTrace_0@,
    }
}

pub open spec fn same_failure(a: FailureInfo, b: FailureInfo) -> bool {
    &&& a.details@.len() == b.details@.len()
    &&& forall|i: int| 0 <= i < a.details@.len() ==> same_fragment(#[trigger] a.details@[i], b.details@[i])
}

/// Two details have the same shape: the same kind, attributes and text, and
/// children of the same shape in the same order.
pub open spec fn same_detail(a: TestDetail, b: TestDetail) -> bool
    decreases a, 0nat,
{
    match a {
        TestDetail::TestSuite(s) => b is TestSuite && same_suite(s, b->TestSuite_0),
        TestDetail::TestCase(c) => b is TestCase && same_case(c, b->TestCase_0),
        TestDetail::Failure(f) => b is Failure && same_failure(f, b->Failure_0),
        TestDetail::Reason(f) => b is Reason && same_failure(f, b->Reason_0),
        TestDetail::Output(o) => b is Output && o@ == b->Output_0@,
        TestDetail::Properties => b is Properties,
    }
}

/// The first `n` details of `xs` and `ys` have the same shape, pairwise.
pub open spec fn same_details(xs: Seq<TestDetail>, ys: Seq<TestDetail>, n: nat) -> bool
    decreases xs, n,
{
    if n == 0 {
        true
    } else if n > xs.len() || n > ys.len() {
        false
    } else {
        same_details(xs, ys, (n - 1) as nat) && same_detail(xs[n - 1], ys[n - 1])
    }
}

pub open spec fn same_suite(a: TestSuite, b: TestSuite) -> bool
    decreases a, 0nat,
{
    &&& a.kind@ == b.kind@
    &&& a.name@ == b.name@
    &&& a.failed == b.failed
    &&& a.passed == b.passed
    &&& a.skipped == b.skipped
    &&& a.total == b.total
    &&& a.details@.len() == b.details@.len()
    &&& same_details(a.details@, b.details@, a.details@.len())
}

pub open spec fn same_case(a: TestCase, b: TestCase) -> bool
    decreases a, 0nat,
{
    &&& a.name@ == b.name@
    &&& a.result == b.result
    &&& a.details@.len() == b.details@.len()
    &&& same_details(a.details@, b.details@, a.details@.len())
}

/// Two reports have the same suites, in the same order, of the same shape.
pub open spec fn same_summary(a: TestSummary, b: TestSummary) -> bool {
    &&& a.test_suites@.len() == b.test_suites@.len()
    &&& forall|i: int| 0 <= i < a.test_suites@.len() ==> same_suite(#[trigger] a.test_suites@[i], b.test_suites@[i])
}

} // verus!
