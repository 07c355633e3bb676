//! Reading a report from its XML document.
//!
//! The document is read into a tree of elements (`XmlElement`), which is then
//! mapped onto the report tree: each child element becomes the detail that its
//! tag names, in document order.
use vstd::prelude::*;
use crate::tree::{attrs_view, elem_view, lemma_elem_children, tree_from_tokens, tree_of, Attr, AttrV, ElemV, XmlElement};
use crate::xml::{read_tokens, xml_error_text, xml_tokens};
use crate::report::{
    same_detail, same_details, same_fragment, same_suite, same_summary, FailureDetail, FailureInfo, TestCase,
    TestDetail, TestResult, TestSuite, TestSummary,
};

verus! {

/// Why a report could not be read.
#[derive(Debug)]
pub enum ParseError {
    /// The input source could not be read.
    IoError(String),
    /// The document is not well formed, or does not follow the report schema.
    MalformedReport(String),
}

/// The value of the first attribute named `key`.
pub open spec fn attr_of(attrs: Seq<AttrV>, key: Seq<char>) -> Option<Seq<char>>
    decreases attrs.len(),
{
    if attrs.len() == 0 {
        None
    } else if attrs[0].key == key {
        Some(attrs[0].value)
    } else {
        attr_of(attrs.drop_first(), key)
    }
}

pub open spec fn is_digit(c: char) -> bool {
    '0' <= c && c <= '9'
}

/// The number that a sequence of decimal digits denotes.
pub open spec fn digits_value(s: Seq<char>) -> nat
    decreases s.len(),
{
    if s.len() == 0 {
        0
    } else {
        digits_value(s.drop_last()) * 10 + (s.last() as nat - '0' as nat) as nat
    }
}

/// A counter attribute: one or more decimal digits whose value fits a `usize`.
pub open spec fn count_of(v: Option<Seq<char>>) -> Option<nat> {
    match v {
        Some(s) => if s.len() > 0 && (forall|i: int| 0 <= i < s.len() ==> is_digit(#[trigger] s[i]))
            && digits_value(s) <= usize::MAX {
            Some(digits_value(s))
        } else {
            None
        },
        None => None,
    }
}

/// A result attribute: one of the three result names, case-sensitive.
pub open spec fn result_of(v: Option<Seq<char>>) -> Option<TestResult> {
    if v == Some("Passed"@) {
        Some(TestResult::Passed)
    } else if v == Some("Failed"@) {
        Some(TestResult::Failed)
    } else if v == Some("Skipped"@) {
        Some(TestResult::Skipped)
    } else {
        None
    }
}

/// A fragment of a failure: a `message` or `stack-trace` element that holds
/// text alone.
pub open spec fn is_fragment(e: ElemV) -> bool {
    (e.name == "message"@ || e.name == "stack-trace"@) && e.children.len() == 0
}

/// `f` is the fragment that element `e` describes.
pub open spec fn fragment_matches(e: ElemV, f: FailureDetail) -> bool {
    if e.children.len() != 0 {
        false
    } else if e.name == "message"@ {
        f == FailureDetail::Message(f->Message_0) && f->Message_0@ == e.text
    } else if e.name == "stack-trace"@ {
        f == FailureDetail::StackTrace(f->StackTrace_0) && f->StackTrace_0@ == e.text
    } else {
        false
    }
}

/// Each child element of `e` is a fragment, and `f` holds them in order.
pub open spec fn failure_matches(e: ElemV, f: FailureInfo) -> bool {
    &&& f.details@.len() == e.children.len()
    &&& forall|i: int| 0 <= i < e.children.len() ==> fragment_matches(#[trigger] e.children[i], f.details@[i])
}

pub open spec fn failure_valid(e: ElemV) -> bool {
    forall|i: int| 0 <= i < e.children.len() ==> is_fragment(#[trigger] e.children[i])
}

/// `d` is the detail that element `e` describes.
pub open spec fn detail_matches(e: ElemV, d: TestDetail) -> bool
    decreases e, e.children.len() + 2,
{
    if e.name == "test-suite"@ {
        d is TestSuite && suite_matches(e, d->TestSuite_0)
    } else if e.name == "test-case"@ {
        d is TestCase && case_matches(e, d->TestCase_0)
    } else if e.name == "failure"@ {
        d is Failure && failure_matches(e, d->Failure_0)
    } else if e.name == "reason"@ {
        d is Reason && failure_matches(e, d->Reason_0)
    } else if e.name == "output"@ {
        d is Output && d->Output_0@ == e.text && e.children.len() == 0
    } else if e.name == "properties"@ {
        d is Properties
    } else {
        false
    }
}

/// The first `n` child elements of `e` describe the first `n` details of `ds`.
pub open spec fn children_match(e: ElemV, ds: Seq<TestDetail>, n: nat) -> bool
    decreases e, n,
{
    if n == 0 {
        true
    } else if n > e.children.len() || n > ds.len() {
        false
    } else {
        children_match(e, ds, (n - 1) as nat) && detail_matches(e.children[n - 1], ds[n - 1])
    }
}

/// `s` is the suite that element `e` describes.
pub open spec fn suite_matches(e: ElemV, s: TestSuite) -> bool
    decreases e, e.children.len() + 1,
{
    &&& e.name == "test-suite"@
    &&& attr_of(e.attrs, "type"@) == Some(s.kind@)
    &&& attr_of(e.attrs, "name"@) == Some(s.name@)
    &&& count_of(attr_of(e.attrs, "failed"@)) == Some(s.failed as nat)
    &&& count_of(attr_of(e.attrs, "passed"@)) == Some(s.passed as nat)
    &&& count_of(attr_of(e.attrs, "skipped"@)) == Some(s.skipped as nat)
    &&& count_of(attr_of(e.attrs, "total"@)) == Some(s.total as nat)
    &&& s.details@.len() == e.children.len()
    &&& children_match(e, s.details@, e.children.len())
}

/// `c` is the case that element `e` describes.
pub open spec fn case_matches(e: ElemV, c: TestCase) -> bool
    decreases e, e.children.len() + 1,
{
    &&& attr_of(e.attrs, "name"@) == Some(c.name@)
    &&& result_of(attr_of(e.attrs, "result"@)) == Some(c.result)
    &&& c.details@.len() == e.children.len()
    &&& children_match(e, c.details@, e.children.len())
}

/// Element `e` describes a detail: its tag is known, the attributes that its
/// kind requires are present and well formed, and so on for every descendant.
pub open spec fn detail_valid(e: ElemV) -> bool
    decreases e, e.children.len() + 2,
{
    if e.name == "test-suite"@ {
        suite_valid(e)
    } else if e.name == "test-case"@ {
        &&& attr_of(e.attrs, "name"@) is Some
        &&& result_of(attr_of(e.attrs, "result"@)) is Some
        &&& children_valid(e, e.children.len())
    } else if e.name == "failure"@ || e.name == "reason"@ {
        failure_valid(e)
    } else {
        (e.name == "output"@ && e.children.len() == 0) || e.name == "properties"@
    }
}

/// The first `n` child elements of `e` each describe a detail.
pub open spec fn children_valid(e: ElemV, n: nat) -> bool
    decreases e, n,
{
    if n == 0 {
        true
    } else if n > e.children.len() {
        false
    } else {
        children_valid(e, (n - 1) as nat) && detail_valid(e.children[n - 1])
    }
}

/// Element `e` describes a suite.
pub open spec fn suite_valid(e: ElemV) -> bool
    decreases e, e.children.len() + 1,
{
    &&& e.name == "test-suite"@
    &&& attr_of(e.attrs, "type"@) is Some
    &&& attr_of(e.attrs, "name"@) is Some
    &&& count_of(attr_of(e.attrs, "failed"@)) is Some
    &&& count_of(attr_of(e.attrs, "passed"@)) is Some
    &&& count_of(attr_of(e.attrs, "skipped"@)) is Some
    &&& count_of(attr_of(e.attrs, "total"@)) is Some
    &&& children_valid(e, e.children.len())
}

/// The root element describes a report: each child describes a suite.
pub open spec fn summary_valid(root: ElemV) -> bool {
    forall|i: int| 0 <= i < root.children.len() ==> suite_valid(#[trigger] root.children[i])
}

/// `r` is the report that the root element describes.
pub open spec fn summary_matches(root: ElemV, r: TestSummary) -> bool {
    &&& r.test_suites@.len() == root.children.len()
    &&& forall|i: int| 0 <= i < root.children.len() ==> suite_matches(#[trigger] root.children[i], r.test_suites@[i])
}


fn text_is(s: &String, lit: &str) -> (r: bool)
    ensures
        r == (s@ == lit@),
{
    let l = String::from_str(lit);
    *s == l
}

fn malformed(what: &str) -> (r: ParseError)
    ensures
        r is MalformedReport,
{
    ParseError::MalformedReport(String::from_str(what))
}

/// The text of an error: what is wrong, the attribute, tag or value
/// concerned, and the element where it is.
pub open spec fn located_text(what: Seq<char>, subject: Seq<char>, place: Seq<char>) -> Seq<char> {
    what + " `"@ + subject + "` in <"@ + place + ">"@
}

/// A malformed-report error whose message says what is wrong, with which
/// attribute, tag or value, and in which element.
pub open spec fn located(err: ParseError) -> bool {
    &&& err is MalformedReport
    &&& exists|what: Seq<char>, subject: Seq<char>, place: Seq<char>| #[trigger] located_text(what, subject, place)
        == err->MalformedReport_0@
}

/// An error that names what is wrong and the element where it is.
fn malformed_in(what: &str, subject: &str, place: &str) -> (r: ParseError)
    ensures
        r is MalformedReport,
        r->MalformedReport_0@ == located_text(what@, subject@, place@),
        located(r),
{
    proof {
        reveal_strlit(" `");
        reveal_strlit("` in <");
        reveal_strlit(">");
    }
    let mut m = String::from_str(what);
    m.append(" `");
    m.append(subject);
    m.append("` in <");
    m.append(place);
    m.append(">");
    assert(m@ =~= located_text(what@, subject@, place@));
    ParseError::MalformedReport(m)
}

/// The value of the first attribute named `key`.
pub fn find_attr(attrs: &Vec<Attr>, key: &str) -> (r: Option<String>)
    ensures
        match r {
            Some(v) => attr_of(attrs_view(attrs@), key@) == Some(v@),
            None => attr_of(attrs_view(attrs@), key@) is None,
        },
{
    let n = attrs.len();
    let mut i: usize = 0;
    assert(attrs_view(attrs@).skip(0) =~= attrs_view(attrs@));
    while i < n
        invariant
            n == attrs@.len(),
            i <= n,
            attr_of(attrs_view(attrs@), key@) == attr_of(attrs_view(attrs@).skip(i as int), key@),
        decreases n - i,
    {
        assert(attrs_view(attrs@).skip(i as int).drop_first() =~= attrs_view(attrs@).skip(i + 1));
        if text_is(&attrs[i].key, key) {
            return Some(attrs[i].value.clone());
        }
        i = i + 1;
    }
    None
}

proof fn lemma_digits_grow(s: Seq<char>, k: int, j: int)
    requires
        0 <= k <= j <= s.len(),
        forall|i: int| 0 <= i < s.len() ==> is_digit(#[trigger] s[i]),
    ensures
        digits_value(s.take(k)) <= digits_value(s.take(j)),
    decreases j - k,
{
    if k < j {
        lemma_digits_grow(s, k, j - 1);
        assert(s.take(j).drop_last() =~= s.take(j - 1));
    }
}

/// Reads a counter: one or more decimal digits whose value fits a `usize`.
pub fn parse_count(s: &String) -> (r: Option<usize>)
    ensures
        match r {
            Some(v) => count_of(Some(s@)) == Some(v as nat),
            None => count_of(Some(s@)) is None,
        },
{
    let n = s.unicode_len();
    if n == 0 {
        return None;
    }
    let mut v: usize = 0;
    let mut i: usize = 0;
    while i < n
        invariant
            n == s@.len(),
            i <= n,
            v as nat == digits_value(s@.take(i as int)),
            forall|k: int| 0 <= k < i ==> is_digit(#[trigger] s@[k]),
        decreases n - i,
    {
        let c = s.get_char(i);
        if !('0' <= c && c <= '9') {
            return None;
        }
        let d = (c as u32 - '0' as u32) as usize;
        assert(s@.take(i + 1).drop_last() =~= s@.take(i as int));
        if v > (usize::MAX - d) / 10 {
            proof {
                if forall|k: int| 0 <= k < s@.len() ==> is_digit(#[trigger] s@[k]) {
                    lemma_digits_grow(s@, i + 1, s@.len() as int);
                    assert(s@.take(s@.len() as int) =~= s@);
                }
            }
            return None;
        }
        v = v * 10 + d;
        i = i + 1;
    }
    assert(s@.take(n as int) =~= s@);
    Some(v)
}

/// Reads a result name, case-sensitive.
pub fn parse_result(s: &String) -> (r: Option<TestResult>)
    ensures
        r == result_of(Some(s@)),
{
    if text_is(s, "Passed") {
        Some(TestResult::Passed)
    } else if text_is(s, "Failed") {
        Some(TestResult::Failed)
    } else if text_is(s, "Skipped") {
        Some(TestResult::Skipped)
    } else {
        None
    }
}

fn required(attrs: &Vec<Attr>, key: &str, place: &str) -> (r: Result<String, ParseError>)
    ensures
        match r {
            Ok(v) => attr_of(attrs_view(attrs@), key@) == Some(v@),
            Err(e) => attr_of(attrs_view(attrs@), key@) is None && located(e),
        },
{
    match find_attr(attrs, key) {
        Some(v) => Ok(v),
        None => Err(malformed_in("missing attribute", key, place)),
    }
}

fn required_count(attrs: &Vec<Attr>, key: &str, place: &str) -> (r: Result<usize, ParseError>)
    ensures
        match r {
            Ok(v) => count_of(attr_of(attrs_view(attrs@), key@)) == Some(v as nat),
            Err(e) => count_of(attr_of(attrs_view(attrs@), key@)) is None && located(e),
        },
{
    match find_attr(attrs, key) {
        Some(v) => match parse_count(&v) {
            Some(n) => Ok(n),
            None => Err(malformed_in("counter is not a number:", key, place)),
        },
        None => Err(malformed_in("missing attribute", key, place)),
    }
}

/// Reads a `failure` or `reason` element.
pub fn failure_from_element(e: &XmlElement) -> (r: Result<FailureInfo, ParseError>)
    ensures
        match r {
            Ok(f) => failure_valid(elem_view(*e)) && failure_matches(elem_view(*e), f),
            Err(err) => !failure_valid(elem_view(*e)) && located(err),
        },
{
    proof {
        lemma_elem_children(*e);
    }
    let mut details: Vec<FailureDetail> = Vec::new();
    let n = e.children.len();
    for i in 0..n
        invariant
            n == e.children@.len(),
            elem_view(*e).children.len() == n,
            forall|k: int| 0 <= k < n ==> #[trigger] elem_view(*e).children[k] == elem_view(e.children@[k]),
            details@.len() == i,
            forall|k: int| 0 <= k < i ==> is_fragment(#[trigger] elem_view(*e).children[k]),
            forall|k: int| 0 <= k < i ==> fragment_matches(#[trigger] elem_view(*e).children[k], details@[k]),
    {
        let c = &e.children[i];
        proof {
            lemma_elem_children(*c);
        }
        if c.children.len() > 0 {
            assert(elem_view(*e).children[i as int].children.len() > 0);
            return Err(malformed_in("unexpected element", c.children[0].name.as_str(), c.name.as_str()));
        }
        let f = if text_is(&c.name, "message") {
            FailureDetail::Message(c.text.clone())
        } else if text_is(&c.name, "stack-trace") {
            FailureDetail::StackTrace(c.text.clone())
        } else {
            assert(elem_view(*e).children[i as int].name == c.name@);
            return Err(malformed_in("unknown element", c.name.as_str(), e.name.as_str()));
        };
        details.push(f);
    }
    Ok(FailureInfo { details })
}

/// Reads the element of a detail, dispatching on its tag.
pub fn detail_from_element(e: &XmlElement) -> (r: Result<TestDetail, ParseError>)
    ensures
        match r {
            Ok(d) => detail_valid(elem_view(*e)) && detail_matches(elem_view(*e), d),
            Err(err) => !detail_valid(elem_view(*e)) && located(err),
        },
    decreases e, e.children@.len() + 2,
{
    proof {
        lemma_elem_children(*e);
    }
    if text_is(&e.name, "test-suite") {
        match suite_from_element(e) {
            Ok(s) => Ok(TestDetail::TestSuite(s)),
            Err(err) => Err(err),
        }
    } else if text_is(&e.name, "test-case") {
        match case_from_element(e) {
            Ok(c) => Ok(TestDetail::TestCase(c)),
            Err(err) => Err(err),
        }
    } else if text_is(&e.name, "failure") {
        match failure_from_element(e) {
            Ok(f) => Ok(TestDetail::Failure(f)),
            Err(err) => Err(err),
        }
    } else if text_is(&e.name, "reason") {
        match failure_from_element(e) {
            Ok(f) => Ok(TestDetail::Reason(f)),
            Err(err) => Err(err),
        }
    } else if text_is(&e.name, "output") {
        if e.children.len() > 0 {
            assert(elem_view(*e).children.len() > 0);
            let err = malformed_in("unexpected element", e.children[0].name.as_str(), "output");
            proof {
                reveal_strlit("output");
                reveal_strlit("properties");
                assert("output"@.len() != "properties"@.len());
            }
            return Err(err);
        }
        assert(elem_view(*e).children.len() == 0);
        Ok(TestDetail::Output(e.text.clone()))
    } else if text_is(&e.name, "properties") {
        Ok(TestDetail::Properties)
    } else {
        Err(malformed_in("unknown element", e.name.as_str(), "report"))
    }
}

fn details_from_children(e: &XmlElement) -> (r: Result<Vec<TestDetail>, ParseError>)
    ensures
        match r {
            Ok(ds) => children_valid(elem_view(*e), e.children@.len()) && ds@.len() == e.children@.len()
                && children_match(elem_view(*e), ds@, e.children@.len()),
            Err(err) => !children_valid(elem_view(*e), e.children@.len()) && located(err),
        },
    decreases e, e.children@.len(),
{
    proof {
        lemma_elem_children(*e);
    }
    let mut ds: Vec<TestDetail> = Vec::new();
    let n = e.children.len();
    for i in 0..n
        invariant
            n == e.children@.len(),
            elem_view(*e).children.len() == n,
            forall|k: int| 0 <= k < n ==> #[trigger] elem_view(*e).children[k] == elem_view(e.children@[k]),
            ds@.len() == i,
            children_valid(elem_view(*e), i as nat),
            children_match(elem_view(*e), ds@, i as nat),
    {
        let ghost before = ds@;
        match detail_from_element(&e.children[i]) {
            Ok(d) => {
                ds.push(d);
                proof {
                    lemma_children_match_congruent(elem_view(*e), before, ds@, i as nat);
                }
            },
            Err(err) => {
                proof {
                    lemma_children_valid_prefix(elem_view(*e), (i + 1) as nat, n as nat);
                }
                return Err(err);
            },
        }
    }
    Ok(ds)
}

proof fn lemma_children_match_congruent(e: ElemV, ds: Seq<TestDetail>, es: Seq<TestDetail>, n: nat)
    requires
        n <= ds.len(),
        n <= es.len(),
        forall|k: int| 0 <= k < n ==> ds[k] == es[k],
    ensures
        children_match(e, ds, n) == children_match(e, es, n),
    decreases n,
{
    if n > 0 {
        lemma_children_match_congruent(e, ds, es, (n - 1) as nat);
    }
}

proof fn lemma_children_valid_prefix(e: ElemV, k: nat, n: nat)
    requires
        k <= n <= e.children.len(),
        !children_valid(e, k),
    ensures
        !children_valid(e, n),
    decreases n - k,
{
    if k < n {
        lemma_children_valid_prefix(e, k, (n - 1) as nat);
    }
}

/// Reads a `test-suite` element.
pub fn suite_from_element(e: &XmlElement) -> (r: Result<TestSuite, ParseError>)
    ensures
        e.name@ == "test-suite"@ ==> match r {
            Ok(s) => suite_valid(elem_view(*e)) && suite_matches(elem_view(*e), s),
            Err(err) => !suite_valid(elem_view(*e)) && located(err),
        },
        e.name@ != "test-suite"@ ==> r is Err && located(r->Err_0),
    decreases e, e.children@.len() + 1,
{
    proof {
        lemma_elem_children(*e);
    }
    if !text_is(&e.name, "test-suite") {
        return Err(malformed_in("expected a test-suite element, found", e.name.as_str(), "test-run"));
    }
    let kind = required(&e.attrs, "type", e.name.as_str())?;
    let name = required(&e.attrs, "name", e.name.as_str())?;
    let failed = required_count(&e.attrs, "failed", e.name.as_str())?;
    let passed = required_count(&e.attrs, "passed", e.name.as_str())?;
    let skipped = required_count(&e.attrs, "skipped", e.name.as_str())?;
    let total = required_count(&e.attrs, "total", e.name.as_str())?;
    let details = details_from_children(e)?;
    Ok(TestSuite { kind, name, failed, passed, skipped, total, details })
}

/// Reads a `test-case` element.
pub fn case_from_element(e: &XmlElement) -> (r: Result<TestCase, ParseError>)
    ensures
        match r {
            Ok(c) => case_matches(elem_view(*e), c) && children_valid(elem_view(*e), e.children@.len()),
            Err(err) => located(err) && !(attr_of(elem_view(*e).attrs, "name"@) is Some && result_of(
                attr_of(elem_view(*e).attrs, "result"@),
            ) is Some && children_valid(elem_view(*e), e.children@.len())),
        },
    decreases e, e.children@.len() + 1,
{
    proof {
        lemma_elem_children(*e);
    }
    let name = required(&e.attrs, "name", e.name.as_str())?;
    let result = match find_attr(&e.attrs, "result") {
        Some(v) => match parse_result(&v) {
            Some(r) => r,
            None => return Err(malformed_in("unknown test result", v.as_str(), "test-case")),
        },
        None => return Err(malformed_in("missing attribute", "result", "test-case")),
    };
    let details = details_from_children(e)?;
    Ok(TestCase { name, result, details })
}

/// Reads a whole report from its root element, whose children must all be
/// `test-suite` elements.
pub fn summary_from_element(root: &XmlElement) -> (r: Result<TestSummary, ParseError>)
    ensures
        match r {
            Ok(s) => summary_valid(elem_view(*root)) && summary_matches(elem_view(*root), s),
            Err(err) => !summary_valid(elem_view(*root)) && located(err),
        },
{
    proof {
        lemma_elem_children(*root);
    }
    let mut suites: Vec<TestSuite> = Vec::new();
    let n = root.children.len();
    for i in 0..n
        invariant
            n == root.children@.len(),
            elem_view(*root).children.len() == n,
            forall|k: int| 0 <= k < n ==> #[trigger] elem_view(*root).children[k] == elem_view(root.children@[k]),
            suites@.len() == i,
            forall|k: int| 0 <= k < i ==> suite_valid(#[trigger] elem_view(*root).children[k]),
            forall|k: int| 0 <= k < i ==> suite_matches(#[trigger] elem_view(*root).children[k], suites@[k]),
    {
        match suite_from_element(&root.children[i]) {
            Ok(s) => suites.push(s),
            Err(err) => {
                assert(!suite_valid(elem_view(*root).children[i as int]));
                return Err(err);
            },
        }
    }
    Ok(TestSummary { test_suites: suites })
}


/// Reads a report from the text of its XML document.
///
/// The document's events are read first, then its element tree is built from
/// them, then the report is read from the root as `summary_from_element`
/// does. Any error of the XML itself (a bad tag, a closing tag that does not
/// match, an element left open, no root or two roots) fails the call, and so
/// does any element that does not fit the report: there is no partial success.
pub fn parse_report(doc: &str) -> (r: Result<TestSummary, ParseError>)
    ensures
        match xml_tokens(doc@) {
            Some(ts) => match tree_of(ts) {
                Some(root) => if summary_valid(root) {
                    r is Ok && summary_matches(root, r->Ok_0)
                } else {
                    r is Err && located(r->Err_0)
                },
                None => r is Err && r->Err_0 is MalformedReport,
            },
            None => r is Err && r->Err_0 is MalformedReport,
        },
{
    let tokens = match read_tokens(doc) {
        Ok(ts) => ts,
        Err(e) => return Err(ParseError::MalformedReport(xml_error_text(&e))),
    };
    match tree_from_tokens(&tokens) {
        Some(root) => summary_from_element(&root),
        None => Err(malformed("the document's elements do not form one well-nested tree")),
    }
}

proof fn lemma_detail_unique(e: ElemV, a: TestDetail, b: TestDetail)
    requires
        detail_matches(e, a),
        detail_matches(e, b),
    ensures
        detail_valid(e),
        same_detail(a, b),
    decreases e, e.children.len() + 2,
{
    if e.name == "test-suite"@ {
        let (s, t) = (a->TestSuite_0, b->TestSuite_0);
        lemma_children_unique(e, s.details@, t.details@, e.children.len());
    } else if e.name == "test-case"@ {
        let (s, t) = (a->TestCase_0, b->TestCase_0);
        lemma_children_unique(e, s.details@, t.details@, e.children.len());
    } else if e.name == "failure"@ || e.name == "reason"@ {
        let (f, g) = if e.name == "failure"@ { (a->Failure_0, b->Failure_0) } else { (a->Reason_0, b->Reason_0) };
        assert forall|i: int| 0 <= i < e.children.len() implies is_fragment(#[trigger] e.children[i]) by {
            assert(fragment_matches(e.children[i], f.details@[i]));
        }
        assert forall|i: int| 0 <= i < f.details@.len() implies same_fragment(#[trigger] f.details@[i], g.details@[i]) by {
            assert(fragment_matches(e.children[i], f.details@[i]));
            assert(fragment_matches(e.children[i], g.details@[i]));
        }
    }
}

proof fn lemma_children_unique(e: ElemV, xs: Seq<TestDetail>, ys: Seq<TestDetail>, n: nat)
    requires
        children_match(e, xs, n),
        children_match(e, ys, n),
    ensures
        children_valid(e, n),
        same_details(xs, ys, n),
    decreases e, n,
{
    if n > 0 {
        lemma_children_unique(e, xs, ys, (n - 1) as nat);
        lemma_detail_unique(e.children[n - 1], xs[n - 1], ys[n - 1]);
    }
}

/// A report read from a root element that describes `s` has the shape of `s`:
/// the root is accepted, and every report that it describes has the same
/// suites, cases, attributes and order as `s`.
pub proof fn round_trip_shape(root: ElemV, s: TestSummary)
    requires
        summary_matches(root, s),
    ensures
        summary_valid(root),
        forall|r: TestSummary| #[trigger] summary_matches(root, r) ==> same_summary(r, s),
{
    assert forall|i: int| 0 <= i < root.children.len() implies suite_valid(#[trigger] root.children[i]) by {
        let e = root.children[i];
        let t = s.test_suites@[i];
        lemma_children_unique(e, t.details@, t.details@, e.children.len());
    }
    assert forall|r: TestSummary| #[trigger] summary_matches(root, r) implies same_summary(r, s) by {
        assert forall|i: int| 0 <= i < r.test_suites@.len() implies same_suite(#[trigger] r.test_suites@[i], s.test_suites@[i]) by {
            let e = root.children[i];
            lemma_children_unique(e, r.test_suites@[i].details@, s.test_suites@[i].details@, e.children.len());
        }
    }
}

} // verus!
