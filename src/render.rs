//! Rendering of a report tree as styled lines.
//!
//! Each line is an indentation followed by spans of text, each with a style.
//! Children are indented by four spaces more than their parent, so indentation
//! grows with depth.
use vstd::prelude::*;
use crate::display::{decimal, lines_of, split_lines, to_decimal};
use crate::report::{
    same_case, same_detail, same_details, same_failure, same_fragment, same_suite, same_summary, FailureDetail, FailureInfo,
    TestCase, TestDetail, TestResult, TestSuite, TestSummary,
};

verus! {

/// How a span of text is painted.
#[derive(Debug, Clone, Copy, PartialEq, Eq, Structural)]
pub enum Style {
    /// No color or emphasis.
    Plain,
    /// Bold, no color.
    Bold,
    /// The positive color.
    Positive,
    /// The negative color.
    Negative,
    /// The muted color.
    Muted,
    /// The muted secondary color of stack traces.
    Trace,
    /// Inverted on the positive color.
    PositiveInverted,
    /// Inverted on the negative color.
    NegativeInverted,
    /// The muted color, bold.
    MutedBold,
}

/// A run of text in one style.
#[derive(Debug)]
pub struct Span {
    pub text: String,
    pub style: Style,
}

/// One display line: an indentation, then spans. Multi-line text (captured
/// output, messages, stack traces) is split into one line each, so no span
/// holds a line break of the text it came from.
#[derive(Debug)]
pub struct Line {
    pub indent: String,
    pub spans: Vec<Span>,
}

pub struct SpanV {
    pub text: Seq<char>,
    pub style: Style,
}

pub struct LineV {
    pub indent: Seq<char>,
    pub spans: Seq<SpanV>,
}

impl View for Span {
    type V = SpanV;

    open spec fn view(&self) -> SpanV {
        SpanV { text: self.text@, style: self.style }
    }
}

impl View for Line {
    type V = LineV;

    open spec fn view(&self) -> LineV {
        LineV { indent: self.indent@, spans: self.spans@.map_values(|s: Span| s@) }
    }
}

/// The abstract value of a sequence of lines.
pub open spec fn lines_view(ls: Seq<Line>) -> Seq<LineV> {
    ls.map_values(|l: Line| l@)
}

/// The indentation unit: four spaces.
pub open spec fn unit() -> Seq<char> {
    seq![' ', ' ', ' ', ' ']
}

pub open spec fn sp(text: Seq<char>, style: Style) -> SpanV {
    SpanV { text, style }
}

pub open spec fn gap() -> SpanV {
    sp(seq![' '], Style::Plain)
}

/// The style of a suite's name in its header.
pub open spec fn header_style(s: TestSuite) -> Style {
    if s.failed > 0 {
        Style::NegativeInverted
    } else if s.passed == s.total {
        Style::PositiveInverted
    } else {
        Style::MutedBold
    }
}

/// The text of a suite's name in its header: padded by a space on each side
/// when it is inverted.
pub open spec fn header_name(s: TestSuite) -> Seq<char> {
    if header_style(s) == Style::MutedBold {
        s.name@
    } else {
        seq![' '] + s.name@ + seq![' ']
    }
}

/// A suite's header: its name, then the passed, failed and skipped counters.
pub open spec fn header_line(s: TestSuite, pre: Seq<char>) -> LineV {
    LineV {
        indent: pre,
        spans: seq![
            sp(header_name(s), header_style(s)), gap(),
            sp(decimal(s.passed as nat), Style::Positive), gap(),
            sp(decimal(s.failed as nat), Style::Negative), gap(),
            sp(decimal(s.skipped as nat), Style::Muted),
        ],
    }
}

/// The glyph that marks a case's result.
pub open spec fn marker(r: TestResult) -> SpanV {
    match r {
        TestResult::Failed => sp("𐄂"@, Style::Negative),
        TestResult::Passed => sp("✓"@, Style::Positive),
        TestResult::Skipped => sp("-"@, Style::Muted),
    }
}

/// The lines that open a case: a blank line first when it failed, then the
/// marker and the name, bold when it failed.
pub open spec fn case_head(c: TestCase, pre: Seq<char>) -> Seq<LineV> {
    if c.result == TestResult::Failed {
        seq![
            LineV { indent: pre, spans: seq![] },
            LineV { indent: pre, spans: seq![marker(c.result), gap(), sp(c.name@, Style::Bold)] },
        ]
    } else {
        seq![LineV { indent: pre, spans: seq![marker(c.result), gap(), sp(c.name@, Style::Plain)] }]
    }
}

/// One line for each line of `text`, all in one style.
pub open spec fn text_lines(ls: Seq<Seq<char>>, style: Style, pre: Seq<char>) -> Seq<LineV> {
    ls.map_values(|l: Seq<char>| LineV { indent: pre, spans: seq![sp(l, style)] })
}

/// The lines of a fragment's text: an empty fragment still has its own line.
pub open spec fn fragment_text_lines(t: Seq<char>) -> Seq<Seq<char>> {
    if t.len() == 0 {
        seq![seq![]]
    } else {
        lines_of(t)
    }
}

/// A message in the negative color, a stack trace in the trace color, one
/// line for each of its lines, and one line when it is empty.
pub open spec fn fragment_lines(d: FailureDetail, pre: Seq<char>) -> Seq<LineV> {
    match d {
        FailureDetail::Message(m) => text_lines(fragment_text_lines(m@), Style::Negative, pre),
        FailureDetail::StackTrace(t) => text_lines(fragment_text_lines(t@), Style::Trace, pre),
    }
}

/// The lines of the first `n` fragments, in order.
pub open spec fn failure_lines_upto(f: FailureInfo, n: nat, pre: Seq<char>) -> Seq<LineV>
    decreases n,
{
    if n == 0 || n > f.details@.len() {
        seq![]
    } else {
        failure_lines_upto(f, (n - 1) as nat, pre) + fragment_lines(f.details@[n - 1], pre)
    }
}

/// The lines of every fragment, in order.
pub open spec fn failure_lines(f: FailureInfo, pre: Seq<char>) -> Seq<LineV> {
    failure_lines_upto(f, f.details@.len(), pre)
}

/// The placeholder shown for properties inside a case.
pub open spec fn properties_label() -> Seq<char> {
    "[Properties]"@
}

/// The lines of a detail, at indentation `pre`: captured output gives one
/// plain line for each of its lines, so empty output gives none.
pub open spec fn detail_lines(d: TestDetail, pre: Seq<char>) -> Seq<LineV>
    decreases d, 0nat,
{
    match d {
        TestDetail::TestSuite(s) => suite_lines(s, s.details@.len(), pre),
        TestDetail::TestCase(c) => case_lines(c, c.details@.len(), pre),
        TestDetail::Failure(f) => failure_lines(f, pre),
        TestDetail::Reason(f) => failure_lines(f, pre),
        TestDetail::Output(o) => text_lines(lines_of(o@), Style::Plain, pre),
        TestDetail::Properties => seq![LineV { indent: pre, spans: seq![sp(properties_label(), Style::Plain)] }],
    }
}

/// What a detail contributes inside a suite: properties are left out.
pub open spec fn suite_child_lines(d: TestDetail, pre: Seq<char>) -> Seq<LineV>
    decreases d, 1nat,
{
    if d is Properties {
        seq![]
    } else {
        detail_lines(d, pre)
    }
}

/// What a detail contributes inside a case with result `r`: captured output of
/// a passed case is left out.
pub open spec fn case_child_lines(r: TestResult, d: TestDetail, pre: Seq<char>) -> Seq<LineV>
    decreases d, 1nat,
{
    if d is Output && r == TestResult::Passed {
        seq![]
    } else {
        detail_lines(d, pre)
    }
}

/// A suite's header followed by what its first `n` details contribute.
pub open spec fn suite_lines(s: TestSuite, n: nat, pre: Seq<char>) -> Seq<LineV>
    decreases s, n,
{
    if n == 0 || n > s.details@.len() {
        seq![header_line(s, pre)]
    } else {
        suite_lines(s, (n - 1) as nat, pre) + suite_child_lines(s.details@[n - 1], pre + unit())
    }
}

/// A case's opening lines followed by what its first `n` details contribute.
pub open spec fn case_lines(c: TestCase, n: nat, pre: Seq<char>) -> Seq<LineV>
    decreases c, n,
{
    if n == 0 || n > c.details@.len() {
        case_head(c, pre)
    } else {
        case_lines(c, (n - 1) as nat, pre) + case_child_lines(c.result, c.details@[n - 1], pre + unit())
    }
}

/// The lines of the first `n` top-level suites of a report.
pub open spec fn summary_lines(r: TestSummary, n: nat) -> Seq<LineV>
    decreases n,
{
    if n == 0 || n > r.test_suites@.len() {
        seq![]
    } else {
        summary_lines(r, (n - 1) as nat) + suite_lines(r.test_suites@[n - 1], r.test_suites@[n - 1].details@.len(), seq![])
    }
}

/// The lines of a whole report.
pub open spec fn report_lines(r: TestSummary) -> Seq<LineV> {
    summary_lines(r, r.test_suites@.len())
}


fn push_line(out: &mut Vec<Line>, indent: &String, spans: Vec<Span>)
    ensures
        lines_view(final(out)@) == lines_view(old(out)@).push(
            LineV { indent: indent@, spans: spans@.map_values(|s: Span| s@) },
        ),
{
    let l = Line { indent: indent.clone(), spans };
    out.push(l);
    assert(lines_view(out@) =~= lines_view(old(out)@).push(l@));
}

fn styled(text: &str, style: Style) -> (r: Span)
    ensures
        r@ == sp(text@, style),
{
    Span { text: String::from_str(text), style }
}

fn spaced() -> (r: Span)
    ensures
        r@ == gap(),
{
    proof {
        reveal_strlit(" ");
    }
    let r = styled(" ", Style::Plain);
    assert(r@.text =~= gap().text);
    r
}

fn deeper(pre: &String) -> (r: String)
    ensures
        r@ == pre@ + unit(),
{
    proof {
        reveal_strlit("    ");
    }
    let mut r = pre.clone();
    r.append("    ");
    assert(r@ =~= pre@ + unit());
    r
}

fn render_header(s: &TestSuite, pre: &String, out: &mut Vec<Line>)
    ensures
        lines_view(final(out)@) == lines_view(old(out)@).push(header_line(*s, pre@)),
{
    proof {
        reveal_strlit(" ");
    }
    let name = if s.failed > 0 || s.passed == s.total {
        let mut n = String::from_str(" ");
        n.append(s.name.as_str());
        n.append(" ");
        n
    } else {
        s.name.clone()
    };
    let style = if s.failed > 0 {
        Style::NegativeInverted
    } else if s.passed == s.total {
        Style::PositiveInverted
    } else {
        Style::MutedBold
    };
    assert(name@ =~= header_name(*s));
    let spans = vec![
        Span { text: name, style },
        spaced(),
        Span { text: to_decimal(s.passed), style: Style::Positive },
        spaced(),
        Span { text: to_decimal(s.failed), style: Style::Negative },
        spaced(),
        Span { text: to_decimal(s.skipped), style: Style::Muted },
    ];
    assert(spans@.map_values(|x: Span| x@) =~= header_line(*s, pre@).spans);
    push_line(out, pre, spans);
}

fn render_marker(r: TestResult) -> (m: Span)
    ensures
        m@ == marker(r),
{
    match r {
        TestResult::Failed => styled("𐄂", Style::Negative),
        TestResult::Passed => styled("✓", Style::Positive),
        TestResult::Skipped => styled("-", Style::Muted),
    }
}

fn render_case_head(c: &TestCase, pre: &String, out: &mut Vec<Line>)
    ensures
        lines_view(final(out)@) == lines_view(old(out)@) + case_head(*c, pre@),
{
    let failed = c.result == TestResult::Failed;
    if failed {
        let empty: Vec<Span> = Vec::new();
        assert(empty@.map_values(|x: Span| x@) =~= Seq::<SpanV>::empty());
        push_line(out, pre, empty);
    }
    let name_style = if failed { Style::Bold } else { Style::Plain };
    let spans = vec![render_marker(c.result), spaced(), Span { text: c.name.clone(), style: name_style }];
    assert(spans@.map_values(|x: Span| x@) =~= seq![marker(c.result), gap(), sp(c.name@, name_style)]);
    push_line(out, pre, spans);
    assert(lines_view(out@) =~= lines_view(old(out)@) + case_head(*c, pre@));
}

fn push_text_lines(text: &String, style: Style, pre: &String, out: &mut Vec<Line>)
    ensures
        lines_view(final(out)@) == lines_view(old(out)@) + text_lines(lines_of(text@), style, pre@),
{
    let ghost start = lines_view(out@);
    let parts = split_lines(text.as_str());
    let ghost ls = lines_of(text@);
    let n = parts.len();
    assert(ls.len() == n) by {
        assert(parts@.map_values(|l: String| l@).len() == n);
    }
    for i in 0..n
        invariant
            n == parts@.len(),
            ls == parts@.map_values(|l: String| l@),
            ls == lines_of(text@),
            lines_view(out@) == start + text_lines(ls, style, pre@).take(i as int),
    {
        let part = parts[i].clone();
        assert(part@ == ls[i as int]);
        let spans = vec![Span { text: part, style }];
        assert(spans@.map_values(|x: Span| x@) =~= seq![sp(ls[i as int], style)]);
        push_line(out, pre, spans);
        assert(text_lines(ls, style, pre@).take(i + 1) =~= text_lines(ls, style, pre@).take(i as int).push(
            LineV { indent: pre@, spans: seq![sp(ls[i as int], style)] },
        ));
    }
    assert(text_lines(ls, style, pre@).take(n as int) =~= text_lines(ls, style, pre@));
}

fn push_fragment_lines(text: &String, style: Style, pre: &String, out: &mut Vec<Line>)
    ensures
        lines_view(final(out)@) == lines_view(old(out)@) + text_lines(fragment_text_lines(text@), style, pre@),
{
    if text.as_str().is_empty() {
        let spans = vec![Span { text: String::new(), style }];
        assert(spans@.map_values(|x: Span| x@) =~= seq![sp(seq![], style)]);
        push_line(out, pre, spans);
        assert(text_lines(fragment_text_lines(text@), style, pre@) =~= seq![
            LineV { indent: pre@, spans: seq![sp(seq![], style)] },
        ]);
        assert(lines_view(out@) =~= lines_view(old(out)@) + text_lines(fragment_text_lines(text@), style, pre@));
    } else {
        push_text_lines(text, style, pre, out);
    }
}

fn render_failure(f: &FailureInfo, pre: &String, out: &mut Vec<Line>)
    ensures
        lines_view(final(out)@) == lines_view(old(out)@) + failure_lines(*f, pre@),
{
    let ghost start = lines_view(out@);
    let n = f.details.len();
    assert(start =~= start + failure_lines_upto(*f, 0, pre@));
    for i in 0..n
        invariant
            n == f.details@.len(),
            lines_view(out@) == start + failure_lines_upto(*f, i as nat, pre@),
    {
        match &f.details[i] {
            FailureDetail::Message(m) => push_fragment_lines(m, Style::Negative, pre, out),
            FailureDetail::StackTrace(t) => push_fragment_lines(t, Style::Trace, pre, out),
        }
        assert(failure_lines_upto(*f, (i + 1) as nat, pre@) == failure_lines_upto(*f, i as nat, pre@)
            + fragment_lines(f.details@[i as int], pre@));
        assert(lines_view(out@) =~= start + failure_lines_upto(*f, (i + 1) as nat, pre@));
    }
}

fn render_detail(d: &TestDetail, pre: &String, out: &mut Vec<Line>)
    ensures
        lines_view(final(out)@) == lines_view(old(out)@) + detail_lines(*d, pre@),
    decreases d, 0nat,
{
    match d {
        TestDetail::TestSuite(s) => render_suite(s, pre, out),
        TestDetail::TestCase(c) => render_case(c, pre, out),
        TestDetail::Failure(f) => render_failure(f, pre, out),
        TestDetail::Reason(f) => render_failure(f, pre, out),
        TestDetail::Output(o) => push_text_lines(o, Style::Plain, pre, out),
        TestDetail::Properties => {
            proof {
                reveal_strlit("[Properties]");
            }
            let spans = vec![styled("[Properties]", Style::Plain)];
            assert(spans@.map_values(|x: Span| x@) =~= seq![sp(properties_label(), Style::Plain)]);
            push_line(out, pre, spans);
            assert(lines_view(out@) =~= lines_view(old(out)@) + detail_lines(*d, pre@));
        },
    }
}

fn render_suite(s: &TestSuite, pre: &String, out: &mut Vec<Line>)
    ensures
        lines_view(final(out)@) == lines_view(old(out)@) + suite_lines(*s, s.details@.len(), pre@),
    decreases s, s.details@.len() + 1,
{
    let ghost start = lines_view(out@);
    render_header(s, pre, out);
    let inner = deeper(pre);
    assert(lines_view(out@) =~= start + suite_lines(*s, 0, pre@));
    let n = s.details.len();
    for i in 0..n
        invariant
            n == s.details@.len(),
            inner@ == pre@ + unit(),
            lines_view(out@) == start + suite_lines(*s, i as nat, pre@),
    {
        let ghost before = lines_view(out@);
        let d = &s.details[i];
        if !matches!(d, TestDetail::Properties) {
            render_detail(d, &inner, out);
        } else {
            assert(lines_view(out@) =~= before + suite_child_lines(*d, inner@));
        }
        assert(suite_lines(*s, (i + 1) as nat, pre@) == suite_lines(*s, i as nat, pre@)
            + suite_child_lines(s.details@[i as int], pre@ + unit()));
        assert(lines_view(out@) =~= start + suite_lines(*s, (i + 1) as nat, pre@));
    }
}

fn render_case(c: &TestCase, pre: &String, out: &mut Vec<Line>)
    ensures
        lines_view(final(out)@) == lines_view(old(out)@) + case_lines(*c, c.details@.len(), pre@),
    decreases c, c.details@.len() + 1,
{
    let ghost start = lines_view(out@);
    render_case_head(c, pre, out);
    let inner = deeper(pre);
    assert(lines_view(out@) =~= start + case_lines(*c, 0, pre@));
    let n = c.details.len();
    let passed = c.result == TestResult::Passed;
    for i in 0..n
        invariant
            n == c.details@.len(),
            passed == (c.result == TestResult::Passed),
            inner@ == pre@ + unit(),
            lines_view(out@) == start + case_lines(*c, i as nat, pre@),
    {
        let ghost before = lines_view(out@);
        let d = &c.details[i];
        if passed && matches!(d, TestDetail::Output(_)) {
            assert(lines_view(out@) =~= before + case_child_lines(c.result, *d, inner@));
        } else {
            render_detail(d, &inner, out);
        }
        assert(case_lines(*c, (i + 1) as nat, pre@) == case_lines(*c, i as nat, pre@)
            + case_child_lines(c.result, c.details@[i as int], pre@ + unit()));
        assert(lines_view(out@) =~= start + case_lines(*c, (i + 1) as nat, pre@));
    }
}

/// Renders a whole report: each top-level suite in order, unindented, each
/// followed by its details, indented by depth.
pub fn render_report(r: &TestSummary) -> (lines: Vec<Line>)
    ensures
        lines_view(lines@) == report_lines(*r),
{
    let mut out: Vec<Line> = Vec::new();
    let top = String::new();
    let n = r.test_suites.len();
    for i in 0..n
        invariant
            n == r.test_suites@.len(),
            top@ == Seq::<char>::empty(),
            lines_view(out@) == summary_lines(*r, i as nat),
    {
        render_suite(&r.test_suites[i], &top, &mut out);
        assert(lines_view(out@) =~= summary_lines(*r, (i + 1) as nat));
    }
    out
}


proof fn lemma_suite_starts_with_header(s: TestSuite, n: nat, pre: Seq<char>)
    ensures
        suite_lines(s, n, pre).len() >= 1,
        suite_lines(s, n, pre)[0] == header_line(s, pre),
    decreases n,
{
    if n > 0 && n <= s.details@.len() {
        lemma_suite_starts_with_header(s, (n - 1) as nat, pre);
    }
}

/// The first line of a rendered suite is its header, whose name is painted
/// inverted on the negative color when any case failed, else inverted on the
/// positive color when all passed, else muted and bold.
pub proof fn header_color_selection(s: TestSuite, pre: Seq<char>)
    ensures
        suite_lines(s, s.details@.len(), pre)[0] == header_line(s, pre),
        header_line(s, pre).spans[0].style == (if s.failed > 0 {
            Style::NegativeInverted
        } else if s.passed == s.total {
            Style::PositiveInverted
        } else {
            Style::MutedBold
        }),
{
    lemma_suite_starts_with_header(s, s.details@.len(), pre);
}

/// In a suite whose details are a passed, a failed and a skipped case, in that
/// order and each without details, the one blank line is the one right before
/// the failed case's line.
pub proof fn blank_line_before_failure(s: TestSuite, a: TestCase, b: TestCase, c: TestCase, pre: Seq<char>)
    requires
        s.details@ == seq![TestDetail::TestCase(a), TestDetail::TestCase(b), TestDetail::TestCase(c)],
        a.result == TestResult::Passed,
        b.result == TestResult::Failed,
        c.result == TestResult::Skipped,
        a.details@.len() == 0,
        b.details@.len() == 0,
        c.details@.len() == 0,
    ensures
        suite_lines(s, 3, pre).len() == 5,
        suite_lines(s, 3, pre)[2].spans.len() == 0,
        suite_lines(s, 3, pre)[3].spans[2] == sp(b.name@, Style::Bold),
        forall|j: int| 0 <= j < 5 && j != 2 ==> suite_lines(s, 3, pre)[j].spans.len() > 0,
{
    let inner = pre + unit();
    assert(suite_lines(s, 3, pre) =~= seq![header_line(s, pre)] + case_head(a, inner) + case_head(b, inner)
        + case_head(c, inner)) by {
        assert(suite_lines(s, 1, pre) == suite_lines(s, 0, pre) + suite_child_lines(s.details@[0], inner));
        assert(suite_lines(s, 2, pre) == suite_lines(s, 1, pre) + suite_child_lines(s.details@[1], inner));
        assert(suite_lines(s, 3, pre) == suite_lines(s, 2, pre) + suite_child_lines(s.details@[2], inner));
        assert(case_lines(a, 0, inner) == case_head(a, inner));
        assert(case_lines(b, 0, inner) == case_head(b, inner));
        assert(case_lines(c, 0, inner) == case_head(c, inner));
    }
}


proof fn lemma_same_details_at(xs: Seq<TestDetail>, ys: Seq<TestDetail>, n: nat, k: int)
    requires
        same_details(xs, ys, n),
        0 <= k < n,
    ensures
        same_detail(xs[k], ys[k]),
    decreases n,
{
    if k < n - 1 {
        lemma_same_details_at(xs, ys, (n - 1) as nat, k);
    }
}

proof fn lemma_failure_same_lines(f: FailureInfo, g: FailureInfo, pre: Seq<char>)
    requires
        same_failure(f, g),
    ensures
        failure_lines(f, pre) == failure_lines(g, pre),
{
    lemma_failure_same_upto(f, g, f.details@.len(), pre);
}

proof fn lemma_failure_same_upto(f: FailureInfo, g: FailureInfo, n: nat, pre: Seq<char>)
    requires
        same_failure(f, g),
        n <= f.details@.len(),
    ensures
        failure_lines_upto(f, n, pre) == failure_lines_upto(g, n, pre),
    decreases n,
{
    if n > 0 {
        lemma_failure_same_upto(f, g, (n - 1) as nat, pre);
        assert(same_fragment(f.details@[n - 1], g.details@[n - 1]));
        assert(fragment_lines(f.details@[n - 1], pre) == fragment_lines(g.details@[n - 1], pre));
    }
}

proof fn lemma_detail_same_lines(a: TestDetail, b: TestDetail, pre: Seq<char>)
    requires
        same_detail(a, b),
    ensures
        detail_lines(a, pre) == detail_lines(b, pre),
    decreases a, 0nat,
{
    match a {
        TestDetail::TestSuite(s) => {
            lemma_suite_same_lines(s, b->TestSuite_0, s.details@.len(), pre);
        },
        TestDetail::TestCase(c) => {
            lemma_case_same_lines(c, b->TestCase_0, c.details@.len(), pre);
        },
        TestDetail::Failure(f) => {
            lemma_failure_same_lines(f, b->Failure_0, pre);
        },
        TestDetail::Reason(f) => {
            lemma_failure_same_lines(f, b->Reason_0, pre);
        },
        _ => {},
    }
}

proof fn lemma_suite_same_lines(s: TestSuite, t: TestSuite, n: nat, pre: Seq<char>)
    requires
        same_suite(s, t),
        n <= s.details@.len(),
    ensures
        suite_lines(s, n, pre) == suite_lines(t, n, pre),
    decreases s, n,
{
    if n > 0 {
        lemma_suite_same_lines(s, t, (n - 1) as nat, pre);
        lemma_same_details_at(s.details@, t.details@, s.details@.len(), n - 1);
        let (x, y) = (s.details@[n - 1], t.details@[n - 1]);
        lemma_detail_same_lines(x, y, pre + unit());
        assert(x is Properties <==> y is Properties);
        assert(suite_child_lines(x, pre + unit()) == suite_child_lines(y, pre + unit()));
    } else {
        assert(header_line(s, pre) == header_line(t, pre));
    }
}

proof fn lemma_case_same_lines(c: TestCase, e: TestCase, n: nat, pre: Seq<char>)
    requires
        same_case(c, e),
        n <= c.details@.len(),
    ensures
        case_lines(c, n, pre) == case_lines(e, n, pre),
    decreases c, n,
{
    if n > 0 {
        lemma_case_same_lines(c, e, (n - 1) as nat, pre);
        lemma_same_details_at(c.details@, e.details@, c.details@.len(), n - 1);
        let (x, y) = (c.details@[n - 1], e.details@[n - 1]);
        lemma_detail_same_lines(x, y, pre + unit());
        assert(x is Output <==> y is Output);
        assert(case_child_lines(c.result, x, pre + unit()) == case_child_lines(e.result, y, pre + unit()));
    } else {
        assert(case_head(c, pre) == case_head(e, pre));
    }
}

/// Rendering depends on the shape of a report alone, with no hidden state:
/// reports of the same shape, and so the same report rendered twice, give
/// the same lines.
pub proof fn render_depends_on_shape_only(a: TestSummary, b: TestSummary)
    requires
        same_summary(a, b),
    ensures
        report_lines(a) == report_lines(b),
{
    lemma_summary_same_lines(a, b, a.test_suites@.len());
}

proof fn lemma_summary_same_lines(a: TestSummary, b: TestSummary, n: nat)
    requires
        same_summary(a, b),
        n <= a.test_suites@.len(),
    ensures
        summary_lines(a, n) == summary_lines(b, n),
    decreases n,
{
    if n > 0 {
        lemma_summary_same_lines(a, b, (n - 1) as nat);
        let (s, t) = (a.test_suites@[n - 1], b.test_suites@[n - 1]);
        assert(same_suite(s, t));
        lemma_suite_same_lines(s, t, s.details@.len(), seq![]);
    }
}


/// `b` is `a` with details that are never shown removed, at any depth: the
/// properties of suites when `props` holds, the captured output of passed
/// cases when `out` holds. Everything else is kept as it is.
pub open spec fn without_hidden(a: TestDetail, b: TestDetail, out: bool, props: bool) -> bool
    decreases a, 0nat,
{
    match a {
        TestDetail::TestSuite(s) => b is TestSuite && suite_without_hidden(s, b->TestSuite_0, out, props),
        TestDetail::TestCase(c) => b is TestCase && case_without_hidden(c, b->TestCase_0, out, props),
        _ => b == a,
    }
}

/// The first `n` details of `xs` become the first `m` details of `ys`: in
/// order, each kept one related by `without_hidden`; output may be left out
/// when `drop_output` holds, properties when `drop_properties` holds.
pub open spec fn details_without_hidden(
    xs: Seq<TestDetail>,
    ys: Seq<TestDetail>,
    n: nat,
    m: nat,
    drop_output: bool,
    drop_properties: bool,
    out: bool,
    props: bool,
) -> bool
    decreases xs, n,
{
    if n == 0 {
        m == 0
    } else if n > xs.len() || m > ys.len() {
        false
    } else if (drop_output && xs[n - 1] is Output) || (drop_properties && xs[n - 1] is Properties) {
        details_without_hidden(xs, ys, (n - 1) as nat, m, drop_output, drop_properties, out, props)
    } else {
        m > 0 && without_hidden(xs[n - 1], ys[m - 1], out, props)
            && details_without_hidden(xs, ys, (n - 1) as nat, (m - 1) as nat, drop_output, drop_properties, out, props)
    }
}

pub open spec fn suite_without_hidden(s: TestSuite, t: TestSuite, out: bool, props: bool) -> bool
    decreases s, 0nat,
{
    &&& t.name@ == s.name@
    &&& t.failed == s.failed
    &&& t.passed == s.passed
    &&& t.skipped == s.skipped
    &&& t.total == s.total
    &&& details_without_hidden(s.details@, t.details@, s.details@.len(), t.details@.len(), false, props, out, props)
}

pub open spec fn case_without_hidden(c: TestCase, e: TestCase, out: bool, props: bool) -> bool
    decreases c, 0nat,
{
    &&& e.name@ == c.name@
    &&& e.result == c.result
    &&& details_without_hidden(
        c.details@,
        e.details@,
        c.details@.len(),
        e.details@.len(),
        out && c.result == TestResult::Passed,
        false,
        out,
        props,
    )
}

proof fn lemma_detail_without_hidden(a: TestDetail, b: TestDetail, out: bool, props: bool, pre: Seq<char>)
    requires
        without_hidden(a, b, out, props),
    ensures
        detail_lines(a, pre) == detail_lines(b, pre),
    decreases a, 0nat,
{
    match a {
        TestDetail::TestSuite(s) => {
            let t = b->TestSuite_0;
            lemma_suite_without_hidden(s, t, out, props, s.details@.len(), t.details@.len(), pre);
        },
        TestDetail::TestCase(c) => {
            let e = b->TestCase_0;
            lemma_case_without_hidden(c, e, out, props, c.details@.len(), e.details@.len(), pre);
        },
        _ => {},
    }
}

proof fn lemma_suite_without_hidden(s: TestSuite, t: TestSuite, out: bool, props: bool, n: nat, m: nat, pre: Seq<char>)
    requires
        suite_without_hidden(s, t, out, props),
        details_without_hidden(s.details@, t.details@, n, m, false, props, out, props),
    ensures
        suite_lines(s, n, pre) == suite_lines(t, m, pre),
    decreases s, n,
{
    if n > 0 && props && s.details@[n - 1] is Properties {
        lemma_suite_without_hidden(s, t, out, props, (n - 1) as nat, m, pre);
        assert(suite_child_lines(s.details@[n - 1], pre + unit()) =~= Seq::<LineV>::empty());
        assert(suite_lines(s, n, pre) =~= suite_lines(s, (n - 1) as nat, pre));
    } else if n > 0 {
        let (x, y) = (s.details@[n - 1], t.details@[m - 1]);
        assert(without_hidden(x, y, out, props));
        lemma_suite_without_hidden(s, t, out, props, (n - 1) as nat, (m - 1) as nat, pre);
        lemma_detail_without_hidden(x, y, out, props, pre + unit());
        assert(x is Properties <==> y is Properties);
        assert(suite_child_lines(x, pre + unit()) == suite_child_lines(y, pre + unit()));
    } else {
        assert(header_line(s, pre) == header_line(t, pre));
    }
}

proof fn lemma_case_without_hidden(c: TestCase, e: TestCase, out: bool, props: bool, n: nat, m: nat, pre: Seq<char>)
    requires
        case_without_hidden(c, e, out, props),
        details_without_hidden(c.details@, e.details@, n, m, out && c.result == TestResult::Passed, false, out, props),
    ensures
        case_lines(c, n, pre) == case_lines(e, m, pre),
    decreases c, n,
{
    if n > 0 {
        let x = c.details@[n - 1];
        if out && c.result == TestResult::Passed && x is Output {
            lemma_case_without_hidden(c, e, out, props, (n - 1) as nat, m, pre);
            assert(case_child_lines(c.result, x, pre + unit()) =~= Seq::<LineV>::empty());
            assert(case_lines(c, n, pre) =~= case_lines(c, (n - 1) as nat, pre));
        } else {
            let y = e.details@[m - 1];
            assert(!(out && c.result == TestResult::Passed && x is Output));
            assert(without_hidden(x, y, out, props));
            lemma_case_without_hidden(c, e, out, props, (n - 1) as nat, (m - 1) as nat, pre);
            lemma_detail_without_hidden(x, y, out, props, pre + unit());
            assert(x is Output <==> y is Output);
            assert(case_child_lines(c.result, x, pre + unit()) == case_child_lines(e.result, y, pre + unit()));
        }
    } else {
        assert(case_head(c, pre) == case_head(e, pre));
    }
}

/// The properties of a suite and the captured output of a passed case yield
/// no line, wherever they stand: a report and the same report with all such
/// output removed (`out`), or all such properties (`props`), or both, at any
/// depth, render to the same lines.
pub proof fn hidden_details_never_rendered(a: TestSummary, b: TestSummary, out: bool, props: bool)
    requires
        a.test_suites@.len() == b.test_suites@.len(),
        forall|i: int| 0 <= i < a.test_suites@.len() ==> suite_without_hidden(
            #[trigger] a.test_suites@[i],
            b.test_suites@[i],
            out,
            props,
        ),
    ensures
        report_lines(a) == report_lines(b),
{
    lemma_summary_without_hidden(a, b, out, props, a.test_suites@.len());
}

proof fn lemma_summary_without_hidden(a: TestSummary, b: TestSummary, out: bool, props: bool, n: nat)
    requires
        n <= a.test_suites@.len() == b.test_suites@.len(),
        forall|i: int| 0 <= i < a.test_suites@.len() ==> suite_without_hidden(
            #[trigger] a.test_suites@[i],
            b.test_suites@[i],
            out,
            props,
        ),
    ensures
        summary_lines(a, n) == summary_lines(b, n),
    decreases n,
{
    if n > 0 {
        lemma_summary_without_hidden(a, b, out, props, (n - 1) as nat);
        let (s, t) = (a.test_suites@[n - 1], b.test_suites@[n - 1]);
        assert(suite_without_hidden(s, t, out, props));
        lemma_suite_without_hidden(s, t, out, props, s.details@.len(), t.details@.len(), seq![]);
    }
}


/// A passed case renders the same with all of its captured output removed,
/// and with that of passed cases inside it, at any depth.
pub proof fn passed_case_output_never_rendered(c: TestCase, e: TestCase, pre: Seq<char>)
    requires
        case_without_hidden(c, e, true, false),
    ensures
        case_lines(c, c.details@.len(), pre) == case_lines(e, e.details@.len(), pre),
{
    lemma_case_without_hidden(c, e, true, false, c.details@.len(), e.details@.len(), pre);
}

/// A suite renders the same with all of its properties removed, and with
/// those of the suites inside it, at any depth.
pub proof fn suite_properties_never_rendered(s: TestSuite, t: TestSuite, pre: Seq<char>)
    requires
        suite_without_hidden(s, t, false, true),
    ensures
        suite_lines(s, s.details@.len(), pre) == suite_lines(t, t.details@.len(), pre),
{
    lemma_suite_without_hidden(s, t, false, true, s.details@.len(), t.details@.len(), pre);
}


proof fn lemma_case_lines_prefix(c: TestCase, j: nat, n: nat, pre: Seq<char>)
    requires
        j <= n <= c.details@.len(),
    ensures
        case_lines(c, j, pre).len() <= case_lines(c, n, pre).len(),
        case_lines(c, n, pre).take(case_lines(c, j, pre).len() as int) == case_lines(c, j, pre),
    decreases n - j,
{
    if j < n {
        lemma_case_lines_prefix(c, j, (n - 1) as nat, pre);
        let a = case_lines(c, (n - 1) as nat, pre);
        let b = case_child_lines(c.result, c.details@[n - 1], pre + unit());
        assert((a + b).take(case_lines(c, j, pre).len() as int) =~= a.take(case_lines(c, j, pre).len() as int));
    } else {
        assert(case_lines(c, n, pre).take(case_lines(c, n, pre).len() as int) =~= case_lines(c, n, pre));
    }
}

/// Properties inside a case, wherever they stand, yield exactly one line, the
/// placeholder, one level deeper than the case: it comes right after the
/// lines of the details before them.
pub proof fn case_shows_properties_in_place(c: TestCase, k: int, pre: Seq<char>)
    requires
        0 <= k < c.details@.len(),
        c.details@[k] is Properties,
    ensures
        case_lines(c, (k + 1) as nat, pre) == case_lines(c, k as nat, pre).push(
            LineV { indent: pre + unit(), spans: seq![sp(properties_label(), Style::Plain)] },
        ),
        case_lines(c, c.details@.len(), pre).take(case_lines(c, k as nat, pre).len() as int + 1) == case_lines(
            c,
            (k + 1) as nat,
            pre,
        ),
{
    let line = LineV { indent: pre + unit(), spans: seq![sp(properties_label(), Style::Plain)] };
    assert(detail_lines(TestDetail::Properties, pre + unit()) =~= seq![line]);
    assert(c.details@[((k + 1) as nat) - 1] == TestDetail::Properties);
    assert(case_child_lines(c.result, c.details@[k], pre + unit()) == seq![line]);
    assert(case_lines(c, (k + 1) as nat, pre) == case_lines(c, k as nat, pre) + case_child_lines(
        c.result,
        c.details@[k],
        pre + unit(),
    ));
    assert(case_lines(c, (k + 1) as nat, pre) =~= case_lines(c, k as nat, pre).push(line));
    lemma_case_lines_prefix(c, (k + 1) as nat, c.details@.len(), pre);
}

} // verus!
