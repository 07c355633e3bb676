use unitool::display::{indent, to_decimal};
use unitool::parse::{parse_count, parse_report, parse_result, ParseError};
use unitool::render::{render_report, Line, Style};
use unitool::report::{FailureDetail, FailureInfo, TestCase, TestDetail, TestResult, TestSuite, TestSummary};
use unitool::tree::{tree_from_tokens, Token};
use unitool::runner::{compile, compile_errors, TestMode, TEST_RESULTS_PATH};

fn text_of(l: &Line) -> String {
    let mut s = l.indent.clone();
    for sp in &l.spans {
        s.push_str(&sp.text);
    }
    s
}

fn styles_of(l: &Line) -> Vec<Style> {
    l.spans.iter().map(|s| s.style).collect()
}

fn case(name: &str, result: TestResult, details: Vec<TestDetail>) -> TestCase {
    TestCase { name: name.to_string(), result, details }
}

fn suite(name: &str, counts: [usize; 4], details: Vec<TestDetail>) -> TestSuite {
    TestSuite {
        kind: "TestFixture".to_string(),
        name: name.to_string(),
        failed: counts[0],
        passed: counts[1],
        skipped: counts[2],
        total: counts[3],
        details,
    }
}

const SCENARIO: &str = r#"<?xml version="1.0" encoding="utf-8"?>
<test-run>
  <test-suite type="Assembly" name="Core" failed="1" passed="2" skipped="0" total="3">
    <test-case name="A" result="Passed"/>
    <test-case name="B" result="Passed"/>
    <test-case name="C" result="Failed">
      <failure>
        <message>expected 1 got 2</message>
        <stack-trace>at Foo.Bar:12</stack-trace>
      </failure>
    </test-case>
  </test-suite>
</test-run>"#;

#[test]
fn scenario_document_renders_in_order() {
    let report = parse_report(SCENARIO).unwrap();
    let lines = render_report(&report);
    let texts: Vec<String> = lines.iter().map(text_of).collect();
    assert_eq!(
        texts,
        vec![
            " Core  2 1 0",
            "    ✓ A",
            "    ✓ B",
            "    ",
            "    𐄂 C",
            "        expected 1 got 2",
            "        at Foo.Bar:12",
        ]
    );
    assert_eq!(styles_of(&lines[0])[0], Style::NegativeInverted);
    assert_eq!(
        styles_of(&lines[0])[1..],
        [Style::Plain, Style::Positive, Style::Plain, Style::Negative, Style::Plain, Style::Muted]
    );
    assert_eq!(styles_of(&lines[1]), vec![Style::Positive, Style::Plain, Style::Plain]);
    assert_eq!(styles_of(&lines[2]), vec![Style::Positive, Style::Plain, Style::Plain]);
    assert!(lines[3].spans.is_empty());
    assert_eq!(styles_of(&lines[4]), vec![Style::Negative, Style::Plain, Style::Bold]);
    assert_eq!(styles_of(&lines[5]), vec![Style::Negative]);
    assert_eq!(styles_of(&lines[6]), vec![Style::Trace]);
}

#[test]
fn unknown_result_is_malformed() {
    let doc = r#"<test-run><test-suite type="Assembly" name="S" failed="0" passed="0" skipped="0" total="1"><test-case name="X" result="Weird"/></test-suite></test-run>"#;
    assert!(matches!(parse_report(doc), Err(ParseError::MalformedReport(_))));
    assert_eq!(parse_result(&"Weird".to_string()), None);
    assert_eq!(parse_result(&"passed".to_string()), None);
    assert_eq!(parse_result(&"Skipped".to_string()), Some(TestResult::Skipped));
}

#[test]
fn unknown_tag_is_malformed() {
    let doc = r#"<test-run><test-suite type="A" name="S" failed="0" passed="0" skipped="0" total="0"><surprise/></test-suite></test-run>"#;
    assert!(matches!(parse_report(doc), Err(ParseError::MalformedReport(_))));
}

#[test]
fn missing_counter_is_malformed() {
    let doc = r#"<test-run><test-suite type="A" name="S" failed="0" passed="0" skipped="0"/></test-run>"#;
    assert!(matches!(parse_report(doc), Err(ParseError::MalformedReport(_))));
    let doc = r#"<test-run><test-suite type="A" name="S" failed="x" passed="0" skipped="0" total="0"/></test-run>"#;
    assert!(matches!(parse_report(doc), Err(ParseError::MalformedReport(_))));
}

#[test]
fn broken_xml_is_malformed() {
    assert!(matches!(parse_report("<test-run><test-suite></test-run>"), Err(ParseError::MalformedReport(_))));
    assert!(matches!(parse_report("<test-run>"), Err(ParseError::MalformedReport(_))));
    assert!(matches!(parse_report(""), Err(ParseError::MalformedReport(_))));
}

#[test]
fn one_bad_suite_fails_the_whole_report() {
    let doc = r#"<test-run>
      <test-suite type="A" name="Good" failed="0" passed="0" skipped="0" total="0"/>
      <test-suite type="A" name="Bad" failed="0" passed="0" skipped="0"/>
    </test-run>"#;
    assert!(parse_report(doc).is_err());
}

#[test]
fn round_trip_keeps_shape() {
    let expected = TestSummary {
        test_suites: vec![
            suite(
                "Outer",
                [1, 1, 1, 3],
                vec![
                    TestDetail::Properties,
                    TestDetail::TestSuite(suite(
                        "Inner",
                        [0, 1, 0, 1],
                        vec![TestDetail::TestCase(case("deep", TestResult::Passed, vec![TestDetail::Output("hi".to_string())]))],
                    )),
                    TestDetail::TestCase(case(
                        "bad",
                        TestResult::Failed,
                        vec![TestDetail::Failure(FailureInfo {
                            details: vec![FailureDetail::Message("m & n".to_string()), FailureDetail::StackTrace("st".to_string())],
                        })],
                    )),
                    TestDetail::TestCase(case(
                        "skip",
                        TestResult::Skipped,
                        vec![TestDetail::Reason(FailureInfo { details: vec![FailureDetail::Message("later".to_string())] })],
                    )),
                ],
            ),
            suite("Second", [0, 0, 0, 0], vec![]),
        ],
    };
    let doc = r#"<test-run>
<test-suite type="TestFixture" name="Outer" failed="1" passed="1" skipped="1" total="3"><properties><property name="k" value="v"/></properties><test-suite type="TestFixture" name="Inner" failed="0" passed="1" skipped="0" total="1"><test-case name="deep" result="Passed"><output><![CDATA[hi]]></output></test-case></test-suite><test-case name="bad" result="Failed"><failure><message>m &amp; n</message><stack-trace>st</stack-trace></failure></test-case><test-case name="skip" result="Skipped"><reason><message>later</message></reason></test-case></test-suite>
<test-suite type="TestFixture" name="Second" failed="0" passed="0" skipped="0" total="0"></test-suite>
</test-run>"#;
    let parsed = parse_report(doc).unwrap();
    assert_eq!(format!("{:?}", parsed), format!("{:?}", expected));
}

#[test]
fn passed_case_output_is_hidden() {
    let r = TestSummary {
        test_suites: vec![suite(
            "S",
            [0, 1, 1, 2],
            vec![
                TestDetail::TestCase(case("p", TestResult::Passed, vec![TestDetail::Output("secret".to_string())])),
                TestDetail::TestCase(case("s", TestResult::Skipped, vec![TestDetail::Output("shown".to_string())])),
            ],
        )],
    };
    let texts: Vec<String> = render_report(&r).iter().map(text_of).collect();
    assert_eq!(texts, vec!["S 1 0 1", "    ✓ p", "    - s", "        shown"]);
}

#[test]
fn properties_hidden_in_suite_shown_in_case() {
    let r = TestSummary {
        test_suites: vec![suite(
            "S",
            [0, 1, 0, 1],
            vec![TestDetail::Properties, TestDetail::TestCase(case("c", TestResult::Passed, vec![TestDetail::Properties]))],
        )],
    };
    let texts: Vec<String> = render_report(&r).iter().map(text_of).collect();
    assert_eq!(texts, vec![" S  1 0 0", "    ✓ c", "        [Properties]"]);
}

#[test]
fn empty_details_give_no_line() {
    let r = TestSummary {
        test_suites: vec![suite(
            "S",
            [0, 0, 1, 1],
            vec![
                TestDetail::Output(String::new()),
                TestDetail::Failure(FailureInfo { details: vec![] }),
                TestDetail::Reason(FailureInfo { details: vec![] }),
            ],
        )],
    };
    let lines = render_report(&r);
    assert_eq!(lines.len(), 1);
    assert_eq!(lines[0].spans[0].style, Style::MutedBold);
    assert_eq!(text_of(&lines[0]), "S 0 0 1");
}

#[test]
fn header_styles() {
    let cases = [([1, 3, 0, 3], Style::NegativeInverted), ([0, 3, 0, 3], Style::PositiveInverted), ([0, 2, 1, 3], Style::MutedBold)];
    for (counts, style) in cases {
        let r = TestSummary { test_suites: vec![suite("N", counts, vec![])] };
        assert_eq!(render_report(&r)[0].spans[0].style, style);
    }
}

#[test]
fn blank_line_only_before_failure() {
    let r = TestSummary {
        test_suites: vec![suite(
            "S",
            [1, 1, 1, 3],
            vec![
                TestDetail::TestCase(case("a", TestResult::Passed, vec![])),
                TestDetail::TestCase(case("b", TestResult::Failed, vec![])),
                TestDetail::TestCase(case("c", TestResult::Skipped, vec![])),
            ],
        )],
    };
    let lines = render_report(&r);
    let blanks: Vec<usize> = (0..lines.len()).filter(|&i| lines[i].spans.is_empty()).collect();
    assert_eq!(blanks, vec![2]);
    assert_eq!(text_of(&lines[3]), "    𐄂 b");
    assert_eq!(lines[3].spans[2].style, Style::Bold);
}

#[test]
fn rendering_twice_is_identical() {
    let report = parse_report(SCENARIO).unwrap();
    let a = render_report(&report);
    let b = render_report(&report);
    assert_eq!(format!("{:?}", a), format!("{:?}", b));
}

#[test]
fn nested_suites_indent_cumulatively() {
    let inner = suite("In", [0, 1, 0, 1], vec![TestDetail::TestCase(case("x", TestResult::Passed, vec![]))]);
    let r = TestSummary { test_suites: vec![suite("Out", [0, 1, 0, 1], vec![TestDetail::TestSuite(inner)])] };
    let texts: Vec<String> = render_report(&r).iter().map(text_of).collect();
    assert_eq!(texts, vec![" Out  1 0 0", "     In  1 0 0", "        ✓ x"]);
}

#[test]
fn indent_each_line() {
    assert_eq!(indent(""), "");
    assert_eq!(indent("a"), "    a");
    assert_eq!(indent("a\nb"), "    a\n    b");
    assert_eq!(indent("a\r\nb\n"), "    a\n    b");
    assert_eq!(indent("\n"), "    ");
}

#[test]
fn decimal_numbers() {
    assert_eq!(to_decimal(0), "0");
    assert_eq!(to_decimal(1203), "1203");
    assert_eq!(to_decimal(usize::MAX), usize::MAX.to_string());
}

#[test]
fn counters() {
    assert_eq!(parse_count(&"42".to_string()), Some(42));
    assert_eq!(parse_count(&"".to_string()), None);
    assert_eq!(parse_count(&"4a".to_string()), None);
    assert_eq!(parse_count(&usize::MAX.to_string()), Some(usize::MAX));
    assert_eq!(parse_count(&"99999999999999999999999".to_string()), None);
}

#[test]
fn command_lines() {
    assert_eq!(compile("/p"), vec!["-batchmode", "-logfile", "-", "-projectPath", "/p", "-quit"]);
    assert_eq!(
        unitool::runner::test("/p", TestMode::EditMode, "A;B", None),
        vec![
            "-batchmode", "-logfile", "-", "-projectPath", "/p", "-runTests", "-testPlatform", "EditMode", "-testResults",
            TEST_RESULTS_PATH, "-testFilter", "", "-assemblyNames", "A;B", "-runSynchronously",
        ]
    );
    assert_eq!(
        unitool::runner::test("/p", TestMode::PlayMode, "A", Some("f".to_string())),
        vec![
            "-batchmode", "-logfile", "-", "-projectPath", "/p", "-runTests", "-testPlatform", "PlayMode", "-testResults",
            TEST_RESULTS_PATH, "-testFilter", "f", "-assemblyNames", "A",
        ]
    );
}

#[test]
fn compiler_errors_are_distinct_and_ordered() {
    let log: Vec<String> = vec![
        "Refreshing native plugins",
        "Assets/A.cs(3,1): error CS1002: ; expected",
        "warning CS0168: unused",
        "Assets/B.cs(9,4): error CS0103: name does not exist",
        "Assets/A.cs(3,1): error CS1002: ; expected",
        "error C",
    ]
    .into_iter()
    .map(String::from)
    .collect();
    assert_eq!(
        compile_errors(&log),
        vec!["Assets/A.cs(3,1): error CS1002: ; expected", "Assets/B.cs(9,4): error CS0103: name does not exist"]
    );
    assert!(compile_errors(&vec![]).is_empty());
}

fn malformed_message(doc: &str) -> String {
    match parse_report(doc) {
        Err(ParseError::MalformedReport(m)) => m,
        other => panic!("expected a malformed report, got {:?}", other),
    }
}

#[test]
fn empty_run_gives_empty_report() {
    let r = parse_report("<test-run></test-run>").unwrap();
    assert!(r.test_suites.is_empty());
    assert!(render_report(&r).is_empty());
}

#[test]
fn lowercase_result_is_malformed() {
    let doc = r#"<test-run><test-suite type="Assembly" name="S" failed="0" passed="1" skipped="0" total="1"><test-case name="c" result="passed"/></test-suite></test-run>"#;
    let m = malformed_message(doc);
    assert!(m.contains("passed"), "{}", m);
}

#[test]
fn counters_come_from_the_document() {
    let doc = r#"<test-run><test-suite type="T" name="S" failed="0" passed="3" skipped="0" total="3"><test-case name="x" result="Failed"/></test-suite></test-run>"#;
    let r = parse_report(doc).unwrap();
    let s = &r.test_suites[0];
    assert_eq!((s.failed, s.passed, s.skipped, s.total), (0, 3, 0, 3));
}

#[test]
fn detail_order_is_kept() {
    let doc = r#"<test-run><test-suite type="T" name="S" failed="0" passed="0" skipped="0" total="0"><test-case name="c" result="Passed"/><failure><message>m</message></failure><output>o</output><test-suite type="T" name="In" failed="0" passed="0" skipped="0" total="0"/><reason><message>r</message></reason><properties/></test-suite></test-run>"#;
    let r = parse_report(doc).unwrap();
    let d = &r.test_suites[0].details;
    assert_eq!(d.len(), 6);
    assert!(matches!(d[0], TestDetail::TestCase(_)));
    assert!(matches!(d[1], TestDetail::Failure(_)));
    assert!(matches!(&d[2], TestDetail::Output(o) if o == "o"));
    assert!(matches!(d[3], TestDetail::TestSuite(_)));
    assert!(matches!(d[4], TestDetail::Reason(_)));
    assert!(matches!(d[5], TestDetail::Properties));
}

#[test]
fn errors_name_their_place() {
    let m = malformed_message(r#"<test-run><test-suite type="A" name="S" failed="0" passed="0" skipped="0"/></test-run>"#);
    assert!(m.contains("total") && m.contains("test-suite"), "{}", m);
    let m = malformed_message(r#"<test-run><test-suite type="A" name="S" failed="0" passed="0" skipped="0" total="0"><surprise/></test-suite></test-run>"#);
    assert!(m.contains("surprise"), "{}", m);
    let m = malformed_message(r#"<test-run><test-suite type="A" name="S" failed="-1" passed="0" skipped="0" total="0"/></test-run>"#);
    assert!(m.contains("failed"), "{}", m);
    let m = malformed_message("<test-run><test-suite></test-run>");
    assert!(!m.is_empty());
}

#[test]
fn attributes_are_unescaped() {
    let doc = r#"<test-run><test-suite type="T" name="a &lt; b" failed="0" passed="0" skipped="0" total="0"/></test-run>"#;
    let r = parse_report(doc).unwrap();
    assert_eq!(r.test_suites[0].name, "a < b");
}

#[test]
fn passed_output_hidden_at_depth() {
    let inner = suite(
        "In",
        [0, 1, 0, 1],
        vec![TestDetail::TestCase(case("p", TestResult::Passed, vec![TestDetail::Output("x".to_string()), TestDetail::Properties]))],
    );
    let r = TestSummary { test_suites: vec![suite("Out", [0, 1, 0, 1], vec![TestDetail::TestSuite(inner)])] };
    let texts: Vec<String> = render_report(&r).iter().map(text_of).collect();
    assert_eq!(texts, vec![" Out  1 0 0", "     In  1 0 0", "        ✓ p", "            [Properties]"]);
}

#[test]
fn multiline_text_gives_one_indented_line_each() {
    let failing = case(
        "f",
        TestResult::Failed,
        vec![
            TestDetail::Output("one\r\ntwo\n".to_string()),
            TestDetail::Failure(FailureInfo {
                details: vec![
                    FailureDetail::Message("m1\nm2".to_string()),
                    FailureDetail::StackTrace("at A\nat B".to_string()),
                ],
            }),
        ],
    );
    let r = TestSummary { test_suites: vec![suite("S", [1, 0, 0, 1], vec![TestDetail::TestCase(failing)])] };
    let lines = render_report(&r);
    let texts: Vec<String> = lines.iter().map(text_of).collect();
    assert_eq!(
        texts,
        vec![" S  0 1 0", "    ", "    𐄂 f", "        one", "        two", "        m1", "        m2", "        at A", "        at B"]
    );
    assert_eq!(styles_of(&lines[6]), vec![Style::Negative]);
    assert_eq!(styles_of(&lines[7]), vec![Style::Trace]);
}

#[test]
fn empty_fragment_keeps_its_line() {
    let r = TestSummary {
        test_suites: vec![suite(
            "S",
            [0, 0, 1, 1],
            vec![TestDetail::Failure(FailureInfo {
                details: vec![FailureDetail::Message(String::new()), FailureDetail::Message("x".to_string())],
            })],
        )],
    };
    let texts: Vec<String> = render_report(&r).iter().map(text_of).collect();
    assert_eq!(texts, vec!["S 0 0 1", "    ", "    x"]);
}

#[test]
fn hand_built_tokens_never_panic() {
    let toks = vec![Token::Start("abc".to_string(), String::new(), true)];
    let root = tree_from_tokens(&toks).unwrap();
    assert_eq!(root.name, "abc");
    assert!(root.attrs.is_empty());
    let toks = vec![Token::Start("a".to_string(), " k=\"v &amp; w\"".to_string(), false), Token::Text("t".to_string()), Token::End("a".to_string())];
    let root = tree_from_tokens(&toks).unwrap();
    assert_eq!(root.attrs[0].key, "k");
    assert_eq!(root.attrs[0].value, "v & w");
    assert_eq!(root.text, "t");
    assert!(tree_from_tokens(&vec![Token::Start("a".to_string(), " k=".to_string(), true)]).is_none());
    assert!(tree_from_tokens(&vec![Token::End("a".to_string())]).is_none());
    assert!(tree_from_tokens(&vec![]).is_none());
}

#[test]
fn elements_inside_text_elements_are_malformed() {
    let m = malformed_message(r#"<test-run><test-suite type="A" name="S" failed="0" passed="0" skipped="0" total="0"><output>x<b/></output></test-suite></test-run>"#);
    assert!(m.contains("output"), "{}", m);
    let m = malformed_message(r#"<test-run><test-suite type="A" name="S" failed="0" passed="0" skipped="0" total="0"><failure><message>x<i/></message></failure></test-suite></test-run>"#);
    assert!(m.contains("message"), "{}", m);
}
