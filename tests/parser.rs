use rlr::error::Error;
use rlr::parser::{
    format_vec_str, get_input_cases, get_output_cases, get_test_cases, parse_input_case,
    parse_output_case, pickup_test_case, test_case_files, TestCase,
};

const PAGE: &str = r#"
        <p class="m-0 rem0p8">
            getLowestTemperature(3,2) --> 1
            <span class="cursor-pointer judge-test-button ml-1" data-case="[3,2]">
                <i class="far fa-play-circle" title="テスト実行"></i>
            </span>
        </p>
        <p class="m-0 rem0p8">
            getLowestTemperature(2, 10) --> -8
            <span class="cursor-pointer judge-test-button ml-1" data-case="[2,10]">
            <i class="far fa-play-circle" title="テスト実行">
            </i>
            </span>
        </p>
        <p class="m-0 rem0p8">
            getLowestTemperature( 18,5 ) --> 13
            <span class="cursor-pointer judge-test-button ml-1" data-case="[18,5]">
            <i class="far fa-play-circle" title="テスト実行">
            </i>
            </span>
        </p>
        "#;

#[test]
fn test_format_vec_str() {
    let v = vec!["1".to_string(), "2".to_string(), "3".to_string()];

    let actual = format_vec_str(&v);
    let expected = "1 2 3".to_string();

    assert_eq!(actual, expected);
}

#[test]
fn test_get_test_cases() {
    let results = get_test_cases(PAGE).unwrap();

    let expecteds = vec![
        TestCase::new(vec!["3".to_string(), "2".to_string()], "1".to_string()),
        TestCase::new(vec!["2".to_string(), "10".to_string()], "-8".to_string()),
        TestCase::new(vec!["18".to_string(), "5".to_string()], "13".to_string()),
    ];

    assert_eq!(results, expecteds);
}

#[test]
fn test_get_output_test_cases() {
    let results = pickup_test_case(PAGE).unwrap();
    let input_cases = get_output_cases(results).unwrap();

    let expecteds = ["1", "-8", "13"];

    assert_eq!(input_cases.len(), expecteds.len());
    for (i, actual) in input_cases.iter().enumerate() {
        assert_eq!(actual, expecteds[i]);
    }
}

#[test]
fn test_get_input_test_cases() {
    let results = pickup_test_case(PAGE).unwrap();
    let input_cases = get_input_cases(results).unwrap();

    let expecteds = ["3,2", "2,10", "18,5"];

    assert_eq!(input_cases.len(), expecteds.len());
    for (i, actual) in input_cases.iter().enumerate() {
        assert_eq!(actual, expecteds[i]);
    }
}

#[test]
fn test_paser_output_case() {
    let case = "getLowestTemperature(3,2) --> 1";
    let actual = parse_output_case(case).unwrap();

    let expected = "1";

    assert_eq!(actual, expected);
}

#[test]
fn test_parse_input_case() {
    let case = "getLowestTemperature(3,2) --> 1";

    let actual = parse_input_case(case).unwrap();

    let expected = "3,2";

    assert_eq!(actual, expected);
}

#[test]
fn test_pickup_test_case() {
    let html = r#"
        <p class="m-0 rem0p8">
            getLowestTemperature(3,2) --> 1
            <span class="cursor-pointer judge-test-button ml-1" data-case="[3,2]">
                <i class="far fa-play-circle" title="テスト実行"></i>
            </span>
        </p>
        <p class="m-0 rem0p8">
            getLowestTemperature(2,10) --> -8
            <span class="cursor-pointer judge-test-button ml-1" data-case="[2,10]">
            <i class="far fa-play-circle" title="テスト実行">
            </i>
            </span>
        </p>
        <p class="m-0 rem0p8">
            getLowestTemperature(18,5) --> 13
            <span class="cursor-pointer judge-test-button ml-1" data-case="[18,5]">
            <i class="far fa-play-circle" title="テスト実行">
            </i>
            </span>
        </p>
        "#;

    let expecteds = vec![
        "getLowestTemperature(3,2) --> 1",
        "getLowestTemperature(2,10) --> -8",
        "getLowestTemperature(18,5) --> 13",
    ];

    let results = pickup_test_case(html).unwrap();

    assert_eq!(results.len(), expecteds.len());
    for (i, actual) in results.iter().enumerate() {
        assert_eq!(actual, expecteds[i]);
    }
}

#[test]
fn pickup_skips_paragraphs_without_case_span() {
    let html = r#"<p>intro (1) --> 2</p><p>f(4) --> 5<span data-case="[4]"></span></p>
        <p>g(6) --> 7<span class="x"></span></p>"#;
    let results = pickup_test_case(html).unwrap();
    assert_eq!(results, vec!["f(4) --> 5".to_string()]);
}

#[test]
fn input_case_uses_leftmost_nonempty_group() {
    assert_eq!(parse_input_case("f() g( a , b ,c)").unwrap(), "a,b,c");
    assert_eq!(parse_input_case("((x) y)").unwrap(), "(x");
    assert_eq!(parse_input_case("f(1,\n 2)").unwrap(), "1,2");
}

#[test]
fn input_case_without_group_is_an_error() {
    assert_eq!(parse_input_case("f() --> 1"), Err(Error::PatternMismatch));
    assert_eq!(parse_input_case("f(1 --> 2"), Err(Error::PatternMismatch));
    assert_eq!(parse_input_case(""), Err(Error::PatternMismatch));
}

#[test]
fn output_case_takes_rest_of_last_line() {
    assert_eq!(parse_output_case("f(1) --> a --> b").unwrap(), "a --> b");
    assert_eq!(parse_output_case("x --> 1\ny --> 2").unwrap(), "2");
    assert_eq!(parse_output_case("f(1) --> 2\n"), Err(Error::PatternMismatch));
    assert_eq!(parse_output_case("f(1) -->"), Err(Error::PatternMismatch));
    assert_eq!(parse_output_case("f(1) --> "), Err(Error::PatternMismatch));
}

#[test]
fn test_cases_fail_on_a_bad_line() {
    let html = r#"<p>f(1) --> 2<span data-case="[1]"></span></p><p>oops<span data-case="[]"></span></p>"#;
    assert_eq!(get_test_cases(html), Err(Error::PatternMismatch));
    assert_eq!(get_input_cases(vec!["f(1)".to_string(), "g".to_string()]), Err(Error::PatternMismatch));
}

#[test]
fn test_case_files_names_and_contents() {
    let cases = vec![
        TestCase::new(vec!["3".to_string(), "2".to_string()], "1".to_string()),
        TestCase::new(vec!["18".to_string()], "13".to_string()),
    ];
    let files = test_case_files(&cases, "42");
    assert_eq!(
        files,
        vec![
            ("./problem-42/testcase/testcase-1.in".to_string(), "3 2".to_string()),
            ("./problem-42/testcase/testcase-1.out".to_string(), "1".to_string()),
            ("./problem-42/testcase/testcase-2.in".to_string(), "18".to_string()),
            ("./problem-42/testcase/testcase-2.out".to_string(), "13".to_string()),
        ]
    );
}

#[test]
fn test_case_files_count_past_nine() {
    let cases: Vec<TestCase> = (0..12).map(|i| TestCase::new(vec![i.to_string()], i.to_string())).collect();
    let files = test_case_files(&cases, "7");
    assert_eq!(files.len(), 24);
    assert_eq!(files[20].0, "./problem-7/testcase/testcase-11.in");
    assert_eq!(files[23].0, "./problem-7/testcase/testcase-12.out");
    assert_eq!(files[23].1, "11");
}
