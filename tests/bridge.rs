use script_router::bridge::console_line;
use script_router::bridge::ConsoleLevel;
use script_router::bridge::FetchResponse;
use script_router::diagnostics::report_exceptions;
use script_router::diagnostics::ExceptionMessage;

#[test]
fn console_line_spaces_arguments() {
    let args = vec!["a".to_string(), "{\"k\":1}".to_string(), "".to_string()];
    assert_eq!(console_line(ConsoleLevel::Log, &args), "LOG: a {\"k\":1}  ");
    assert_eq!(console_line(ConsoleLevel::Error, &vec![]), "ERROR: ");
    assert_eq!(console_line(ConsoleLevel::Warn, &vec!["w".to_string()]), "WARN: w ");
    assert_eq!(console_line(ConsoleLevel::Info, &vec!["i".to_string()]), "INFO: i ");
    assert_eq!(console_line(ConsoleLevel::Debug, &vec!["d".to_string()]), "DEBUG: d ");
}

#[test]
fn fetch_response_success() {
    let r = FetchResponse::from_parts(
        200,
        "http://example.test/".to_string(),
        vec![("content-type".to_string(), "text/plain".to_string())],
        b"hi".to_vec(),
    );
    assert!(r.ok);
    assert_eq!(r.status, 200);
    assert_eq!(r.status_text, "OK");
    assert_eq!(r.kind, "basic");
    assert!(!r.body_used);
    assert!(!r.redirected);
    assert_eq!(r.body, b"hi".to_vec());
    assert_eq!(r.url, "http://example.test/");
    assert_eq!(r.headers.len(), 1);
}

#[test]
fn fetch_response_failure_status() {
    let r = FetchResponse::from_parts(404, String::new(), vec![], vec![]);
    assert!(!r.ok);
    assert_eq!(r.status_text, "Not Found");
    let r = FetchResponse::from_parts(299, String::new(), vec![], vec![]);
    assert!(r.ok);
    assert_eq!(r.status_text, "");
    let r = FetchResponse::from_parts(300, String::new(), vec![], vec![]);
    assert!(!r.ok);
    assert_eq!(r.status_text, "Multiple Choices");
    let r = FetchResponse::from_parts(1000, String::new(), vec![], vec![]);
    assert_eq!(r.status_text, "");
    let r = FetchResponse::from_parts(99, String::new(), vec![], vec![]);
    assert_eq!(r.status_text, "");
}

#[test]
fn exception_without_location() {
    assert_eq!(report_exceptions("Error: boom", None, None), "Error: boom\n");
}

#[test]
fn exception_with_location_and_stack() {
    let m = ExceptionMessage {
        resource_name: Some("main.js".to_string()),
        line_number: 12,
        source_line: Some("let x = y;".to_string()),
        start_column: 8,
        end_column: 9,
    };
    let r = report_exceptions("ReferenceError: y is not defined", Some(m), Some("at main.js:12:9".to_string()));
    assert_eq!(
        r,
        "main.js:12: ReferenceError: y is not defined\nlet x = y;\n        ^\nat main.js:12:9\n"
    );
}

#[test]
fn exception_with_unknown_name_and_no_source() {
    let m = ExceptionMessage {
        resource_name: None,
        line_number: 0,
        source_line: None,
        start_column: 0,
        end_column: 0,
    };
    assert_eq!(report_exceptions("E", Some(m), Some("ignored".to_string())), "(unknown):0: E\n");
}

#[test]
fn exception_with_reversed_columns() {
    let m = ExceptionMessage {
        resource_name: None,
        line_number: 3,
        source_line: Some("abc".to_string()),
        start_column: 2,
        end_column: 1,
    };
    assert_eq!(report_exceptions("E", Some(m), None), "(unknown):3: E\nabc\n  \n");
}
