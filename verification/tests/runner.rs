use hurl_wasm::hurlfmt::{HurlFmt as Formatter, InputFormat};
use hurl_wasm::wasm::{HurlFmt as ContentRunner, RunOptions as ContentRunOptions};
use hurl_wasm::web::{BaseLogger, HurlFmt, RunOptions};

#[test]
fn test_base_logger_lines() {
    let quiet = BaseLogger::new(false);
    assert_eq!(quiet.debug("hello"), None);
    assert_eq!(quiet.info("hello"), "hello");
    assert_eq!(quiet.error("boom"), "error: boom");
    let verbose = BaseLogger::new(true);
    assert_eq!(verbose.debug("hello"), Some("* hello".to_string()));
    assert_eq!(verbose.debug(""), Some("*".to_string()));
}

#[test]
fn test_run_hurl_is_empty() {
    let options = RunOptions { verbose: true, very_verbose: false, variable_file: "vars".to_string() };
    let runner = HurlFmt::new(options);
    assert_eq!(runner.run_hurl("GET http://localhost"), "");
    let runner = ContentRunner::new("GET http://localhost".to_string());
    let options = ContentRunOptions { verbose: false, very_verbose: false, variable_file: String::new() };
    assert_eq!(runner.run_hurl(options), "");
}

#[test]
fn test_input_format() {
    assert_eq!(InputFormat::Hurl.to_string(), "Hurl");
    assert_eq!(InputFormat::Curl.to_string(), "Curl");
    let f = Formatter::new(InputFormat::Curl);
    assert_eq!(f.input_format, InputFormat::Curl);
}
