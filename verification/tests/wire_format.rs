use piston_rs::ExecResponse;
use piston_rs::Executor;
use piston_rs::File;
use piston_rs::parse_runtimes;

#[test]
fn request_round_trip() {
    let executor = Executor::new()
        .set_language("python")
        .set_version("3.10")
        .add_file(File::default().set_name("test.py").set_content("print(1)"));

    let body = executor.to_json();
    assert_eq!(
        body,
        "{\"language\":\"python\",\"version\":\"3.10\",\"files\":[{\"name\":\"test.py\",\"content\":\"print(1)\",\"encoding\":\"utf8\"}],\"stdin\":\"\",\"args\":[],\"compile_timeout\":10000,\"run_timeout\":3000,\"compile_memory_limit\":-1,\"run_memory_limit\":-1}"
        .to_string()
    );

    let reply = "{\"language\":\"python\",\"version\":\"3.10\",\"run\":{\"stdout\":\"1\\n\",\"stderr\":\"\",\"output\":\"1\\n\",\"code\":0,\"signal\":null}}";
    let response = ExecResponse::from_json(reply).unwrap();

    assert!(response.run.is_ok());
    assert!(response.compile.is_none());
    assert_eq!(response.language, "python".to_string());
    assert_eq!(response.version, "3.10".to_string());
    assert_eq!(response.run.stdout, "1\n".to_string());
    assert_eq!(response.run.code, 0);
    assert!(response.run.signal.is_none());
    assert!(response.is_ok());
}

#[test]
fn default_executor_serialization() {
    let body = Executor::new().to_json();
    assert_eq!(
        body,
        "{\"language\":\"\",\"version\":\"*\",\"files\":[],\"stdin\":\"\",\"args\":[],\"compile_timeout\":10000,\"run_timeout\":3000,\"compile_memory_limit\":-1,\"run_memory_limit\":-1}"
        .to_string()
    );
}

#[test]
fn serialization_escapes_strings() {
    let executor = Executor::new()
        .set_language("python")
        .set_stdin("line one\nline \"two\"\t\\ and \u{1}")
        .add_arg("--flag=\"x\"");

    let body = executor.to_json();
    assert!(body.contains("\"stdin\":\"line one\\nline \\\"two\\\"\\t\\\\ and \\u0001\""));
    assert!(body.contains("\"args\":[\"--flag=\\\"x\\\"\"]"));
}

#[test]
fn serialization_keeps_file_order() {
    let executor = Executor::new()
        .add_file(File::new("a.py", "pass", "utf8"))
        .add_file(File::new("b.py", "pass", "utf8"));

    let body = executor.to_json();
    assert!(body.contains("\"files\":[{\"name\":\"a.py\",\"content\":\"pass\",\"encoding\":\"utf8\"},{\"name\":\"b.py\",\"content\":\"pass\",\"encoding\":\"utf8\"}]"));
}

#[test]
fn response_fields_in_any_order() {
    let reply = "{ \"run\" : {\"code\": 1, \"output\": \"\", \"stderr\": \"boom\", \"stdout\": \"\"} , \"version\": \"1.50.0\", \"language\": \"rust\" }";
    let response = ExecResponse::from_json(reply).unwrap();

    assert_eq!(response.language, "rust".to_string());
    assert_eq!(response.version, "1.50.0".to_string());
    assert_eq!(response.run.stderr, "boom".to_string());
    assert_eq!(response.run.code, 1);
    assert!(!response.is_ok());
    assert!(response.is_err());
}

#[test]
fn response_with_compile_and_signal() {
    let reply = "{\"language\":\"rust\",\"version\":\"1.50.0\",\"compile\":{\"stdout\":\"\",\"stderr\":\"\",\"output\":\"\",\"code\":0,\"signal\":null},\"run\":{\"stdout\":\"\",\"stderr\":\"\",\"output\":\"\",\"code\":-9,\"signal\":\"SIGKILL\"}}";
    let response = ExecResponse::from_json(reply).unwrap();

    assert!(response.compile.is_some());
    assert!(response.compile.as_ref().unwrap().is_ok());
    assert_eq!(response.run.code, -9);
    assert_eq!(response.run.signal, Some("SIGKILL".to_string()));
    assert!(response.is_err());
}

#[test]
fn response_with_null_compile_and_message() {
    let reply = "{\"language\":\"go\",\"version\":\"1.16\",\"compile\":null,\"message\":\"ok\",\"run\":{\"stdout\":\"hi\",\"stderr\":\"\",\"output\":\"hi\",\"code\":0,\"signal\":null}}";
    let response = ExecResponse::from_json(reply).unwrap();

    assert!(response.compile.is_none());
    assert_eq!(response.message, Some("ok".to_string()));
    assert!(response.is_ok());
}

#[test]
fn response_rejects_malformed_bodies() {
    // Not JSON at all.
    assert!(ExecResponse::from_json("not json").is_none());
    // Missing the required run member.
    assert!(ExecResponse::from_json("{\"language\":\"go\",\"version\":\"1.16\"}").is_none());
    // An unrecognized key.
    assert!(ExecResponse::from_json("{\"language\":\"go\",\"version\":\"1.16\",\"surprise\":1,\"run\":{\"stdout\":\"\",\"stderr\":\"\",\"output\":\"\",\"code\":0,\"signal\":null}}")
    .is_none());
    // A repeated key.
    assert!(ExecResponse::from_json("{\"language\":\"go\",\"language\":\"go\",\"version\":\"1.16\",\"run\":{\"stdout\":\"\",\"stderr\":\"\",\"output\":\"\",\"code\":0,\"signal\":null}}")
    .is_none());
    // A non-integer exit code.
    assert!(ExecResponse::from_json("{\"language\":\"go\",\"version\":\"1.16\",\"run\":{\"stdout\":\"\",\"stderr\":\"\",\"output\":\"\",\"code\":null,\"signal\":null}}")
    .is_none());
    // Trailing text after the object.
    assert!(ExecResponse::from_json("{\"language\":\"go\",\"version\":\"1.16\",\"run\":{\"stdout\":\"\",\"stderr\":\"\",\"output\":\"\",\"code\":0,\"signal\":null}} x")
    .is_none());
    // An unterminated string.
    assert!(ExecResponse::from_json("{\"language\":\"go").is_none());
}

#[test]
fn string_escapes_are_decoded() {
    let reply = "{\"language\":\"python\",\"version\":\"3.10\",\"run\":{\"stdout\":\"a\\u0041\\n\\t\\\\\\\"\\/\\u00e9\\ud83d\\ude00\",\"stderr\":\"\",\"output\":\"\",\"code\":0,\"signal\":null}}";
    let response = ExecResponse::from_json(reply).unwrap();

    assert_eq!(response.run.stdout, "aA\n\t\\\"/\u{e9}\u{1f600}".to_string());

    // A lone surrogate is rejected.
    let bad = "{\"language\":\"python\",\"version\":\"3.10\",\"run\":{\"stdout\":\"\\ud83d\",\"stderr\":\"\",\"output\":\"\",\"code\":0,\"signal\":null}}";
    assert!(ExecResponse::from_json(bad).is_none());
}

#[test]
fn from_status_builds_degenerate_response() {
    let response = ExecResponse::from_status("404 Not Found", "no such route");

    assert_eq!(response.message, Some("404 Not Found: no such route".to_string()));
    assert_eq!(response.language, String::new());
    assert_eq!(response.run.code, 0);
    assert!(response.compile.is_none());
    assert!(response.is_ok());
}

#[test]
fn runtimes_catalog_is_parsed() {
    let body = "[{\"language\":\"rust\",\"version\":\"1.50.0\",\"aliases\":[\"rs\"]}, {\"language\":\"python\",\"version\":\"3.10\",\"aliases\":[\"py\",\"python3\"]}, {\"language\":\"bash\",\"version\":\"5.1.0\",\"aliases\":[]}]";
    let runtimes = parse_runtimes(body).unwrap();

    assert_eq!(runtimes.len(), 3);
    assert_eq!(runtimes[0].language, "rust".to_string());
    assert_eq!(runtimes[0].aliases, vec!["rs".to_string()]);
    assert_eq!(runtimes[1].aliases, vec!["py".to_string(), "python3".to_string()]);
    assert_eq!(runtimes[2].version, "5.1.0".to_string());
    assert!(runtimes[2].aliases.is_empty());
}

#[test]
fn runtimes_catalog_edge_cases() {
    assert_eq!(parse_runtimes("[]").unwrap().len(), 0);
    assert_eq!(parse_runtimes(" [ ] ").unwrap().len(), 0);
    assert!(parse_runtimes("{}").is_none());
    assert!(parse_runtimes("[{\"language\":\"rust\"}]").is_none());
    assert!(parse_runtimes("[{\"language\":\"rust\",\"version\":\"1\",\"aliases\":[]},]").is_none());
}
