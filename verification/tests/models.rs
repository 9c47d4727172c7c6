use piston_rs::Client;
use piston_rs::ExecResponse;
use piston_rs::ExecResult;
use piston_rs::Executor;
use piston_rs::File;
use piston_rs::LoadError;
use piston_rs::Runtime;

fn generate_result(stdout: &str, stderr: &str, code: isize) -> ExecResult {
    ExecResult {
        stdout: stdout.to_string(),
        stderr: stderr.to_string(),
        output: format!("{}\n{}", stdout, stderr),
        code,
        signal: None,
    }
}

#[test]
fn test_is_ok() {
    let result = generate_result("Hello, world", "", 0);

    assert!(result.is_ok());
    assert!(!result.is_err());
}

#[test]
fn test_is_err() {
    let result = generate_result("", "Error!", 1);

    assert!(!result.is_ok());
    assert!(result.is_err());
}

#[test]
fn test_is_err_with_stdout() {
    let result = generate_result("Hello, world", "Error!", 1);

    assert!(!result.is_ok());
    assert!(result.is_err());
}

#[test]
fn test_runtime_creation() {
    let rt = Runtime {
        language: "clojure".to_string(),
        version: "9000".to_string(),
        aliases: vec![],
    };

    let rt2 = rt.clone();
    assert_eq!(rt.language, rt2.language);
    assert_eq!(rt.version, rt2.version);
    assert_eq!(rt.aliases, rt2.aliases);

    assert_eq!(rt.language, "clojure".to_string());
    assert_eq!(rt.version, "9000".to_string());
    assert!(rt.aliases.is_empty());
}

#[test]
fn test_gen_headers_no_key() {
    let headers = Client::generate_headers(None);

    assert!(!headers.contains_key("Authorization"));
    assert_eq!(headers.get("Accept").unwrap(), "application/json".to_string());
    assert_eq!(headers.get("User-Agent").unwrap(), "piston-rs".to_string());
}

#[test]
fn test_gen_headers_with_key() {
    let headers = Client::generate_headers(Some("123abc"));

    assert_eq!(headers.get("Authorization").unwrap(), "123abc".to_string());
    assert_eq!(headers.get("Accept").unwrap(), "application/json".to_string());
    assert_eq!(headers.get("User-Agent").unwrap(), "piston-rs".to_string());
}

#[test]
fn client_headers_and_url() {
    let client = Client::new();
    let headers = client.get_headers();

    assert!(headers.contains_key("Accept"));
    assert!(headers.contains_key("User-Agent"));
    assert!(!headers.contains_key("Authorization"));
    assert_eq!(client.get_url(), "https://emkc.org/api/v2/piston".to_string());

    let with_key = Client::with_key("123abc");
    let headers = with_key.get_headers();
    assert_eq!(headers.get("Authorization").unwrap(), "123abc".to_string());
    assert_eq!(headers.get("Accept").unwrap(), "application/json".to_string());
}

#[test]
fn executor_defaults() {
    let executor = Executor::new();

    assert_eq!(executor.language, String::new());
    assert_eq!(executor.version, "*".to_string());
    assert!(executor.files.is_empty());
    assert_eq!(executor.stdin, String::new());
    assert!(executor.args.is_empty());
    assert_eq!(executor.compile_timeout, 10000);
    assert_eq!(executor.run_timeout, 3000);
    assert_eq!(executor.compile_memory_limit, -1);
    assert_eq!(executor.run_memory_limit, -1);

    let by_default = Executor::default();
    assert_eq!(by_default.version, "*".to_string());
}

#[test]
fn executor_reset_restores_defaults() {
    let mut executor = Executor::new()
        .set_language("rust")
        .set_version("1.50.0")
        .add_arg("--verbose")
        .set_run_timeout(1500);

    assert_eq!(executor.language, "rust".to_string());

    executor.reset();

    assert_eq!(executor.language, String::new());
    assert_eq!(executor.version, "*".to_string());
    assert!(executor.files.is_empty());
    assert!(executor.args.is_empty());
    assert_eq!(executor.compile_timeout, 10000);
    assert_eq!(executor.run_timeout, 3000);
    assert_eq!(executor.compile_memory_limit, -1);
    assert_eq!(executor.run_memory_limit, -1);
}

#[test]
fn language_is_lowercased() {
    let executor = Executor::new().set_language("Rust");

    assert_eq!(executor.language, "rust".to_string());

    let executor = executor.set_language("PYTHON");
    assert_eq!(executor.language, "python".to_string());
}

#[test]
fn add_file_appends_in_order() {
    let first = File::default().set_name("one.rs");
    let second = File::default().set_name("two.rs");

    let executor = Executor::new().add_file(first.clone()).add_file(second.clone());

    assert_eq!(executor.files.len(), 2);
    assert_eq!(executor.files[0].name, "one.rs".to_string());
    assert_eq!(executor.files[1].name, "two.rs".to_string());
}

#[test]
fn add_files_appends_without_discarding() {
    let first = File::default().set_name("one.rs");
    let more = vec![
        File::default().set_name("two.rs"),
        File::default().set_name("three.rs"),
    ];

    let executor = Executor::new().add_file(first).add_files(more);

    assert_eq!(executor.files.len(), 3);
    assert_eq!(executor.files[0].name, "one.rs".to_string());
    assert_eq!(executor.files[1].name, "two.rs".to_string());
    assert_eq!(executor.files[2].name, "three.rs".to_string());
}

#[test]
fn set_files_discards_prior_files() {
    let old_file = File::default().set_name("old_file.rs");

    let mut executor = Executor::new().add_file(old_file.clone());

    assert_eq!(executor.files.len(), 1);
    assert_eq!(executor.files[0].name, "old_file.rs".to_string());

    let new_files = vec![
        File::default().set_name("new_file1.rs"),
        File::default().set_name("new_file2.rs"),
    ];

    executor.set_files(new_files.clone());

    assert_eq!(executor.files.len(), 2);
    assert_eq!(executor.files[0].name, "new_file1.rs".to_string());
    assert_eq!(executor.files[1].name, "new_file2.rs".to_string());
    assert_eq!(executor.files, new_files);
}

#[test]
fn args_append_and_replace() {
    let mut executor = Executor::new().add_arg("--verbose");

    assert_eq!(executor.args.len(), 1);
    assert_eq!(executor.args[0], "--verbose".to_string());

    let executor2 = executor.clone().add_args(vec!["commit", "-S"]);
    assert_eq!(executor2.args.len(), 3);
    assert_eq!(executor2.args[0], "--verbose".to_string());
    assert_eq!(executor2.args[1], "commit".to_string());
    assert_eq!(executor2.args[2], "-S".to_string());

    executor.set_args(vec!["commit", "-S"]);
    assert_eq!(executor.args.len(), 2);
    assert_eq!(executor.args[0], "commit".to_string());
    assert_eq!(executor.args[1], "-S".to_string());
}

#[test]
fn scalar_setters_store_their_values() {
    let executor = Executor::new()
        .set_version("1.50.0")
        .set_stdin("Fearless concurrency")
        .set_compile_timeout(5000)
        .set_run_timeout(1500)
        .set_compile_memory_limit(100_000_000)
        .set_run_memory_limit(200_000_000);

    assert_eq!(executor.version, "1.50.0".to_string());
    assert_eq!(executor.stdin, "Fearless concurrency".to_string());
    assert_eq!(executor.compile_timeout, 5000);
    assert_eq!(executor.run_timeout, 1500);
    assert_eq!(executor.compile_memory_limit, 100_000_000);
    assert_eq!(executor.run_memory_limit, 200_000_000);
}

#[test]
fn response_success_composition() {
    let ok = generate_result("fine", "", 0);
    let failed = generate_result("", "broken", 1);

    let compile_failed = ExecResponse {
        language: "rust".to_string(),
        version: "1.50.0".to_string(),
        run: ok.clone(),
        compile: Some(failed.clone()),
        message: None,
    };
    assert!(!compile_failed.is_ok());
    assert!(compile_failed.is_err());

    let no_compile_ok = ExecResponse {
        language: "python".to_string(),
        version: "3.10".to_string(),
        run: ok.clone(),
        compile: None,
        message: None,
    };
    assert!(no_compile_ok.is_ok());
    assert!(!no_compile_ok.is_err());

    let no_compile_failed = ExecResponse {
        language: "python".to_string(),
        version: "3.10".to_string(),
        run: failed.clone(),
        compile: None,
        message: None,
    };
    assert!(!no_compile_failed.is_ok());
    assert!(no_compile_failed.is_err());

    let both_ok = ExecResponse {
        language: "rust".to_string(),
        version: "1.50.0".to_string(),
        run: ok,
        compile: Some(generate_result("", "", 0)),
        message: None,
    };
    assert!(both_ok.is_ok());
}

#[test]
fn outcome_success_ignores_stdout() {
    let failed_with_stdout = generate_result("printed a lot", "", 3);
    assert!(!failed_with_stdout.is_ok());
    assert!(failed_with_stdout.is_err());

    let ok_with_stderr = generate_result("", "warning: unused", 0);
    assert!(ok_with_stderr.is_ok());
    assert!(!ok_with_stderr.is_err());
}

#[test]
fn catalog_refresh_replaces() {
    let mut client = Client::new();
    assert!(client.get_runtimes().is_empty());

    let first = vec![
        Runtime {
            language: "rust".to_string(),
            version: "1.50.0".to_string(),
            aliases: vec!["rs".to_string()],
        },
        Runtime {
            language: "python".to_string(),
            version: "3.10".to_string(),
            aliases: vec![],
        },
    ];
    client.store_runtimes(first);
    assert_eq!(client.get_runtimes().len(), 2);

    let second = vec![Runtime {
        language: "python".to_string(),
        version: "3.11".to_string(),
        aliases: vec!["py".to_string()],
    }];
    client.store_runtimes(second);

    assert_eq!(client.get_runtimes().len(), 1);
    assert_eq!(client.get_runtimes()[0].language, "python".to_string());
    assert_eq!(client.get_runtimes()[0].version, "3.11".to_string());
}

#[test]
fn load_error_carries_details() {
    let e = LoadError::new("err");

    assert_eq!(e.details, "err".to_string());

    let e2 = e.clone();
    assert_eq!(e.details, e2.details);
}

#[test]
fn file_construction_and_setters() {
    let file = File::default();
    assert_eq!(file.name, String::new());
    assert_eq!(file.content, String::new());
    assert_eq!(file.encoding, "utf8".to_string());

    let file = File::new("script.sh", "ZWNobyBIZWxsbywgV29ybGQh", "base64");
    assert!(file.content.contains("ZWNobyBIZWxsbywgV29ybGQh"));
    assert_eq!(file.name, "script.sh".to_string());
    assert_eq!(file.encoding, "base64".to_string());

    let file = File::default()
        .set_name("__main__.py")
        .set_content("print(\"Hello, world!\")")
        .set_encoding("hex");
    assert_eq!(file.name, "__main__.py".to_string());
    assert_eq!(file.content, "print(\"Hello, world!\")".to_string());
    assert_eq!(file.encoding, "hex".to_string());
}
