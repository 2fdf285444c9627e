use lean_mcp_server::error::LeanToolError;
use lean_mcp_server::models::BuildResult;
use lean_mcp_server::protocol::{Call, Reply, Request, Turn};
use lean_mcp_server::tools::lake_build::handle_build;

fn output(success: bool, stdout: &str, stderr: &str) -> Reply {
    Reply::Command {
        success,
        code: Some(if success { 0 } else { 1 }),
        stdout: stdout.to_string(),
        stderr: stderr.to_string(),
    }
}

/// Builds with a `lake` that answers each subcommand as told, and tells which
/// subcommands it was asked for.
fn build(
    clean: bool,
    output_lines: usize,
    lake: fn(&str) -> Reply,
) -> (Result<BuildResult, LeanToolError>, Vec<String>) {
    let mut turn = handle_build(clean, output_lines);
    let mut asked = vec![];
    loop {
        match turn {
            Turn::Ask(Request::RunCommand { program, args }, call) => {
                assert_eq!(program, "lake");
                let reply = lake(&args[0]);
                asked.push(args.join(" "));
                assert!(call.accepts(&reply));
                turn = call.resume(reply);
            }
            Turn::Ask(other, _) => panic!("unexpected request: {other:?}"),
            Turn::Done(outcome) => return (outcome, asked),
        }
    }
}

#[test]
fn build_fetches_the_cache_first() {
    let (result, asked) = build(false, 20, |command| match command {
        "exe" => output(true, "cached", ""),
        _ => output(true, "[1/2] A\n[2/2] B", "warning: unused"),
    });
    let result = result.unwrap();
    assert!(result.success);
    assert_eq!(result.output, "cached\n[1/2] A\n[2/2] B\nwarning: unused");
    assert!(result.errors.is_empty());
    assert_eq!(asked, vec!["exe cache get", "build --verbose"]);
}

#[test]
fn build_cleans_where_asked_to() {
    let (result, asked) = build(true, 1, |_| output(true, "a\nb", ""));
    assert_eq!(result.unwrap().output, "b");
    assert_eq!(asked, vec!["clean", "exe cache get", "build --verbose"]);
}

#[test]
fn build_stops_where_cleaning_fails() {
    let (result, asked) = build(true, 20, |_| output(false, "", "locked"));
    let result = result.unwrap();
    assert!(!result.success);
    assert_eq!(result.output, "locked");
    assert_eq!(result.errors, vec!["lake clean failed: locked"]);
    assert_eq!(asked, vec!["clean"]);
}

#[test]
fn build_goes_on_without_a_cache() {
    let (result, _) = build(false, 20, |command| match command {
        "exe" => Reply::Failed("not found".to_string()),
        _ => output(true, "done", ""),
    });
    assert_eq!(
        result.unwrap().output,
        "cache get warning: Failed to run `lake`: not found\ndone"
    );
}

#[test]
fn build_collects_errors() {
    let (result, _) = build(false, 0, |command| match command {
        "exe" => output(true, "", ""),
        _ => output(false, "ok\n  Error: bad  ", ""),
    });
    let result = result.unwrap();
    assert!(!result.success);
    assert_eq!(result.output, "");
    assert_eq!(result.errors, vec!["Error: bad"]);
}

#[test]
fn build_without_lake() {
    let (result, _) = build(true, 20, |_| Reply::Failed("not found".to_string()));
    assert_eq!(
        result.unwrap_err(),
        LeanToolError::Other("Failed to run `lake`: not found".to_string())
    );
}
