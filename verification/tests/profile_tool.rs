use lean_mcp_server::error::LeanToolError;
use lean_mcp_server::protocol::{Call, Reply, Request, Turn};
use lean_mcp_server::tools::profile::{handle_profile_proof, ProofTimes};

const SOURCE: &str = "import Mathlib\n\ntheorem foo (n : Nat) : n = n := by\n  intro\n  rfl\n";

const OUTPUT: &str = "\
[Elab.definition.value] [0.100000] foo
  [Elab.step] [0.060000] intro
  [Elab.step] [0.030000] rfl
cumulative profiling times:
\tsimp 12ms
\timport 300ms
\ttype checking 1.5s
";

/// A disk with one file, and a profiler.
struct Bench {
    run: fn() -> Reply,
    disk_full: bool,
    asked: Vec<Request>,
}

fn command(stdout: &str, stderr: &str) -> Reply {
    Reply::Command {
        success: true,
        code: Some(0),
        stdout: stdout.to_string(),
        stderr: stderr.to_string(),
    }
}

impl Bench {
    fn new(run: fn() -> Reply) -> Bench {
        Bench { run, disk_full: false, asked: vec![] }
    }

    fn reply(&self, q: &Request) -> Reply {
        match q {
            Request::ReadPath { path } if path == "/p/A.lean" => Reply::Text(SOURCE.to_string()),
            Request::ReadPath { .. } => Reply::Failed("No such file".to_string()),
            Request::WriteFile { .. } if self.disk_full => Reply::Failed("disk full".to_string()),
            Request::RunLimited { .. } => (self.run)(),
            _ => Reply::Done,
        }
    }

    /// Profiles the theorem at a line of a file.
    fn profile(&mut self, path: &str, line: u32) -> Result<ProofTimes, LeanToolError> {
        let mut turn = handle_profile_proof(path, line, 42, "30");
        loop {
            match turn {
                Turn::Ask(q, call) => {
                    let reply = self.reply(&q);
                    self.asked.push(q);
                    assert!(call.accepts(&reply));
                    turn = call.resume(reply);
                }
                Turn::Done(outcome) => return outcome,
            }
        }
    }

    /// Whether the temporary file is gone at the end.
    fn is_clean(&self) -> bool {
        let mut there = false;
        for q in &self.asked {
            match q {
                Request::WriteFile { .. } => there = true,
                Request::RemoveFile { path } => {
                    assert_eq!(path, ".lean_profile_42.lean");
                    there = false;
                }
                _ => {}
            }
        }
        !there
    }
}

#[test]
fn profile_lays_times_over_lines() {
    let mut bench = Bench::new(|| command("", OUTPUT));
    let times = bench.profile("/p/A.lean", 3).unwrap();
    assert_eq!(times.times.total_of, vec![0]);
    let lines: Vec<(i64, String, String)> = times
        .times
        .lines
        .iter()
        .map(|(line, step)| {
            assert!(times.text_fits(*line));
            (
                times.line_in_file(*line),
                times.text_at(*line),
                times.traces[*step].seconds.clone(),
            )
        })
        .collect();
    assert_eq!(
        lines,
        vec![
            (4, "intro".to_string(), "0.060000".to_string()),
            (5, "rfl".to_string(), "0.030000".to_string()),
        ]
    );
    let categories: Vec<&str> = times.categories.iter().map(|c| c.category.as_str()).collect();
    assert_eq!(categories, vec!["simp", "type checking"]);
    assert!(bench.is_clean());
}

#[test]
fn profile_runs_lean_on_the_theorem_alone() {
    let mut bench = Bench::new(|| command("", ""));
    bench.profile("/p/A.lean", 3).unwrap();
    assert_eq!(
        bench.asked[1],
        Request::WriteFile {
            path: ".lean_profile_42.lean".to_string(),
            content: "import Mathlib\n\n\ntheorem foo (n : Nat) : n = n := by\n  intro\n  rfl\n"
                .to_string(),
        }
    );
    assert_eq!(
        bench.asked[2],
        Request::RunLimited {
            program: "lake".to_string(),
            args: ["env", "lean", "--profile", "-Dtrace.profiler=true", "-Dtrace.profiler.threshold=0"]
                .iter()
                .map(|a| a.to_string())
                .collect(),
            file: ".lean_profile_42.lean".to_string(),
            seconds: "30".to_string(),
        }
    );
}

#[test]
fn profile_that_takes_too_long() {
    let mut bench = Bench::new(|| Reply::TimedOut);
    assert_eq!(
        bench.profile("/p/A.lean", 3).unwrap_err(),
        LeanToolError::LspTimeout("Profiling timed out after 30s".to_string())
    );
    assert!(bench.is_clean());
}

#[test]
fn profile_that_cannot_be_run() {
    let mut bench = Bench::new(|| Reply::Failed("not found".to_string()));
    assert_eq!(
        bench.profile("/p/A.lean", 3).unwrap_err(),
        LeanToolError::Other("Failed to run `lake env lean`: not found".to_string())
    );
    assert!(bench.is_clean());

    let mut bench = Bench::new(|| Reply::Interrupted("killed".to_string()));
    assert_eq!(
        bench.profile("/p/A.lean", 3).unwrap_err(),
        LeanToolError::Other("lean --profile failed: killed".to_string())
    );
    assert!(bench.is_clean());

    let mut bench = Bench::new(|| command("", ""));
    bench.disk_full = true;
    assert_eq!(
        bench.profile("/p/A.lean", 3).unwrap_err(),
        LeanToolError::Other("Failed to write temp file: disk full".to_string())
    );
}

#[test]
fn profile_needs_a_theorem() {
    let mut bench = Bench::new(|| command("", ""));
    assert_eq!(
        bench.profile("/p/B.lean", 3).unwrap_err(),
        LeanToolError::InvalidPath("/p/B.lean: No such file".to_string())
    );
    assert_eq!(
        bench.profile("/p/A.lean", 6).unwrap_err(),
        LeanToolError::LineOutOfRange { line: 6, total: 5 }
    );
    assert_eq!(
        bench.profile("/p/A.lean", 1).unwrap_err(),
        LeanToolError::Other("No theorem/lemma/def at line 1".to_string())
    );
    assert!(bench.is_clean());
}
