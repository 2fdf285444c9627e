use lean_mcp_server::json::Json;
use lean_mcp_server::models::SorryLocation;
use lean_mcp_server::protocol::{Call, Reply, Request, Turn};
use lean_mcp_server::tools::project_health::{
    complaints_in, count_files, find_sorry, handle_project_health, records, sorries_in,
};

/// A project whose files are searched line by line.
struct Project {
    files: Vec<(String, String)>,
    goals: Vec<String>,
    broken: bool,
    asked: Vec<Request>,
}

/// Whether a word stands in a line.
fn has_word(line: &str, word: &str) -> bool {
    line.split(|c: char| !(c.is_alphanumeric() || c == '_' || c == '#')).any(|w| w == word)
}

impl Project {
    fn new(files: &[(&str, &str)]) -> Project {
        Project {
            files: files.iter().map(|(p, c)| (p.to_string(), c.to_string())).collect(),
            goals: vec![],
            broken: false,
            asked: vec![],
        }
    }

    /// The Lean files, one a line.
    fn listing(&self) -> String {
        self.files
            .iter()
            .filter(|(p, _)| p.ends_with(".lean"))
            .map(|(p, _)| format!("{p}\n"))
            .collect()
    }

    /// The lines with a word, as records.
    fn lines_with(&self, word: &str) -> String {
        let mut out = String::new();
        for (path, content) in self.files.iter().filter(|(p, _)| p.ends_with(".lean")) {
            out.push_str(&format!(r#"{{"type":"begin","data":{{"path":{{"text":"{path}"}}}}}}"#));
            out.push('\n');
            for (i, line) in content.lines().enumerate() {
                let found = if word == "sorry" {
                    has_word(line, word)
                } else {
                    word.split('|').any(|w| line.contains(w))
                };
                if found {
                    out.push_str(&format!(
                        r#"{{"type":"match","data":{{"path":{{"text":"{path}"}},"lines":{{"text":"{line}\n"}},"line_number":{}}}}}"#,
                        i + 1
                    ));
                    out.push('\n');
                }
            }
        }
        out
    }

    fn count_lean_files(&self) -> u32 {
        count_files(&self.listing())
    }

    fn records(&self, word: &str) -> Vec<Json> {
        records(&self.lines_with(word))
    }

    fn find_sorries(&self) -> Vec<SorryLocation> {
        sorries_in(&self.records("sorry"))
    }

    fn find_error_patterns(&self) -> Vec<String> {
        complaints_in(&self.records("#check_failure|error"))
    }

    fn reply(&self, q: &Request) -> Reply {
        match q {
            Request::RunCommand { .. } if self.broken => {
                Reply::Failed("No such file or directory".to_string())
            }
            Request::RunCommand { program, args } => {
                assert_eq!(program, "rg");
                let stdout = if args.contains(&"--files".to_string()) {
                    self.listing()
                } else if args.contains(&r"\bsorry\b".to_string()) {
                    self.lines_with("sorry")
                } else {
                    self.lines_with(args.last().unwrap())
                };
                let found = !stdout.is_empty();
                Reply::Command {
                    success: found,
                    code: Some(if found { 0 } else { 1 }),
                    stdout,
                    stderr: String::new(),
                }
            }
            Request::FileContent { path } => {
                Reply::Text(self.files.iter().find(|(p, _)| p == path).unwrap().1.clone())
            }
            Request::Goal { .. } => Reply::Texts(self.goals.clone()),
            _ => Reply::Done,
        }
    }

    /// Plays a tool to its end.
    fn run<C: Call>(&mut self, turn: Turn<C, C::Out>) -> C::Out {
        let mut turn = turn;
        loop {
            match turn {
                Turn::Ask(q, call) => {
                    let reply = self.reply(&q);
                    self.asked.push(q);
                    assert!(call.accepts(&reply));
                    turn = call.resume(reply);
                }
                Turn::Done(outcome) => return outcome,
            }
        }
    }
}

#[test]
fn count_lean_files_finds_lean_files() {
    let dir = Project::new(&[
        ("Main.lean", "theorem foo : True := by trivial"),
        ("Lib.lean", "def x := 1"),
        ("README.md", "not a lean file"),
    ]);
    let count = dir.count_lean_files();
    assert_eq!(count, 2);
}

#[test]
fn count_lean_files_empty_project() {
    let dir = Project::new(&[("README.md", "no lean files")]);
    let count = dir.count_lean_files();
    assert_eq!(count, 0);
}

#[test]
fn find_sorries_detects_sorry() {
    let dir = Project::new(&[
        ("Main.lean", "theorem foo : True := by\n  sorry"),
        ("Lib.lean", "def x := 1"),
    ]);
    let sorries = dir.find_sorries();
    assert_eq!(sorries.len(), 1);
    assert_eq!(sorries[0].file, "Main.lean");
    assert_eq!(sorries[0].line, 2);
    assert_eq!(sorries[0].text, "sorry");
}

#[test]
fn find_sorries_skips_comments() {
    let dir = Project::new(&[(
        "Main.lean",
        "-- sorry this is a comment\ntheorem foo : True := by\n  sorry",
    )]);
    let sorries = dir.find_sorries();
    assert_eq!(sorries.len(), 1);
    assert_eq!(sorries[0].line, 3);
}

#[test]
fn find_sorries_no_matches() {
    let dir = Project::new(&[("Main.lean", "theorem foo : True := by trivial")]);
    let sorries = dir.find_sorries();
    assert!(sorries.is_empty());
}

#[test]
fn find_sorries_multiple_files() {
    let dir = Project::new(&[
        ("A.lean", "theorem a : True := sorry"),
        ("B.lean", "theorem b : True := sorry"),
    ]);
    let sorries = dir.find_sorries();
    assert_eq!(sorries.len(), 2);
}

#[test]
fn find_error_patterns_detects_check_failure() {
    let dir = Project::new(&[("Main.lean", "def x := 1\n#check_failure foo")]);
    let errors = dir.find_error_patterns();
    assert_eq!(errors.len(), 1);
    assert!(errors[0].contains("Main.lean"));
    assert!(errors[0].contains("#check_failure"));
}

#[test]
fn find_error_patterns_detects_errors() {
    let mut dir = Project::new(&[("Main.lean", "def x := 1\n-- error: broken\n")]);
    let expected = vec!["Main.lean:2: -- error: broken".to_string()];
    assert_eq!(dir.find_error_patterns(), expected);
    let result = dir.run(handle_project_health(false, false)).unwrap();
    assert_eq!(result.errors, expected);
}

#[test]
fn find_error_patterns_no_matches() {
    let dir = Project::new(&[("Main.lean", "def x := 1")]);
    let errors = dir.find_error_patterns();
    assert!(errors.is_empty());
}

#[test]
fn handle_project_health_no_lsp() {
    let mut dir = Project::new(&[
        ("Main.lean", "theorem foo : True := by\n  sorry"),
        ("Lib.lean", "def x := 1"),
    ]);
    let result = dir.run(handle_project_health(false, false)).unwrap();
    assert!(result.success);
    assert_eq!(result.file_count, 2);
    assert_eq!(result.sorries.len(), 1);
    assert!(result.errors.is_empty());
}

#[test]
fn handle_project_health_empty_project() {
    let mut dir = Project::new(&[("README.md", "nothing")]);
    let result = dir.run(handle_project_health(false, false)).unwrap();
    assert!(result.success);
    assert_eq!(result.file_count, 0);
    assert!(result.sorries.is_empty());
}

#[test]
fn find_sorries_word_boundary() {
    // "sorry" inside a string like "sorry_tactic" should NOT match
    // because we use \bsorry\b
    let dir = Project::new(&[("Main.lean", "def sorry_helper := 1\ndef x := sorry")]);
    let sorries = dir.find_sorries();
    // Only the standalone "sorry" should match, not "sorry_helper"
    assert_eq!(sorries.len(), 1);
    assert_eq!(sorries[0].line, 2);
}

#[test]
fn find_sorries_in_subdirectories() {
    let dir = Project::new(&[
        ("src/Main.lean", "theorem foo := sorry"),
        ("src/sub/Lib.lean", "theorem bar := sorry"),
    ]);
    let sorries = dir.find_sorries();
    assert_eq!(sorries.len(), 2);
}

#[test]
fn project_health_enriches_sorries_with_goals() {
    let mut dir = Project::new(&[("Main.lean", "theorem foo : True := by\n  sorry")]);
    dir.goals = vec!["|- True".to_string(), "|- False".to_string()];
    let result = dir.run(handle_project_health(true, true)).unwrap();
    assert_eq!(result.sorries.len(), 1);
    assert_eq!(result.sorries[0].goal, Some("|- True\n---\n|- False".to_string()));
    assert!(dir.asked.contains(&Request::Goal {
        path: "Main.lean".to_string(),
        line: 1,
        column: 2,
    }));
}

#[test]
fn project_health_needs_a_client_for_goals() {
    let mut dir = Project::new(&[("Main.lean", "theorem foo : True := by\n  sorry")]);
    dir.goals = vec!["|- True".to_string()];
    let result = dir.run(handle_project_health(false, true)).unwrap();
    assert_eq!(result.sorries[0].goal, None);
}

#[test]
fn project_health_without_ripgrep() {
    let mut dir = Project::new(&[]);
    dir.broken = true;
    let err = dir.run(handle_project_health(false, false)).unwrap_err();
    assert_eq!(err, "ripgrep not found or failed to run: No such file or directory");
}

#[test]
fn find_sorry_gives_its_column() {
    assert_eq!(find_sorry("a\n  sorry", 2), Some(2));
    assert_eq!(find_sorry("a\n  sorry", 1), None);
    assert_eq!(find_sorry("a\n  sorry", 3), None);
}
