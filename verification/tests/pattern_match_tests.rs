//! Differential tests: the crate's hand-written matchers against the same
//! patterns run through a regular-expression engine, over corpora of plain
//! ASCII commands and terminal output.

use agentsh::ansi::strip_ansi;
use agentsh::output::extract_errors;
use agentsh::validator::validate_command;
use regex::Regex;

fn command_corpus() -> Vec<String> {
    let mut corpus: Vec<String> = vec![
        "rm -rf /".to_string(),
        "rm -rf /*".to_string(),
        "rm -Rf /".to_string(),
        "rm -fr /usr".to_string(),
        "rm --recursive --force /var".to_string(),
        "sudo rm -rf /etc".to_string(),
        "echo hi && rm -rf /".to_string(),
        "true || rm -rf /opt; echo done".to_string(),
        "rm -rf ./build".to_string(),
        "rm -rf /tmp/mytest".to_string(),
        "rm file.txt".to_string(),
        "mkfs.ext4 /dev/sda1".to_string(),
        "mkfs -t ext4 /dev/sda".to_string(),
        "remkfs nothing".to_string(),
        "dd if=/dev/zero of=/dev/sda".to_string(),
        "dd if=/dev/zero of=/tmp/img".to_string(),
        "ddof=/dev/sda".to_string(),
        "dd\nof=/dev/sda".to_string(),
        "echo x > /dev/sda".to_string(),
        "echo x >    /dev/nvme0n1".to_string(),
        "echo x > /dev/null".to_string(),
        "cat > /dev/mapper/vg0".to_string(),
        "shutdown -h now".to_string(),
        "reboot".to_string(),
        "halt".to_string(),
        "poweroff".to_string(),
        "preboot test".to_string(),
        "shalt".to_string(),
        "init 0".to_string(),
        "init 6".to_string(),
        "init  0".to_string(),
        "init 5".to_string(),
        "init 06".to_string(),
        "reinit 0".to_string(),
        ":(){ :|:& };:".to_string(),
        ":() { :|: & } ;:".to_string(),
        ":(){ :|:& }:".to_string(),
        ":()\n{ :|:& };".to_string(),
        "chmod -R 777 /".to_string(),
        "chmod -r 777 /".to_string(),
        "chown -R nobody /etc".to_string(),
        "chown --recursive me /home/".to_string(),
        "git status && cargo build".to_string(),
        "echo hello_world".to_string(),
        "".to_string(),
    ];
    // A few generated combinations.
    for tool in ["rm", "chmod", "chown"] {
        for flag in ["-R", "-rf", "--recursive", "-x", ""] {
            for path in ["/", "/usr", "/usr/", "./safe", "/unprotected"] {
                corpus.push(format!("{tool} {flag} {path}"));
            }
        }
    }
    corpus
}

/// The dangerous-pattern part of validation agrees with the same patterns
/// run through a regular-expression engine. (The protected-path check is
/// token-based, not a regex, so commands it rejects are skipped for the
/// comparison of safe commands.)
#[test]
fn test_dangerous_patterns_agree_with_regex_engine() {
    let patterns = [
        r":\(\)\s*\{.*\|.*&\s*\}\s*;",
        r"\bmkfs\b",
        r"\bdd\b.*\bof=/dev/",
        r">\s*/dev/(sd|nvme|hd|vd|xvd|disk|mapper/)",
        r"\b(shutdown|reboot|halt|poweroff)\b",
        r"\binit\s+[06]\b",
    ];
    let compiled: Vec<Regex> = patterns.iter().map(|p| Regex::new(p).unwrap()).collect();
    for cmd in command_corpus() {
        let regex_hit = compiled.iter().any(|re| re.is_match(&cmd));
        let verdict = validate_command(&cmd);
        if regex_hit {
            assert!(
                verdict.is_err(),
                "regex engine flags {cmd:?} but validation accepted it"
            );
        } else if verdict.is_err() {
            // Only the token-based protected-path check may reject here.
            let msg = verdict.unwrap_err();
            assert!(
                !msg.contains("dangerous pattern"),
                "validation flagged {cmd:?} as a pattern match but the regex engine did not"
            );
        }
    }
}

fn output_corpus() -> Vec<String> {
    vec![
        "error: something broke".to_string(),
        "Error at line 3".to_string(),
        "ERRORS everywhere".to_string(),
        "no terror here".to_string(),
        "build failed".to_string(),
        "FAILURE".to_string(),
        "fatal: repository gone".to_string(),
        "panic!".to_string(),
        "Exception: oops".to_string(),
        "Traceback (most recent call last):".to_string(),
        "FAIL fail Fail".to_string(),
        "access denied".to_string(),
        "operation aborted".to_string(),
        "all fine".to_string(),
        "prefab failure_mode".to_string(),
        "_fail_".to_string(),
        "a.fail.b".to_string(),
        "".to_string(),
    ]
}

/// Error-line extraction agrees with its word patterns run through a
/// regular-expression engine.
#[test]
fn test_error_patterns_agree_with_regex_engine() {
    let patterns = [
        r"(?i)\berror\b",
        r"(?i)\bfailed\b",
        r"(?i)\bfailure\b",
        r"(?i)\bfatal\b",
        r"(?i)\bpanic\b",
        r"(?i)\bexception\b",
        r"(?i)\btraceback\b",
        r"(?i)\bFAIL\b",
        r"(?i)\bdenied\b",
        r"(?i)\baborted\b",
    ];
    let compiled: Vec<Regex> = patterns.iter().map(|p| Regex::new(p).unwrap()).collect();
    let corpus = output_corpus();
    let expected: Vec<String> = corpus
        .iter()
        .filter(|line| compiled.iter().any(|re| re.is_match(line)))
        .cloned()
        .collect();
    assert_eq!(extract_errors(&corpus), expected);
}

fn ansi_corpus() -> Vec<String> {
    vec![
        "\u{1b}[31mred\u{1b}[0m".to_string(),
        "\u{1b}[1;32;44mstyled\u{1b}[m".to_string(),
        "\u{1b}[?25lhidden cursor\u{1b}[?25h".to_string(),
        "\u{1b}]0;window title\u{7}body".to_string(),
        "\u{1b}]0;no bel end".to_string(),
        "\u{1b}(Bascii\u{1b})0alt".to_string(),
        "\u{1b}Mreverse index".to_string(),
        "bo\u{8}old te\u{8}ext".to_string(),
        "\u{8}leading backspace".to_string(),
        "\u{1b}[incomplete".to_string(),
        "\u{1b}[\u{1b}[AmX".to_string(),
        "\u{1b}".to_string(),
        "a\u{8}\u{8}b".to_string(),
        "newline\n\u{8}after".to_string(),
        "plain text".to_string(),
        "".to_string(),
    ]
}

/// The ANSI stripper agrees with its own grammar written as one pattern
/// and run through a regular-expression engine.
#[test]
fn test_strip_ansi_agrees_with_regex_engine() {
    let re = Regex::new(
        r"\x1b\[[0-9;?<=>!]*[a-zA-Z~]|\x1b\][^\x07]*\x07|\x1b[()][0-9A-B]|\x1b[a-zA-Z]|.\x08",
    )
    .unwrap();
    for raw in ansi_corpus() {
        let expected = re.replace_all(&raw, "").to_string();
        assert_eq!(strip_ansi(&raw), expected, "on input {raw:?}");
    }
}
