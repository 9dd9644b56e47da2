//! Tests for dangerous-command validation (pattern matching only; nothing
//! is ever executed).

use agentsh::process::clamp_timeout;
use agentsh::validator::{
    is_dangerous_chmod_chown, is_dangerous_rm, split_subcommands, validate_command,
};

#[test]
fn test_clamp_timeout_enforces_ceiling() {
    assert_eq!(clamp_timeout(Some(100)), Some(100));
    assert_eq!(clamp_timeout(Some(3600)), Some(3600));
    assert_eq!(clamp_timeout(Some(999999)), Some(3600));
    assert_eq!(clamp_timeout(None), None);
}

#[test]
fn test_block_rm_rf_root() {
    assert!(validate_command("rm -rf /").is_err());
    assert!(validate_command("rm -rf /*").is_err());
    assert!(validate_command("rm -Rf /").is_err());
    assert!(validate_command("rm -fr /").is_err());
    assert!(validate_command("rm --recursive --force /").is_err());
}

#[test]
fn test_block_rm_rf_system_paths() {
    assert!(validate_command("rm -rf /usr").is_err());
    assert!(validate_command("rm -rf /etc").is_err());
    assert!(validate_command("rm -rf /bin").is_err());
    assert!(validate_command("rm -rf /home").is_err());
    assert!(validate_command("rm -rf /var").is_err());
    assert!(validate_command("rm -rf /boot").is_err());
    assert!(validate_command("rm -rf /lib").is_err());
    assert!(validate_command("rm -rf /opt").is_err());
    assert!(validate_command("rm -rf /System").is_err());
    assert!(validate_command("rm -rf /Applications").is_err());
    assert!(validate_command("rm -rf /Users").is_err());
}

#[test]
fn test_block_rm_rf_with_sudo() {
    assert!(validate_command("sudo rm -rf /").is_err());
    assert!(validate_command("sudo rm -rf /usr").is_err());
}

#[test]
fn test_block_rm_rf_in_chain() {
    assert!(validate_command("echo hi && rm -rf /").is_err());
    assert!(validate_command("rm -rf /; echo done").is_err());
    assert!(validate_command("true || rm -rf /usr").is_err());
}

#[test]
fn test_allow_safe_rm_commands() {
    assert!(validate_command("rm -rf ./build").is_ok());
    assert!(validate_command("rm -rf /tmp/mytest").is_ok());
    assert!(validate_command("rm -rf target/").is_ok());
    assert!(validate_command("rm file.txt").is_ok());
    assert!(validate_command("rm -r ./node_modules").is_ok());
}

#[test]
fn test_block_mkfs() {
    assert!(validate_command("mkfs.ext4 /dev/sda1").is_err());
    assert!(validate_command("mkfs -t ext4 /dev/sda").is_err());
}

#[test]
fn test_block_dd_to_device() {
    assert!(validate_command("dd if=/dev/zero of=/dev/sda").is_err());
    assert!(validate_command("dd if=/dev/urandom of=/dev/nvme0n1").is_err());
}

#[test]
fn test_allow_safe_dd() {
    assert!(validate_command("dd if=/dev/zero of=/tmp/test.img bs=1M count=10").is_ok());
}

#[test]
fn test_block_fork_bomb() {
    assert!(validate_command(":(){ :|:& };:").is_err());
}

#[test]
fn test_block_shutdown_reboot() {
    assert!(validate_command("shutdown -h now").is_err());
    assert!(validate_command("reboot").is_err());
    assert!(validate_command("halt").is_err());
    assert!(validate_command("poweroff").is_err());
    assert!(validate_command("init 0").is_err());
    assert!(validate_command("init 6").is_err());
}

#[test]
fn test_block_chmod_chown_on_system_paths() {
    assert!(validate_command("chmod -R 777 /").is_err());
    assert!(validate_command("chmod -R 777 /usr").is_err());
    assert!(validate_command("chown -R nobody /").is_err());
    assert!(validate_command("chown -R nobody /etc").is_err());
}

#[test]
fn test_allow_safe_chmod_chown() {
    assert!(validate_command("chmod -R 755 ./dist").is_ok());
    assert!(validate_command("chown -R user:group ./project").is_ok());
    assert!(validate_command("chmod 644 file.txt").is_ok());
}

#[test]
fn test_block_device_redirect() {
    assert!(validate_command("echo x > /dev/sda").is_err());
    assert!(validate_command("cat file > /dev/nvme0n1").is_err());
}

// ---------------------------------------------------------------------------
// Rejection messages and each pattern kind
// ---------------------------------------------------------------------------

#[test]
fn test_blocked_message_starts_with_blocked() {
    let e = validate_command("rm -rf /").unwrap_err();
    assert!(e.starts_with("blocked:"));
    let e = validate_command("reboot").unwrap_err();
    assert!(e.starts_with("blocked:"));
}

#[test]
fn test_pattern_messages_name_the_pattern() {
    let e = validate_command(":(){ :|:& };:").unwrap_err();
    assert_eq!(e, "blocked: command matches dangerous pattern (fork bomb): :(){ :|:& };:");
    let e = validate_command("mkfs -t ext4 /dev/sda").unwrap_err();
    assert_eq!(
        e,
        "blocked: command matches dangerous pattern (filesystem format (mkfs)): mkfs -t ext4 /dev/sda"
    );
    let e = validate_command("dd if=/dev/zero of=/dev/sda").unwrap_err();
    assert_eq!(
        e,
        "blocked: command matches dangerous pattern (raw write to block device (dd of=/dev/...)): dd if=/dev/zero of=/dev/sda"
    );
    let e = validate_command("echo x > /dev/sda").unwrap_err();
    assert_eq!(
        e,
        "blocked: command matches dangerous pattern (redirect to block device): echo x > /dev/sda"
    );
    let e = validate_command("shutdown -h now").unwrap_err();
    assert_eq!(
        e,
        "blocked: command matches dangerous pattern (system shutdown/reboot): shutdown -h now"
    );
    let e = validate_command("init 6").unwrap_err();
    assert_eq!(
        e,
        "blocked: command matches dangerous pattern (system halt/reboot via init): init 6"
    );
}

#[test]
fn test_destructive_messages_name_the_subcommand() {
    let e = validate_command("echo hi && rm -rf /").unwrap_err();
    assert_eq!(e, "blocked: recursive delete targeting a protected system path: rm -rf /");
    let e = validate_command("chmod -R 777 /usr").unwrap_err();
    assert_eq!(e, "blocked: recursive chmod on a protected system path: chmod -R 777 /usr");
    let e = validate_command("chown -R nobody /etc").unwrap_err();
    assert_eq!(e, "blocked: recursive chown on a protected system path: chown -R nobody /etc");
}

#[test]
fn test_allow_plain_commands() {
    assert!(validate_command("echo hello_world").is_ok());
    assert!(validate_command("ls -la && git status").is_ok());
    assert!(validate_command("").is_ok());
}

#[test]
fn test_wildcard_root_is_rm_only() {
    // rm treats the literal /* as a protected target.
    assert!(validate_command("rm -rf /*").is_err());
    // The trailing-slash form is not the literal /*.
    assert!(validate_command("rm -rf /*/").is_ok());
    // For chmod and chown, /* names no protected path.
    assert!(validate_command("chmod -R 777 /*").is_ok());
    assert!(validate_command("chown -R nobody /*").is_ok());
    assert!(!is_dangerous_chmod_chown("chmod -R 777 /*", "chmod"));
}

#[test]
fn test_trailing_slash_still_protected() {
    assert!(validate_command("rm -rf /usr/").is_err());
    assert!(validate_command("chmod -R 700 /etc/").is_err());
}

#[test]
fn test_split_subcommands_separators() {
    let parts = split_subcommands("a && b || c; d");
    assert_eq!(parts, vec!["a ", " b ", " c", " d"]);
    let parts = split_subcommands("just one");
    assert_eq!(parts, vec!["just one"]);
    let parts = split_subcommands("");
    assert!(parts.is_empty());
}

#[test]
fn test_is_dangerous_rm_direct() {
    assert!(is_dangerous_rm("rm -rf /"));
    assert!(is_dangerous_rm("env FOO=1 rm -r /var"));
    assert!(!is_dangerous_rm("rm -rf ./work"));
    assert!(!is_dangerous_rm("rm /etc"));
    assert!(!is_dangerous_rm("echo rm"));
}

#[test]
fn test_is_dangerous_chmod_chown_direct() {
    assert!(is_dangerous_chmod_chown("chmod -R 777 /", "chmod"));
    assert!(is_dangerous_chmod_chown("chown --recursive me /home", "chown"));
    // chmod's recursive flag is the capital R alone.
    assert!(!is_dangerous_chmod_chown("chmod -r 777 /", "chmod"));
    assert!(!is_dangerous_chmod_chown("chmod 777 /", "chmod"));
}
