//! The errors of `sshx`, each with a stable code, a title and a hint.

use vstd::prelude::*;

use crate::text::{dec, dec_signed, join_strings, join_with, push_dec, push_dec_i32, push_str};

verus! {

/// Every error `sshx` reports. Paths are held as text.
#[derive(Debug)]
pub enum SshxError {
    ConfigFileNotFound { path: String },
    ConfigFileUnreadable { path: String, reason: String },
    AnnotationParseError { file: String, line: usize, raw: String },
    UnknownAnnotationKey { file: String, line: usize, key: String },
    DuplicateAlias { alias: String, host1: String, host2: String },
    HostNotFound { input: String },
    AliasAmbiguous { input: String, matches: Vec<String> },
    RequiresHostNotFound { host: String, requires: String },
    CircularRequires { host: String },
    TunnelSpawnFailed { jump_host: String, reason: String },
    TunnelPortBusy { port: u16 },
    TunnelTimeout { jump_host: String, timeout_s: u64 },
    TunnelDiedEarly { jump_host: String, exit_code: Option<i32> },
    SshpassNotFound,
    SshNotFound,
    SshCommandFailed { exit_code: Option<i32> },
    ClipboardUnavailable { reason: String },
    ConfigWriteFailed { path: String, reason: String },
    HostAlreadyExists { name: String },
    InvalidHostName { name: String },
    InvalidPort { input: String },
    SshxConfigParseFailed { path: String, reason: String },
    SshxConfigWriteFailed { path: String, reason: String },
}

/// Model of an error: the same variants, with texts as sequences.
pub enum ErrorView {
    ConfigFileNotFound { path: Seq<char> },
    ConfigFileUnreadable { path: Seq<char>, reason: Seq<char> },
    AnnotationParseError { file: Seq<char>, line: usize, raw: Seq<char> },
    UnknownAnnotationKey { file: Seq<char>, line: usize, key: Seq<char> },
    DuplicateAlias { alias: Seq<char>, host1: Seq<char>, host2: Seq<char> },
    HostNotFound { input: Seq<char> },
    AliasAmbiguous { input: Seq<char>, matches: Seq<Seq<char>> },
    RequiresHostNotFound { host: Seq<char>, requires: Seq<char> },
    CircularRequires { host: Seq<char> },
    TunnelSpawnFailed { jump_host: Seq<char>, reason: Seq<char> },
    TunnelPortBusy { port: u16 },
    TunnelTimeout { jump_host: Seq<char>, timeout_s: u64 },
    TunnelDiedEarly { jump_host: Seq<char>, exit_code: Option<i32> },
    SshpassNotFound,
    SshNotFound,
    SshCommandFailed { exit_code: Option<i32> },
    ClipboardUnavailable { reason: Seq<char> },
    ConfigWriteFailed { path: Seq<char>, reason: Seq<char> },
    HostAlreadyExists { name: Seq<char> },
    InvalidHostName { name: Seq<char> },
    InvalidPort { input: Seq<char> },
    SshxConfigParseFailed { path: Seq<char>, reason: Seq<char> },
    SshxConfigWriteFailed { path: Seq<char>, reason: Seq<char> },
}

impl View for SshxError {
    type V = ErrorView;

    open spec fn view(&self) -> ErrorView {
        match self {
            SshxError::ConfigFileNotFound { path } => ErrorView::ConfigFileNotFound { path: path@ },
            SshxError::ConfigFileUnreadable { path, reason } => ErrorView::ConfigFileUnreadable {
                path: path@,
                reason: reason@,
            },
            SshxError::AnnotationParseError { file, line, raw } => ErrorView::AnnotationParseError {
                file: file@,
                line: *line,
                raw: raw@,
            },
            SshxError::UnknownAnnotationKey { file, line, key } => ErrorView::UnknownAnnotationKey {
                file: file@,
                line: *line,
                key: key@,
            },
            SshxError::DuplicateAlias { alias, host1, host2 } => ErrorView::DuplicateAlias {
                alias: alias@,
                host1: host1@,
                host2: host2@,
            },
            SshxError::HostNotFound { input } => ErrorView::HostNotFound { input: input@ },
            SshxError::AliasAmbiguous { input, matches } => ErrorView::AliasAmbiguous {
                input: input@,
                matches: matches@.map_values(|m: String| m@),
            },
            SshxError::RequiresHostNotFound { host, requires } => ErrorView::RequiresHostNotFound {
                host: host@,
                requires: requires@,
            },
            SshxError::CircularRequires { host } => ErrorView::CircularRequires { host: host@ },
            SshxError::TunnelSpawnFailed { jump_host, reason } => ErrorView::TunnelSpawnFailed {
                jump_host: jump_host@,
                reason: reason@,
            },
            SshxError::TunnelPortBusy { port } => ErrorView::TunnelPortBusy { port: *port },
            SshxError::TunnelTimeout { jump_host, timeout_s } => ErrorView::TunnelTimeout {
                jump_host: jump_host@,
                timeout_s: *timeout_s,
            },
            SshxError::TunnelDiedEarly { jump_host, exit_code } => ErrorView::TunnelDiedEarly {
                jump_host: jump_host@,
                exit_code: *exit_code,
            },
            SshxError::SshpassNotFound => ErrorView::SshpassNotFound,
            SshxError::SshNotFound => ErrorView::SshNotFound,
            SshxError::SshCommandFailed { exit_code } => ErrorView::SshCommandFailed {
                exit_code: *exit_code,
            },
            SshxError::ClipboardUnavailable { reason } => ErrorView::ClipboardUnavailable {
                reason: reason@,
            },
            SshxError::ConfigWriteFailed { path, reason } => ErrorView::ConfigWriteFailed {
                path: path@,
                reason: reason@,
            },
            SshxError::HostAlreadyExists { name } => ErrorView::HostAlreadyExists { name: name@ },
            SshxError::InvalidHostName { name } => ErrorView::InvalidHostName { name: name@ },
            SshxError::InvalidPort { input } => ErrorView::InvalidPort { input: input@ },
            SshxError::SshxConfigParseFailed { path, reason } => ErrorView::SshxConfigParseFailed {
                path: path@,
                reason: reason@,
            },
            SshxError::SshxConfigWriteFailed { path, reason } => ErrorView::SshxConfigWriteFailed {
                path: path@,
                reason: reason@,
            },
        }
    }
}

} // verus!

verus! {

/// The stable code of each error.
pub open spec fn error_code(e: ErrorView) -> Seq<char> {
    match e {
        ErrorView::ConfigFileNotFound { .. } => "E001"@,
        ErrorView::ConfigFileUnreadable { .. } => "E002"@,
        ErrorView::AnnotationParseError { .. } => "E003"@,
        ErrorView::UnknownAnnotationKey { .. } => "E004"@,
        ErrorView::DuplicateAlias { .. } => "E005"@,
        ErrorView::HostNotFound { .. } => "E010"@,
        ErrorView::AliasAmbiguous { .. } => "E011"@,
        ErrorView::RequiresHostNotFound { .. } => "E012"@,
        ErrorView::CircularRequires { .. } => "E013"@,
        ErrorView::TunnelSpawnFailed { .. } => "E020"@,
        ErrorView::TunnelPortBusy { .. } => "E021"@,
        ErrorView::TunnelTimeout { .. } => "E022"@,
        ErrorView::TunnelDiedEarly { .. } => "E023"@,
        ErrorView::SshpassNotFound => "E030"@,
        ErrorView::SshNotFound => "E031"@,
        ErrorView::SshCommandFailed { .. } => "E032"@,
        ErrorView::ClipboardUnavailable { .. } => "E040"@,
        ErrorView::ConfigWriteFailed { .. } => "E050"@,
        ErrorView::HostAlreadyExists { .. } => "E051"@,
        ErrorView::InvalidHostName { .. } => "E052"@,
        ErrorView::InvalidPort { .. } => "E053"@,
        ErrorView::SshxConfigParseFailed { .. } => "E060"@,
        ErrorView::SshxConfigWriteFailed { .. } => "E061"@,
    }
}

/// The position of each variant in the list of variants.
pub open spec fn variant_index(e: ErrorView) -> nat {
    match e {
        ErrorView::ConfigFileNotFound { .. } => 0,
        ErrorView::ConfigFileUnreadable { .. } => 1,
        ErrorView::AnnotationParseError { .. } => 2,
        ErrorView::UnknownAnnotationKey { .. } => 3,
        ErrorView::DuplicateAlias { .. } => 4,
        ErrorView::HostNotFound { .. } => 5,
        ErrorView::AliasAmbiguous { .. } => 6,
        ErrorView::RequiresHostNotFound { .. } => 7,
        ErrorView::CircularRequires { .. } => 8,
        ErrorView::TunnelSpawnFailed { .. } => 9,
        ErrorView::TunnelPortBusy { .. } => 10,
        ErrorView::TunnelTimeout { .. } => 11,
        ErrorView::TunnelDiedEarly { .. } => 12,
        ErrorView::SshpassNotFound => 13,
        ErrorView::SshNotFound => 14,
        ErrorView::SshCommandFailed { .. } => 15,
        ErrorView::ClipboardUnavailable { .. } => 16,
        ErrorView::ConfigWriteFailed { .. } => 17,
        ErrorView::HostAlreadyExists { .. } => 18,
        ErrorView::InvalidHostName { .. } => 19,
        ErrorView::InvalidPort { .. } => 20,
        ErrorView::SshxConfigParseFailed { .. } => 21,
        ErrorView::SshxConfigWriteFailed { .. } => 22,
    }
}

/// The hint shown with each error.
pub open spec fn error_hint(e: ErrorView) -> Seq<char> {
    match e {
        ErrorView::ConfigFileNotFound { .. } => "Create the SSH config file or use --config PATH to specify a custom location"@,
        ErrorView::ConfigFileUnreadable { .. } => "Check file permissions and ensure the file exists"@,
        ErrorView::AnnotationParseError { .. } => "Ensure annotation is in format: ## sshx: key = value"@,
        ErrorView::UnknownAnnotationKey { .. } => "Check for typos. Valid keys: group, password, requires, alias, background, description, after_connect"@,
        ErrorView::DuplicateAlias { .. } => "Remove one of the duplicate aliases from your SSH config"@,
        ErrorView::HostNotFound { .. } => "Check the host name or alias exists in your SSH config"@,
        ErrorView::AliasAmbiguous { .. } => "Use a more specific host name or alias"@,
        ErrorView::RequiresHostNotFound { .. } => "Add the required jump host to your SSH config first"@,
        ErrorView::CircularRequires { .. } => "Remove the circular requires dependency in your SSH config"@,
        ErrorView::TunnelSpawnFailed { .. } => "Check that the jump host is reachable and SSH keys are configured"@,
        ErrorView::TunnelPortBusy { .. } => "Choose a different local port or stop the process using the current port"@,
        ErrorView::TunnelTimeout { .. } => "Check that the host is reachable and the tunnel port is not blocked"@,
        ErrorView::TunnelDiedEarly { .. } => "Check SSH connection to the jump host and verify credentials"@,
        ErrorView::SshpassNotFound => "Install sshpass: brew install hudochenkov/sshpass/sshpass or apt install sshpass"@,
        ErrorView::SshNotFound => "Install OpenSSH client"@,
        ErrorView::SshCommandFailed { .. } => "Verify SSH connection and credentials"@,
        ErrorView::ClipboardUnavailable { .. } => "Use --no-clipboard flag to print the command instead"@,
        ErrorView::ConfigWriteFailed { .. } => "Check file permissions and disk space"@,
        ErrorView::HostAlreadyExists { .. } => "Choose a different host name or edit the existing host"@,
        ErrorView::InvalidHostName { .. } => "Host names must not contain spaces or special characters"@,
        ErrorView::InvalidPort { .. } => "Port must be a number between 1 and 65535"@,
        ErrorView::SshxConfigParseFailed { .. } => "Fix the TOML syntax in your SSHX config file"@,
        ErrorView::SshxConfigWriteFailed { .. } => "Check file permissions and disk space"@,
    }
}

impl SshxError {
    /// The stable code of the error, `E` and three digits.
    pub fn code(&self) -> (r: &'static str)
        ensures
            r@ == error_code(self@),
    {
        match self {
            SshxError::ConfigFileNotFound { .. } => "E001",
            SshxError::ConfigFileUnreadable { .. } => "E002",
            SshxError::AnnotationParseError { .. } => "E003",
            SshxError::UnknownAnnotationKey { .. } => "E004",
            SshxError::DuplicateAlias { .. } => "E005",
            SshxError::HostNotFound { .. } => "E010",
            SshxError::AliasAmbiguous { .. } => "E011",
            SshxError::RequiresHostNotFound { .. } => "E012",
            SshxError::CircularRequires { .. } => "E013",
            SshxError::TunnelSpawnFailed { .. } => "E020",
            SshxError::TunnelPortBusy { .. } => "E021",
            SshxError::TunnelTimeout { .. } => "E022",
            SshxError::TunnelDiedEarly { .. } => "E023",
            SshxError::SshpassNotFound => "E030",
            SshxError::SshNotFound => "E031",
            SshxError::SshCommandFailed { .. } => "E032",
            SshxError::ClipboardUnavailable { .. } => "E040",
            SshxError::ConfigWriteFailed { .. } => "E050",
            SshxError::HostAlreadyExists { .. } => "E051",
            SshxError::InvalidHostName { .. } => "E052",
            SshxError::InvalidPort { .. } => "E053",
            SshxError::SshxConfigParseFailed { .. } => "E060",
            SshxError::SshxConfigWriteFailed { .. } => "E061",
        }
    }

    /// What to do about the error.
    pub fn hint(&self) -> (r: &'static str)
        ensures
            r@ == error_hint(self@),
    {
        match self {
            SshxError::ConfigFileNotFound { .. } => "Create the SSH config file or use --config PATH to specify a custom location",
            SshxError::ConfigFileUnreadable { .. } => "Check file permissions and ensure the file exists",
            SshxError::AnnotationParseError { .. } => "Ensure annotation is in format: ## sshx: key = value",
            SshxError::UnknownAnnotationKey { .. } => "Check for typos. Valid keys: group, password, requires, alias, background, description, after_connect",
            SshxError::DuplicateAlias { .. } => "Remove one of the duplicate aliases from your SSH config",
            SshxError::HostNotFound { .. } => "Check the host name or alias exists in your SSH config",
            SshxError::AliasAmbiguous { .. } => "Use a more specific host name or alias",
            SshxError::RequiresHostNotFound { .. } => "Add the required jump host to your SSH config first",
            SshxError::CircularRequires { .. } => "Remove the circular requires dependency in your SSH config",
            SshxError::TunnelSpawnFailed { .. } => "Check that the jump host is reachable and SSH keys are configured",
            SshxError::TunnelPortBusy { .. } => "Choose a different local port or stop the process using the current port",
            SshxError::TunnelTimeout { .. } => "Check that the host is reachable and the tunnel port is not blocked",
            SshxError::TunnelDiedEarly { .. } => "Check SSH connection to the jump host and verify credentials",
            SshxError::SshpassNotFound => "Install sshpass: brew install hudochenkov/sshpass/sshpass or apt install sshpass",
            SshxError::SshNotFound => "Install OpenSSH client",
            SshxError::SshCommandFailed { .. } => "Verify SSH connection and credentials",
            SshxError::ClipboardUnavailable { .. } => "Use --no-clipboard flag to print the command instead",
            SshxError::ConfigWriteFailed { .. } => "Check file permissions and disk space",
            SshxError::HostAlreadyExists { .. } => "Choose a different host name or edit the existing host",
            SshxError::InvalidHostName { .. } => "Host names must not contain spaces or special characters",
            SshxError::InvalidPort { .. } => "Port must be a number between 1 and 65535",
            SshxError::SshxConfigParseFailed { .. } => "Fix the TOML syntax in your SSHX config file",
            SshxError::SshxConfigWriteFailed { .. } => "Check file permissions and disk space",
        }
    }
}

/// Law: every error has a code of four characters, `E` and three decimal
/// digits.
pub proof fn law_codes_are_well_formed(e: ErrorView)
    ensures
        error_code(e).len() == 4,
        error_code(e)[0] == 'E',
        forall|i: int| 1 <= i < 4 ==> '0' <= #[trigger] error_code(e)[i] <= '9',
{
    reveal_strlit("E001");
    reveal_strlit("E002");
    reveal_strlit("E003");
    reveal_strlit("E004");
    reveal_strlit("E005");
    reveal_strlit("E010");
    reveal_strlit("E011");
    reveal_strlit("E012");
    reveal_strlit("E013");
    reveal_strlit("E020");
    reveal_strlit("E021");
    reveal_strlit("E022");
    reveal_strlit("E023");
    reveal_strlit("E030");
    reveal_strlit("E031");
    reveal_strlit("E032");
    reveal_strlit("E040");
    reveal_strlit("E050");
    reveal_strlit("E051");
    reveal_strlit("E052");
    reveal_strlit("E053");
    reveal_strlit("E060");
    reveal_strlit("E061");
}

/// The keys an annotation may have, in the order the hint lists them.
pub open spec fn annotation_keys() -> Seq<Seq<char>> {
    seq!["group"@, "password"@, "requires"@, "alias"@, "background"@, "description"@, "after_connect"@]
}

/// Law: every error has a hint, never empty, and the hint depends on the
/// kind of error alone, not on the values it carries; the hint for an
/// unknown annotation key lists exactly the keys an annotation may have.
pub proof fn law_hints(a: ErrorView, b: ErrorView)
    ensures
        error_hint(a).len() > 0,
        variant_index(a) == variant_index(b) ==> error_hint(a) == error_hint(b),
        a is UnknownAnnotationKey ==> error_hint(a) == "Check for typos. Valid keys: "@ + join_with(
            annotation_keys(),
            ", "@,
        ),
{
    reveal_strlit("Create the SSH config file or use --config PATH to specify a custom location");
    reveal_strlit("Check file permissions and ensure the file exists");
    reveal_strlit("Ensure annotation is in format: ## sshx: key = value");
    reveal_strlit("Check for typos. Valid keys: group, password, requires, alias, background, description, after_connect");
    reveal_strlit("Remove one of the duplicate aliases from your SSH config");
    reveal_strlit("Check the host name or alias exists in your SSH config");
    reveal_strlit("Use a more specific host name or alias");
    reveal_strlit("Add the required jump host to your SSH config first");
    reveal_strlit("Remove the circular requires dependency in your SSH config");
    reveal_strlit("Check that the jump host is reachable and SSH keys are configured");
    reveal_strlit("Choose a different local port or stop the process using the current port");
    reveal_strlit("Check that the host is reachable and the tunnel port is not blocked");
    reveal_strlit("Check SSH connection to the jump host and verify credentials");
    reveal_strlit("Install sshpass: brew install hudochenkov/sshpass/sshpass or apt install sshpass");
    reveal_strlit("Install OpenSSH client");
    reveal_strlit("Verify SSH connection and credentials");
    reveal_strlit("Use --no-clipboard flag to print the command instead");
    reveal_strlit("Check file permissions and disk space");
    reveal_strlit("Choose a different host name or edit the existing host");
    reveal_strlit("Host names must not contain spaces or special characters");
    reveal_strlit("Port must be a number between 1 and 65535");
    reveal_strlit("Fix the TOML syntax in your SSHX config file");
    reveal_strlit("group");
    reveal_strlit("password");
    reveal_strlit("requires");
    reveal_strlit("alias");
    reveal_strlit("background");
    reveal_strlit("description");
    reveal_strlit("after_connect");
    reveal_strlit("Check for typos. Valid keys: ");
    reveal_strlit(", ");
    let ks = annotation_keys();
    let p1 = seq!["group"@];
    let p2 = seq!["group"@, "password"@];
    let p3 = seq!["group"@, "password"@, "requires"@];
    let p4 = seq!["group"@, "password"@, "requires"@, "alias"@];
    let p5 = seq!["group"@, "password"@, "requires"@, "alias"@, "background"@];
    let p6 = seq!["group"@, "password"@, "requires"@, "alias"@, "background"@, "description"@];
    let p7 = seq!["group"@, "password"@, "requires"@, "alias"@, "background"@, "description"@, "after_connect"@];
    assert(p7 =~= ks);
    assert(join_with(p1, ", "@) == "group"@);
    assert(p2.drop_last() =~= p1);
    assert(p2.last() == "password"@);
    assert(join_with(p2, ", "@) == "group"@ + ", "@ + "password"@);
    assert(p3.drop_last() =~= p2);
    assert(p3.last() == "requires"@);
    assert(join_with(p3, ", "@) == "group"@ + ", "@ + "password"@ + ", "@ + "requires"@);
    assert(p4.drop_last() =~= p3);
    assert(p4.last() == "alias"@);
    assert(join_with(p4, ", "@) == "group"@ + ", "@ + "password"@ + ", "@ + "requires"@ + ", "@ + "alias"@);
    assert(p5.drop_last() =~= p4);
    assert(p5.last() == "background"@);
    assert(join_with(p5, ", "@) == "group"@ + ", "@ + "password"@ + ", "@ + "requires"@ + ", "@ + "alias"@ + ", "@ + "background"@);
    assert(p6.drop_last() =~= p5);
    assert(p6.last() == "description"@);
    assert(join_with(p6, ", "@) == "group"@ + ", "@ + "password"@ + ", "@ + "requires"@ + ", "@ + "alias"@ + ", "@ + "background"@ + ", "@ + "description"@);
    assert(p7.drop_last() =~= p6);
    assert(p7.last() == "after_connect"@);
    assert(join_with(p7, ", "@) == "group"@ + ", "@ + "password"@ + ", "@ + "requires"@ + ", "@ + "alias"@ + ", "@ + "background"@ + ", "@ + "description"@ + ", "@ + "after_connect"@);
    assert("Check for typos. Valid keys: "@ + join_with(ks, ", "@) =~= "Check for typos. Valid keys: group, password, requires, alias, background, description, after_connect"@);
}

/// Law: errors of different kinds have different codes.
pub proof fn law_codes_are_distinct(a: ErrorView, b: ErrorView)
    requires
        variant_index(a) != variant_index(b),
    ensures
        error_code(a) != error_code(b),
{
    reveal_strlit("E001");
    reveal_strlit("E002");
    reveal_strlit("E003");
    reveal_strlit("E004");
    reveal_strlit("E005");
    reveal_strlit("E010");
    reveal_strlit("E011");
    reveal_strlit("E012");
    reveal_strlit("E013");
    reveal_strlit("E020");
    reveal_strlit("E021");
    reveal_strlit("E022");
    reveal_strlit("E023");
    reveal_strlit("E030");
    reveal_strlit("E031");
    reveal_strlit("E032");
    reveal_strlit("E040");
    reveal_strlit("E050");
    reveal_strlit("E051");
    reveal_strlit("E052");
    reveal_strlit("E053");
    reveal_strlit("E060");
    reveal_strlit("E061");
    let ca = error_code(a);
    let cb = error_code(b);
    assert(ca[1] != cb[1] || ca[2] != cb[2] || ca[3] != cb[3]);
}

} // verus!

verus! {

/// `{:?}` of an optional exit code.
pub open spec fn debug_exit_code(c: Option<i32>) -> Seq<char> {
    match c {
        Some(x) => "Some("@ + dec_signed(x as int) + ")"@,
        None => "None"@,
    }
}

/// The list of matches, joined by commas.
pub open spec fn matches_text(m: Seq<Seq<char>>) -> Seq<char> {
    join_with(m, ", "@)
}

/// The one-line title of each error, with its values.
pub open spec fn error_title(e: ErrorView) -> Seq<char> {
    match e {
        ErrorView::ConfigFileNotFound { path } => "SSH config file not found: "@ + path,
        ErrorView::ConfigFileUnreadable { path, reason } => "SSH config file unreadable: "@ + path
            + " \u{2014} "@ + reason,
        ErrorView::AnnotationParseError { file, line, raw } => "Annotation parse error in "@ + file
            + ":"@ + dec(line as nat) + ": `"@ + raw + "`"@,
        ErrorView::UnknownAnnotationKey { file, line, key } => "Unknown annotation key `"@ + key
            + "` in "@ + file + ":"@ + dec(line as nat),
        ErrorView::DuplicateAlias { alias, host1, host2 } => "Duplicate alias `"@ + alias
            + "` used by both "@ + host1 + " and "@ + host2,
        ErrorView::HostNotFound { input } => "Host not found: "@ + input,
        ErrorView::AliasAmbiguous { input, matches } => "Alias ambiguous: `"@ + input
            + "` matches ["@ + matches_text(matches) + "]"@,
        ErrorView::RequiresHostNotFound { host, requires } => "Required host not found: `"@
            + requires + "` required by "@ + host,
        ErrorView::CircularRequires { host } => "Circular requires dependency: "@ + host,
        ErrorView::TunnelSpawnFailed { jump_host, reason } => "Tunnel spawn failed: "@ + jump_host
            + " \u{2014} "@ + reason,
        ErrorView::TunnelPortBusy { port } => "Tunnel port "@ + dec(port as nat)
            + " is already in use"@,
        ErrorView::TunnelTimeout { jump_host, timeout_s } => "Tunnel timeout \u{2014} "@ + jump_host
            + " did not become ready in "@ + dec(timeout_s as nat) + "s"@,
        ErrorView::TunnelDiedEarly { jump_host, exit_code } => "Tunnel died early: "@ + jump_host
            + " (exit code: "@ + debug_exit_code(exit_code) + ")"@,
        ErrorView::SshpassNotFound => "sshpass not found in PATH"@,
        ErrorView::SshNotFound => "ssh not found in PATH"@,
        ErrorView::SshCommandFailed { exit_code } => "SSH command failed (exit code: "@
            + debug_exit_code(exit_code) + ")"@,
        ErrorView::ClipboardUnavailable { reason } => "Clipboard unavailable: "@ + reason,
        ErrorView::ConfigWriteFailed { path, reason } => "Config write failed: "@ + path
            + " \u{2014} "@ + reason,
        ErrorView::HostAlreadyExists { name } => "Host already exists: "@ + name,
        ErrorView::InvalidHostName { name } => "Invalid host name: "@ + name,
        ErrorView::InvalidPort { input } => "Invalid port: "@ + input,
        ErrorView::SshxConfigParseFailed { path, reason } => "SSHX config parse failed: "@ + path
            + " \u{2014} "@ + reason,
        ErrorView::SshxConfigWriteFailed { path, reason } => "SSHX config write failed: "@ + path
            + " \u{2014} "@ + reason,
    }
}

/// The label of the context line of each error, if it has one.
pub open spec fn error_context_label(e: ErrorView) -> Option<Seq<char>> {
    match e {
        ErrorView::ConfigFileNotFound { .. } => Some("Path"@),
        ErrorView::ConfigFileUnreadable { .. } => Some("Path"@),
        ErrorView::AnnotationParseError { .. } => Some("File"@),
        ErrorView::UnknownAnnotationKey { .. } => Some("File"@),
        ErrorView::DuplicateAlias { .. } => Some("Alias"@),
        ErrorView::HostNotFound { .. } => Some("Input"@),
        ErrorView::AliasAmbiguous { .. } => Some("Input"@),
        ErrorView::RequiresHostNotFound { .. } => Some("Host"@),
        ErrorView::CircularRequires { .. } => Some("Host"@),
        ErrorView::TunnelSpawnFailed { .. } => Some("Host"@),
        ErrorView::TunnelPortBusy { .. } => Some("Port"@),
        ErrorView::TunnelTimeout { .. } => Some("Host"@),
        ErrorView::TunnelDiedEarly { .. } => Some("Host"@),
        ErrorView::SshpassNotFound => None,
        ErrorView::SshNotFound => None,
        ErrorView::SshCommandFailed { .. } => Some("Exit code"@),
        ErrorView::ClipboardUnavailable { .. } => Some("Reason"@),
        ErrorView::ConfigWriteFailed { .. } => Some("Path"@),
        ErrorView::HostAlreadyExists { .. } => Some("Name"@),
        ErrorView::InvalidHostName { .. } => Some("Name"@),
        ErrorView::InvalidPort { .. } => Some("Input"@),
        ErrorView::SshxConfigParseFailed { .. } => Some("Path"@),
        ErrorView::SshxConfigWriteFailed { .. } => Some("Path"@),
    }
}

/// The value of the context line of each error, if it has one.
pub open spec fn error_context_value(e: ErrorView) -> Option<Seq<char>> {
    match e {
        ErrorView::ConfigFileNotFound { path } => Some(path),
        ErrorView::ConfigFileUnreadable { path, .. } => Some(path),
        ErrorView::AnnotationParseError { file, line, .. } => Some(file + ":"@ + dec(line as nat)),
        ErrorView::UnknownAnnotationKey { file, line, .. } => Some(file + ":"@ + dec(line as nat)),
        ErrorView::DuplicateAlias { alias, .. } => Some(alias),
        ErrorView::HostNotFound { input } => Some(input),
        ErrorView::AliasAmbiguous { input, matches } => Some(
            input + " (matches: "@ + matches_text(matches) + ")"@,
        ),
        ErrorView::RequiresHostNotFound { host, .. } => Some(host),
        ErrorView::CircularRequires { host } => Some(host),
        ErrorView::TunnelSpawnFailed { jump_host, .. } => Some(jump_host),
        ErrorView::TunnelPortBusy { port } => Some(dec(port as nat)),
        ErrorView::TunnelTimeout { jump_host, .. } => Some(jump_host),
        ErrorView::TunnelDiedEarly { jump_host, .. } => Some(jump_host),
        ErrorView::SshpassNotFound => None,
        ErrorView::SshNotFound => None,
        ErrorView::SshCommandFailed { exit_code } => Some(debug_exit_code(exit_code)),
        ErrorView::ClipboardUnavailable { reason } => Some(reason),
        ErrorView::ConfigWriteFailed { path, .. } => Some(path),
        ErrorView::HostAlreadyExists { name } => Some(name),
        ErrorView::InvalidHostName { name } => Some(name),
        ErrorView::InvalidPort { input } => Some(input),
        ErrorView::SshxConfigParseFailed { path, .. } => Some(path),
        ErrorView::SshxConfigWriteFailed { path, .. } => Some(path),
    }
}

/// The full rendering of an error, given the rendered failure mark and
/// code: `MARK [CODE] TITLE`, then `  LABEL:    VALUE` when the error has
/// a context, then `  Hint:    HINT`.
pub open spec fn error_display(e: ErrorView, mark: Seq<char>, code: Seq<char>) -> Seq<char> {
    let head = mark + " ["@ + code + "] "@ + error_title(e);
    match error_context_label(e) {
        Some(l) => head + "\n  "@ + l + ":    "@ + error_context_value(e)->Some_0 + "\n  Hint:    "@
            + error_hint(e),
        None => head + "\n  Hint:    "@ + error_hint(e),
    }
}

/// Appends `{:?}` of an optional exit code.
fn push_exit_code(s: &mut String, c: Option<i32>)
    ensures
        final(s)@ == old(s)@ + debug_exit_code(c),
{
    match c {
        Some(x) => {
            push_str(s, "Some(");
            push_dec_i32(s, x);
            push_str(s, ")");
        },
        None => {
            push_str(s, "None");
        },
    }
}

/// A text that starts as `lit`.
fn lit_text(lit: &str) -> (r: String)
    ensures
        r@ == lit@,
{
    lit.to_owned()
}

/// Appends `a` then `b`.
fn push2(s: &mut String, a: &str, b: &str)
    ensures
        final(s)@ == old(s)@ + a@ + b@,
{
    push_str(s, a);
    push_str(s, b);
}

impl SshxError {
    /// The one-line title of the error.
    pub fn title(&self) -> (r: String)
        ensures
            r@ == error_title(self@),
    {
        let ghost e = self@;
        let r = match self {
            SshxError::ConfigFileNotFound { path } => {
                let mut s = lit_text("SSH config file not found: ");
                push_str(&mut s, path.as_str());
                s
            },
            SshxError::ConfigFileUnreadable { path, reason } => {
                let mut s = lit_text("SSH config file unreadable: ");
                push2(&mut s, path.as_str(), " \u{2014} ");
                push_str(&mut s, reason.as_str());
                s
            },
            SshxError::AnnotationParseError { file, line, raw } => {
                let mut s = lit_text("Annotation parse error in ");
                push2(&mut s, file.as_str(), ":");
                push_dec(&mut s, *line as u64);
                push2(&mut s, ": `", raw.as_str());
                push_str(&mut s, "`");
                s
            },
            SshxError::UnknownAnnotationKey { file, line, key } => {
                let mut s = lit_text("Unknown annotation key `");
                push2(&mut s, key.as_str(), "` in ");
                push2(&mut s, file.as_str(), ":");
                push_dec(&mut s, *line as u64);
                s
            },
            SshxError::DuplicateAlias { alias, host1, host2 } => {
                let mut s = lit_text("Duplicate alias `");
                push2(&mut s, alias.as_str(), "` used by both ");
                push2(&mut s, host1.as_str(), " and ");
                push_str(&mut s, host2.as_str());
                s
            },
            SshxError::HostNotFound { input } => {
                let mut s = lit_text("Host not found: ");
                push_str(&mut s, input.as_str());
                s
            },
            SshxError::AliasAmbiguous { input, matches } => {
                let mut s = lit_text("Alias ambiguous: `");
                push2(&mut s, input.as_str(), "` matches [");
                let m = join_strings(matches, ", ");
                push2(&mut s, m.as_str(), "]");
                s
            },
            SshxError::RequiresHostNotFound { host, requires: req } => {
                let mut s = lit_text("Required host not found: `");
                push2(&mut s, req.as_str(), "` required by ");
                push_str(&mut s, host.as_str());
                s
            },
            SshxError::CircularRequires { host } => {
                let mut s = lit_text("Circular requires dependency: ");
                push_str(&mut s, host.as_str());
                s
            },
            SshxError::TunnelSpawnFailed { jump_host, reason } => {
                let mut s = lit_text("Tunnel spawn failed: ");
                push2(&mut s, jump_host.as_str(), " \u{2014} ");
                push_str(&mut s, reason.as_str());
                s
            },
            SshxError::TunnelPortBusy { port } => {
                let mut s = lit_text("Tunnel port ");
                push_dec(&mut s, *port as u64);
                push_str(&mut s, " is already in use");
                s
            },
            SshxError::TunnelTimeout { jump_host, timeout_s } => {
                let mut s = lit_text("Tunnel timeout \u{2014} ");
                push2(&mut s, jump_host.as_str(), " did not become ready in ");
                push_dec(&mut s, *timeout_s);
                push_str(&mut s, "s");
                s
            },
            SshxError::TunnelDiedEarly { jump_host, exit_code } => {
                let mut s = lit_text("Tunnel died early: ");
                push2(&mut s, jump_host.as_str(), " (exit code: ");
                push_exit_code(&mut s, *exit_code);
                push_str(&mut s, ")");
                s
            },
            SshxError::SshpassNotFound => lit_text("sshpass not found in PATH"),
            SshxError::SshNotFound => lit_text("ssh not found in PATH"),
            SshxError::SshCommandFailed { exit_code } => {
                let mut s = lit_text("SSH command failed (exit code: ");
                push_exit_code(&mut s, *exit_code);
                push_str(&mut s, ")");
                s
            },
            SshxError::ClipboardUnavailable { reason } => {
                let mut s = lit_text("Clipboard unavailable: ");
                push_str(&mut s, reason.as_str());
                s
            },
            SshxError::ConfigWriteFailed { path, reason } => {
                let mut s = lit_text("Config write failed: ");
                push2(&mut s, path.as_str(), " \u{2014} ");
                push_str(&mut s, reason.as_str());
                s
            },
            SshxError::HostAlreadyExists { name } => {
                let mut s = lit_text("Host already exists: ");
                push_str(&mut s, name.as_str());
                s
            },
            SshxError::InvalidHostName { name } => {
                let mut s = lit_text("Invalid host name: ");
                push_str(&mut s, name.as_str());
                s
            },
            SshxError::InvalidPort { input } => {
                let mut s = lit_text("Invalid port: ");
                push_str(&mut s, input.as_str());
                s
            },
            SshxError::SshxConfigParseFailed { path, reason } => {
                let mut s = lit_text("SSHX config parse failed: ");
                push2(&mut s, path.as_str(), " \u{2014} ");
                push_str(&mut s, reason.as_str());
                s
            },
            SshxError::SshxConfigWriteFailed { path, reason } => {
                let mut s = lit_text("SSHX config write failed: ");
                push2(&mut s, path.as_str(), " \u{2014} ");
                push_str(&mut s, reason.as_str());
                s
            },
        };
        assert(r@ =~= error_title(e));
        r
    }

    /// The label of the context line, if the error has one.
    pub fn context_label(&self) -> (r: Option<&'static str>)
        ensures
            match error_context_label(self@) {
                Some(l) => r matches Some(x) && x@ == l,
                None => r is None,
            },
    {
        match self {
            SshxError::ConfigFileNotFound { .. } => Some("Path"),
            SshxError::ConfigFileUnreadable { .. } => Some("Path"),
            SshxError::AnnotationParseError { .. } => Some("File"),
            SshxError::UnknownAnnotationKey { .. } => Some("File"),
            SshxError::DuplicateAlias { .. } => Some("Alias"),
            SshxError::HostNotFound { .. } => Some("Input"),
            SshxError::AliasAmbiguous { .. } => Some("Input"),
            SshxError::RequiresHostNotFound { .. } => Some("Host"),
            SshxError::CircularRequires { .. } => Some("Host"),
            SshxError::TunnelSpawnFailed { .. } => Some("Host"),
            SshxError::TunnelPortBusy { .. } => Some("Port"),
            SshxError::TunnelTimeout { .. } => Some("Host"),
            SshxError::TunnelDiedEarly { .. } => Some("Host"),
            SshxError::SshpassNotFound => None,
            SshxError::SshNotFound => None,
            SshxError::SshCommandFailed { .. } => Some("Exit code"),
            SshxError::ClipboardUnavailable { .. } => Some("Reason"),
            SshxError::ConfigWriteFailed { .. } => Some("Path"),
            SshxError::HostAlreadyExists { .. } => Some("Name"),
            SshxError::InvalidHostName { .. } => Some("Name"),
            SshxError::InvalidPort { .. } => Some("Input"),
            SshxError::SshxConfigParseFailed { .. } => Some("Path"),
            SshxError::SshxConfigWriteFailed { .. } => Some("Path"),
        }
    }

    /// The value of the context line, if the error has one.
    pub fn context_value(&self) -> (r: Option<String>)
        ensures
            r.deep_view() == error_context_value(self@),
    {
        let ghost e = self@;
        match self {
            SshxError::ConfigFileNotFound { path } => Some(path.clone()),
            SshxError::ConfigFileUnreadable { path, .. } => Some(path.clone()),
            SshxError::AnnotationParseError { file, line, .. } => {
                let mut s = file.clone();
                push_str(&mut s, ":");
                push_dec(&mut s, *line as u64);
                Some(s)
            },
            SshxError::UnknownAnnotationKey { file, line, .. } => {
                let mut s = file.clone();
                push_str(&mut s, ":");
                push_dec(&mut s, *line as u64);
                Some(s)
            },
            SshxError::DuplicateAlias { alias, .. } => Some(alias.clone()),
            SshxError::HostNotFound { input } => Some(input.clone()),
            SshxError::AliasAmbiguous { input, matches } => {
                let mut s = input.clone();
                push_str(&mut s, " (matches: ");
                let m = join_strings(matches, ", ");
                push2(&mut s, m.as_str(), ")");
                assert(s@ =~= input@ + " (matches: "@ + matches_text(matches@.map_values(
                    |m: String| m@,
                )) + ")"@);
                Some(s)
            },
            SshxError::RequiresHostNotFound { host, .. } => Some(host.clone()),
            SshxError::CircularRequires { host } => Some(host.clone()),
            SshxError::TunnelSpawnFailed { jump_host, .. } => Some(jump_host.clone()),
            SshxError::TunnelPortBusy { port } => {
                let mut s = String::new();
                push_dec(&mut s, *port as u64);
                assert(s@ =~= dec(*port as nat));
                Some(s)
            },
            SshxError::TunnelTimeout { jump_host, .. } => Some(jump_host.clone()),
            SshxError::TunnelDiedEarly { jump_host, .. } => Some(jump_host.clone()),
            SshxError::SshpassNotFound => None,
            SshxError::SshNotFound => None,
            SshxError::SshCommandFailed { exit_code } => {
                let mut s = String::new();
                push_exit_code(&mut s, *exit_code);
                assert(s@ =~= debug_exit_code(*exit_code));
                Some(s)
            },
            SshxError::ClipboardUnavailable { reason } => Some(reason.clone()),
            SshxError::ConfigWriteFailed { path, .. } => Some(path.clone()),
            SshxError::HostAlreadyExists { name } => Some(name.clone()),
            SshxError::InvalidHostName { name } => Some(name.clone()),
            SshxError::InvalidPort { input } => Some(input.clone()),
            SshxError::SshxConfigParseFailed { path, .. } => Some(path.clone()),
            SshxError::SshxConfigWriteFailed { path, .. } => Some(path.clone()),
        }
    }

    /// The full rendering of the error around a given failure mark and
    /// rendered code.
    pub fn display_with(&self, mark: &str, code: &str) -> (r: String)
        ensures
            r@ == error_display(self@, mark@, code@),
    {
        let title = self.title();
        let hint = self.hint();
        let mut s = lit_text(mark);
        push2(&mut s, " [", code);
        push2(&mut s, "] ", title.as_str());
        match (self.context_label(), self.context_value()) {
            (Some(label), Some(value)) => {
                push2(&mut s, "\n  ", label);
                push2(&mut s, ":    ", value.as_str());
                push2(&mut s, "\n  Hint:    ", hint);
            },
            (None, None) => {
                push2(&mut s, "\n  Hint:    ", hint);
            },
            _ => {
                proof {
                    assert(false);
                }
            },
        }
        assert(s@ =~= error_display(self@, mark@, code@));
        s
    }

    /// The full rendering of the error: a red failure mark, the code in
    /// bold, the title, the context line if any, and the hint.
    pub fn display_full(&self) -> (r: String)
        ensures
            exists|mark: Seq<char>, code: Seq<char>|
                plain_or_styled(mark, "\u{2717}"@, "\x1b[31m"@) && plain_or_styled(code, error_code(self@), "\x1b[1m"@)
                    && r@ == error_display(self@, mark, code),
    {
        let mark = style_red("\u{2717}");
        let code = style_bold(self.code());
        let r = self.display_with(mark.as_str(), code.as_str());
        assert(plain_or_styled(mark@, "\u{2717}"@, "\x1b[31m"@) && plain_or_styled(code@, error_code(self@), "\x1b[1m"@)
            && r@ == error_display(self@, mark@, code@));
        r
    }
}

/// A text as `console` renders it with one style: as it is when colours
/// are off, else between the style's opening sequence and the reset
/// sequence `ESC[0m`.
pub open spec fn plain_or_styled(r: Seq<char>, text: Seq<char>, open: Seq<char>) -> bool {
    r == text || r == open + text + "\x1b[0m"@
}

/// `console::style(text).red()`, rendered. Whether colours are on depends
/// on the terminal and the environment, so either outcome is allowed: the
/// text alone, or the text between `ESC[31m` and `ESC[0m`.
#[verifier::external_body]
fn style_red(text: &str) -> (r: String)
    ensures
        plain_or_styled(r@, text@, "\x1b[31m"@),
{
    console::style(text).red().to_string()
}

/// `console::style(text).bold()`, rendered. Whether colours are on depends
/// on the terminal and the environment, so either outcome is allowed: the
/// text alone, or the text between `ESC[1m` and `ESC[0m`.
#[verifier::external_body]
fn style_bold(text: &str) -> (r: String)
    ensures
        plain_or_styled(r@, text@, "\x1b[1m"@),
{
    console::style(text).bold().to_string()
}

} // verus!
