//! The command line: options, commands and their errors.

use vstd::prelude::*;

use crate::number::{number_error, parse_usize, unsigned_value};
use crate::report::ProviderStatus;
use crate::text::{blank, is_blank, join, joined, opt_text, same, texts, trim, trimmed};

verus! {

/// How the program is used.
pub const HELP_TEXT: &'static str = "Codex API Tools CLI

Usage:
  codex-tools status
  codex-tools codex quit
  codex-tools provider status
  codex-tools provider repair [--name simplaj] [--no-sync]
  codex-tools provider sync [--provider NAME]
  codex-tools provider switch NAME
  codex-tools auth unlock
  codex-tools auth token [--provider NAME] [--key sk-...]
  codex-tools relay gpt [--provider NAME]
  codex-tools relay restore [--provider NAME]
  codex-tools quota [--json|--raw-json]
  codex-tools sessions list [--limit N] [--json] [--codex-home PATH]
  codex-tools cloud login [--email EMAIL] [--api-url URL] [--device NAME] [--key VALUE] [--invite-code CODE]
  codex-tools cloud status
  codex-tools cloud logout
  codex-tools cloud smoke
  codex-tools cloud push --all [--limit N] [--device NAME] [--codex-home PATH] [--force] [-n N]
  codex-tools cloud push --session-id ID [--device NAME] [--codex-home PATH] [--force] [-n N]
  codex-tools cloud list [--limit N] [--json]
  codex-tools cloud pull --all [--limit N] [--codex-home PATH] [--dry-run] [--force] [-n N]
  codex-tools cloud pull --session-id ID [--codex-home PATH] [--dry-run] [--force] [-n N]

Local config write commands require Codex to be fully closed. Run
`codex-tools codex quit` first, or close Codex manually if detection fails.

Run `codex-tools cloud login` once to save local cloud sync configuration.
Environment variables CODEX_TOOLS_API_URL, CODEX_TOOLS_EMAIL,
CODEX_TOOLS_DEVICE_TOKEN, and CODEX_TOOLS_SYNC_KEY are optional cloud-sync
overrides for automation.
CODEX_TOOLS_RELAY_API_KEY can provide the relay API key for `auth token`.
The sync key is the only user secret: the CLI uses it locally for zstd +
XChaCha20-Poly1305 encryption/decryption and sends only a derived login proof
to the Worker when registering a device.
Tune transfer parallelism with -n N. On push, -n applies to session upload
groups and chunk uploads. On pull, -n applies to chunk downloads.
Advanced aliases remain available: --threads, --session-concurrency,
--chunk-concurrency, and --download-concurrency.
Environment fallbacks: CODEX_TOOLS_SESSION_UPLOAD_CONCURRENCY,
CODEX_TOOLS_CHUNK_UPLOAD_CONCURRENCY, and CODEX_TOOLS_CHUNK_DOWNLOAD_CONCURRENCY.
New device registration sends invite code sub2api.simplaj.top by default.
Cloud push skips already uploaded versions by default; use --force to re-upload.
";

pub fn help_text() -> (r: String)
    ensures
        r@ == HELP_TEXT@,
{
    HELP_TEXT.to_owned()
}

/// The argument that follows the first one of a name.
pub open spec fn option_of(args: Seq<Seq<char>>, name: Seq<char>) -> Option<Seq<char>>
    decreases args.len(),
{
    if args.len() < 2 {
        None
    } else if args[0] == name {
        Some(args[1])
    } else {
        option_of(args.drop_first(), name)
    }
}

/// The argument that follows the first one of a name.
pub fn option_value(args: &[String], name: &str) -> (r: Option<String>)
    ensures
        opt_text(r) == option_of(texts(args@), name@),
{
    let ghost all = texts(args@);
    let mut i: usize = 0;
    assert(all.skip(0) =~= all);
    while args.len() - i >= 2
        invariant
            i <= args@.len(),
            all == texts(args@),
            option_of(all, name@) == option_of(all.skip(i as int), name@),
        decreases args@.len() - i,
    {
        assert(all.skip(i as int).len() >= 2);
        assert(all.skip(i as int)[0] == args@[i as int]@);
        assert(all.skip(i as int)[1] == args@[i + 1]@);
        if same(args[i].as_str(), name) {
            return Some(args[i + 1].clone());
        }
        assert(all.skip(i as int).drop_first() =~= all.skip(i + 1));
        i += 1;
    }
    None
}

/// Whether one of the arguments is the flag.
pub fn flag(args: &[String], name: &str) -> (r: bool)
    ensures
        r == texts(args@).contains(name@),
{
    let ghost all = texts(args@);
    for i in 0..args.len()
        invariant
            all == texts(args@),
            forall|j: int| 0 <= j < i ==> #[trigger] all[j] != name@,
    {
        if same(args[i].as_str(), name) {
            assert(all[i as int] == name@);
            return true;
        }
    }
    false
}

/// The number that an option asks for, or why its value is none.
pub open spec fn usize_option_of(args: Seq<Seq<char>>, name: Seq<char>) -> Result<Option<nat>, Seq<char>> {
    match option_of(args, name) {
        Some(value) => match unsigned_value(value, 10, usize::MAX as nat) {
            Some(n) => Ok(Some(n)),
            None => Err(number_error(value, usize::MAX as nat)),
        },
        None => Ok(None),
    }
}

/// A number, if there is one, or the text of an error.
pub open spec fn opt_number(r: Result<Option<usize>, String>) -> Result<Option<nat>, Seq<char>> {
    match r {
        Ok(Some(n)) => Ok(Some(n as nat)),
        Ok(None) => Ok(None),
        Err(error) => Err(error@),
    }
}

/// The number that an option asks for.
pub fn option_usize(args: &[String], name: &str) -> (r: Result<Option<usize>, String>)
    ensures
        opt_number(r) == usize_option_of(texts(args@), name@),
{
    match option_value(args, name) {
        Some(value) => match parse_usize(value.as_str()) {
            Ok(n) => Ok(Some(n)),
            Err(error) => Err(error),
        },
        None => Ok(None),
    }
}

/// A setting from outside without the white space around it, unless it is
/// blank.
pub open spec fn setting_of(value: Option<Seq<char>>) -> Option<Seq<char>> {
    match value {
        Some(text) => if trimmed(text).len() > 0 {
            Some(trimmed(text))
        } else {
            None
        },
        None => None,
    }
}

/// A setting from outside without the white space around it, unless it is
/// blank.
pub fn filled_setting(value: &Option<String>) -> (r: Option<String>)
    ensures
        opt_text(r) == setting_of(opt_text(*value)),
{
    match value {
        Some(text) => {
            let text = trim(text.as_str());
            if text.is_empty() {
                None
            } else {
                Some(text.to_owned())
            }
        },
        None => None,
    }
}

pub open spec fn strs(names: Seq<&str>) -> Seq<Seq<char>> {
    names.map_values(|name: &str| name@)
}

/// The value of the first of the options that is given.
pub open spec fn first_option_of(args: Seq<Seq<char>>, names: Seq<Seq<char>>) -> Option<Seq<char>>
    decreases names.len(),
{
    if names.len() == 0 {
        None
    } else {
        match option_of(args, names[0]) {
            Some(value) => Some(value),
            None => first_option_of(args, names.drop_first()),
        }
    }
}

fn first_option(args: &[String], names: &[&str]) -> (r: Option<String>)
    ensures
        opt_text(r) == first_option_of(texts(args@), strs(names@)),
{
    let ghost all = strs(names@);
    assert(all.skip(0) =~= all);
    for i in 0..names.len()
        invariant
            all == strs(names@),
            first_option_of(texts(args@), all) == first_option_of(texts(args@), all.skip(i as int)),
    {
        assert(all.skip(i as int)[0] == names@[i as int]@);
        assert(all.skip(i as int).drop_first() =~= all.skip(i + 1));
        let value = option_value(args, names[i]);
        if value.is_some() {
            return value;
        }
    }
    None
}

/// The value that decides on a number of transfers.
pub open spec fn concurrency_value(
    args: Seq<Seq<char>>,
    names: Seq<Seq<char>>,
    fallback_names: Seq<Seq<char>>,
    setting: Option<Seq<char>>,
) -> Option<Seq<char>> {
    match first_option_of(args, names) {
        Some(value) => Some(value),
        None => match first_option_of(args, fallback_names) {
            Some(value) => Some(value),
            None => setting_of(setting),
        },
    }
}

/// The number of transfers that a value asks for, up to a most, or why it is
/// none.
pub open spec fn concurrency_of(
    value: Option<Seq<char>>,
    accepted_names: Seq<char>,
    env_key: Seq<char>,
    default_value: nat,
    max_value: nat,
) -> Result<nat, Seq<char>> {
    match value {
        None => Ok(default_value),
        Some(text) => match unsigned_value(text, 10, usize::MAX as nat) {
            None => Err("invalid concurrency value for "@ + accepted_names + " / "@ + env_key + ": "@ + text),
            Some(n) => if n == 0 {
                Err("concurrency value for "@ + accepted_names + " / "@ + env_key + " must be greater than 0"@)
            } else if n > max_value {
                Ok(max_value)
            } else {
                Ok(n)
            },
        },
    }
}

/// A number, or the text of an error.
pub open spec fn number_or_text(r: Result<usize, String>) -> Result<nat, Seq<char>> {
    match r {
        Ok(n) => Ok(n as nat),
        Err(error) => Err(error@),
    }
}

fn joined_names(names: &[&str], fallback_names: &[&str]) -> (r: String)
    ensures
        r@ == joined(strs(names@) + strs(fallback_names@), ", "@),
{
    let mut all: Vec<String> = Vec::new();
    for i in 0..names.len()
        invariant
            texts(all@) == strs(names@).take(i as int),
    {
        let ghost before = texts(all@);
        all.push(names[i].to_owned());
        assert(texts(all@) =~= before.push(names@[i as int]@));
        assert(strs(names@).take(i + 1) =~= strs(names@).take(i as int).push(names@[i as int]@));
    }
    assert(strs(names@).take(names@.len() as int) =~= strs(names@));
    for i in 0..fallback_names.len()
        invariant
            texts(all@) == strs(names@) + strs(fallback_names@).take(i as int),
    {
        let ghost before = texts(all@);
        all.push(fallback_names[i].to_owned());
        assert(texts(all@) =~= before.push(fallback_names@[i as int]@));
        assert(strs(names@) + strs(fallback_names@).take(i + 1) =~= before.push(fallback_names@[i as int]@));
    }
    assert(strs(fallback_names@).take(fallback_names@.len() as int) =~= strs(fallback_names@));
    join(all.as_slice(), ", ")
}

/// The number of transfers that an option asks for, or else one of the
/// fallback options, or else a setting, which `env_key` names.
pub fn concurrency_option(
    args: &[String],
    names: &[&str],
    fallback_names: &[&str],
    env_key: &str,
    env_value: Option<String>,
    default_value: usize,
    max_value: usize,
) -> (r: Result<usize, String>)
    ensures
        number_or_text(r) == concurrency_of(
            concurrency_value(texts(args@), strs(names@), strs(fallback_names@), opt_text(env_value)),
            joined(strs(names@) + strs(fallback_names@), ", "@),
            env_key@,
            default_value as nat,
            max_value as nat,
        ),
{
    let value = match first_option(args, names) {
        Some(value) => Some(value),
        None => match first_option(args, fallback_names) {
            Some(value) => Some(value),
            None => filled_setting(&env_value),
        },
    };
    let text = match value {
        Some(text) => text,
        None => {
            return Ok(default_value);
        },
    };
    let accepted_names = joined_names(names, fallback_names);
    match parse_usize(text.as_str()) {
        Ok(n) => if n == 0 {
            Err(
                "concurrency value for ".to_owned().concat(accepted_names.as_str()).concat(" / ").concat(
                    env_key,
                ).concat(" must be greater than 0"),
            )
        } else if n > max_value {
            Ok(max_value)
        } else {
            Ok(n)
        },
        Err(_) => Err(
            "invalid concurrency value for ".to_owned().concat(accepted_names.as_str()).concat(" / ").concat(
                env_key,
            ).concat(": ").concat(text.as_str()),
        ),
    }
}

/// A command with its options.
pub enum Command<T> {
    Help,
    Status,
    ProviderStatus,
    ProviderSync { provider: Option<T> },
    ProviderSwitch { provider: Option<T> },
    ProviderRepair { name: Option<T>, sync: bool },
    AuthUnlock,
    AuthToken { provider: Option<T>, key: Option<T> },
    Relay { provider: Option<T>, commented: bool },
    Quota { json: bool, raw_json: bool },
    CodexQuit,
    SessionsList,
    CloudLogin,
    CloudLogout,
    CloudStatus,
    CloudSmoke,
    CloudPush,
    CloudList,
    CloudPull,
}

/// The command over the texts.
pub open spec fn command_texts(command: Command<String>) -> Command<Seq<char>> {
    match command {
        Command::Help => Command::Help,
        Command::Status => Command::Status,
        Command::ProviderStatus => Command::ProviderStatus,
        Command::ProviderSync { provider } => Command::ProviderSync { provider: opt_text(provider) },
        Command::ProviderSwitch { provider } => Command::ProviderSwitch { provider: opt_text(provider) },
        Command::ProviderRepair { name, sync } => Command::ProviderRepair { name: opt_text(name), sync },
        Command::AuthUnlock => Command::AuthUnlock,
        Command::AuthToken { provider, key } => Command::AuthToken {
            provider: opt_text(provider),
            key: opt_text(key),
        },
        Command::Relay { provider, commented } => Command::Relay { provider: opt_text(provider), commented },
        Command::Quota { json, raw_json } => Command::Quota { json, raw_json },
        Command::CodexQuit => Command::CodexQuit,
        Command::SessionsList => Command::SessionsList,
        Command::CloudLogin => Command::CloudLogin,
        Command::CloudLogout => Command::CloudLogout,
        Command::CloudStatus => Command::CloudStatus,
        Command::CloudSmoke => Command::CloudSmoke,
        Command::CloudPush => Command::CloudPush,
        Command::CloudList => Command::CloudList,
        Command::CloudPull => Command::CloudPull,
    }
}

pub open spec fn command_or_text(r: Result<Command<String>, String>) -> Result<Command<Seq<char>>, Seq<char>> {
    match r {
        Ok(command) => Ok(command_texts(command)),
        Err(error) => Err(error@),
    }
}

/// What an unknown command is answered.
pub open spec fn unknown_text(kind: Seq<char>, other: Seq<char>) -> Seq<char> {
    "unknown "@ + kind + ": "@ + other + "\n\n"@ + HELP_TEXT@
}

/// What a missing command is answered.
pub open spec fn missing_text(kind: Seq<char>) -> Seq<char> {
    "missing "@ + kind + "\n\n"@ + HELP_TEXT@
}

fn unknown(kind: &str, other: &str) -> (r: String)
    ensures
        r@ == unknown_text(kind@, other@),
{
    "unknown ".to_owned().concat(kind).concat(": ").concat(other).concat("\n\n").concat(HELP_TEXT)
}

fn missing(kind: &str) -> (r: String)
    ensures
        r@ == missing_text(kind@),
{
    "missing ".to_owned().concat(kind).concat("\n\n").concat(HELP_TEXT)
}

pub open spec fn either(a: Option<Seq<char>>, b: Option<Seq<char>>) -> Option<Seq<char>> {
    match a {
        Some(value) => Some(value),
        None => b,
    }
}

fn either_of(a: Option<String>, b: Option<String>) -> (r: Option<String>)
    ensures
        opt_text(r) == either(opt_text(a), opt_text(b)),
{
    match a {
        Some(value) => Some(value),
        None => b,
    }
}

/// The command that the arguments behind `provider` name.
pub open spec fn provider_command_of(args: Seq<Seq<char>>) -> Result<Command<Seq<char>>, Seq<char>> {
    let provider = option_of(args, "--provider"@);
    if args.len() == 0 || args[0] == "status"@ {
        Ok(Command::ProviderStatus)
    } else if args[0] == "sync"@ {
        Ok(Command::ProviderSync { provider })
    } else if args[0] == "switch"@ {
        Ok(
            Command::ProviderSwitch {
                provider: either(
                    provider,
                    if args.len() > 1 {
                        Some(args[1])
                    } else {
                        None
                    },
                ),
            },
        )
    } else if args[0] == "repair"@ {
        Ok(
            Command::ProviderRepair {
                name: either(option_of(args, "--name"@), provider),
                sync: !args.contains("--no-sync"@),
            },
        )
    } else {
        Err(unknown_text("provider command"@, args[0]))
    }
}

fn provider_command(args: &[String]) -> (r: Result<Command<String>, String>)
    ensures
        command_or_text(r) == provider_command_of(texts(args@)),
{
    let provider = option_value(args, "--provider");
    if args.len() == 0 {
        return Ok(Command::ProviderStatus);
    }
    assert(texts(args@)[0] == args@[0]@);
    let first = args[0].as_str();
    if same(first, "status") {
        Ok(Command::ProviderStatus)
    } else if same(first, "sync") {
        Ok(Command::ProviderSync { provider })
    } else if same(first, "switch") {
        let next = if args.len() > 1 {
            assert(texts(args@)[1] == args@[1]@);
            Some(args[1].clone())
        } else {
            None
        };
        Ok(Command::ProviderSwitch { provider: either_of(provider, next) })
    } else if same(first, "repair") {
        Ok(
            Command::ProviderRepair {
                name: either_of(option_value(args, "--name"), provider),
                sync: !flag(args, "--no-sync"),
            },
        )
    } else {
        Err(unknown("provider command", first))
    }
}

/// The command that the arguments behind `auth` name.
pub open spec fn auth_command_of(args: Seq<Seq<char>>) -> Result<Command<Seq<char>>, Seq<char>> {
    if args.len() == 0 {
        Err(missing_text("auth command"@))
    } else if args[0] == "unlock"@ || args[0] == "remove"@ || args[0] == "reset"@ {
        Ok(Command::AuthUnlock)
    } else if args[0] == "token"@ || args[0] == "apply-token"@ {
        Ok(Command::AuthToken { provider: option_of(args, "--provider"@), key: option_of(args, "--key"@) })
    } else {
        Err(unknown_text("auth command"@, args[0]))
    }
}

fn auth_command(args: &[String]) -> (r: Result<Command<String>, String>)
    ensures
        command_or_text(r) == auth_command_of(texts(args@)),
{
    if args.len() == 0 {
        return Err(missing("auth command"));
    }
    assert(texts(args@)[0] == args@[0]@);
    let first = args[0].as_str();
    if same(first, "unlock") || same(first, "remove") || same(first, "reset") {
        Ok(Command::AuthUnlock)
    } else if same(first, "token") || same(first, "apply-token") {
        Ok(Command::AuthToken { provider: option_value(args, "--provider"), key: option_value(args, "--key") })
    } else {
        Err(unknown("auth command", first))
    }
}

/// The command that the arguments behind `relay` name.
pub open spec fn relay_command_of(args: Seq<Seq<char>>) -> Result<Command<Seq<char>>, Seq<char>> {
    let provider = option_of(args, "--provider"@);
    if args.len() == 0 {
        Err(missing_text("relay command"@))
    } else if args[0] == "gpt"@ || args[0] == "subscription"@ || args[0] == "off"@ {
        Ok(Command::Relay { provider, commented: true })
    } else if args[0] == "relay"@ || args[0] == "restore"@ || args[0] == "on"@ {
        Ok(Command::Relay { provider, commented: false })
    } else {
        Err(unknown_text("relay command"@, args[0]))
    }
}

fn relay_command(args: &[String]) -> (r: Result<Command<String>, String>)
    ensures
        command_or_text(r) == relay_command_of(texts(args@)),
{
    let provider = option_value(args, "--provider");
    if args.len() == 0 {
        return Err(missing("relay command"));
    }
    assert(texts(args@)[0] == args@[0]@);
    let first = args[0].as_str();
    if same(first, "gpt") || same(first, "subscription") || same(first, "off") {
        Ok(Command::Relay { provider, commented: true })
    } else if same(first, "relay") || same(first, "restore") || same(first, "on") {
        Ok(Command::Relay { provider, commented: false })
    } else {
        Err(unknown("relay command", first))
    }
}

/// The command that the arguments behind `codex` name.
pub open spec fn codex_command_of(args: Seq<Seq<char>>) -> Result<Command<Seq<char>>, Seq<char>> {
    if args.len() == 0 {
        Err(missing_text("codex command"@))
    } else if args[0] == "quit"@ {
        Ok(Command::CodexQuit)
    } else {
        Err(unknown_text("codex command"@, args[0]))
    }
}

fn codex_command(args: &[String]) -> (r: Result<Command<String>, String>)
    ensures
        command_or_text(r) == codex_command_of(texts(args@)),
{
    if args.len() == 0 {
        return Err(missing("codex command"));
    }
    assert(texts(args@)[0] == args@[0]@);
    let first = args[0].as_str();
    if same(first, "quit") {
        Ok(Command::CodexQuit)
    } else {
        Err(unknown("codex command", first))
    }
}

/// The command that the arguments behind `sessions` name.
pub open spec fn sessions_command_of(args: Seq<Seq<char>>) -> Result<Command<Seq<char>>, Seq<char>> {
    if args.len() == 0 {
        Err("missing sessions command. Try: codex-tools sessions list"@)
    } else if args[0] == "list"@ {
        Ok(Command::SessionsList)
    } else {
        Err("unknown sessions command: "@ + args[0])
    }
}

fn sessions_command(args: &[String]) -> (r: Result<Command<String>, String>)
    ensures
        command_or_text(r) == sessions_command_of(texts(args@)),
{
    if args.len() == 0 {
        return Err("missing sessions command. Try: codex-tools sessions list".to_owned());
    }
    assert(texts(args@)[0] == args@[0]@);
    let first = args[0].as_str();
    if same(first, "list") {
        Ok(Command::SessionsList)
    } else {
        Err("unknown sessions command: ".to_owned().concat(first))
    }
}

/// The command that the arguments behind `cloud` name.
pub open spec fn cloud_command_of(args: Seq<Seq<char>>) -> Result<Command<Seq<char>>, Seq<char>> {
    if args.len() == 0 {
        Err("missing cloud command. Try: codex-tools cloud smoke"@)
    } else if args[0] == "login"@ {
        Ok(Command::CloudLogin)
    } else if args[0] == "logout"@ {
        Ok(Command::CloudLogout)
    } else if args[0] == "status"@ {
        Ok(Command::CloudStatus)
    } else if args[0] == "smoke"@ {
        Ok(Command::CloudSmoke)
    } else if args[0] == "push"@ {
        Ok(Command::CloudPush)
    } else if args[0] == "list"@ {
        Ok(Command::CloudList)
    } else if args[0] == "pull"@ {
        Ok(Command::CloudPull)
    } else {
        Err("unknown cloud command: "@ + args[0])
    }
}

fn cloud_command(args: &[String]) -> (r: Result<Command<String>, String>)
    ensures
        command_or_text(r) == cloud_command_of(texts(args@)),
{
    if args.len() == 0 {
        return Err("missing cloud command. Try: codex-tools cloud smoke".to_owned());
    }
    assert(texts(args@)[0] == args@[0]@);
    let first = args[0].as_str();
    if same(first, "login") {
        Ok(Command::CloudLogin)
    } else if same(first, "logout") {
        Ok(Command::CloudLogout)
    } else if same(first, "status") {
        Ok(Command::CloudStatus)
    } else if same(first, "smoke") {
        Ok(Command::CloudSmoke)
    } else if same(first, "push") {
        Ok(Command::CloudPush)
    } else if same(first, "list") {
        Ok(Command::CloudList)
    } else if same(first, "pull") {
        Ok(Command::CloudPull)
    } else {
        Err("unknown cloud command: ".to_owned().concat(first))
    }
}

/// The command that the arguments name.
pub open spec fn command_of(args: Seq<Seq<char>>) -> Result<Command<Seq<char>>, Seq<char>> {
    if args.len() == 0 {
        Ok(Command::Help)
    } else {
        let first = args[0];
        let rest = args.skip(1);
        if first == "status"@ {
            Ok(Command::Status)
        } else if first == "provider"@ {
            provider_command_of(rest)
        } else if first == "auth"@ {
            auth_command_of(rest)
        } else if first == "relay"@ {
            relay_command_of(rest)
        } else if first == "quota"@ {
            Ok(Command::Quota { json: rest.contains("--json"@), raw_json: rest.contains("--raw-json"@) })
        } else if first == "codex"@ {
            codex_command_of(rest)
        } else if first == "sessions"@ {
            sessions_command_of(rest)
        } else if first == "cloud"@ {
            cloud_command_of(rest)
        } else if first == "help"@ || first == "--help"@ || first == "-h"@ {
            Ok(Command::Help)
        } else {
            Err(unknown_text("command"@, first))
        }
    }
}

/// The command that the arguments name.
pub fn parse_command(args: &[String]) -> (r: Result<Command<String>, String>)
    ensures
        command_or_text(r) == command_of(texts(args@)),
{
    if args.len() == 0 {
        return Ok(Command::Help);
    }
    assert(texts(args@)[0] == args@[0]@);
    let first = args[0].as_str();
    let rest = vstd::slice::slice_subrange(args, 1, args.len());
    assert(texts(rest@) =~= texts(args@).skip(1));
    if same(first, "status") {
        Ok(Command::Status)
    } else if same(first, "provider") {
        provider_command(rest)
    } else if same(first, "auth") {
        auth_command(rest)
    } else if same(first, "relay") {
        relay_command(rest)
    } else if same(first, "quota") {
        Ok(Command::Quota { json: flag(rest, "--json"), raw_json: flag(rest, "--raw-json") })
    } else if same(first, "codex") {
        codex_command(rest)
    } else if same(first, "sessions") {
        sessions_command(rest)
    } else if same(first, "cloud") {
        cloud_command(rest)
    } else if same(first, "help") || same(first, "--help") || same(first, "-h") {
        Ok(Command::Help)
    } else {
        Err(unknown("command", first))
    }
}

/// The name of this device: the one that is set, if it is not blank, or else
/// that of the host.
pub open spec fn device_name_of(
    name: Option<Seq<char>>,
    host_name: Option<Seq<char>>,
    computer_name: Option<Seq<char>>,
) -> Seq<char> {
    if name is Some && !is_blank(name->0) {
        name->0
    } else if host_name is Some {
        host_name->0
    } else if computer_name is Some {
        computer_name->0
    } else {
        "unknown-device"@
    }
}

/// The name of this device: the one that is set, if it is not blank, or else
/// that of the host.
pub fn default_device_name(name: Option<String>, host_name: Option<String>, computer_name: Option<String>) -> (r: String)
    ensures
        r@ == device_name_of(opt_text(name), opt_text(host_name), opt_text(computer_name)),
{
    if let Some(name) = name {
        if !blank(name.as_str()) {
            return name;
        }
    }
    match host_name {
        Some(host_name) => host_name,
        None => match computer_name {
            Some(computer_name) => computer_name,
            None => "unknown-device".to_owned(),
        },
    }
}

/// The platform of this device.
pub fn default_platform(os: &str, arch: &str) -> (r: String)
    ensures
        r@ == os@ + "-"@ + arch@,
{
    os.to_owned().concat("-").concat(arch)
}

/// The sync key that was entered twice, if it was the same. A second entry
/// that could not be made counts as the same.
pub fn confirmed_sync_key(first: String, second: &Option<String>) -> (r: Option<String>)
    ensures
        opt_text(r) == (if *second is None || trimmed(second->0@) == first@ {
            Some(first@)
        } else {
            None
        }),
{
    match second {
        Some(second) => if same(trim(second.as_str()), first.as_str()) {
            Some(first)
        } else {
            None
        },
        None => Some(first),
    }
}

} // verus!
