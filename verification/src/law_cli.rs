//! What the command line means.

use vstd::prelude::*;

use crate::cli::{
    command_of, command_or_text, concurrency_of, concurrency_option, concurrency_value, confirmed_sync_key,
    default_device_name, device_name_of, first_option_of, flag, number_or_text, opt_number, option_of,
    option_usize, option_value, parse_command, strs, usize_option_of, Command,
};
use crate::number::{parse_unsigned, parse_usize, unsigned_value};
use crate::report::ProviderStatus;
use crate::text::{joined, opt_text, texts, trimmed};

verus! {

/// The value of an option is what follows its first place.
pub proof fn law_option(args: &[String], name: &str, before: int, r: Option<String>)
    requires
        0 <= before,
        before + 1 < args@.len(),
        args@[before]@ == name@,
        forall|i: int| 0 <= i < before ==> (#[trigger] args@[i])@ != name@,
        call_ensures(option_value, (args, name), r),
    ensures
        opt_text(r) == Some(args@[before + 1]@),
{
    let all = texts(args@);
    assert(opt_text(r) == option_of(all, name@));
    assert forall|i: int| 0 <= i < before implies #[trigger] all[i] != name@ by {
        assert(all[i] == args@[i]@);
    }
    assert(all[before] == args@[before]@);
    lemma_option_at(all, name@, before);
    assert(all[before + 1] == args@[before + 1]@);
}

proof fn lemma_option_at(args: Seq<Seq<char>>, name: Seq<char>, at: int)
    requires
        0 <= at,
        at + 1 < args.len(),
        args[at] == name,
        forall|i: int| 0 <= i < at ==> #[trigger] args[i] != name,
    ensures
        option_of(args, name) == Some(args[at + 1]),
    decreases args.len(),
{
    if at > 0 {
        let rest = args.drop_first();
        assert(args[0] != name);
        assert forall|i: int| 0 <= i < at - 1 implies #[trigger] rest[i] != name by {
            assert(args[i + 1] != name);
        }
        lemma_option_at(rest, name, at - 1);
    }
}

/// An option that is not there, or has nothing behind it, has no value.
pub proof fn law_option_absent(args: &[String], name: &str, r: Option<String>)
    requires
        forall|i: int| 0 <= i && i + 1 < args@.len() ==> (#[trigger] args@[i])@ != name@,
        call_ensures(option_value, (args, name), r),
    ensures
        r is None,
{
    let all = texts(args@);
    assert(opt_text(r) == option_of(all, name@));
    assert forall|i: int| 0 <= i && i + 1 < all.len() implies #[trigger] all[i] != name@ by {
        assert(all[i] == args@[i]@);
    }
    lemma_option_absent(all, name@);
}

proof fn lemma_option_absent(args: Seq<Seq<char>>, name: Seq<char>)
    requires
        forall|i: int| 0 <= i && i + 1 < args.len() ==> #[trigger] args[i] != name,
    ensures
        option_of(args, name) is None,
    decreases args.len(),
{
    if args.len() >= 2 {
        let rest = args.drop_first();
        assert(args[0] != name);
        assert forall|i: int| 0 <= i && i + 1 < rest.len() implies #[trigger] rest[i] != name by {
            assert(args[i + 1] != name);
        }
        lemma_option_absent(rest, name);
    }
}

/// A flag is set exactly when it is among the arguments.
pub proof fn law_flag(args: &[String], name: &str, r: bool)
    requires
        call_ensures(flag, (args, name), r),
    ensures
        r == exists|i: int| 0 <= i < args@.len() && (#[trigger] args@[i])@ == name@,
{
    let all = texts(args@);
    assert(r == all.contains(name@));
    if r {
        let i = choose|i: int| 0 <= i < all.len() && all[i] == name@;
        assert(args@[i]@ == name@);
    }
    if exists|i: int| 0 <= i < args@.len() && (#[trigger] args@[i])@ == name@ {
        let i = choose|i: int| 0 <= i < args@.len() && (#[trigger] args@[i])@ == name@;
        assert(all[i] == name@);
    }
}

/// Without arguments the help is shown.
pub proof fn law_no_arguments(args: &[String], r: Result<Command<String>, String>)
    requires
        args@.len() == 0,
        call_ensures(parse_command, (args,), r),
    ensures
        r matches Ok(Command::Help),
{
    assert(texts(args@).len() == 0);
    assert(command_or_text(r) == command_of(texts(args@)));
}

/// The commands that stand alone, and the two flags of the quota.
pub proof fn law_plain_commands(args: &[String], rest: &[String], json: bool, raw: bool, r: Result<Command<String>, String>)
    requires
        args@.len() > 0,
        rest@ == args@.skip(1),
        call_ensures(parse_command, (args,), r),
        call_ensures(flag, (rest, "--json"), json),
        call_ensures(flag, (rest, "--raw-json"), raw),
    ensures
        args@[0]@ == "status"@ ==> (r matches Ok(Command::Status)),
        args@[0]@ == "help"@ || args@[0]@ == "--help"@ || args@[0]@ == "-h"@ ==> (r matches Ok(Command::Help)),
        args@[0]@ == "quota"@ ==> (r matches Ok(Command::Quota { json: shown, raw_json: shown_raw }) && shown == json
            && shown_raw == raw),
        args@[0]@ == "codex"@ && rest@.len() > 0 && rest@[0]@ == "quit"@ ==> (r matches Ok(Command::CodexQuit)),
        args@[0]@ == "sessions"@ && rest@.len() > 0 && rest@[0]@ == "list"@ ==> (r matches Ok(Command::SessionsList)),
        args@[0]@ == "codex"@ && (rest@.len() == 0 || rest@[0]@ != "quit"@) ==> r is Err,
        args@[0]@ == "sessions"@ && (rest@.len() == 0 || rest@[0]@ != "list"@) ==> r is Err,
        args@[0]@.len() > 8 ==> r is Err,
{
    reveal_strlit("status");
    assert("status"@.len() == 6);
    reveal_strlit("provider");
    assert("provider"@.len() == 8);
    reveal_strlit("auth");
    assert("auth"@.len() == 4);
    reveal_strlit("relay");
    assert("relay"@.len() == 5);
    reveal_strlit("quota");
    assert("quota"@.len() == 5);
    reveal_strlit("codex");
    assert("codex"@.len() == 5);
    reveal_strlit("sessions");
    assert("sessions"@.len() == 8);
    reveal_strlit("cloud");
    assert("cloud"@.len() == 5);
    reveal_strlit("help");
    assert("help"@.len() == 4);
    reveal_strlit("--help");
    assert("--help"@.len() == 6);
    reveal_strlit("-h");
    assert("-h"@.len() == 2);
    assert("status"@[0] != "--help"@[0]);
    assert("provider"@[0] != "sessions"@[0]);
    assert("auth"@[0] != "help"@[0]);
    assert("relay"@[0] != "quota"@[0]);
    assert("relay"@[0] != "codex"@[0]);
    assert("relay"@[0] != "cloud"@[0]);
    assert("quota"@[0] != "codex"@[0]);
    assert("quota"@[0] != "cloud"@[0]);
    assert("codex"@[1] != "cloud"@[1]);
    let all = texts(args@);
    let words = texts(rest@);
    assert(words =~= all.skip(1));
    assert(all[0] == args@[0]@);
    assert(command_or_text(r) == command_of(all));
    assert(rest@.len() > 0 ==> words[0] == rest@[0]@);
    assert(json == words.contains("--json"@));
    assert(raw == words.contains("--raw-json"@));
}

/// The commands on providers: which they are, and which provider each is on.
pub proof fn law_provider_commands(args: &[String], rest: &[String], provider: Option<String>, name: Option<String>, no_sync: bool, r: Result<Command<String>, String>)
    requires
        args@.len() > 0,
        rest@ == args@.skip(1),
        call_ensures(parse_command, (args,), r),
        args@[0]@ == "provider"@,
        call_ensures(option_value, (rest, "--provider"), provider),
        call_ensures(option_value, (rest, "--name"), name),
        call_ensures(flag, (rest, "--no-sync"), no_sync),
    ensures
        rest@.len() == 0 || rest@[0]@ == "status"@ ==> (r matches Ok(Command::ProviderStatus)),
        rest@.len() > 0 && rest@[0]@ == "sync"@ ==> (r matches Ok(Command::ProviderSync { provider: on }) && opt_text(on)
            == opt_text(provider)),
        rest@.len() > 0 && rest@[0]@ == "switch"@ ==> (r matches Ok(Command::ProviderSwitch { provider: on }) && (provider
            is Some ==> opt_text(on) == opt_text(provider)) && (provider is None && rest@.len() > 1 ==> opt_text(on)
            == Some(rest@[1]@)) && (provider is None && rest@.len() == 1 ==> on is None)),
        rest@.len() > 0 && rest@[0]@ == "repair"@ ==> (r matches Ok(Command::ProviderRepair { name: to, sync }) && (name
            is Some ==> opt_text(to) == opt_text(name)) && (name is None ==> opt_text(to) == opt_text(provider)) && sync
            == !no_sync),
        rest@.len() > 0 && rest@[0]@ != "status"@ && rest@[0]@ != "sync"@ && rest@[0]@ != "switch"@ && rest@[0]@
            != "repair"@ ==> r is Err,
{
    reveal_strlit("status");
    assert("status"@.len() == 6);
    reveal_strlit("provider");
    assert("provider"@.len() == 8);
    reveal_strlit("sync");
    assert("sync"@.len() == 4);
    reveal_strlit("switch");
    assert("switch"@.len() == 6);
    reveal_strlit("repair");
    assert("repair"@.len() == 6);
    assert("status"@[1] != "switch"@[1]);
    assert("status"@[0] != "repair"@[0]);
    assert("switch"@[0] != "repair"@[0]);
    let all = texts(args@);
    let words = texts(rest@);
    assert(words =~= all.skip(1));
    assert(all[0] == args@[0]@);
    assert(command_or_text(r) == command_of(all));
    assert(rest@.len() > 0 ==> words[0] == rest@[0]@);
    assert(opt_text(provider) == option_of(words, "--provider"@));
    assert(opt_text(name) == option_of(words, "--name"@));
    assert(no_sync == words.contains("--no-sync"@));
    if rest@.len() > 1 {
        assert(words[1] == rest@[1]@);
    }
}

/// The commands on the login.
pub proof fn law_auth_commands(args: &[String], rest: &[String], provider: Option<String>, key: Option<String>, r: Result<Command<String>, String>)
    requires
        args@.len() > 0,
        rest@ == args@.skip(1),
        call_ensures(parse_command, (args,), r),
        args@[0]@ == "auth"@,
        call_ensures(option_value, (rest, "--provider"), provider),
        call_ensures(option_value, (rest, "--key"), key),
    ensures
        rest@.len() > 0 && (rest@[0]@ == "unlock"@ || rest@[0]@ == "remove"@ || rest@[0]@ == "reset"@) <==> (r matches Ok(
            Command::AuthUnlock,
        )),
        rest@.len() > 0 && (rest@[0]@ == "token"@ || rest@[0]@ == "apply-token"@) ==> (r matches Ok(
            Command::AuthToken { provider: on, key: written },
        ) && opt_text(on) == opt_text(provider) && opt_text(written) == opt_text(key)),
        rest@.len() == 0 ==> r is Err,
{
    reveal_strlit("status");
    assert("status"@.len() == 6);
    reveal_strlit("provider");
    assert("provider"@.len() == 8);
    reveal_strlit("auth");
    assert("auth"@.len() == 4);
    reveal_strlit("unlock");
    assert("unlock"@.len() == 6);
    reveal_strlit("remove");
    assert("remove"@.len() == 6);
    reveal_strlit("reset");
    assert("reset"@.len() == 5);
    reveal_strlit("token");
    assert("token"@.len() == 5);
    reveal_strlit("apply-token");
    assert("apply-token"@.len() == 11);
    assert("status"@[0] != "unlock"@[0]);
    assert("status"@[0] != "remove"@[0]);
    assert("unlock"@[0] != "remove"@[0]);
    assert("reset"@[0] != "token"@[0]);
    let all = texts(args@);
    let words = texts(rest@);
    assert(words =~= all.skip(1));
    assert(all[0] == args@[0]@);
    assert(command_or_text(r) == command_of(all));
    assert(rest@.len() > 0 ==> words[0] == rest@[0]@);
    assert(opt_text(provider) == option_of(words, "--provider"@));
    assert(opt_text(key) == option_of(words, "--key"@));
}

/// `relay gpt` goes to the subscription by commenting the relay out, and `relay restore` brings it back.
pub proof fn law_relay_commands(args: &[String], rest: &[String], provider: Option<String>, r: Result<Command<String>, String>)
    requires
        args@.len() > 0,
        rest@ == args@.skip(1),
        call_ensures(parse_command, (args,), r),
        args@[0]@ == "relay"@,
        call_ensures(option_value, (rest, "--provider"), provider),
    ensures
        rest@.len() > 0 && (rest@[0]@ == "gpt"@ || rest@[0]@ == "subscription"@ || rest@[0]@ == "off"@) ==> (r matches Ok(
            Command::Relay { provider: on, commented },
        ) && commented && opt_text(on) == opt_text(provider)),
        rest@.len() > 0 && (rest@[0]@ == "relay"@ || rest@[0]@ == "restore"@ || rest@[0]@ == "on"@) ==> (r matches Ok(
            Command::Relay { provider: on, commented },
        ) && !commented && opt_text(on) == opt_text(provider)),
        rest@.len() == 0 ==> r is Err,
{
    reveal_strlit("status");
    assert("status"@.len() == 6);
    reveal_strlit("provider");
    assert("provider"@.len() == 8);
    reveal_strlit("auth");
    assert("auth"@.len() == 4);
    reveal_strlit("relay");
    assert("relay"@.len() == 5);
    reveal_strlit("gpt");
    assert("gpt"@.len() == 3);
    reveal_strlit("subscription");
    assert("subscription"@.len() == 12);
    reveal_strlit("off");
    assert("off"@.len() == 3);
    reveal_strlit("restore");
    assert("restore"@.len() == 7);
    reveal_strlit("on");
    assert("on"@.len() == 2);
    assert("gpt"@[0] != "off"@[0]);
    let all = texts(args@);
    let words = texts(rest@);
    assert(words =~= all.skip(1));
    assert(all[0] == args@[0]@);
    assert(command_or_text(r) == command_of(all));
    assert(rest@.len() > 0 ==> words[0] == rest@[0]@);
    assert(opt_text(provider) == option_of(words, "--provider"@));
}

/// The commands on the cloud, each under its own word.
pub proof fn law_cloud_commands(args: &[String], rest: &[String], r: Result<Command<String>, String>)
    requires
        args@.len() > 0,
        rest@ == args@.skip(1),
        call_ensures(parse_command, (args,), r),
        args@[0]@ == "cloud"@,
    ensures
        rest@.len() > 0 && rest@[0]@ == "login"@ <==> (r matches Ok(Command::CloudLogin)),
        rest@.len() > 0 && rest@[0]@ == "logout"@ <==> (r matches Ok(Command::CloudLogout)),
        rest@.len() > 0 && rest@[0]@ == "status"@ <==> (r matches Ok(Command::CloudStatus)),
        rest@.len() > 0 && rest@[0]@ == "smoke"@ <==> (r matches Ok(Command::CloudSmoke)),
        rest@.len() > 0 && rest@[0]@ == "push"@ <==> (r matches Ok(Command::CloudPush)),
        rest@.len() > 0 && rest@[0]@ == "list"@ <==> (r matches Ok(Command::CloudList)),
        rest@.len() > 0 && rest@[0]@ == "pull"@ <==> (r matches Ok(Command::CloudPull)),
        rest@.len() == 0 ==> r is Err,
{
    reveal_strlit("status");
    assert("status"@.len() == 6);
    reveal_strlit("provider");
    assert("provider"@.len() == 8);
    reveal_strlit("auth");
    assert("auth"@.len() == 4);
    reveal_strlit("relay");
    assert("relay"@.len() == 5);
    reveal_strlit("quota");
    assert("quota"@.len() == 5);
    reveal_strlit("codex");
    assert("codex"@.len() == 5);
    reveal_strlit("sessions");
    assert("sessions"@.len() == 8);
    reveal_strlit("cloud");
    assert("cloud"@.len() == 5);
    reveal_strlit("login");
    assert("login"@.len() == 5);
    reveal_strlit("logout");
    assert("logout"@.len() == 6);
    reveal_strlit("smoke");
    assert("smoke"@.len() == 5);
    reveal_strlit("push");
    assert("push"@.len() == 4);
    reveal_strlit("list");
    assert("list"@.len() == 4);
    reveal_strlit("pull");
    assert("pull"@.len() == 4);
    assert("status"@[0] != "logout"@[0]);
    assert("provider"@[0] != "sessions"@[0]);
    assert("auth"@[0] != "push"@[0]);
    assert("auth"@[0] != "list"@[0]);
    assert("auth"@[0] != "pull"@[0]);
    assert("relay"@[0] != "quota"@[0]);
    assert("relay"@[0] != "codex"@[0]);
    assert("relay"@[0] != "cloud"@[0]);
    assert("relay"@[0] != "login"@[0]);
    assert("relay"@[0] != "smoke"@[0]);
    assert("quota"@[0] != "codex"@[0]);
    assert("quota"@[0] != "cloud"@[0]);
    assert("quota"@[0] != "login"@[0]);
    assert("quota"@[0] != "smoke"@[0]);
    assert("codex"@[1] != "cloud"@[1]);
    assert("codex"@[0] != "login"@[0]);
    assert("codex"@[0] != "smoke"@[0]);
    assert("cloud"@[0] != "login"@[0]);
    assert("cloud"@[0] != "smoke"@[0]);
    assert("login"@[0] != "smoke"@[0]);
    assert("push"@[0] != "list"@[0]);
    assert("push"@[2] != "pull"@[2]);
    assert("list"@[0] != "pull"@[0]);
    let all = texts(args@);
    let words = texts(rest@);
    assert(words =~= all.skip(1));
    assert(all[0] == args@[0]@);
    assert(command_or_text(r) == command_of(all));
    assert(rest@.len() > 0 ==> words[0] == rest@[0]@);
}

/// How much runs at once is what the first option that is given says, and else
/// the setting, and else the usual; never more than the most, and never none.
pub proof fn law_concurrency(
    args: &[String],
    names: &[&str],
    fallback_names: &[&str],
    env_key: &str,
    env_value: Option<String>,
    default_value: usize,
    max_value: usize,
    r: Result<usize, String>,
    given: Option<String>,
    name: &str,
    told: &str,
    number: Option<u64>,
)
    requires
        1 <= default_value <= max_value,
        call_ensures(
            concurrency_option,
            (args, names, fallback_names, env_key, env_value, default_value, max_value),
            r,
        ),
        names@.len() > 0,
        name@ == names@[0]@,
        call_ensures(option_value, (args, name), given),
        given matches Some(text) ==> told@ == text@,
        call_ensures(parse_unsigned, (told, 10, usize::MAX as u64), number),
    ensures
        r matches Ok(n) ==> 1 <= n <= max_value,
        given is Some && number is None ==> r is Err,
        given is Some ==> (number matches Some(n) ==> (n == 0 ==> r is Err) && (0 < n <= max_value ==> (r matches Ok(m)
            && m == n)) && (n > max_value ==> r == Ok::<usize, String>(max_value))),
        args@.len() < 2 && (env_value matches Some(text) ==> trimmed(text@).len() == 0) ==> r == Ok::<usize, String>(
            default_value,
        ),
{
    let all = texts(args@);
    assert(opt_text(given) == option_of(all, name@));
    assert(strs(names@)[0] == names@[0]@);
    let value = concurrency_value(all, strs(names@), strs(fallback_names@), opt_text(env_value));
    assert(number_or_text(r) == concurrency_of(
        value,
        joined(strs(names@) + strs(fallback_names@), ", "@),
        env_key@,
        default_value as nat,
        max_value as nat,
    ));
    assert(number is Some == unsigned_value(told@, 10, usize::MAX as nat) is Some);
    if args@.len() < 2 {
        lemma_no_option(all, strs(names@));
        lemma_no_option(all, strs(fallback_names@));
    }
}

proof fn lemma_no_option(args: Seq<Seq<char>>, names: Seq<Seq<char>>)
    requires
        args.len() < 2,
    ensures
        first_option_of(args, names) is None,
    decreases names.len(),
{
    if names.len() > 0 {
        lemma_no_option(args, names.drop_first());
    }
}

/// A sync key that is asked for twice counts only where it was given alike.
pub proof fn law_confirmed_key(first: String, second: Option<String>, r: Option<String>)
    requires
        call_ensures(confirmed_sync_key, (first, &second), r),
    ensures
        r matches Some(key) ==> key@ == first@,
        second is None ==> r is Some,
        second matches Some(again) ==> (r is Some <==> trimmed(again@) == first@),
{
}

/// A device goes by the name that it is given, and else by that of its host.
pub proof fn law_device_name(
    name: Option<String>,
    host_name: Option<String>,
    computer_name: Option<String>,
    r: String,
)
    requires
        call_ensures(default_device_name, (name, host_name, computer_name), r),
    ensures
        name matches Some(own) ==> trimmed(own@).len() > 0 ==> r@ == own@,
        name is None ==> (host_name matches Some(host) ==> r@ == host@),
        name is None && host_name is None ==> (computer_name matches Some(computer) ==> r@ == computer@),
        name is None && host_name is None && computer_name is None ==> r@ == "unknown-device"@,
{
    assert(r@ == device_name_of(opt_text(name), opt_text(host_name), opt_text(computer_name)));
}

/// An option that is a number is read as one, and anything else is an error.
pub proof fn law_number_option(
    args: &[String],
    name: &str,
    given: Option<String>,
    text: &str,
    parsed: Result<usize, String>,
    r: Result<Option<usize>, String>,
)
    requires
        call_ensures(option_value, (args, name), given),
        given matches Some(value) ==> text@ == value@,
        call_ensures(parse_usize, (text,), parsed),
        call_ensures(option_usize, (args, name), r),
    ensures
        given is None ==> (r matches Ok(None)),
        given is Some ==> (r is Ok <==> parsed is Ok),
        given is Some ==> (parsed matches Ok(n) ==> r == Ok::<Option<usize>, String>(Some(n))),
{
    assert(opt_text(given) == option_of(texts(args@), name@));
    assert(opt_number(r) == usize_option_of(texts(args@), name@));
    assert(parsed is Ok == unsigned_value(text@, 10, usize::MAX as nat) is Some);
}

} // verus!
