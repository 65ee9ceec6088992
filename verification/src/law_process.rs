//! Which processes count as Codex, and what they hold up.

use vstd::prelude::*;

use crate::number::{
    digit_value, digits_value, parse_signed, parse_unsigned, signed_value, unsigned_value, without_plus,
};
use crate::order::{is_order, law_sorted, law_sorted_holds, sorted_by};
use crate::process::{
    by_pid, command_executable, detect_codex_processes, ensure_codex_stopped_for_write, executable, file_name,
    is_codex_command, is_codex_process_command, is_helper, last_piece, process_in_line, process_models,
    processes_in, program_name, quit_first_step, separators, try_quit_codex, without_suffixes, CodexProcess,
    ProcessModel, QuitCodexResult, QuitStep,
};
use crate::text::{
    ascii_lower, ascii_lowered, decimal, decimal_text, digit, has_text, index_where, is_white_space,
    lemma_index_where, lemma_index_where_is, lemma_kept_len_is, lemma_lead_len_is, lemma_split_where_nonempty,
    lemma_trimmed_between, lemma_trimmed_parts, only, split_where, trim_where, trimmed, white,
};

verus! {

/// Whether a command, in lower case, is one of a helper: a tool around Codex
/// that holds nothing up.
pub open spec fn is_of_helper(lower: Seq<char>) -> bool {
    has_text(lower, "codex api tools"@)
        || has_text(lower, "codex-api-tools"@)
        || has_text(lower, "gpt-api-tools"@)
        || has_text(lower, "codex-tools"@)
        || has_text(lower, "codex computer use.app"@)
        || has_text(lower, "skycomputeruseclient"@)
        || has_text(lower, "crashpad_handler"@) || (has_text(
        lower,
        "/.vscode/extensions/openai.chatgpt-"@,
    ) && has_text(lower, "codex app-server"@))
}

proof fn lemma_last_piece(dir: Seq<char>, name: Seq<char>, sep: char)
    requires
        sep == '/' || sep == '\\',
        forall|i: int| 0 <= i < name.len() ==> #[trigger] name[i] != '/' && name[i] != '\\',
    ensures
        last_piece(dir + seq![sep] + name) == name,
    decreases dir.len(),
{
    let s = dir + seq![sep] + name;
    let p = separators();
    lemma_index_where(s, p);
    let i = index_where(s, p) as int;
    assert(s[dir.len() as int] == sep);
    assert(i <= dir.len());
    let rest = s.skip(i + 1);
    lemma_split_where_nonempty(rest, p);
    assert(split_where(s, p).last() == split_where(rest, p).last());
    if i == dir.len() {
        assert(rest =~= name);
        assert forall|j: int| 0 <= j < name.len() implies !p(#[trigger] name[j]) by {}
        lemma_index_where_is(name, p, name.len() as int);
        assert(split_where(name, p) =~= seq![name]);
    } else {
        let shorter = dir.skip(i + 1);
        assert(rest =~= shorter + seq![sep] + name);
        lemma_last_piece(shorter, name, sep);
    }
}

proof fn lemma_no_trim(s: Seq<char>, c: char)
    requires
        !s.contains(c),
    ensures
        trim_where(s, only(c)) == s,
{
    if s.len() > 0 {
        assert(s.contains(s[0]));
        lemma_lead_len_is(s, only(c), 0);
        assert(s.skip(0) =~= s);
        assert(s.contains(s[s.len() - 1]));
        lemma_kept_len_is(s, only(c), s.len() as int);
        assert(s.take(s.len() as int) =~= s);
    } else {
        lemma_lead_len_is(s, only(c), 0);
        assert(s.skip(0) =~= s);
        lemma_kept_len_is(s, only(c), 0);
        assert(s.take(0) =~= s);
    }
}

proof fn lemma_program(dir: Seq<char>, name: Seq<char>, args: Seq<char>, sep: char)
    requires
        sep == '/' || sep == '\\',
        name.len() > 0,
        forall|i: int| 0 <= i < name.len() ==> #[trigger] name[i] != '/' && name[i] != '\\',
        forall|i: int|
            0 <= i < dir.len() ==> !is_white_space(#[trigger] dir[i]) && dir[i] != '"' && dir[i] != '\'',
        forall|i: int|
            0 <= i < name.len() ==> !is_white_space(#[trigger] name[i]) && name[i] != '"' && name[i] != '\'',
        args.len() > 0 ==> !is_white_space(args.last()),
    ensures
        ({
            let path = dir + seq![sep] + name;
            let command = if args.len() > 0 {
                path + seq![' '] + args
            } else {
                path
            };
            file_name(executable(command)) == ascii_lowered(name)
        }),
{
    let path = dir + seq![sep] + name;
    let command = if args.len() > 0 {
        path + seq![' '] + args
    } else {
        path
    };
    assert(forall|i: int| 0 <= i < path.len() ==> !is_white_space(#[trigger] path[i]) && path[i] != '"' && path[i] != '\'');
    assert(command[0] == path[0]);
    if args.len() > 0 {
        assert(command.last() == args.last());
    } else {
        assert(command.last() == path[path.len() - 1]);
    }
    lemma_trimmed_between(command, 0, command.len() as int);
    assert(command.subrange(0, command.len() as int) =~= command);
    assert forall|j: int| 0 <= j < path.len() implies !white()(#[trigger] command[j]) by {
        assert(command[j] == path[j]);
    }
    if args.len() > 0 {
        assert(command[path.len() as int] == ' ');
        assert(is_white_space(' '));
    }
    lemma_index_where_is(command, white(), path.len() as int);
    assert(executable(command) =~= path);
    lemma_trimmed_between(path, 0, path.len() as int);
    assert(path.subrange(0, path.len() as int) =~= path);
    assert(!path.contains('"'));
    assert(!path.contains('\''));
    lemma_no_trim(path, '"');
    lemma_no_trim(path, '\'');
    lemma_last_piece(dir, name, sep);
}

/// A program counts as Codex by its file name, in any case and wherever it
/// lies, unless it is a helper's or in the app's own folder.
pub proof fn law_codex_by_name(
    dir: Seq<char>,
    name: Seq<char>,
    args: Seq<char>,
    sep: char,
    command: &str,
    r: bool,
)
    requires
        sep == '/' || sep == '\\',
        name.len() > 0,
        forall|i: int| 0 <= i < name.len() ==> #[trigger] name[i] != '/' && name[i] != '\\',
        forall|i: int|
            0 <= i < dir.len() ==> !is_white_space(#[trigger] dir[i]) && dir[i] != '"' && dir[i] != '\'',
        forall|i: int|
            0 <= i < name.len() ==> !is_white_space(#[trigger] name[i]) && name[i] != '"' && name[i] != '\'' && name[i]
                != '.',
        args.len() > 0 ==> !is_white_space(args.last()),
        command@ == (if args.len() > 0 {
            dir + seq![sep] + name + seq![' '] + args
        } else {
            dir + seq![sep] + name
        }),
        !is_of_helper(ascii_lowered(command@)),
        !has_text(ascii_lowered(command@), "/applications/codex.app/"@),
        !has_text(ascii_lowered(command@), "\\codex.app\\"@),
        call_ensures(is_codex_process_command, (command,), r),
    ensures
        r == (ascii_lowered(name) == "codex"@),
{
    assert(r == is_codex_command(command@));
    lemma_program(dir, name, args, sep);
    let lower = ascii_lowered(name);
    reveal_strlit(".exe");
    assert(!".exe"@.is_suffix_of(lower)) by {
        if ".exe"@.is_suffix_of(lower) {
            let k = lower.len() - 4;
            assert(lower.skip(k) =~= ".exe"@);
            assert(lower.skip(k)[0] == lower[k]);
            assert(name[k] != '.');
        }
    }
    assert(program_name(command@) == lower);
    lemma_helper(command@, lower);
}

/// The ending of a Windows program does not count.
pub proof fn law_codex_with_ending(
    dir: Seq<char>,
    name: Seq<char>,
    ending: Seq<char>,
    args: Seq<char>,
    command: &str,
    r: bool,
)
    requires
        forall|i: int|
            0 <= i < dir.len() ==> !is_white_space(#[trigger] dir[i]) && dir[i] != '"' && dir[i] != '\'',
        ascii_lowered(name) == "codex"@,
        ascii_lowered(ending) == ".exe"@,
        args.len() > 0 ==> !is_white_space(args.last()),
        command@ == (if args.len() > 0 {
            dir + seq!['\\'] + (name + ending) + seq![' '] + args
        } else {
            dir + seq!['\\'] + (name + ending)
        }),
        !is_of_helper(ascii_lowered(command@)),
        call_ensures(is_codex_process_command, (command,), r),
    ensures
        r,
{
    assert(r == is_codex_command(command@));
    let file = name + ending;
    reveal_strlit("codex");
    reveal_strlit(".exe");
    assert(ascii_lowered(name).len() == 5 && ascii_lowered(ending).len() == 4);
    assert forall|i: int| 0 <= i < file.len() implies #[trigger] file[i] != '/' && file[i] != '\\' && !is_white_space(
        file[i],
    ) && file[i] != '"' && file[i] != '\'' by {
        if i < 5 {
            assert(file[i] == name[i]);
            assert(ascii_lowered(name)[i] == ascii_lower(name[i]));
            assert("codex"@[i] == ascii_lower(name[i]));
        } else {
            assert(file[i] == ending[i - 5]);
            assert(ascii_lowered(ending)[i - 5] == ascii_lower(ending[i - 5]));
            assert(".exe"@[i - 5] == ascii_lower(ending[i - 5]));
        }
    }
    lemma_program(dir, file, args, '\\');
    let lower = ascii_lowered(file);
    assert(lower =~= "codex"@ + ".exe"@);
    assert(".exe"@.is_suffix_of(lower)) by {
        assert(lower.skip(5) =~= ".exe"@);
    }
    assert(lower.take(5) =~= "codex"@);
    assert(!".exe"@.is_suffix_of("codex"@)) by {
        if ".exe"@.is_suffix_of("codex"@) {
            assert("codex"@.skip(1) =~= ".exe"@);
            assert("codex"@.skip(1)[0] == '.');
        }
    }
    assert(without_suffixes("codex"@, ".exe"@) == "codex"@);
    assert(program_name(command@) == "codex"@);
    lemma_helper(command@, "codex"@);
}

proof fn lemma_helper(command: Seq<char>, name: Seq<char>)
    requires
        !is_of_helper(ascii_lowered(command)),
        command.len() > 0,
        name == program_name(command),
    ensures
        name == "codex"@ ==> !is_helper(ascii_lowered(command), name),
{
    let lower = ascii_lowered(command);
    reveal_strlit("codex");
    reveal_strlit("browser_crashpad_handler");
    reveal_strlit("crashpad_handler");
    assert("codex"@.len() == 5);
    assert("crashpad_handler"@.len() == 16);
    assert("browser_crashpad_handler"@.len() == 24);
    if has_text(lower, "browser_crashpad_handler"@) {
        let i = choose|i: int|
            0 <= i <= lower.len() - 24 && #[trigger] lower.subrange(i, i + 24) == "browser_crashpad_handler"@;
        assert(lower.subrange(i + 8, i + 8 + "crashpad_handler"@.len()) =~= "crashpad_handler"@) by {
            assert forall|j: int| 0 <= j < 16 implies #[trigger] lower.subrange(i + 8, i + 24)[j] == "crashpad_handler"@[j] by {
                assert(lower.subrange(i, i + 24)[8 + j] == "browser_crashpad_handler"@[8 + j]);
            }
        }
        assert(has_text(lower, "crashpad_handler"@));
    }
}

/// What runs out of the app's own folder is Codex, and a helper never is.
pub proof fn law_codex_app(command: &str, r: bool)
    requires
        call_ensures(is_codex_process_command, (command,), r),
    ensures
        has_text(ascii_lowered(command@), "codex api tools"@) ==> !r,
        has_text(ascii_lowered(command@), "codex-api-tools"@) ==> !r,
        has_text(ascii_lowered(command@), "gpt-api-tools"@) ==> !r,
        has_text(ascii_lowered(command@), "codex-tools"@) ==> !r,
        has_text(ascii_lowered(command@), "codex computer use.app"@) ==> !r,
        has_text(ascii_lowered(command@), "skycomputeruseclient"@) ==> !r,
        has_text(ascii_lowered(command@), "crashpad_handler"@) ==> !r,
        has_text(ascii_lowered(command@), "/.vscode/extensions/openai.chatgpt-"@) && has_text(
            ascii_lowered(command@),
            "codex app-server"@,
        ) ==> !r,
        command@.len() == 0 ==> !r,
        r ==> has_text(ascii_lowered(command@), "/applications/codex.app/"@) || has_text(
            ascii_lowered(command@),
            "\\codex.app\\"@,
        ) || program_name(command@) == "codex"@,
{
    assert(r == is_codex_command(command@));
}

/// The decimal digits of a number read as that number.
pub proof fn lemma_decimal_value(n: nat)
    ensures
        digits_value(decimal(n), 10) == Some(n),
        decimal(n).len() > 0,
        forall|i: int| 0 <= i < decimal(n).len() ==> '0' <= #[trigger] decimal(n)[i] <= '9',
    decreases n,
{
    let d = digit(n);
    assert(digit_value(d, 10) == Some(n % 10));
    if n >= 10 {
        lemma_decimal_value(n / 10);
        assert(decimal(n).drop_last() =~= decimal(n / 10));
        assert(decimal(n).last() == d);
        assert(n == (n / 10) * 10 + n % 10);
    } else {
        assert(decimal(n).last() == d);
    }
}

/// A number that is written in decimal reads as itself.
pub proof fn law_number_reads_back(n: u64, written: String, text: &str, max: u64, r: Option<u64>)
    requires
        n <= max,
        call_ensures(decimal_text, (n as u128,), written),
        text@ == written@,
        call_ensures(parse_unsigned, (text, 10, max), r),
    ensures
        r == Some(n),
{
    assert(written@ == decimal(n as nat));
    lemma_decimal_value(n as nat);
    assert(without_plus(written@) == written@);
    assert(unsigned_value(text@, 10, max as nat) == Some(n as nat));
}

proof fn lemma_processes_in(lines: Seq<Seq<char>>, tabbed: bool, own: nat, p: ProcessModel)
    ensures
        processes_in(lines, tabbed, own).contains(p) <==> exists|i: int|
            0 <= i < lines.len() && process_in_line(#[trigger] lines[i], tabbed, own) == Some(p),
    decreases lines.len(),
{
    let all = processes_in(lines, tabbed, own);
    if lines.len() > 0 {
        let rest = lines.drop_last();
        let before = processes_in(rest, tabbed, own);
        lemma_processes_in(rest, tabbed, own, p);
        let last = process_in_line(lines.last(), tabbed, own);
        assert(lines[lines.len() - 1] == lines.last());
        if before.contains(p) {
            let k = choose|k: int| 0 <= k < before.len() && before[k] == p;
            assert(all[k] == p);
            let i = choose|i: int| 0 <= i < rest.len() && process_in_line(#[trigger] rest[i], tabbed, own) == Some(p);
            assert(process_in_line(lines[i], tabbed, own) == Some(p));
        }
        if last is Some {
            assert(all[all.len() - 1] == last->0);
            if all.contains(p) && p != last->0 {
                let k = choose|k: int| 0 <= k < all.len() && all[k] == p;
                assert(before[k] == p);
            }
        }
        if exists|i: int| 0 <= i < lines.len() && process_in_line(#[trigger] lines[i], tabbed, own) == Some(p) {
            let i = choose|i: int| 0 <= i < lines.len() && process_in_line(#[trigger] lines[i], tabbed, own) == Some(p);
            if i < rest.len() {
                assert(rest[i] == lines[i]);
            }
        }
    }
}

proof fn lemma_by_pid_is_order()
    ensures
        is_order(by_pid()),
{
}

/// Of the processes that are listed, those that are Codex are found, but for
/// the one that asks; they come in the order of their numbers.
pub proof fn law_processes_found(
    stdout: &str,
    tabbed: bool,
    own: u32,
    r: Vec<CodexProcess>,
    k: int,
    pid: u32,
    command: &str,
    is_codex: bool,
)
    requires
        call_ensures(detect_codex_processes, (stdout, tabbed, own), r),
        0 <= k < split_where(stdout@, only('\n')).len(),
        split_where(stdout@, only('\n'))[k] == decimal(pid as nat) + seq![
            if tabbed {
                '\t'
            } else {
                ' '
            },
        ] + command@,
        command@.len() > 0,
        trimmed(command@) == command@,
        call_ensures(is_codex_process_command, (command,), is_codex),
    ensures
        is_codex && pid != own ==> exists|i: int|
            0 <= i < r@.len() && (#[trigger] r@[i]).pid == pid && r@[i].command@ == command@,
        forall|i: int| 0 <= i < r@.len() ==> (#[trigger] r@[i]).pid != own,
        forall|i: int, j: int| 0 <= i < j < r@.len() ==> (#[trigger] r@[i]).pid <= (#[trigger] r@[j]).pid,
{
    assert(is_codex == is_codex_command(command@));
    let lines = split_where(stdout@, only('\n'));
    let found = processes_in(lines, tabbed, own as nat);
    let models = process_models(r@);
    assert(models == sorted_by(found, by_pid()));
    lemma_by_pid_is_order();
    law_sorted(found, by_pid());
    assert(forall|i: int| 0 <= i < r@.len() ==> #[trigger] models[i] == r@[i]@);
    let line = lines[k];
    let digits = decimal(pid as nat);
    let gap = if tabbed {
        '\t'
    } else {
        ' '
    };
    lemma_decimal_value(pid as nat);
    lemma_trimmed_parts(command@);
    assert(line[0] == digits[0]);
    assert(line.last() == command@.last());
    assert(!is_white_space(digits[0]));
    lemma_trimmed_between(line, 0, line.len() as int);
    assert(line.subrange(0, line.len() as int) =~= line);
    let p = if tabbed {
        only('\t')
    } else {
        white()
    };
    assert(is_white_space(' ') && is_white_space('\t'));
    assert forall|j: int| 0 <= j < digits.len() implies !p(#[trigger] line[j]) by {
        assert(line[j] == digits[j]);
        assert('0' <= digits[j] <= '9');
    }
    assert(line[digits.len() as int] == gap);
    lemma_index_where_is(line, p, digits.len() as int);
    assert(line.take(digits.len() as int) =~= digits);
    assert(line.skip(digits.len() as int + 1) =~= command@);
    assert('0' <= digits[digits.len() - 1] <= '9');
    lemma_trimmed_between(digits, 0, digits.len() as int);
    assert(digits.subrange(0, digits.len() as int) =~= digits);
    assert(without_plus(digits) == digits);
    if is_codex && pid != own {
        let model = ProcessModel { pid: pid as nat, command: command@ };
        assert(process_in_line(line, tabbed, own as nat) == Some(model));
        lemma_processes_in(lines, tabbed, own as nat, model);
        law_sorted_holds(found, by_pid(), model);
        let i = choose|i: int| 0 <= i < models.len() && models[i] == model;
        assert(r@[i]@ == model);
    }
    assert forall|i: int| 0 <= i < r@.len() implies (#[trigger] r@[i]).pid != own by {
        assert(models.contains(models[i]));
        law_sorted_holds(found, by_pid(), models[i]);
        lemma_processes_in(lines, tabbed, own as nat, models[i]);
    }
    assert forall|i: int, j: int| 0 <= i < j < r@.len() implies (#[trigger] r@[i]).pid <= (#[trigger] r@[j]).pid by {
        assert(by_pid()(models[i], models[j]));
    }
}

/// A write goes on exactly when it is certain that no process of Codex runs.
pub proof fn law_write_waits(action: &str, detected: Result<Vec<CodexProcess>, String>, r: Result<(), String>)
    requires
        call_ensures(ensure_codex_stopped_for_write, (action, &detected), r),
    ensures
        r is Ok <==> (detected matches Ok(processes) && processes@.len() == 0),
{
}

/// Codex is asked to end exactly when a process of it runs, and what is left
/// afterwards is told as still running.
pub proof fn law_quit(
    before: Result<Vec<CodexProcess>, String>,
    step: Result<QuitStep, String>,
    commands: Vec<String>,
    after: Result<Vec<CodexProcess>, String>,
    r: Result<QuitCodexResult, String>,
)
    requires
        call_ensures(quit_first_step, (&before,), step),
        call_ensures(try_quit_codex, (commands, after), r),
    ensures
        step is Err <==> before is Err,
        (step matches Ok(QuitStep::Ask)) <==> (before matches Ok(processes) && processes@.len() > 0),
        step matches Ok(QuitStep::Done(result)) ==> !result.attempted && !result.still_running,
        r is Err <==> after is Err,
        r matches Ok(result) ==> result.attempted && (after matches Ok(processes) && result.processes == processes && (
        result.still_running <==> processes@.len() > 0)) && result.commands == commands,
{
}

/// A program in quotes is the one that the quotes hold, spaces and all.
pub proof fn law_quoted_program(path: Seq<char>, rest: Seq<char>, command: &str, r: &str)
    requires
        path.len() > 0,
        !path.contains('"'),
        command@ == seq!['"'] + path + seq!['"'] + rest,
        rest.len() > 0 ==> !is_white_space(rest.last()),
        call_ensures(command_executable, (command,), r),
    ensures
        r@ == path,
{
    let s = command@;
    assert(r@ == executable(s));
    if rest.len() > 0 {
        assert(s.last() == rest.last());
    } else {
        assert(s.last() == '"');
    }
    lemma_trimmed_between(s, 0, s.len() as int);
    assert(s.subrange(0, s.len() as int) =~= s);
    let inner = s.skip(1);
    let n = path.len() as int;
    assert forall|j: int| 0 <= j < n implies !only('"')(#[trigger] inner[j]) by {
        assert(inner[j] == path[j]);
        assert(path.contains(path[j]));
    }
    assert(inner[n] == '"');
    lemma_index_where_is(inner, only('"'), n);
    assert(inner.take(n) =~= path);
}

/// A number below nought is read behind its sign.
pub proof fn law_signed_reads_back(n: u64, text: &str, r: Option<i64>)
    requires
        n <= 9223372036854775807,
        text@ == seq!['-'] + decimal(n as nat) || text@ == decimal(n as nat),
        call_ensures(parse_signed, (text,), r),
    ensures
        text@ == seq!['-'] + decimal(n as nat) ==> (r matches Some(m) && m == -(n as int)),
        text@ == decimal(n as nat) ==> (r matches Some(m) && m == n),
{
    lemma_decimal_value(n as nat);
    assert(r is Some == signed_value(text@) is Some);
    if text@ == decimal(n as nat) {
        assert('0' <= decimal(n as nat)[0] <= '9');
        assert(without_plus(text@) == text@);
    } else {
        assert(text@.skip(1) =~= decimal(n as nat));
    }
}

} // verus!
