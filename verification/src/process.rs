//! The processes of Codex: telling them from others, and refusing to write
//! while one runs.

use vstd::prelude::*;

use crate::config::begins;
use crate::number::{parse_unsigned, unsigned_value};
use crate::order::{insert_ordered, sort_with, sorted_by};
use crate::text::{
    after_first, ascii_lower, ascii_lowered, chars_of, contains, decides, decimal, decimal_text, ends_with,
    has_text, index_where, is_whitespace, join, joined, kept_len, lead_len, lemma_index_where,
    lemma_index_where_is, lemma_kept_len, lemma_kept_len_is, lemma_lead_len, lemma_lead_len_is,
    lemma_split_where_nonempty, only, same, split_by, split_char, split_where, starts_with_char, texts,
    to_ascii_lowercase, trim, trim_char, trim_start_where, trim_where, trimmed, white,
};

verus! {

/// A running process of Codex.
pub struct CodexProcess {
    pub pid: u32,
    pub command: String,
}

/// A process, as mathematical values.
pub struct ProcessModel {
    pub pid: nat,
    pub command: Seq<char>,
}

impl View for CodexProcess {
    type V = ProcessModel;

    open spec fn view(&self) -> ProcessModel {
        ProcessModel { pid: self.pid as nat, command: self.command@ }
    }
}

pub open spec fn process_models(s: Seq<CodexProcess>) -> Seq<ProcessModel> {
    s.map_values(|p: CodexProcess| p@)
}

/// What stands before the first character of `p`, or all.
pub open spec fn until(s: Seq<char>, p: spec_fn(char) -> bool) -> Seq<char> {
    s.take(index_where(s, p) as int)
}

/// The program that a command line runs: what the quotes at its start hold,
/// or its first word.
pub open spec fn executable(command: Seq<char>) -> Seq<char> {
    let t = trimmed(command);
    if begins(t, '"') {
        until(t.skip(1), only('"'))
    } else if begins(t, '\'') {
        until(t.skip(1), only('\''))
    } else {
        until(t, white())
    }
}

/// The separators of a path.
pub open spec fn separators() -> spec_fn(char) -> bool {
    |c: char| c == '/' || c == '\\'
}

/// The last of the pieces of a path.
pub open spec fn last_piece(path: Seq<char>) -> Seq<char> {
    split_where(path, separators()).last()
}

/// The name of a program in lower case, without its directories.
pub open spec fn file_name(program: Seq<char>) -> Seq<char> {
    ascii_lowered(last_piece(trim_where(trim_where(trimmed(program), only('"')), only('\''))))
}

/// `s` without each `suffix` at its end.
pub open spec fn without_suffixes(s: Seq<char>, suffix: Seq<char>) -> Seq<char>
    decreases s.len(),
{
    if suffix.len() > 0 && suffix.is_suffix_of(s) {
        without_suffixes(s.take(s.len() - suffix.len()), suffix)
    } else {
        s
    }
}

/// The name of the program that a command line runs.
pub open spec fn program_name(command: Seq<char>) -> Seq<char> {
    without_suffixes(file_name(executable(command)), ".exe"@)
}

/// Whether a command line, in lower case, is that of a program which is not
/// Codex, though it holds its name.
pub open spec fn is_helper(lower: Seq<char>, name: Seq<char>) -> bool {
    ||| lower.len() == 0
    ||| has_text(lower, "codex api tools"@)
    ||| has_text(lower, "codex-api-tools"@)
    ||| has_text(lower, "gpt-api-tools"@)
    ||| has_text(lower, "codex-tools"@)
    ||| has_text(lower, "codex computer use.app"@)
    ||| has_text(lower, "skycomputeruseclient"@)
    ||| has_text(lower, "browser_crashpad_handler"@)
    ||| has_text(lower, "crashpad_handler"@)
    ||| name == "browser_crashpad_handler"@
    ||| name == "crashpad_handler"@
    ||| has_text(lower, "/.vscode/extensions/openai.chatgpt-"@) && has_text(lower, "codex app-server"@)
}

/// Whether a command line is that of Codex.
pub open spec fn is_codex_command(command: Seq<char>) -> bool {
    let lower = ascii_lowered(command);
    let name = program_name(command);
    !is_helper(lower, name) && (has_text(lower, "/applications/codex.app/"@) || has_text(lower, "\\codex.app\\"@)
        || name == "codex"@)
}

fn take_until<'a, F: Fn(char) -> bool>(s: &'a str, f: F, Ghost(p): Ghost<spec_fn(char) -> bool>) -> (r: &'a str)
    requires
        decides(f, p),
    ensures
        r@ == until(s@, p),
{
    let chars = chars_of(s);
    let mut i: usize = 0;
    while i < chars.len() && !f(chars[i])
        invariant
            decides(f, p),
            chars@ == s@,
            i <= chars@.len(),
            forall|j: int| 0 <= j < i ==> !p(#[trigger] chars@[j]),
        ensures
            i <= chars@.len(),
            forall|j: int| 0 <= j < i ==> !p(#[trigger] chars@[j]),
            i < chars@.len() ==> p(chars@[i as int]),
        decreases chars@.len() - i,
    {
        i += 1;
    }
    proof {
        lemma_index_where_is(s@, p, i as int);
    }
    let r = s.substring_char(0, i);
    assert(r@ =~= s@.take(i as int));
    r
}

fn before_char<'a>(s: &'a str, c: char) -> (r: &'a str)
    ensures
        r@ == until(s@, only(c)),
{
    let f = |x: char| -> (b: bool)
        ensures
            b == only(c)(x),
        { x == c };
    take_until(s, f, Ghost(only(c)))
}

fn first_word<'a>(s: &'a str) -> (r: &'a str)
    ensures
        r@ == until(s@, white()),
{
    let f = |x: char| -> (b: bool)
        ensures
            b == white()(x),
        { is_whitespace(x) };
    take_until(s, f, Ghost(white()))
}

pub fn command_executable<'a>(command: &'a str) -> (r: &'a str)
    ensures
        r@ == executable(command@),
{
    let t = trim(command);
    if starts_with_char(t, '"') {
        return before_char(after_first(t), '"');
    }
    if starts_with_char(t, '\'') {
        return before_char(after_first(t), '\'');
    }
    first_word(t)
}

pub fn executable_file_name(executable: &str) -> (r: String)
    ensures
        r@ == file_name(executable@),
{
    let bare = trim_char(trim_char(trim(executable), '"'), '\'');
    let f = |x: char| -> (b: bool)
        ensures
            b == separators()(x),
        { x == '/' || x == '\\' };
    let pieces = split_by(bare, f, Ghost(separators()));
    proof {
        lemma_split_where_nonempty(bare@, separators());
    }
    let n: usize = pieces.len();
    assert(texts(pieces@).len() == pieces@.len());
    assert(texts(pieces@).last() == pieces@[n - 1]@);
    to_ascii_lowercase(pieces[n - 1].as_str())
}

fn strip_suffixes<'a>(s: &'a str, suffix: &str) -> (r: &'a str)
    ensures
        r@ == without_suffixes(s@, suffix@),
    decreases s@.len(),
{
    if !suffix.is_empty() && ends_with(s, suffix) {
        let n: usize = chars_of(s).len();
        let k: usize = chars_of(suffix).len();
        let rest = s.substring_char(0, n - k);
        assert(rest@ =~= s@.take(s@.len() - suffix@.len()));
        strip_suffixes(rest, suffix)
    } else {
        s
    }
}

/// Whether a command line is that of Codex.
pub fn is_codex_process_command(command: &str) -> (r: bool)
    ensures
        r == is_codex_command(command@),
{
    let lowered = to_ascii_lowercase(command);
    let lower = lowered.as_str();
    let whole = executable_file_name(command_executable(command));
    let name = strip_suffixes(whole.as_str(), ".exe");
    if lower.is_empty() || contains(lower, "codex api tools") || contains(lower, "codex-api-tools") || contains(
        lower,
        "gpt-api-tools",
    ) || contains(lower, "codex-tools") || contains(lower, "codex computer use.app") || contains(
        lower,
        "skycomputeruseclient",
    ) || contains(lower, "browser_crashpad_handler") || contains(lower, "crashpad_handler") || same(
        name,
        "browser_crashpad_handler",
    ) || same(name, "crashpad_handler") || (contains(lower, "/.vscode/extensions/openai.chatgpt-") && contains(
        lower,
        "codex app-server",
    )) {
        return false;
    }
    if contains(lower, "/applications/codex.app/") || contains(lower, "\\codex.app\\") {
        return true;
    }
    same(name, "codex")
}

/// A line of the process list, split into the process id and the command.
pub open spec fn process_fields(line: Seq<char>, tabbed: bool) -> Option<(Seq<char>, Seq<char>)> {
    let t = trimmed(line);
    let i = index_where(
        t,
        if tabbed {
            only('\t')
        } else {
            white()
        },
    ) as int;
    if i < t.len() {
        Some((trimmed(t.take(i)), trimmed(t.skip(i + 1))))
    } else {
        None
    }
}

/// The process of Codex that a line of the process list shows, if it does.
/// The process `own` does not count.
pub open spec fn process_in_line(line: Seq<char>, tabbed: bool, own: nat) -> Option<ProcessModel> {
    match process_fields(line, tabbed) {
        Some((pid_text, command)) => match unsigned_value(pid_text, 10, u32::MAX as nat) {
            Some(pid) => if pid != own && is_codex_command(command) {
                Some(ProcessModel { pid, command })
            } else {
                None
            },
            None => None,
        },
        None => None,
    }
}

/// The processes of Codex that the lines show, in order.
pub open spec fn processes_in(lines: Seq<Seq<char>>, tabbed: bool, own: nat) -> Seq<ProcessModel>
    decreases lines.len(),
{
    if lines.len() == 0 {
        Seq::empty()
    } else {
        let before = processes_in(lines.drop_last(), tabbed, own);
        match process_in_line(lines.last(), tabbed, own) {
            Some(p) => before.push(p),
            None => before,
        }
    }
}

/// The order of processes by their ids.
pub open spec fn by_pid() -> spec_fn(ProcessModel, ProcessModel) -> bool {
    |a: ProcessModel, b: ProcessModel| a.pid <= b.pid
}

fn line_process(line: &str, tabbed: bool, own: u32) -> (r: Option<CodexProcess>)
    ensures
        match r {
            Some(p) => process_in_line(line@, tabbed, own as nat) == Some(p@),
            None => process_in_line(line@, tabbed, own as nat) is None,
        },
{
    let t = trim(line);
    let head = if tabbed {
        before_char(t, '\t')
    } else {
        first_word(t)
    };
    proof {
        lemma_index_where(t@, only('\t'));
        lemma_index_where(t@, white());
    }
    let n: usize = chars_of(t).len();
    let k: usize = chars_of(head).len();
    if k >= n {
        return None;
    }
    let tail = t.substring_char(k + 1, n);
    assert(tail@ =~= t@.skip(k + 1));
    let command = trim(tail);
    match parse_unsigned(trim(head), 10, 4294967295) {
        Some(pid) => {
            let pid: u32 = pid as u32;
            if pid == own || !is_codex_process_command(command) {
                None
            } else {
                Some(CodexProcess { pid, command: command.to_owned() })
            }
        },
        None => None,
    }
}

/// Putting a process in its place among processes in order.
proof fn lemma_insert_process(s: Seq<CodexProcess>, x: CodexProcess)
    ensures
        process_models(insert_ordered(s, x, by_process_id())) == insert_ordered(process_models(s), x@, by_pid()),
    decreases s.len(),
{
    if s.len() == 0 {
        assert(process_models(s.push(x)) =~= process_models(s).push(x@));
    } else {
        assert(process_models(s).last() == s.last()@);
        if s.last().pid <= x.pid {
            assert(process_models(s.push(x)) =~= process_models(s).push(x@));
        } else {
            lemma_insert_process(s.drop_last(), x);
            assert(process_models(s).drop_last() =~= process_models(s.drop_last()));
            let inner = insert_ordered(s.drop_last(), x, by_process_id());
            assert(process_models(inner.push(s.last())) =~= process_models(inner).push(s.last()@));
        }
    }
}

proof fn lemma_sort_processes(s: Seq<CodexProcess>)
    ensures
        process_models(sorted_by(s, by_process_id())) == sorted_by(process_models(s), by_pid()),
    decreases s.len(),
{
    if s.len() == 0 {
        assert(process_models(s) =~= Seq::empty());
    } else {
        lemma_sort_processes(s.drop_last());
        assert(process_models(s).drop_last() =~= process_models(s.drop_last()));
        assert(process_models(s).last() == s.last()@);
        lemma_insert_process(sorted_by(s.drop_last(), by_process_id()), s.last());
    }
}

pub open spec fn by_process_id() -> spec_fn(CodexProcess, CodexProcess) -> bool {
    |a: CodexProcess, b: CodexProcess| a.pid <= b.pid
}

/// The processes of Codex in the text of a process list, in the order of
/// their ids. Process id and command are parted by a tab or by white space.
pub fn detect_codex_processes(stdout: &str, tabbed: bool, own: u32) -> (r: Vec<CodexProcess>)
    ensures
        process_models(r@) == sorted_by(
            processes_in(split_where(stdout@, only('\n')), tabbed, own as nat),
            by_pid(),
        ),
{
    let lines = split_char(stdout, '\n');
    let ghost all = texts(lines@);
    let mut found: Vec<CodexProcess> = Vec::new();
    assert(process_models(found@) =~= Seq::empty());
    for i in 0..lines.len()
        invariant
            all == texts(lines@),
            process_models(found@) == processes_in(all.take(i as int), tabbed, own as nat),
    {
        assert(all.take(i + 1).drop_last() =~= all.take(i as int));
        assert(all[i as int] == lines@[i as int]@);
        let ghost before = found@;
        if let Some(p) = line_process(lines[i].as_str(), tabbed, own) {
            let ghost model = p@;
            found.push(p);
            assert(process_models(found@) =~= process_models(before).push(model));
        }
    }
    assert(all.take(all.len() as int) =~= all);
    proof {
        lemma_sort_processes(found@);
    }
    let f = |a: &CodexProcess, b: &CodexProcess| -> (r: bool)
        ensures
            r == by_process_id()(*a, *b),
        { a.pid <= b.pid };
    sort_with(found, f, Ghost(by_process_id()))
}

/// A number with its sign.
pub open spec fn signed_decimal(n: int) -> Seq<char> {
    if n < 0 {
        "-"@ + decimal((-n) as nat)
    } else {
        decimal(n as nat)
    }
}

pub fn signed_text(n: i64) -> (r: String)
    ensures
        r@ == signed_decimal(n as int),
{
    if n < 0 {
        let wide: i128 = -(n as i128);
        "-".to_owned().concat(decimal_text(wide as u128).as_str())
    } else {
        decimal_text(n as u128)
    }
}

/// What to tell of a process list that could not be had: what the command
/// said, or else its exit code.
pub open spec fn detection_failure(stderr: Seq<char>, stdout: Seq<char>, code: Option<i32>) -> Seq<char> {
    "Codex 进程检测命令失败："@ + (if trimmed(stderr).len() > 0 {
        trimmed(stderr)
    } else if trimmed(stdout).len() > 0 {
        trimmed(stdout)
    } else {
        "退出码 "@ + (match code {
            Some(n) => "Some("@ + signed_decimal(n as int) + ")"@,
            None => "None"@,
        })
    })
}

pub fn detection_failure_text(stderr: &str, stdout: &str, code: Option<i32>) -> (r: String)
    ensures
        r@ == detection_failure(stderr@, stdout@, code),
{
    let error = trim(stderr);
    let output = trim(stdout);
    let detail = if !error.is_empty() {
        error.to_owned()
    } else if !output.is_empty() {
        output.to_owned()
    } else {
        let shown = match code {
            Some(n) => "Some(".to_owned().concat(signed_text(n as i64).as_str()).concat(")"),
            None => "None".to_owned(),
        };
        "退出码 ".to_owned().concat(shown.as_str())
    };
    "Codex 进程检测命令失败：".to_owned().concat(detail.as_str())
}

/// A process, as it is told.
pub open spec fn process_text(p: ProcessModel) -> Seq<char> {
    decimal(p.pid) + " "@ + p.command
}

/// The first five of the processes.
pub open spec fn first_five(processes: Seq<ProcessModel>) -> Seq<ProcessModel> {
    if processes.len() > 5 {
        processes.take(5)
    } else {
        processes
    }
}

/// Why nothing is written while processes of Codex run.
pub open spec fn running_reason(action: Seq<char>, processes: Seq<ProcessModel>) -> Seq<char> {
    action + " 前必须完全退出 Codex App、Codex CLI 和 app-server。当前仍检测到 "@ + decimal(processes.len()) + " 个相关进程："@
        + joined(first_five(processes).map_values(|p: ProcessModel| process_text(p)), "; "@)
}

/// Why nothing is written where the processes are not known.
pub open spec fn unknown_reason(action: Seq<char>, error: Seq<char>) -> Seq<char> {
    action
        + " 前无法确认 Codex 是否已完全退出。请手动关闭 Codex App、Codex CLI 和 app-server 后重试。检测错误："@ + error
}

/// Allows a write only if it is known that no process of Codex runs.
pub fn ensure_codex_stopped_for_write(action: &str, detected: &Result<Vec<CodexProcess>, String>) -> (r: Result<
    (),
    String,
>)
    ensures
        match *detected {
            Err(error) => r matches Err(e) && e@ == unknown_reason(action@, error@),
            Ok(processes) => if processes@.len() == 0 {
                r is Ok
            } else {
                r matches Err(e) && e@ == running_reason(action@, process_models(processes@))
            },
        },
{
    match detected {
        Err(error) => Err(
            action.to_owned().concat(
                " 前无法确认 Codex 是否已完全退出。请手动关闭 Codex App、Codex CLI 和 app-server 后重试。检测错误：",
            ).concat(error.as_str()),
        ),
        Ok(processes) => {
            let total: usize = processes.len();
            if total == 0 {
                return Ok(());
            }
            let n: usize = if total > 5 {
                5
            } else {
                total
            };
            let ghost models = first_five(process_models(processes@));
            let ghost shown = models.map_values(|p: ProcessModel| process_text(p));
            let mut parts: Vec<String> = Vec::new();
            for i in 0..n
                invariant
                    n <= processes@.len(),
                    models.len() == n,
                    forall|k: int| 0 <= k < n ==> #[trigger] models[k] == processes@[k]@,
                    shown == models.map_values(|p: ProcessModel| process_text(p)),
                    texts(parts@) == shown.take(i as int),
            {
                let ghost before = texts(parts@);
                let part = decimal_text(processes[i].pid as u128).concat(" ").concat(processes[i].command.as_str());
                parts.push(part);
                assert(shown[i as int] == process_text(models[i as int]));
                assert(texts(parts@) =~= before.push(shown[i as int]));
                assert(shown.take(i + 1) =~= shown.take(i as int).push(shown[i as int]));
            }
            assert(shown.take(shown.len() as int) =~= shown);
            Err(
                action.to_owned().concat(
                    " 前必须完全退出 Codex App、Codex CLI 和 app-server。当前仍检测到 ",
                ).concat(decimal_text(total as u128).as_str()).concat(" 个相关进程：").concat(
                    join(parts.as_slice(), "; ").as_str(),
                ),
            )
        },
    }
}

/// What was done to end the processes of Codex.
pub struct QuitCodexResult {
    pub attempted: bool,
    pub commands: Vec<String>,
    pub still_running: bool,
    pub processes: Vec<CodexProcess>,
    pub message: String,
}

/// What is to be done first to end the processes of Codex.
pub enum QuitStep {
    /// No process runs: this is the result.
    Done(QuitCodexResult),
    /// Processes run: ask them to end, and look again.
    Ask,
}

/// Decides from the processes that run whether any is asked to end.
pub fn quit_first_step(before: &Result<Vec<CodexProcess>, String>) -> (r: Result<QuitStep, String>)
    ensures
        match *before {
            Err(error) => r matches Err(e) && e@
                == "无法检测 Codex 是否正在运行。请手动完全关闭 Codex 后再重试。检测错误："@ + error@,
            Ok(processes) => if processes@.len() == 0 {
                r matches Ok(QuitStep::Done(result)) && {
                    &&& !result.attempted
                    &&& result.commands@.len() == 0
                    &&& !result.still_running
                    &&& result.processes@.len() == 0
                    &&& result.message@
                        == "未检测到 Codex App / Codex CLI / app-server，可以写入配置和历史索引。"@
                }
            } else {
                r matches Ok(QuitStep::Ask)
            },
        },
{
    match before {
        Err(error) => Err(
            "无法检测 Codex 是否正在运行。请手动完全关闭 Codex 后再重试。检测错误：".to_owned().concat(
                error.as_str(),
            ),
        ),
        Ok(processes) => {
            if processes.len() > 0 {
                return Ok(QuitStep::Ask);
            }
            Ok(
                QuitStep::Done(
                    QuitCodexResult {
                        attempted: false,
                        commands: Vec::new(),
                        still_running: false,
                        processes: Vec::new(),
                        message: "未检测到 Codex App / Codex CLI / app-server，可以写入配置和历史索引。".to_owned(),
                    },
                ),
            )
        },
    }
}

pub open spec fn quit_message(left: nat) -> Seq<char> {
    if left > 0 {
        "已尝试退出 Codex，但仍检测到 "@ + decimal(left)
            + " 个相关进程。请手动完全关闭 Codex App、Codex CLI 和 app-server 后再写入。"@
    } else {
        "已请求 Codex 退出，当前未检测到相关进程。可以勾选确认后写入。"@
    }
}

/// The result after the commands were run and the processes looked up again.
pub fn try_quit_codex(commands: Vec<String>, after: Result<Vec<CodexProcess>, String>) -> (r: Result<
    QuitCodexResult,
    String,
>)
    ensures
        match after {
            Err(error) => r matches Err(e) && e@
                == "已尝试退出 Codex，但无法确认是否已完全退出。请手动完全关闭 Codex 后再写入。检测错误："@ + error@,
            Ok(processes) => r matches Ok(result) && {
                &&& result.attempted
                &&& result.commands == commands
                &&& result.still_running == (processes@.len() > 0)
                &&& result.processes == processes
                &&& result.message@ == quit_message(processes@.len())
            },
        },
{
    match after {
        Err(error) => Err(
            "已尝试退出 Codex，但无法确认是否已完全退出。请手动完全关闭 Codex 后再写入。检测错误：".to_owned().concat(
                error.as_str(),
            ),
        ),
        Ok(processes) => {
            let n: usize = processes.len();
            let message = if n > 0 {
                "已尝试退出 Codex，但仍检测到 ".to_owned().concat(decimal_text(n as u128).as_str()).concat(
                    " 个相关进程。请手动完全关闭 Codex App、Codex CLI 和 app-server 后再写入。",
                )
            } else {
                "已请求 Codex 退出，当前未检测到相关进程。可以勾选确认后写入。".to_owned()
            };
            Ok(QuitCodexResult { attempted: true, commands, still_running: n > 0, processes, message })
        },
    }
}

/// The lines that tell what was done to end the processes of Codex.
pub open spec fn quit_lines(result: QuitCodexResult) -> Seq<Seq<char>> {
    seq![result.message@] + (if result.commands@.len() > 0 {
        seq!["Commands: "@ + joined(texts(result.commands@), "; "@)]
    } else {
        Seq::empty()
    }) + (if result.processes@.len() > 0 {
        seq!["仍有 "@ + decimal(result.processes@.len()) + " 个 Codex 相关进程，请手动完全退出后再继续。"@]
    } else {
        Seq::empty()
    })
}

pub fn quit_codex_text(result: QuitCodexResult) -> (r: String)
    ensures
        r@ == joined(quit_lines(result), "\n"@),
{
    let ghost shown = quit_lines(result);
    let mut lines: Vec<String> = Vec::new();
    lines.push(result.message);
    if result.commands.len() > 0 {
        lines.push("Commands: ".to_owned().concat(join(result.commands.as_slice(), "; ").as_str()));
    }
    if result.processes.len() > 0 {
        lines.push(
            "仍有 ".to_owned().concat(decimal_text(result.processes.len() as u128).as_str()).concat(
                " 个 Codex 相关进程，请手动完全退出后再继续。",
            ),
        );
    }
    assert(texts(lines@) =~= shown);
    join(lines.as_slice(), "\n")
}

/// The systems that end the processes of Codex in different ways.
#[derive(Clone, Copy, PartialEq, Eq, Structural)]
pub enum System {
    MacOs,
    Windows,
    Other,
}

/// The commands that ask the processes of Codex to end, as they are told.
pub open spec fn quit_commands(system: System) -> Seq<Seq<char>> {
    match system {
        System::MacOs => seq!["osascript -e 'tell application \"Codex\" to quit'"@],
        System::Windows => seq!["taskkill /IM Codex.exe"@, "taskkill /IM codex.exe"@],
        System::Other => seq!["pkill -TERM -f 'codex app-server'"@],
    }
}

pub fn quit_command_texts(system: System) -> (r: Vec<String>)
    ensures
        texts(r@) == quit_commands(system),
{
    let mut out: Vec<String> = Vec::new();
    match system {
        System::MacOs => {
            out.push("osascript -e 'tell application \"Codex\" to quit'".to_owned());
        },
        System::Windows => {
            out.push("taskkill /IM Codex.exe".to_owned());
            out.push("taskkill /IM codex.exe".to_owned());
        },
        System::Other => {
            out.push("pkill -TERM -f 'codex app-server'".to_owned());
        },
    }
    assert(texts(out@) =~= quit_commands(system));
    out
}

/// No command line that names this tool is taken for Codex.
pub proof fn law_own_tool_is_not_codex(command: Seq<char>)
    requires
        has_text(ascii_lowered(command), "codex-tools"@) || has_text(ascii_lowered(command), "codex-api-tools"@)
            || has_text(ascii_lowered(command), "codex api tools"@),
    ensures
        !is_codex_command(command),
{
}

/// `s` with the letters a to z in upper case.
pub open spec fn ascii_uppered(s: Seq<char>) -> Seq<char> {
    s.map_values(
        |c: char|
            if 'a' <= c <= 'z' {
                (c as u32 - 32) as char
            } else {
                c
            },
    )
}

/// Whether two texts differ in nothing but the case of the letters A to Z.
pub open spec fn same_but_case(a: Seq<char>, b: Seq<char>) -> bool {
    ascii_lowered(a) == ascii_lowered(b)
}

/// A set of characters that holds both cases of a letter or neither.
pub open spec fn is_caseless(p: spec_fn(char) -> bool) -> bool {
    forall|c: char| #[trigger] p(ascii_lower(c)) == p(c)
}

proof fn lemma_lower(c: char)
    ensures
        'A' <= c <= 'Z' ==> 'a' <= ascii_lower(c) <= 'z',
        !('A' <= c <= 'Z') ==> ascii_lower(c) == c,
{
}

proof fn lemma_caseless_sets()
    ensures
        is_caseless(white()),
        is_caseless(separators()),
        is_caseless(only('"')),
        is_caseless(only('\'')),
{
    assert forall|c: char| #[trigger] white()(ascii_lower(c)) == white()(c) by {
        lemma_lower(c);
    }
    assert forall|c: char| #[trigger] separators()(ascii_lower(c)) == separators()(c) by {
        lemma_lower(c);
    }
    assert forall|c: char| #[trigger] only('"')(ascii_lower(c)) == only('"')(c) by {
        lemma_lower(c);
    }
    assert forall|c: char| #[trigger] only('\'')(ascii_lower(c)) == only('\'')(c) by {
        lemma_lower(c);
    }
}

proof fn lemma_case_at(a: Seq<char>, b: Seq<char>)
    requires
        same_but_case(a, b),
    ensures
        a.len() == b.len(),
        forall|i: int| 0 <= i < a.len() ==> ascii_lower(#[trigger] a[i]) == ascii_lower(b[i]),
{
    assert(ascii_lowered(a).len() == a.len() && ascii_lowered(b).len() == b.len());
    assert forall|i: int| 0 <= i < a.len() implies ascii_lower(#[trigger] a[i]) == ascii_lower(b[i]) by {
        assert(ascii_lowered(a)[i] == ascii_lower(a[i]) && ascii_lowered(b)[i] == ascii_lower(b[i]));
    }
}

proof fn lemma_case_part(a: Seq<char>, b: Seq<char>, from: int, to: int)
    requires
        same_but_case(a, b),
        0 <= from <= to <= a.len(),
    ensures
        same_but_case(a.subrange(from, to), b.subrange(from, to)),
{
    lemma_case_at(a, b);
    assert(ascii_lowered(a.subrange(from, to)) =~= ascii_lowered(b.subrange(from, to)));
}

/// Whether a character is in such a set is the same in both texts.
proof fn lemma_case_decides(a: Seq<char>, b: Seq<char>, p: spec_fn(char) -> bool)
    requires
        same_but_case(a, b),
        is_caseless(p),
    ensures
        a.len() == b.len(),
        forall|i: int| 0 <= i < a.len() ==> p(#[trigger] a[i]) == p(b[i]),
{
    lemma_case_at(a, b);
    assert forall|i: int| 0 <= i < a.len() implies p(#[trigger] a[i]) == p(b[i]) by {
        assert(p(ascii_lower(a[i])) == p(a[i]));
        assert(p(ascii_lower(b[i])) == p(b[i]));
    }
}

proof fn lemma_case_until(a: Seq<char>, b: Seq<char>, p: spec_fn(char) -> bool)
    requires
        same_but_case(a, b),
        is_caseless(p),
    ensures
        same_but_case(until(a, p), until(b, p)),
{
    lemma_case_decides(a, b, p);
    lemma_index_where(a, p);
    let i = index_where(a, p) as int;
    assert forall|j: int| 0 <= j < i implies !p(#[trigger] b[j]) by {
        assert(p(a[j]) == p(b[j]));
    }
    if i < a.len() {
        assert(p(a[i]) == p(b[i]));
    }
    lemma_index_where_is(b, p, i);
    lemma_case_part(a, b, 0, i);
    assert(a.take(i) =~= a.subrange(0, i));
    assert(b.take(i) =~= b.subrange(0, i));
}

proof fn lemma_case_trim(a: Seq<char>, b: Seq<char>, p: spec_fn(char) -> bool)
    requires
        same_but_case(a, b),
        is_caseless(p),
    ensures
        same_but_case(trim_where(a, p), trim_where(b, p)),
{
    lemma_case_decides(a, b, p);
    lemma_lead_len(a, p);
    let lead = lead_len(a, p) as int;
    assert forall|j: int| 0 <= j < lead implies p(#[trigger] b[j]) by {
        assert(p(a[j]) == p(b[j]));
    }
    if lead < a.len() {
        assert(p(a[lead]) == p(b[lead]));
    }
    lemma_lead_len_is(b, p, lead);
    let x = trim_start_where(a, p);
    let y = trim_start_where(b, p);
    lemma_case_part(a, b, lead, a.len() as int);
    assert(x =~= a.subrange(lead, a.len() as int));
    assert(y =~= b.subrange(lead, b.len() as int));
    lemma_case_decides(x, y, p);
    lemma_kept_len(x, p);
    let n = kept_len(x, p) as int;
    assert forall|j: int| n <= j < y.len() implies p(#[trigger] y[j]) by {
        assert(p(x[j]) == p(y[j]));
    }
    if n > 0 {
        assert(p(x[n - 1]) == p(y[n - 1]));
    }
    lemma_kept_len_is(y, p, n);
    lemma_case_part(x, y, 0, n);
    assert(x.take(n) =~= x.subrange(0, n));
    assert(y.take(n) =~= y.subrange(0, n));
}

proof fn lemma_case_last_piece(a: Seq<char>, b: Seq<char>)
    requires
        same_but_case(a, b),
    ensures
        same_but_case(last_piece(a), last_piece(b)),
    decreases a.len(),
{
    lemma_caseless_sets();
    lemma_case_decides(a, b, separators());
    lemma_index_where(a, separators());
    let i = index_where(a, separators()) as int;
    let n = a.len() as int;
    assert forall|j: int| 0 <= j < i implies !separators()(#[trigger] b[j]) by {
        assert(separators()(a[j]) == separators()(b[j]));
    }
    if i < n {
        assert(separators()(a[i]) == separators()(b[i]));
    }
    lemma_index_where_is(b, separators(), i);
    if i < n {
        lemma_case_part(a, b, i + 1, n);
        assert(a.skip(i + 1) =~= a.subrange(i + 1, n));
        assert(b.skip(i + 1) =~= b.subrange(i + 1, n));
        lemma_case_last_piece(a.skip(i + 1), b.skip(i + 1));
        lemma_split_where_nonempty(a.skip(i + 1), separators());
        lemma_split_where_nonempty(b.skip(i + 1), separators());
        assert(last_piece(a) == last_piece(a.skip(i + 1)));
        assert(last_piece(b) == last_piece(b.skip(i + 1)));
    }
}

proof fn lemma_case_executable(a: Seq<char>, b: Seq<char>)
    requires
        same_but_case(a, b),
    ensures
        same_but_case(executable(a), executable(b)),
{
    lemma_caseless_sets();
    let x = trimmed(a);
    let y = trimmed(b);
    lemma_case_trim(a, b, white());
    lemma_case_decides(x, y, only('"'));
    lemma_case_decides(x, y, only('\''));
    if x.len() > 0 {
        assert(only('"')(x[0]) == only('"')(y[0]));
        assert(only('\'')(x[0]) == only('\'')(y[0]));
        lemma_case_part(x, y, 1, x.len() as int);
        assert(x.skip(1) =~= x.subrange(1, x.len() as int));
        assert(y.skip(1) =~= y.subrange(1, y.len() as int));
        lemma_case_until(x.skip(1), y.skip(1), only('"'));
        lemma_case_until(x.skip(1), y.skip(1), only('\''));
    }
    lemma_case_until(x, y, white());
}

/// The case of the letters A to Z never decides whether a command line is
/// that of Codex.
pub proof fn law_case_never_decides(a: Seq<char>, b: Seq<char>)
    requires
        same_but_case(a, b),
    ensures
        is_codex_command(a) == is_codex_command(b),
{
    lemma_caseless_sets();
    lemma_case_executable(a, b);
    let x = executable(a);
    let y = executable(b);
    lemma_case_trim(x, y, white());
    lemma_case_trim(trimmed(x), trimmed(y), only('"'));
    lemma_case_trim(trim_where(trimmed(x), only('"')), trim_where(trimmed(y), only('"')), only('\''));
    lemma_case_last_piece(
        trim_where(trim_where(trimmed(x), only('"')), only('\'')),
        trim_where(trim_where(trimmed(y), only('"')), only('\'')),
    );
}

/// A command line is taken as it would be in lower case or in upper case.
pub proof fn law_command_in_any_case(command: Seq<char>)
    ensures
        is_codex_command(ascii_lowered(command)) == is_codex_command(command),
        is_codex_command(ascii_uppered(command)) == is_codex_command(command),
{
    let lower = ascii_lowered(command);
    let upper = ascii_uppered(command);
    assert(ascii_lowered(lower) =~= ascii_lowered(command)) by {
        assert forall|i: int| 0 <= i < command.len() implies ascii_lower(#[trigger] lower[i]) == ascii_lower(command[i]) by {
            lemma_lower(command[i]);
            lemma_lower(lower[i]);
        }
    }
    assert(ascii_lowered(upper) =~= ascii_lowered(command)) by {
        assert forall|i: int| 0 <= i < command.len() implies ascii_lower(#[trigger] upper[i]) == ascii_lower(command[i]) by {
            lemma_lower(command[i]);
        }
    }
    law_case_never_decides(lower, command);
    law_case_never_decides(upper, command);
}

} // verus!
