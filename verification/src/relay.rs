//! Switching a provider between relay and subscription by commenting out
//! the relay lines of its section, and back.

use vstd::prelude::*;

use crate::config::{
    begins, entry, find_provider_section_by_id_or_name, first_section, is_called, is_header, is_line,
    law_lines_rejoin, law_sections_are_disjoint, law_text_lines, lemma_first_section, lemma_next_header,
    lemma_section_line_is_header, next_header, parse_provider_sections, parse_root_provider,
    provider_sections, root_provider, root_provider_from, section_fits, section_id, sections_upto,
    split_lines, text_lines, values_in, ProviderSection, SectionModel,
};
use crate::text::{
    after_first, chars_of, index_where, is_white_space, join, joined, kept_len, lead_len, lemma_index_where,
    lemma_index_where_is, lemma_kept_len, lemma_lead_len, lemma_lead_len_is, lemma_trimmed_parts, only,
    opt_text, same, split_once, split_once_at, starts_with_char, texts, trim, trim_end_where, trim_start,
    trim_start_where, trimmed, white,
};

verus! {

/// Whether a key belongs to the relay lines.
pub open spec fn is_relay_key(key: Seq<char>) -> bool {
    key == "base_url"@ || key == "experimental_bearer_token"@
}

/// The relay key that a text assigns, if it does.
pub open spec fn relay_key(text: Seq<char>) -> Option<Seq<char>> {
    match split_once_at(trim_start_where(text, white()), '=') {
        Some((left, _)) => if is_relay_key(trimmed(left)) {
            Some(trimmed(left))
        } else {
            None
        },
        None => None,
    }
}

/// The relay key that a line assigns, if the line is not a comment.
pub open spec fn active_key(line: Seq<char>) -> Option<Seq<char>> {
    let t = trim_start_where(line, white());
    if begins(t, '#') {
        None
    } else {
        relay_key(t)
    }
}

/// The relay key that a commented line would assign.
pub open spec fn commented_key(line: Seq<char>) -> Option<Seq<char>> {
    let t = trim_start_where(line, white());
    if begins(t, '#') {
        relay_key(trim_start_where(t.skip(1), white()))
    } else {
        None
    }
}

/// The white space at the start of a line.
pub open spec fn indent(line: Seq<char>) -> Seq<char> {
    line.take(lead_len(line, white()) as int)
}

/// The line as a comment, with its indentation kept.
pub open spec fn comment_out(line: Seq<char>) -> Seq<char> {
    indent(line) + "# "@ + trim_start_where(line, white())
}

/// The line without its comment sign, with its indentation kept.
pub open spec fn comment_in(line: Seq<char>) -> Seq<char> {
    let t = trim_start_where(line, white());
    if begins(t, '#') {
        indent(line) + trim_start_where(t.skip(1), white())
    } else {
        indent(line) + t
    }
}

/// The relay key of a line that is to change.
pub open spec fn toggled_key(line: Seq<char>, commented: bool) -> Option<Seq<char>> {
    if commented {
        active_key(line)
    } else {
        commented_key(line)
    }
}

pub open spec fn toggled_line(line: Seq<char>, commented: bool) -> Seq<char> {
    if toggled_key(line, commented) is None {
        line
    } else if commented {
        comment_out(line)
    } else {
        comment_in(line)
    }
}

/// The lines with the relay lines between `start` and `end` switched.
pub open spec fn toggled_lines(lines: Seq<Seq<char>>, start: int, end: int, commented: bool) -> Seq<Seq<char>> {
    Seq::new(
        lines.len(),
        |i: int|
            if start < i < end {
                toggled_line(lines[i], commented)
            } else {
                lines[i]
            },
    )
}

/// Whether a line with relay key `key` between `from` and `to` is switched.
pub open spec fn switches(lines: Seq<Seq<char>>, from: int, to: int, commented: bool, key: Seq<char>) -> bool {
    exists|i: int| from <= i < to && toggled_key(#[trigger] lines[i], commented) == Some(key)
}

/// The relay keys whose lines are switched, in order and each once.
pub open spec fn switched_keys(lines: Seq<Seq<char>>, start: int, end: int, commented: bool) -> Seq<Seq<char>> {
    (if switches(lines, start + 1, end, commented, "base_url"@) {
        seq!["base_url"@]
    } else {
        Seq::empty()
    }) + (if switches(lines, start + 1, end, commented, "experimental_bearer_token"@) {
        seq!["experimental_bearer_token"@]
    } else {
        Seq::empty()
    })
}

pub fn relay_assignment_key(text: &str) -> (r: Option<String>)
    ensures
        opt_text(r) == relay_key(text@),
{
    match split_once(trim_start(text), '=') {
        Some((left, _right)) => {
            let key = trim(left);
            if same(key, "base_url") || same(key, "experimental_bearer_token") {
                Some(key.to_owned())
            } else {
                None
            }
        },
        None => None,
    }
}

pub fn active_relay_assignment_key(line: &str) -> (r: Option<String>)
    ensures
        opt_text(r) == active_key(line@),
{
    let t = trim_start(line);
    if starts_with_char(t, '#') {
        return None;
    }
    relay_assignment_key(t)
}

pub fn commented_relay_assignment_key(line: &str) -> (r: Option<String>)
    ensures
        opt_text(r) == commented_key(line@),
{
    let t = trim_start(line);
    if !starts_with_char(t, '#') {
        return None;
    }
    relay_assignment_key(trim_start(after_first(t)))
}

fn indentation<'a>(line: &'a str) -> (r: &'a str)
    ensures
        r@ == indent(line@),
{
    proof {
        lemma_lead_len(line@, white());
    }
    let n: usize = chars_of(line).len();
    let k: usize = chars_of(trim_start(line)).len();
    line.substring_char(0, n - k)
}

pub fn comment_toml_line(line: &str) -> (r: String)
    ensures
        r@ == comment_out(line@),
{
    indentation(line).to_owned().concat("# ").concat(trim_start(line))
}

pub fn uncomment_toml_line(line: &str) -> (r: String)
    ensures
        r@ == comment_in(line@),
{
    let t = trim_start(line);
    if starts_with_char(t, '#') {
        indentation(line).to_owned().concat(trim_start(after_first(t)))
    } else {
        indentation(line).to_owned().concat(t)
    }
}

/// Switches the relay lines of a section; gives the new text and the keys
/// whose lines changed.
pub fn relay_config_lines_with_comment_state(
    config_text: &str,
    section: &ProviderSection,
    commented: bool,
) -> (r: (String, Vec<String>))
    requires
        section.end <= text_lines(config_text@).len(),
    ensures
        r.0@ == joined(
            toggled_lines(text_lines(config_text@), section.start as int, section.end as int, commented),
            "\n"@,
        ),
        texts(r.1@) == switched_keys(text_lines(config_text@), section.start as int, section.end as int, commented),
{
    let mut lines = split_lines(config_text);
    let ghost before = text_lines(config_text@);
    let ghost start = section.start as int;
    let mut url: bool = false;
    let mut token: bool = false;
    if section.start >= section.end {
        assert(texts(lines@) =~= toggled_lines(before, start, section.end as int, commented));
        assert(texts(Seq::<String>::empty()) =~= switched_keys(before, start, section.end as int, commented));
        return (join(&lines, "\n"), Vec::new());
    }
    let mut i: usize = section.start + 1;
    assert(texts(lines@) == toggled_lines(before, start, i as int, commented));
    while i < section.end
        invariant
            before == text_lines(config_text@),
            start == section.start as int,
            start + 1 <= i <= section.end <= before.len(),
            lines@.len() == before.len(),
            texts(lines@) == toggled_lines(before, start, i as int, commented),
            url == switches(before, start + 1, i as int, commented, "base_url"@),
            token == switches(before, start + 1, i as int, commented, "experimental_bearer_token"@),
        decreases section.end - i,
    {
        let ghost old_lines = lines@;
        assert(texts(lines@)[i as int] == lines@[i as int]@);
        assert(lines@[i as int]@ == before[i as int]);
        let key = if commented {
            active_relay_assignment_key(lines[i].as_str())
        } else {
            commented_relay_assignment_key(lines[i].as_str())
        };
        let ghost old_url = url;
        let ghost old_token = token;
        if let Some(key) = key {
            let next = if commented {
                comment_toml_line(lines[i].as_str())
            } else {
                uncomment_toml_line(lines[i].as_str())
            };
            lines.set(i, next);
            if same(key.as_str(), "base_url") {
                url = true;
            } else {
                token = true;
            }
        }
        proof {
            reveal_strlit("base_url");
            reveal_strlit("experimental_bearer_token");
            assert("base_url"@.len() != "experimental_bearer_token"@.len());
            let next = toggled_lines(before, start, i + 1, commented);
            assert forall|j: int| 0 <= j < lines@.len() implies lines@[j]@ == next[j] by {
                assert(texts(old_lines)[j] == old_lines[j]@);
                assert(texts(old_lines)[j] == toggled_lines(before, start, i as int, commented)[j]);
            }
            assert(texts(lines@) =~= next);
            let k = toggled_key(before[i as int], commented);
            assert forall|name: Seq<char>|
                switches(before, start + 1, i + 1, commented, name) == (switches(
                    before,
                    start + 1,
                    i as int,
                    commented,
                    name,
                ) || k == Some(name)) by {
                if switches(before, start + 1, i as int, commented, name) {
                    let w = choose|w: int|
                        start + 1 <= w < i && toggled_key(#[trigger] before[w], commented) == Some(name);
                    assert(start + 1 <= w < i + 1 && toggled_key(before[w], commented) == Some(name));
                }
            }
        }
        i += 1;
    }
    let mut keys: Vec<String> = Vec::new();
    if url {
        keys.push("base_url".to_owned());
    }
    if token {
        keys.push("experimental_bearer_token".to_owned());
    }
    assert(texts(keys@) =~= switched_keys(before, start, section.end as int, commented));
    (join(lines.as_slice(), "\n"), keys)
}

/// A change to the relay lines of a configuration, not yet written.
pub struct RelayEdit {
    pub provider_id: String,
    pub commented: bool,
    pub changed_keys: Vec<String>,
    pub next_text: String,
}

/// What switching the relay lines did.
pub struct RelayConfigToggleResult {
    pub changed: bool,
    pub provider_id: String,
    pub commented: bool,
    pub changed_keys: Vec<String>,
    pub backup_dir: Option<String>,
    pub message: String,
}

/// The provider whose relay lines are meant: the one that is named, else the
/// selected one.
pub open spec fn relay_target(text: Seq<char>, named: Option<Seq<char>>) -> Seq<char> {
    trimmed(
        match named {
            Some(id) => id,
            None => root_provider(text),
        },
    )
}

/// The section of a provider, by id or by name.
pub open spec fn section_called(text: Seq<char>, target: Seq<char>) -> Option<SectionModel> {
    first_section(provider_sections(text), is_called(target))
}

/// The lines of a configuration with the relay lines of a section switched.
pub open spec fn toggled_in(text: Seq<char>, section: SectionModel, commented: bool) -> Seq<Seq<char>> {
    toggled_lines(text_lines(text), section.start, section.end, commented)
}

/// Works out what switching the relay lines of a provider changes.
pub fn plan_relay_toggle(config_text: &str, provider_id: Option<String>, commented: bool) -> (r: Result<
    RelayEdit,
    String,
>)
    ensures
        ({
            let target = relay_target(config_text@, opt_text(provider_id));
            match (section_called(config_text@, target), r) {
                (_, Err(e)) if target.len() == 0 => e@ == "目标 Provider 不能为空。"@,
                (None, Err(e)) => e@ == "config.toml 中没有找到 [model_providers."@ + target + "]。"@,
                (Some(section), Ok(edit)) => {
                    &&& target.len() > 0
                    &&& edit.provider_id@ == target
                    &&& edit.commented == commented
                    &&& texts(edit.changed_keys@) == switched_keys(
                        text_lines(config_text@),
                        section.start,
                        section.end,
                        commented,
                    )
                    &&& edit.next_text@ == joined(toggled_in(config_text@, section, commented), "\n"@)
                },
                _ => false,
            }
        }),
{
    let ghost named = opt_text(provider_id);
    let chosen = match provider_id {
        Some(id) => id,
        None => parse_root_provider(config_text),
    };
    let target = trim(chosen.as_str()).to_owned();
    assert(target@ == relay_target(config_text@, named));
    if target.as_str().is_empty() {
        return Err("目标 Provider 不能为空。".to_owned());
    }
    let sections = parse_provider_sections(config_text);
    match find_provider_section_by_id_or_name(sections.as_slice(), target.as_str()) {
        None => Err(
            "config.toml 中没有找到 [model_providers.".to_owned().concat(target.as_str()).concat("]。"),
        ),
        Some(section) => {
            proof {
                law_sections_are_disjoint(config_text@);
                lemma_first_section(provider_sections(config_text@), is_called(target@));
                assert(section_fits(section@, text_lines(config_text@)));
            }
            let (next_text, changed_keys) = relay_config_lines_with_comment_state(config_text, &section, commented);
            Ok(RelayEdit { provider_id: target, commented, changed_keys, next_text })
        },
    }
}

/// The sentence that tells what was switched.
pub open spec fn relay_message(provider: Seq<char>, keys: Seq<Seq<char>>, commented: bool) -> Seq<char> {
    if keys.len() == 0 {
        if commented {
            "没有找到需要注释的 base_url 或 experimental_bearer_token 行。"@
        } else {
            "没有找到需要恢复的 base_url 或 experimental_bearer_token 行。"@
        }
    } else if commented {
        "已注释 [model_providers."@ + provider + "] 中的 "@ + joined(keys, "、"@)
            + "；重启 Codex 后会优先使用当前 ChatGPT/GPT 订阅登录态。"@
    } else {
        "已恢复 [model_providers."@ + provider + "] 中的 "@ + joined(keys, "、"@)
            + "；重启 Codex 后会重新使用中转配置。"@
    }
}

/// The result of a change to the relay lines. `backup_dir` is where the
/// configuration was saved before it was written, if it was.
pub fn set_relay_lines_commented(edit: RelayEdit, backup_dir: Option<String>) -> (r: RelayConfigToggleResult)
    ensures
        r.changed == (edit.changed_keys@.len() > 0),
        r.provider_id@ == edit.provider_id@,
        r.commented == edit.commented,
        texts(r.changed_keys@) == texts(edit.changed_keys@),
        r.backup_dir == (if edit.changed_keys@.len() > 0 {
            backup_dir
        } else {
            None
        }),
        r.message@ == relay_message(edit.provider_id@, texts(edit.changed_keys@), edit.commented),
{
    if edit.changed_keys.is_empty() {
        let message = if edit.commented {
            "没有找到需要注释的 base_url 或 experimental_bearer_token 行。".to_owned()
        } else {
            "没有找到需要恢复的 base_url 或 experimental_bearer_token 行。".to_owned()
        };
        return RelayConfigToggleResult {
            changed: false,
            provider_id: edit.provider_id,
            commented: edit.commented,
            changed_keys: edit.changed_keys,
            backup_dir: None,
            message,
        };
    }
    let key_list = join(edit.changed_keys.as_slice(), "、");
    let message = if edit.commented {
        "已注释 [model_providers.".to_owned().concat(edit.provider_id.as_str()).concat("] 中的 ").concat(
            key_list.as_str(),
        ).concat("；重启 Codex 后会优先使用当前 ChatGPT/GPT 订阅登录态。")
    } else {
        "已恢复 [model_providers.".to_owned().concat(edit.provider_id.as_str()).concat("] 中的 ").concat(
            key_list.as_str(),
        ).concat("；重启 Codex 后会重新使用中转配置。")
    };
    RelayConfigToggleResult {
        changed: true,
        provider_id: edit.provider_id,
        commented: edit.commented,
        changed_keys: edit.changed_keys,
        backup_dir,
        message,
    }
}

/// A message, with a line for the backup where there is one.
pub open spec fn with_backup(message: Seq<char>, backup_dir: Option<Seq<char>>) -> Seq<Seq<char>> {
    match backup_dir {
        Some(dir) => seq![message, "Backup: "@ + dir],
        None => seq![message],
    }
}

pub fn relay_toggle_text(result: RelayConfigToggleResult) -> (r: String)
    ensures
        r@ == joined(with_backup(result.message@, opt_text(result.backup_dir)), "\n"@),
{
    let ghost shown = with_backup(result.message@, opt_text(result.backup_dir));
    let mut lines: Vec<String> = Vec::new();
    lines.push(result.message);
    if let Some(backup) = result.backup_dir {
        lines.push("Backup: ".to_owned().concat(backup.as_str()));
    }
    assert(texts(lines@) =~= shown);
    join(lines.as_slice(), "\n")
}

/// The first character of a text that assigns a relay key is no white space
/// and no comment sign.
proof fn lemma_relay_key_start(text: Seq<char>)
    requires
        relay_key(text) is Some,
    ensures
        ({
            let t = trim_start_where(text, white());
            t.len() > 0 && !is_white_space(t[0]) && t[0] != '#' && t[0] != '['
        }),
{
    let t = trim_start_where(text, white());
    lemma_lead_len(text, white());
    let i = index_where(t, only('=')) as int;
    lemma_index_where(t, only('='));
    let left = t.take(i);
    lemma_trimmed_parts(left);
    lemma_lead_len(left, white());
    reveal_strlit("base_url");
    reveal_strlit("experimental_bearer_token");
    let key = trimmed(left);
    assert(key.len() > 0 && (key[0] == 'b' || key[0] == 'e'));
    assert(left.contains(key[0])) by {
        assert(key.contains(key[0]));
    }
    assert(!is_white_space(t[0])) by {
        assert(t[0] == text[lead_len(text, white()) as int]);
    }
    if lead_len(left, white()) > 0 {
        assert(is_white_space(left[0]));
        assert(left[0] == t[0]);
    }
    let rest = trim_start_where(left, white());
    assert(rest == left);
    lemma_kept_len(left, white());
    assert(key[0] == left[0]);
    assert(left[0] == t[0]);
}

/// White space before a text without any is its indentation.
pub proof fn lemma_indented(lead: Seq<char>, rest: Seq<char>)
    requires
        forall|j: int| 0 <= j < lead.len() ==> is_white_space(#[trigger] lead[j]),
        rest.len() > 0,
        !is_white_space(rest[0]),
    ensures
        indent(lead + rest) == lead,
        trim_start_where(lead + rest, white()) == rest,
{
    let s = lead + rest;
    assert forall|j: int| 0 <= j < lead.len() implies white()(#[trigger] s[j]) by {
        assert(s[j] == lead[j]);
    }
    assert(s[lead.len() as int] == rest[0]);
    lemma_lead_len_is(s, white(), lead.len() as int);
    assert(s.take(lead.len() as int) =~= lead);
    assert(s.skip(lead.len() as int) =~= rest);
}

proof fn lemma_indent(line: Seq<char>)
    ensures
        indent(line) + trim_start_where(line, white()) == line,
        forall|j: int| 0 <= j < indent(line).len() ==> is_white_space(#[trigger] indent(line)[j]),
        trim_start_where(line, white()).len() > 0 ==> !is_white_space(trim_start_where(line, white())[0]),
{
    lemma_lead_len(line, white());
    let n = lead_len(line, white()) as int;
    assert(line.take(n) + line.skip(n) =~= line);
    assert forall|j: int| 0 <= j < n implies is_white_space(#[trigger] indent(line)[j]) by {
        assert(white()(line[j]));
    }
}

/// What commenting out a relay line gives.
proof fn lemma_comment_out(line: Seq<char>)
    requires
        active_key(line) is Some,
    ensures
        active_key(comment_out(line)) is None,
        commented_key(comment_out(line)) == active_key(line),
        comment_in(comment_out(line)) == line,
        begins(trim_start_where(comment_out(line), white()), '#'),
        is_line(line) ==> is_line(comment_out(line)),
{
    let t = trim_start_where(line, white());
    let lead = indent(line);
    lemma_relay_key_start(t);
    lemma_indent(line);
    assert(t.len() > 0) by {
        lemma_lead_len(t, white());
    }
    assert(t == trim_start_where(t, white())) by {
        lemma_lead_len_is(t, white(), 0);
        assert(t.skip(0) =~= t);
    }
    reveal_strlit("# ");
    let body = "# "@ + t;
    let out = comment_out(line);
    assert(out =~= lead + body);
    assert(body[0] == '#');
    lemma_indented(lead, body);
    let after = body.skip(1);
    assert(after =~= seq![' '] + t);
    lemma_indented(seq![' '], t);
    if is_line(line) {
        assert(out.last() == t.last() && line.last() == t.last());
        if out.contains('\n') {
            let k = choose|k: int| 0 <= k < out.len() && out[k] == '\n';
            if k < lead.len() {
                assert(line[k] == '\n');
            } else if k >= lead.len() + 2 {
                assert(line[k - 2] == '\n');
            }
        }
    }
}

/// What bringing back a relay line gives.
proof fn lemma_comment_in(line: Seq<char>)
    requires
        commented_key(line) is Some,
    ensures
        commented_key(comment_in(line)) is None,
        active_key(comment_in(line)) == commented_key(line),
        begins(trim_start_where(line, white()), '#'),
        is_line(line) ==> is_line(comment_in(line)),
{
    let t = trim_start_where(line, white());
    let after = t.skip(1);
    let u = trim_start_where(after, white());
    let lead = indent(line);
    lemma_indent(line);
    lemma_indent(after);
    lemma_relay_key_start(u);
    assert(u.len() > 0) by {
        lemma_lead_len(u, white());
    }
    assert(u == trim_start_where(u, white())) by {
        lemma_lead_len_is(u, white(), 0);
        assert(u.skip(0) =~= u);
    }
    lemma_indented(lead, u);
    let out = comment_in(line);
    if is_line(line) {
        assert(out.last() == u.last());
        assert(after.last() == u.last());
        assert(t.last() == after.last());
        assert(line.last() == t.last());
        if out.contains('\n') {
            let k = choose|k: int| 0 <= k < out.len() && out[k] == '\n';
            if k < lead.len() {
                assert(line[k] == '\n');
            } else {
                let d = line.len() - out.len();
                assert(line[k + d] == after[k + d - lead.len() - 1]);
                assert(line[k + d] == '\n');
            }
        }
    }
}

/// After the relay lines of a section are commented out, none of its lines
/// assigns a relay key; after they are brought back, none of its comments
/// would.
pub proof fn law_toggle_leaves_none(lines: Seq<Seq<char>>, start: int, end: int, commented: bool)
    requires
        0 <= start < end <= lines.len(),
    ensures
        forall|i: int| start < i < end ==> toggled_key(
            #[trigger] toggled_lines(lines, start, end, commented)[i],
            commented,
        ) is None,
{
    assert forall|i: int| start < i < end implies toggled_key(
        #[trigger] toggled_lines(lines, start, end, commented)[i],
        commented,
    ) is None by {
        if toggled_key(lines[i], commented) is Some {
            if commented {
                lemma_comment_out(lines[i]);
            } else {
                lemma_comment_in(lines[i]);
            }
        }
    }
}

/// Switching a second time in the same direction changes nothing.
pub proof fn law_toggle_is_idempotent(lines: Seq<Seq<char>>, start: int, end: int, commented: bool)
    requires
        0 <= start < end <= lines.len(),
    ensures
        toggled_lines(toggled_lines(lines, start, end, commented), start, end, commented) == toggled_lines(
            lines,
            start,
            end,
            commented,
        ),
        switched_keys(toggled_lines(lines, start, end, commented), start, end, commented).len() == 0,
{
    law_toggle_leaves_none(lines, start, end, commented);
    let once = toggled_lines(lines, start, end, commented);
    assert(toggled_lines(once, start, end, commented) =~= once);
}

/// Bringing back what was commented out gives the lines back, as long as no
/// relay line of the section was a comment before.
pub proof fn law_restore_undoes_comment(lines: Seq<Seq<char>>, start: int, end: int)
    requires
        0 <= start < end <= lines.len(),
        forall|i: int| start < i < end ==> commented_key(#[trigger] lines[i]) is None,
    ensures
        toggled_lines(toggled_lines(lines, start, end, true), start, end, false) == lines,
        switched_keys(toggled_lines(lines, start, end, true), start, end, false) == switched_keys(
            lines,
            start,
            end,
            true,
        ),
{
    let out = toggled_lines(lines, start, end, true);
    assert forall|i: int| start < i < end implies toggled_line(#[trigger] out[i], false) == lines[i] && toggled_key(
        out[i],
        false,
    ) == toggled_key(lines[i], true) by {
        if active_key(lines[i]) is Some {
            lemma_comment_out(lines[i]);
        }
    }
    assert(toggled_lines(out, start, end, false) =~= lines);
    let from = start + 1;
    assert forall|key: Seq<char>|
        #[trigger] switches(out, from, end, false, key) == switches(lines, from, end, true, key) by {
        if switches(out, from, end, false, key) {
            let w = choose|w: int| start + 1 <= w < end && toggled_key(#[trigger] out[w], false) == Some(key);
            assert(toggled_key(lines[w], true) == Some(key));
        }
        if switches(lines, from, end, true, key) {
            let w = choose|w: int| start + 1 <= w < end && toggled_key(#[trigger] lines[w], true) == Some(key);
            assert(toggled_key(out[w], false) == Some(key));
        }
    }
}

/// Whether two sections are the same but for their relay values.
pub open spec fn same_but_relay(a: SectionModel, b: SectionModel) -> bool {
    &&& a.id == b.id
    &&& a.start == b.start
    &&& a.end == b.end
    &&& agree_but_relay(a.values, b.values)
}

/// Whether two sets of values agree on every key but the relay keys.
pub open spec fn agree_but_relay(a: Map<Seq<char>, Seq<char>>, b: Map<Seq<char>, Seq<char>>) -> bool {
    forall|key: Seq<char>| !is_relay_key(key) ==> #[trigger] value_of(a, key) == value_of(b, key)
}

pub open spec fn value_of(values: Map<Seq<char>, Seq<char>>, key: Seq<char>) -> Option<Seq<char>> {
    if values.dom().contains(key) {
        Some(values[key])
    } else {
        None
    }
}

/// Switching a relay line leaves no trace in what else its section says.
pub proof fn lemma_toggled_line(line: Seq<char>, commented: bool)
    requires
        is_line(line),
    ensures
        ({
            let next = toggled_line(line, commented);
            &&& is_line(next)
            &&& is_header(next) == is_header(line)
            &&& section_id(next) == section_id(line)
            &&& next != line ==> !is_header(line)
            &&& match entry(next) {
                Some((key, _)) => next != line ==> is_relay_key(key),
                None => true,
            }
            &&& match entry(line) {
                Some((key, _)) => next != line ==> is_relay_key(key),
                None => true,
            }
        }),
{
    let next = toggled_line(line, commented);
    if toggled_key(line, commented) is Some {
        if commented {
            lemma_comment_out(line);
            lemma_relay_line(line);
            lemma_comment_line(next);
        } else {
            lemma_comment_in(line);
            lemma_relay_line(next);
            lemma_comment_line(line);
        }
    }
}

/// A line and its trimmed text begin alike.
pub proof fn lemma_trim_start_of(line: Seq<char>)
    ensures
        trim_start_where(line, white()).len() > 0 ==> trimmed(line).len() > 0 && trimmed(line)[0] == trim_start_where(
            line,
            white(),
        )[0],
        trimmed(line) == trim_end_where(trim_start_where(line, white()), white()),
{
    let t = trim_start_where(line, white());
    lemma_lead_len(line, white());
    lemma_kept_len(t, white());
    if t.len() > 0 && kept_len(t, white()) == 0 {
        assert(white()(t[0]));
        assert(t[0] == line[lead_len(line, white()) as int]);
    }
}

/// A comment is no header and assigns nothing.
proof fn lemma_comment_line(line: Seq<char>)
    requires
        begins(trim_start_where(line, white()), '#'),
    ensures
        !is_header(line),
        section_id(line) is None,
        entry(line) is None,
{
    lemma_trim_start_of(line);
    reveal_strlit("[model_providers.");
    if section_id(line) is Some {
        assert("[model_providers."@[0] == trimmed(line)[0]);
    }
}

/// An active relay line is no header and assigns a relay key.
proof fn lemma_relay_line(line: Seq<char>)
    requires
        active_key(line) is Some,
    ensures
        !is_header(line),
        section_id(line) is None,
        match entry(line) {
            Some((key, _)) => is_relay_key(key),
            None => true,
        },
{
    lemma_trim_start_of(line);
    let t = trim_start_where(line, white());
    lemma_relay_key_start(t);
    assert(t == trim_start_where(t, white())) by {
        lemma_lead_len(line, white());
        lemma_lead_len(t, white());
        if lead_len(t, white()) > 0 {
            assert(white()(t[0]));
            assert(t[0] == line[lead_len(line, white()) as int]);
        }
        assert(t.skip(0) =~= t);
    }
    reveal_strlit("[model_providers.");
    if section_id(line) is Some {
        assert("[model_providers."@[0] == trimmed(line)[0]);
    }
    let i = index_where(t, only('=')) as int;
    lemma_index_where(t, only('='));
    lemma_kept_len(t, white());
    let n = kept_len(t, white()) as int;
    if i >= n {
        assert(white()(t[i]));
    }
    let u = trimmed(line);
    assert forall|j: int| 0 <= j < i implies !only('=')(#[trigger] u[j]) by {
        assert(u[j] == t[j]);
    }
    assert(u[i] == t[i]);
    lemma_index_where_is(u, only('='), i);
    assert(u.take(i) =~= t.take(i));
}

proof fn lemma_next_header_same(a: Seq<Seq<char>>, b: Seq<Seq<char>>, i: int)
    requires
        a.len() == b.len(),
        0 <= i,
        forall|k: int| 0 <= k < a.len() ==> is_header(#[trigger] a[k]) == is_header(b[k]),
    ensures
        next_header(a, i) == next_header(b, i),
    decreases a.len() - i,
{
    if i < a.len() && !is_header(a[i]) {
        lemma_next_header_same(a, b, i + 1);
    }
}

/// Whether the lines that differ say nothing but relay values.
spec fn differ_in_relay(a: Seq<Seq<char>>, b: Seq<Seq<char>>) -> bool {
    &&& a.len() == b.len()
    &&& forall|k: int| 0 <= k < a.len() ==> {
        &&& is_header(#[trigger] a[k]) == is_header(b[k])
        &&& section_id(a[k]) == section_id(b[k])
        &&& a[k] != b[k] ==> match entry(a[k]) {
            Some((key, _)) => is_relay_key(key),
            None => true,
        }
        &&& a[k] != b[k] ==> match entry(b[k]) {
            Some((key, _)) => is_relay_key(key),
            None => true,
        }
    }
}

proof fn lemma_values_same(a: Seq<Seq<char>>, b: Seq<Seq<char>>, from: int, to: int)
    requires
        differ_in_relay(a, b),
        0 <= from,
        to <= a.len(),
    ensures
        agree_but_relay(values_in(a, from, to), values_in(b, from, to)),
    decreases to - from,
{
    if from < to {
        lemma_values_same(a, b, from, to - 1);
        assert(is_header(a[to - 1]) == is_header(b[to - 1]));
        let before = values_in(a, from, to - 1);
        let other = values_in(b, from, to - 1);
        assert forall|key: Seq<char>| !is_relay_key(key) implies #[trigger] value_of(values_in(a, from, to), key)
            == value_of(values_in(b, from, to), key) by {
            assert(value_of(before, key) == value_of(other, key));
        }
    }
}

proof fn lemma_sections_same(a: Seq<Seq<char>>, b: Seq<Seq<char>>, n: int)
    requires
        differ_in_relay(a, b),
        0 <= n <= a.len(),
    ensures
        sections_upto(a, n).len() == sections_upto(b, n).len(),
        forall|i: int| 0 <= i < sections_upto(a, n).len() ==> same_but_relay(#[trigger] sections_upto(a, n)[i], sections_upto(b, n)[i]),
    decreases n,
{
    if n > 0 {
        lemma_sections_same(a, b, n - 1);
        assert(is_header(a[n - 1]) == is_header(b[n - 1]));
        lemma_next_header_same(a, b, n);
        lemma_next_header(a, n);
        lemma_values_same(a, b, n, next_header(a, n));
    }
}

/// Switching the relay lines of a section keeps every provider section of
/// the configuration, with its id, its place and all its values but the
/// relay values.
pub proof fn law_toggle_keeps_sections(text: Seq<char>, section: SectionModel, commented: bool)
    requires
        provider_sections(text).contains(section),
    ensures
        ({
            let next = joined(toggled_in(text, section, commented), "\n"@);
            &&& text_lines(next) == toggled_in(text, section, commented)
            &&& provider_sections(next).len() == provider_sections(text).len()
            &&& forall|i: int|
                0 <= i < provider_sections(text).len() ==> same_but_relay(
                    provider_sections(text)[i],
                    #[trigger] provider_sections(next)[i],
                )
        }),
{
    law_text_lines(text);
    let lines = text_lines(text);
    let out = toggled_in(text, section, commented);
    assert forall|i: int| 0 <= i < out.len() implies is_line(#[trigger] out[i]) && is_header(lines[i]) == is_header(out[i])
        && section_id(lines[i]) == section_id(out[i]) by {
        assert(is_line(lines[i]));
        lemma_toggled_line(lines[i], commented);
    }
    law_lines_rejoin(out);
    assert(differ_in_relay(lines, out)) by {
        assert forall|k: int| 0 <= k < lines.len() implies {
            &&& is_header(#[trigger] lines[k]) == is_header(out[k])
            &&& section_id(lines[k]) == section_id(out[k])
            &&& lines[k] != out[k] ==> match entry(lines[k]) {
                Some((key, _)) => is_relay_key(key),
                None => true,
            }
            &&& lines[k] != out[k] ==> match entry(out[k]) {
                Some((key, _)) => is_relay_key(key),
                None => true,
            }
        } by {
            assert(is_line(lines[k]));
            assert(is_line(out[k]));
            lemma_toggled_line(lines[k], commented);
        }
    }
    lemma_sections_same(lines, out, lines.len() as int);
}

pub proof fn lemma_root_same(a: Seq<Seq<char>>, b: Seq<Seq<char>>, i: int, start: int)
    requires
        0 <= i <= start < a.len(),
        a.len() == b.len(),
        forall|k: int| 0 <= k <= start ==> #[trigger] a[k] == b[k],
        is_header(a[start]),
    ensures
        root_provider_from(a, i) == root_provider_from(b, i),
    decreases start - i,
{
    assert(a[i] == b[i]);
    assert(a[start] == b[start]);
    if i < start {
        lemma_root_same(a, b, i + 1, start);
    }
}

pub proof fn lemma_first_same(a: Seq<SectionModel>, b: Seq<SectionModel>, target: Seq<char>)
    requires
        a.len() == b.len(),
        forall|i: int| 0 <= i < a.len() ==> same_but_relay(a[i], #[trigger] b[i]),
    ensures
        match (first_section(a, is_called(target)), first_section(b, is_called(target))) {
            (Some(x), Some(y)) => same_but_relay(x, y),
            (None, None) => true,
            _ => false,
        },
    decreases a.len(),
{
    if a.len() > 0 {
        assert(same_but_relay(a[0], b[0]));
        reveal_strlit("name");
        reveal_strlit("base_url");
        reveal_strlit("experimental_bearer_token");
        assert("name"@.len() != "base_url"@.len() && "name"@.len() != "experimental_bearer_token"@.len());
        assert(value_of(a[0].values, "name"@) == value_of(b[0].values, "name"@));
        assert forall|i: int| 0 <= i < a.drop_first().len() implies same_but_relay(
            a.drop_first()[i],
            #[trigger] b.drop_first()[i],
        ) by {
            assert(same_but_relay(a[i + 1], b[i + 1]));
        }
        lemma_first_same(a.drop_first(), b.drop_first(), target);
    }
}

/// Commenting out the relay lines of a provider keeps the selected provider
/// and every section that a name leads to. Bringing them back then gives the
/// configuration back, with plain line ends, as long as no relay line of the
/// section was a comment before.
pub proof fn law_relay_round_trip(text: Seq<char>, target: Seq<char>)
    requires
        section_called(text, target) is Some,
    ensures
        ({
            let section = section_called(text, target)->0;
            let next = joined(toggled_in(text, section, true), "\n"@);
            &&& root_provider(next) == root_provider(text)
            &&& section_called(next, target) is Some
            &&& same_but_relay(section, section_called(next, target)->0)
            &&& (forall|i: int| section.start < i < section.end ==> commented_key(#[trigger] text_lines(text)[i]) is None)
                ==> joined(toggled_in(next, section_called(next, target)->0, false), "\n"@) == joined(
                text_lines(text),
                "\n"@,
            )
        }),
{
    let sections = provider_sections(text);
    let section = section_called(text, target)->0;
    let lines = text_lines(text);
    lemma_first_section(sections, is_called(target));
    law_sections_are_disjoint(text);
    assert(section_fits(section, lines));
    law_toggle_keeps_sections(text, section, true);
    let out = toggled_in(text, section, true);
    let next = joined(out, "\n"@);
    lemma_first_same(sections, provider_sections(next), target);
    lemma_section_line_is_header(lines[section.start]);
    lemma_root_same(lines, out, 0, section.start);
    if forall|i: int| section.start < i < section.end ==> commented_key(#[trigger] lines[i]) is None {
        law_restore_undoes_comment(lines, section.start, section.end);
    }
}

} // verus!
