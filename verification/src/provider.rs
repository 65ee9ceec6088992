//! Naming a provider, and the edits to the configuration that repair one or
//! give it a token.

use vstd::prelude::*;

use crate::config::{
    entry, escape_toml_string, escaped, find_openai_provider_section, find_provider_section_for_repair,
    find_section, first_section, has_key_line, is_called, is_header, is_key_line, is_line, is_openai,
    key_line, key_value_line, law_lines_rejoin, law_root_provider_is_set, law_sections_are_disjoint,
    law_text_lines, lemma_first_section, lemma_no_sections, lemma_root_keeps_sections,
    lemma_root_line_is_line, lemma_section_line_is_header, lemma_sections_shift, lemma_text_lines_count,
    mask_secret, masked, next_header, opt_section, parse_provider_sections, parse_root_provider,
    provider_sections, root_provider, root_spot, same_sections_but, section_at, section_fits,
    section_for_repair, section_id, section_models, section_value, sections_upto, set_root_provider,
    split_lines, text_lines, upsert_key_in_section, upserted, upserted_end, value_or, values_in,
    with_root_provider, without_prefixes, ProviderSection, RootSpot, SectionModel, DEFAULT_PROVIDER_NAME,
};
use crate::relay::with_backup;
use crate::report::ShellResult;
use crate::text::{
    ascii_lower, ascii_lowered, chars_of, drop_empty, is_ascii_text, is_white_space, join, joined, kept_len,
    lead_len, lemma_index_where_is, lemma_kept_len, lemma_kept_len_is, lemma_lead_len, lemma_lead_len_is,
    lemma_replaced_absent, lemma_trimmed_between, nonempty, only, opt_text, same, starts_with, string_of,
    texts, to_lowercase, trim, trim_char, trim_start_where, trim_where, trimmed, unicode_lower,
};

verus! {

/// The ASCII letters and digits.
pub open spec fn is_alphanumeric(c: char) -> bool {
    'a' <= c <= 'z' || 'A' <= c <= 'Z' || '0' <= c <= '9'
}

/// The characters that a provider id keeps as they are.
pub open spec fn is_kept(c: char) -> bool {
    is_alphanumeric(c) || c == '.' || c == '_'
}

/// `s` with one dash in place of each run of other characters.
pub open spec fn dashed(s: Seq<char>) -> Seq<char>
    decreases s.len(),
{
    if s.len() == 0 {
        Seq::empty()
    } else {
        let before = dashed(s.drop_last());
        if is_kept(s.last()) {
            before.push(s.last())
        } else if before.len() > 0 && before.last() == '-' {
            before
        } else {
            before.push('-')
        }
    }
}

/// The provider id that a name in lower case leads to, before it is judged.
pub open spec fn normalized(s: Seq<char>) -> Seq<char> {
    trim_where(dashed(s), only('-'))
}

/// What a name in lower case leads to: a provider id, or the reason why not.
pub open spec fn id_or_reason(s: Seq<char>) -> Result<Seq<char>, Seq<char>> {
    let id = normalized(s);
    if id.len() == 0 {
        Err("Provider 名称不能为空。"@)
    } else if !is_alphanumeric(id[0]) {
        Err("Provider 名称需以字母或数字开头。"@)
    } else {
        Ok(id)
    }
}

/// The views in a result of text.
pub open spec fn result_text(r: Result<String, String>) -> Result<Seq<char>, Seq<char>> {
    match r {
        Ok(x) => Ok(x@),
        Err(e) => Err(e@),
    }
}

fn kept(c: char) -> (r: bool)
    ensures
        r == is_kept(c),
{
    ('a' <= c && c <= 'z') || ('A' <= c && c <= 'Z') || ('0' <= c && c <= '9') || c == '.' || c == '_'
}

/// The provider id for a name that is in lower case already.
pub fn provider_id_from_lower(lower: &str) -> (r: Result<String, String>)
    ensures
        result_text(r) == id_or_reason(lower@),
{
    let chars = chars_of(lower);
    let mut output: Vec<char> = Vec::new();
    let mut last_dash: bool = false;
    for i in 0..chars.len()
        invariant
            chars@ == lower@,
            output@ == dashed(lower@.take(i as int)),
            last_dash == (output@.len() > 0 && output@.last() == '-'),
    {
        let c = chars[i];
        assert(lower@.take(i + 1).drop_last() =~= lower@.take(i as int));
        if kept(c) {
            last_dash = false;
            output.push(c);
        } else if !last_dash {
            last_dash = true;
            output.push('-');
        }
    }
    assert(lower@.take(lower@.len() as int) =~= lower@);
    let whole = string_of(output.as_slice());
    let id = trim_char(whole.as_str(), '-');
    let id_chars = chars_of(id);
    if id_chars.len() == 0 {
        return Err("Provider 名称不能为空。".to_owned());
    }
    let c = id_chars[0];
    if !(('a' <= c && c <= 'z') || ('A' <= c && c <= 'Z') || ('0' <= c && c <= '9')) {
        return Err("Provider 名称需以字母或数字开头。".to_owned());
    }
    Ok(id.to_owned())
}

/// The name that is meant: the given one, else the default.
pub open spec fn name_or_default(value: Option<Seq<char>>) -> Seq<char> {
    match value {
        Some(name) => name,
        None => DEFAULT_PROVIDER_NAME@,
    }
}

/// Whether a text is a provider id without a letter A to Z.
pub open spec fn is_sanitized(id: Seq<char>) -> bool {
    is_provider_id(id) && forall|i: int| 0 <= i < id.len() ==> !('A' <= #[trigger] id[i] <= 'Z')
}

/// The provider id for a name. Such an id is sanitized, and one that is
/// stays as it is.
pub fn sanitize_provider_id(value: Option<String>) -> (r: Result<String, String>)
    ensures
        result_text(r) == id_or_reason(unicode_lower(trimmed(name_or_default(opt_text(value))))),
        is_ascii_text(trimmed(name_or_default(opt_text(value)))) ==> result_text(r) == id_or_reason(
            ascii_lowered(trimmed(name_or_default(opt_text(value)))),
        ),
        r matches Ok(id) ==> is_sanitized(id@),
        is_sanitized(name_or_default(opt_text(value))) ==> result_text(r) == Ok::<Seq<char>, Seq<char>>(
            name_or_default(opt_text(value)),
        ),
{
    let ghost name = name_or_default(opt_text(value));
    let raw = match value {
        Some(name) => name,
        None => DEFAULT_PROVIDER_NAME.to_owned(),
    };
    let lower = to_lowercase(trim(raw.as_str()));
    proof {
        law_provider_id(lower@);
        lemma_normalized_chars(lower@);
        if let Ok(id) = id_or_reason(lower@) {
            assert forall|i: int| 0 <= i < id.len() implies !('A' <= #[trigger] id[i] <= 'Z') by {
                if id[i] != '-' {
                    let k = choose|k: int| 0 <= k < lower@.len() && lower@[k] == id[i];
                    assert(!('A' <= lower@[k] <= 'Z'));
                }
            }
        }
        if is_sanitized(name) {
            lemma_id_is_plain(name);
            assert forall|i: int| 0 <= i < name.len() implies #[trigger] name[i] <= '\u{7f}' by {
                assert(is_kept(name[i]) || name[i] == '-');
            }
            assert(ascii_lowered(name) =~= name) by {
                assert forall|i: int| 0 <= i < name.len() implies ascii_lower(#[trigger] name[i]) == name[i] by {}
            }
            law_provider_id(name);
        }
    }
    provider_id_from_lower(lower.as_str())
}

/// Whether a text is a provider id: letters, digits, dots, underscores and
/// dashes, the first of them a letter or a digit, and no dash at its end or
/// after another.
pub open spec fn is_provider_id(id: Seq<char>) -> bool {
    &&& id.len() > 0
    &&& is_alphanumeric(id[0])
    &&& id.last() != '-'
    &&& forall|i: int| 0 <= i < id.len() ==> is_kept(#[trigger] id[i]) || id[i] == '-'
    &&& forall|i: int, j: int| 0 <= i && j == i + 1 && j < id.len() && #[trigger] id[i] == '-' ==> #[trigger] id[j] != '-'
}

/// The dashes of a dashed text stand alone.
proof fn lemma_dashed(s: Seq<char>)
    ensures
        forall|i: int| 0 <= i < dashed(s).len() ==> is_kept(#[trigger] dashed(s)[i]) || dashed(s)[i] == '-',
        forall|i: int, j: int| 0 <= i && j == i + 1 && j < dashed(s).len() && #[trigger] dashed(s)[i] == '-'
            ==> #[trigger] dashed(s)[j] != '-',
    decreases s.len(),
{
    if s.len() > 0 {
        lemma_dashed(s.drop_last());
        let before = dashed(s.drop_last());
        let after = dashed(s);
        assert forall|i: int, j: int| 0 <= i && j == i + 1 && j < after.len() && #[trigger] after[i] == '-' implies #[trigger] after[j]
            != '-' by {
            if j < before.len() {
                assert(before[i] == '-' ==> before[j] != '-');
            }
        }
    }
}

/// A dashed text holds dashes and characters that were there.
proof fn lemma_dashed_chars(s: Seq<char>)
    ensures
        forall|i: int| 0 <= i < dashed(s).len() ==> #[trigger] dashed(s)[i] == '-' || s.contains(dashed(s)[i]),
    decreases s.len(),
{
    if s.len() > 0 {
        let before = dashed(s.drop_last());
        lemma_dashed_chars(s.drop_last());
        assert forall|i: int| 0 <= i < dashed(s).len() implies #[trigger] dashed(s)[i] == '-' || s.contains(
            dashed(s)[i],
        ) by {
            if i < before.len() {
                assert(dashed(s)[i] == before[i]);
                if before[i] != '-' {
                    let k = choose|k: int| 0 <= k < s.drop_last().len() && s.drop_last()[k] == before[i];
                    assert(s[k] == before[i]);
                }
            } else if dashed(s)[i] != '-' {
                assert(s[s.len() - 1] == dashed(s)[i]);
            }
        }
    }
}

proof fn lemma_normalized_chars(s: Seq<char>)
    ensures
        forall|i: int| 0 <= i < normalized(s).len() ==> #[trigger] normalized(s)[i] == '-' || s.contains(normalized(s)[i]),
{
    let d = dashed(s);
    lemma_dashed_chars(s);
    lemma_lead_len(d, only('-'));
    let lead = lead_len(d, only('-')) as int;
    lemma_kept_len(trim_start_where(d, only('-')), only('-'));
    assert forall|i: int| 0 <= i < normalized(s).len() implies #[trigger] normalized(s)[i] == '-' || s.contains(
        normalized(s)[i],
    ) by {
        assert(normalized(s)[i] == d[lead + i]);
    }
}

/// A text that is dashed already stays as it is.
proof fn lemma_dashed_stays(s: Seq<char>)
    requires
        forall|i: int| 0 <= i < s.len() ==> is_kept(#[trigger] s[i]) || s[i] == '-',
        forall|i: int, j: int| 0 <= i && j == i + 1 && j < s.len() && #[trigger] s[i] == '-' ==> #[trigger] s[j] != '-',
    ensures
        dashed(s) == s,
    decreases s.len(),
{
    if s.len() > 0 {
        let before = s.drop_last();
        assert forall|i: int| 0 <= i < before.len() implies is_kept(#[trigger] before[i]) || before[i] == '-' by {
            assert(before[i] == s[i]);
        }
        assert forall|i: int, j: int| 0 <= i && j == i + 1 && j < before.len() && #[trigger] before[i] == '-' implies #[trigger] before[j]
            != '-' by {
            assert(s[i] == '-' ==> s[j] != '-');
        }
        lemma_dashed_stays(before);
        if s.last() == '-' && before.len() > 0 {
            let i = s.len() - 2;
            let j = s.len() - 1;
            assert(s[i] == '-' ==> s[j] != '-');
        }
        assert(before.push(s.last()) =~= s);
    }
}

/// What a name leads to is a provider id, and a provider id leads to itself.
pub proof fn law_provider_id(s: Seq<char>)
    ensures
        id_or_reason(s) matches Ok(id) ==> is_provider_id(id),
        is_provider_id(s) ==> id_or_reason(s) == Ok::<Seq<char>, Seq<char>>(s),
        normalized(normalized(s)) == normalized(s),
{
    let d = dashed(s);
    let id = normalized(s);
    lemma_dashed(s);
    lemma_lead_len(d, only('-'));
    let lead = lead_len(d, only('-')) as int;
    let rest = trim_start_where(d, only('-'));
    lemma_kept_len(rest, only('-'));
    let n = kept_len(rest, only('-')) as int;
    assert forall|i: int| 0 <= i < id.len() implies #[trigger] id[i] == d[lead + i] by {}
    assert forall|i: int| 0 <= i < id.len() implies is_kept(#[trigger] id[i]) || id[i] == '-' by {
        assert(is_kept(d[lead + i]) || d[lead + i] == '-');
    }
    assert forall|i: int, j: int| 0 <= i && j == i + 1 && j < id.len() && #[trigger] id[i] == '-' implies #[trigger] id[j]
        != '-' by {
        assert(d[lead + i] == '-' ==> d[lead + j] != '-');
    }
    lemma_dashed_stays(id);
    lemma_trim_dashes(id);
    if is_provider_id(s) {
        lemma_dashed_stays(s);
        lemma_trim_dashes(s);
    }
}

/// A text without a dash at either end stays as it is.
proof fn lemma_trim_dashes(s: Seq<char>)
    requires
        s.len() > 0 ==> s[0] != '-' && s.last() != '-',
    ensures
        trim_where(s, only('-')) == s,
{
    lemma_lead_len_is(s, only('-'), 0);
    assert(s.skip(0) =~= s);
    lemma_kept_len_is(s, only('-'), s.len() as int);
    assert(s.take(s.len() as int) =~= s);
}

/// The header of a provider section.
pub open spec fn section_header(id: Seq<char>) -> Seq<char> {
    "[model_providers."@ + id + "]"@
}

/// A text in quotes, as a value of the configuration.
pub open spec fn quoted(value: Seq<char>) -> Seq<char> {
    "\""@ + escaped(value) + "\""@
}

/// The lines with the section from `start` to `end` renamed.
pub open spec fn renamed(lines: Seq<Seq<char>>, start: int, end: int, id: Seq<char>) -> Seq<Seq<char>> {
    upserted(lines.update(start, section_header(id)), start, end, "name"@, quoted(id))
}

/// The configuration with a section renamed and then selected.
pub open spec fn repaired(text: Seq<char>, section: SectionModel, id: Seq<char>) -> Seq<char> {
    let with_section = joined(renamed(text_lines(text), section.start, section.end, id), "\n"@);
    joined(with_root_provider(text_lines(with_section), id), "\n"@)
}

/// Whether another section than the one at `start` has the id.
pub open spec fn is_taken(sections: Seq<SectionModel>, id: Seq<char>, start: int) -> bool {
    exists|i: int| 0 <= i < sections.len() && (#[trigger] sections[i]).id == id && sections[i].start != start
}

pub open spec fn taken_reason(id: Seq<char>) -> Seq<char> {
    "config.toml 已存在 [model_providers."@ + id + "]，为避免覆盖没有自动合并。"@
}

/// What renaming the provider in use to `id` gives: the new configuration and
/// what to tell, or the reason why it is not done.
pub open spec fn repair_outcome(text: Seq<char>, id: Seq<char>) -> Result<(Seq<char>, Seq<char>), Seq<char>> {
    let sections = provider_sections(text);
    let current = root_provider(text);
    match section_for_repair(sections, current) {
        None => Err(
            "config.toml 里没有找到 OpenAI provider，也没有找到当前 provider "@ + current
                + " 对应的 [model_providers.*] section。请先确认 config.toml。"@,
        ),
        Some(section) => if is_taken(sections, id, section.start) {
            Err(taken_reason(id))
        } else {
            Ok(
                (
                    repaired(text, section, id),
                    "已将 provider "@ + section.id + " / "@ + value_or(section, "name"@, section.id) + " 重命名为 "@ + id
                        + "，并将 root provider 指向 "@ + id + "。"@,
                ),
            )
        },
    }
}

/// What renaming the OpenAI provider to `id` gives: the new configuration,
/// if there is such a provider, and what to tell.
pub open spec fn openai_repair_outcome(text: Seq<char>, id: Seq<char>) -> Result<
    (Option<Seq<char>>, Seq<char>),
    Seq<char>,
> {
    let sections = provider_sections(text);
    match first_section(sections, is_openai()) {
        None => Ok((None, "config.toml 里没有找到 name/id 为 OpenAI 的 provider。"@)),
        Some(section) => if is_taken(sections, id, section.start) {
            Err(taken_reason(id))
        } else {
            Ok((Some(repaired(text, section, id)), "已将 OpenAI provider 重命名为 "@ + id + "。"@))
        },
    }
}

/// A repair that is worked out and not yet written.
pub struct RepairEdit {
    pub provider_id: String,
    pub next_text: Option<String>,
    pub message: String,
}

fn id_is_taken(sections: &Vec<ProviderSection>, id: &str, start: usize) -> (r: bool)
    ensures
        r == is_taken(section_models(sections@), id@, start as int),
{
    let ghost models = section_models(sections@);
    for i in 0..sections.len()
        invariant
            models == section_models(sections@),
            forall|j: int| 0 <= j < i ==> !((#[trigger] models[j]).id == id@ && models[j].start != start),
    {
        assert(models[i as int] == sections@[i as int]@);
        if same(sections[i].id.as_str(), id) && sections[i].start != start {
            return true;
        }
    }
    false
}

fn quote(value: &str) -> (r: String)
    ensures
        r@ == quoted(value@),
{
    "\"".to_owned().concat(escape_toml_string(value).as_str()).concat("\"")
}

/// The configuration with a section of it renamed and selected.
fn repair_section(config_text: &str, section: ProviderSection, id: &str) -> (r: String)
    requires
        section_fits(section@, text_lines(config_text@)),
        config_text@.len() + 2 <= usize::MAX,
    ensures
        r@ == repaired(config_text@, section@, id@),
{
    proof {
        lemma_text_lines_count(config_text@);
    }
    let mut section = section;
    let mut lines = split_lines(config_text);
    let ghost before = texts(lines@);
    let header = "[model_providers.".to_owned().concat(id).concat("]");
    lines.set(section.start, header);
    assert(texts(lines@) =~= before.update(section.start as int, header@));
    let value = quote(id);
    upsert_key_in_section(&mut lines, &mut section, "name", value.as_str());
    let with_section = join(lines.as_slice(), "\n");
    set_root_provider(with_section.as_str(), id)
}

/// Works out the repair of the provider in use.
pub fn plan_repair(config_text: &str, id: &str) -> (r: Result<RepairEdit, String>)
    requires
        config_text@.len() + 2 <= usize::MAX,
    ensures
        match (r, repair_outcome(config_text@, id@)) {
            (Ok(edit), Ok((next, message))) => {
                &&& edit.provider_id@ == id@
                &&& opt_text(edit.next_text) == Some(next)
                &&& edit.message@ == message
            },
            (Err(e), Err(reason)) => e@ == reason,
            _ => false,
        },
{
    let sections = parse_provider_sections(config_text);
    let current = parse_root_provider(config_text);
    match find_provider_section_for_repair(sections.as_slice(), current.as_str()) {
        None => Err(
            "config.toml 里没有找到 OpenAI provider，也没有找到当前 provider ".to_owned().concat(
                current.as_str(),
            ).concat(" 对应的 [model_providers.*] section。请先确认 config.toml。"),
        ),
        Some(section) => {
            if id_is_taken(&sections, id, section.start) {
                return Err(
                    "config.toml 已存在 [model_providers.".to_owned().concat(id).concat(
                        "]，为避免覆盖没有自动合并。",
                    ),
                );
            }
            proof {
                law_sections_are_disjoint(config_text@);
                lemma_first_section(provider_sections(config_text@), is_openai());
                lemma_first_section(provider_sections(config_text@), is_called(current@));
            }
            let name = section_value(&section, "name", section.id.as_str());
            let message = "已将 provider ".to_owned().concat(section.id.as_str()).concat(" / ").concat(
                name.as_str(),
            ).concat(" 重命名为 ").concat(id).concat("，并将 root provider 指向 ").concat(id).concat("。");
            let next = repair_section(config_text, section, id);
            Ok(RepairEdit { provider_id: id.to_owned(), next_text: Some(next), message })
        },
    }
}

/// Works out the repair of the OpenAI provider.
pub fn plan_openai_repair(config_text: &str, id: &str) -> (r: Result<RepairEdit, String>)
    requires
        config_text@.len() + 2 <= usize::MAX,
    ensures
        match (r, openai_repair_outcome(config_text@, id@)) {
            (Ok(edit), Ok((next, message))) => {
                &&& edit.provider_id@ == id@
                &&& opt_text(edit.next_text) == next
                &&& edit.message@ == message
            },
            (Err(e), Err(reason)) => e@ == reason,
            _ => false,
        },
{
    let sections = parse_provider_sections(config_text);
    match find_openai_provider_section(sections.as_slice()) {
        None => Ok(
            RepairEdit {
                provider_id: id.to_owned(),
                next_text: None,
                message: "config.toml 里没有找到 name/id 为 OpenAI 的 provider。".to_owned(),
            },
        ),
        Some(section) => {
            if id_is_taken(&sections, id, section.start) {
                return Err(
                    "config.toml 已存在 [model_providers.".to_owned().concat(id).concat(
                        "]，为避免覆盖没有自动合并。",
                    ),
                );
            }
            proof {
                law_sections_are_disjoint(config_text@);
                lemma_first_section(provider_sections(config_text@), is_openai());
            }
            let next = repair_section(config_text, section, id);
            Ok(
                RepairEdit {
                    provider_id: id.to_owned(),
                    next_text: Some(next),
                    message: "已将 OpenAI provider 重命名为 ".to_owned().concat(id).concat("。"),
                },
            )
        },
    }
}

/// What a repair did.
pub struct RepairResult {
    pub changed: bool,
    pub provider_id: String,
    pub backup_dir: Option<String>,
    pub message: String,
    pub sync: Option<ShellResult>,
}

/// The result of a repair that was written where there was one to write,
/// after a backup in `backup_dir`, and of the sync that followed it.
pub fn repair_provider(edit: RepairEdit, backup_dir: Option<String>, sync: Option<ShellResult>) -> (r: RepairResult)
    ensures
        r.changed == (edit.next_text is Some),
        r.provider_id == edit.provider_id,
        r.backup_dir == (if edit.next_text is Some {
            backup_dir
        } else {
            None
        }),
        r.message == edit.message,
        r.sync == sync,
{
    match edit.next_text {
        Some(_) => RepairResult {
            changed: true,
            provider_id: edit.provider_id,
            backup_dir,
            message: edit.message,
            sync,
        },
        None => RepairResult {
            changed: false,
            provider_id: edit.provider_id,
            backup_dir: None,
            message: edit.message,
            sync,
        },
    }
}

/// The line that tells how a sync went.
pub open spec fn sync_lines(sync: Option<ShellResult>) -> Seq<Seq<char>> {
    match sync {
        Some(s) => if s.ok {
            seq![s.stdout@]
        } else {
            seq!["Sync failed: "@ + s.stderr@]
        },
        None => Seq::empty(),
    }
}

/// The lines of a repair, empty ones among them.
pub open spec fn repair_lines(result: RepairResult) -> Seq<Seq<char>> {
    with_backup(result.message@, opt_text(result.backup_dir)) + sync_lines(result.sync)
}

pub fn repair_provider_text(result: RepairResult) -> (r: String)
    ensures
        r@ == joined(nonempty(repair_lines(result)), "\n"@),
{
    let ghost shown = repair_lines(result);
    let mut lines: Vec<String> = Vec::new();
    lines.push(result.message);
    if let Some(backup) = result.backup_dir {
        lines.push("Backup: ".to_owned().concat(backup.as_str()));
    }
    if let Some(sync) = result.sync {
        if sync.ok {
            lines.push(sync.stdout);
        } else {
            lines.push("Sync failed: ".to_owned().concat(sync.stderr.as_str()));
        }
    }
    assert(texts(lines@) =~= shown);
    let filled = drop_empty(&lines);
    join(filled.as_slice(), "\n")
}

/// The section with exactly the given id.
pub open spec fn has_id(id: Seq<char>) -> spec_fn(SectionModel) -> bool {
    |s: SectionModel| s.id == id
}

/// The lines with the token of a section set.
pub open spec fn with_token(lines: Seq<Seq<char>>, section: SectionModel, token: Seq<char>) -> Seq<Seq<char>> {
    let key = "experimental_bearer_token"@;
    upserted(
        upserted(lines, section.start, section.end, key, quoted(token)),
        section.start,
        upserted_end(lines, section.start, section.end, key),
        "requires_openai_auth"@,
        "true"@,
    )
}

/// What setting the token of the provider `id` gives: the new configuration,
/// or the reason why it is not done.
pub open spec fn token_outcome(text: Seq<char>, id: Seq<char>, token: Seq<char>) -> Result<Seq<char>, Seq<char>> {
    if !"sk-"@.is_prefix_of(token) {
        Err("API Key 需以 sk- 开头。"@)
    } else {
        match first_section(provider_sections(text), has_id(id)) {
            None => Err("config.toml 中没有找到 [model_providers."@ + id + "]。"@),
            Some(section) => Ok(joined(with_token(text_lines(text), section, token), "\n"@)),
        }
    }
}

/// A token that is to be set, and the configuration that sets it.
pub struct TokenEdit {
    pub provider_id: String,
    pub token: String,
    pub next_text: String,
}

fn find_section_with_id(sections: &[ProviderSection], id: &str) -> (r: Option<ProviderSection>)
    ensures
        opt_section(r) == first_section(section_models(sections@), has_id(id@)),
{
    let f = |s: &ProviderSection| -> (b: bool)
        ensures
            b == has_id(id@)(s@),
        { same(s.id.as_str(), id) };
    find_section(sections, f, Ghost(has_id(id@)))
}

/// Works out the setting of a token for the provider with the given id.
pub fn plan_token(config_text: &str, id: String, token: String) -> (r: Result<TokenEdit, String>)
    requires
        config_text@.len() + 3 <= usize::MAX,
    ensures
        match (r, token_outcome(config_text@, id@, token@)) {
            (Ok(edit), Ok(next)) => {
                &&& edit.provider_id == id
                &&& edit.token == token
                &&& edit.next_text@ == next
            },
            (Err(e), Err(reason)) => e@ == reason,
            _ => false,
        },
{
    if !starts_with(token.as_str(), "sk-") {
        return Err("API Key 需以 sk- 开头。".to_owned());
    }
    let sections = parse_provider_sections(config_text);
    match find_section_with_id(sections.as_slice(), id.as_str()) {
        None => Err("config.toml 中没有找到 [model_providers.".to_owned().concat(id.as_str()).concat("]。")),
        Some(section) => {
            proof {
                law_sections_are_disjoint(config_text@);
                lemma_first_section(provider_sections(config_text@), has_id(id@));
                lemma_text_lines_count(config_text@);
                assert(section_fits(section@, text_lines(config_text@)));
            }
            let mut section = section;
            let mut lines = split_lines(config_text);
            let value = quote(token.as_str());
            upsert_key_in_section(&mut lines, &mut section, "experimental_bearer_token", value.as_str());
            upsert_key_in_section(&mut lines, &mut section, "requires_openai_auth", "true");
            let next_text = join(lines.as_slice(), "\n");
            Ok(TokenEdit { provider_id: id, token, next_text })
        },
    }
}

/// The provider whose token is meant, as a name: the given one, else the
/// selected one.
pub open spec fn token_name(text: Seq<char>, named: Option<Seq<char>>) -> Seq<char> {
    match named {
        Some(name) => name,
        None => root_provider(text),
    }
}

/// Works out the setting of a token for a provider by name.
pub fn apply_experimental_token(config_text: &str, provider_id: Option<String>, token: String) -> (r: Result<
    TokenEdit,
    String,
>)
    requires
        config_text@.len() + 3 <= usize::MAX,
    ensures
        match id_or_reason(unicode_lower(trimmed(token_name(config_text@, opt_text(provider_id))))) {
            Err(reason) => r matches Err(e) && e@ == reason,
            Ok(id) => match (r, token_outcome(config_text@, id, token@)) {
                (Ok(edit), Ok(next)) => {
                    &&& edit.provider_id@ == id
                    &&& edit.token == token
                    &&& edit.next_text@ == next
                },
                (Err(e), Err(reason)) => e@ == reason,
                _ => false,
            },
        },
{
    let name = match provider_id {
        Some(name) => name,
        None => parse_root_provider(config_text),
    };
    match sanitize_provider_id(Some(name)) {
        Err(e) => Err(e),
        Ok(id) => plan_token(config_text, id, token),
    }
}

/// What to tell of a token that was set.
pub fn apply_experimental_token_text(edit: &TokenEdit, backup_dir: &str) -> (r: String)
    ensures
        r@ == "Applied experimental_bearer_token for provider "@ + edit.provider_id@ + ".\nToken: "@ + masked(
            edit.token@,
        ) + "\nBackup: "@ + backup_dir@,
{
    "Applied experimental_bearer_token for provider ".to_owned().concat(edit.provider_id.as_str()).concat(
        ".\nToken: ",
    ).concat(mask_secret(edit.token.as_str()).as_str()).concat("\nBackup: ").concat(backup_dir)
}

/// A provider id holds no character that ends a line or needs care in the
/// configuration.
pub proof fn lemma_id_is_plain(id: Seq<char>)
    requires
        is_provider_id(id),
    ensures
        !id.contains('#'),
        !id.contains('"'),
        !id.contains('\\'),
        !id.contains('\n'),
        escaped(id) == id,
        trimmed(id) == id,
{
    assert forall|c: char| #[trigger] id.contains(c) implies is_kept(c) || c == '-' by {
        let k = choose|k: int| 0 <= k < id.len() && id[k] == c;
        assert(is_kept(id[k]) || id[k] == '-');
    }
    lemma_replaced_absent(id, '\\', "\\\\"@);
    lemma_replaced_absent(id, '"', "\\\""@);
    let n = id.len() as int;
    assert(is_kept(id[n - 1]) || id[n - 1] == '-');
    lemma_trimmed_between(id, 0, n);
    assert(id.subrange(0, n) =~= id);
}

/// The header of a section gives the id that it was made of.
pub proof fn law_section_header(id: Seq<char>)
    requires
        is_provider_id(id),
    ensures
        section_id(section_header(id)) == Some(id),
        is_line(section_header(id)),
{
    lemma_id_is_plain(id);
    let head = "[model_providers."@;
    reveal_strlit("[model_providers.");
    reveal_strlit("]");
    let t = section_header(id);
    let n = id.len() as int;
    assert(t =~= head + id + seq![']']);
    assert(t[0] == head[0] && t.last() == ']');
    lemma_trimmed_between(t, 0, t.len() as int);
    assert(t.subrange(0, t.len() as int) =~= t);
    assert(head.is_prefix_of(t));
    let rest = t.skip(head.len() as int);
    assert(rest =~= id + seq![']']);
    assert(rest[0] == id[0]);
    assert(!head.is_prefix_of(rest)) by {
        if head.is_prefix_of(rest) {
            assert(head[0] == rest[0]);
        }
    }
    assert(without_prefixes(rest, head) == rest);
    assert(without_prefixes(t, head) == rest);
    assert(is_kept(id[n - 1]) || id[n - 1] == '-');
    assert(rest[n - 1] == id[n - 1]);
    assert forall|j: int| n <= j < rest.len() implies only(']')(#[trigger] rest[j]) by {}
    lemma_kept_len_is(rest, only(']'), n);
    assert(rest.take(n) =~= id);
    if t.contains('\n') {
        let k = choose|k: int| 0 <= k < t.len() && t[k] == '\n';
        if k < head.len() {
            assert(t[k] == head[k]);
        } else if k < head.len() + n {
            assert(id[k - head.len()] == '\n');
        }
    }
}

pub proof fn lemma_quoted_is_line(key: Seq<char>, id: Seq<char>)
    requires
        is_provider_id(id),
        key == "name"@,
    ensures
        is_line(key_value_line(key, quoted(id))),
{
    lemma_id_is_plain(id);
    reveal_strlit("name");
    reveal_strlit(" = ");
    reveal_strlit("\"");
    let line = key_value_line(key, quoted(id));
    assert(line =~= seq!['n', 'a', 'm', 'e', ' ', '=', ' ', '"'] + id + seq!['"']);
    if line.contains('\n') {
        let k = choose|k: int| 0 <= k < line.len() && line[k] == '\n';
        if 8 <= k < 8 + id.len() {
            assert(id[k - 8] == '\n');
        }
    }
}

/// The selected provider is written before the first header.
proof fn lemma_root_spot_before(lines: Seq<Seq<char>>, i: int, h: int)
    requires
        0 <= i <= h < lines.len(),
        is_header(lines[h]),
    ensures
        match root_spot(lines, i) {
            RootSpot::Replace(k) => i <= k < h,
            RootSpot::Insert(k) => i <= k <= h,
        },
    decreases h - i,
{
    if i < h {
        lemma_root_spot_before(lines, i + 1, h);
    }
}

pub proof fn lemma_section_listed(lines: Seq<Seq<char>>, k: int, n: int, id: Seq<char>)
    requires
        0 <= k < n <= lines.len(),
        section_id(lines[k]) == Some(id),
    ensures
        exists|i: int| 0 <= i < sections_upto(lines, n).len() && (#[trigger] sections_upto(lines, n)[i]).id == id,
    decreases n,
{
    if n - 1 > k {
        lemma_section_listed(lines, k, n - 1, id);
        let before = sections_upto(lines, n - 1);
        let i = choose|i: int| 0 <= i < before.len() && (#[trigger] before[i]).id == id;
        assert(sections_upto(lines, n)[i] == before[i]);
    } else {
        let all = sections_upto(lines, n);
        assert(all[all.len() - 1].id == id);
    }
}

proof fn lemma_next_header_same(a: Seq<Seq<char>>, b: Seq<Seq<char>>, i: int, h: int)
    requires
        0 <= i <= h < a.len(),
        h < b.len(),
        forall|j: int| i <= j < h ==> #[trigger] b[j] == a[j],
        is_header(a[h]),
        is_header(b[h]),
    ensures
        next_header(b, i) == next_header(a, i),
        next_header(a, i) <= h,
    decreases h - i,
{
    if i < h {
        assert(b[i] == a[i]);
        lemma_next_header_same(a, b, i + 1, h);
    }
}

proof fn lemma_values_same(a: Seq<Seq<char>>, b: Seq<Seq<char>>, from: int, to: int)
    requires
        forall|j: int| from <= j < to ==> #[trigger] b[j] == a[j],
    ensures
        values_in(b, from, to) == values_in(a, from, to),
    decreases to - from,
{
    if from < to {
        lemma_values_same(a, b, from, to - 1);
        assert(b[to - 1] == a[to - 1]);
    }
}

/// Sections before a header are the same where the lines before it are.
pub proof fn lemma_sections_before(a: Seq<Seq<char>>, b: Seq<Seq<char>>, n: int, h: int)
    requires
        0 <= n <= h < a.len(),
        h < b.len(),
        forall|j: int| 0 <= j < h ==> #[trigger] b[j] == a[j],
        is_header(a[h]),
        is_header(b[h]),
    ensures
        sections_upto(b, n) == sections_upto(a, n),
    decreases n,
{
    if n > 0 {
        lemma_sections_before(a, b, n - 1, h);
        assert(b[n - 1] == a[n - 1]);
        lemma_next_header_same(a, b, n, h);
        lemma_values_same(a, b, n, next_header(a, n));
    }
}

pub proof fn lemma_sections_prefix(lines: Seq<Seq<char>>, m: int, n: int)
    requires
        0 <= m <= n,
    ensures
        sections_upto(lines, m).len() <= sections_upto(lines, n).len(),
        forall|i: int| 0 <= i < sections_upto(lines, m).len() ==> #[trigger] sections_upto(lines, n)[i]
            == sections_upto(lines, m)[i],
    decreases n - m,
{
    if m < n {
        lemma_sections_prefix(lines, m, n - 1);
    }
}

pub proof fn lemma_name_line_is_no_header(id: Seq<char>)
    ensures
        !is_header(key_value_line("name"@, quoted(id))),
{
    reveal_strlit("name");
    reveal_strlit(" = ");
    reveal_strlit("\"");
    let line = key_value_line("name"@, quoted(id));
    assert(line[0] == 'n' && line.last() == '"');
    lemma_trimmed_between(line, 0, line.len() as int);
    assert(line.subrange(0, line.len() as int) =~= line);
}

/// Renaming a section leaves the other sections as they are.
pub proof fn lemma_renamed_sections(lines: Seq<Seq<char>>, section: SectionModel, id: Seq<char>) -> (t: int)
    requires
        section_fits(section, lines),
        is_provider_id(id),
    ensures
        0 <= t < sections_upto(lines, lines.len() as int).len(),
        sections_upto(lines, lines.len() as int)[t] == section,
        same_sections_but(
            sections_upto(lines, lines.len() as int),
            sections_upto(
                renamed(lines, section.start, section.end, id),
                renamed(lines, section.start, section.end, id).len() as int,
            ),
            t,
            id,
        ),
{
    let start = section.start;
    let end = section.end;
    let n = lines.len() as int;
    let headed = lines.update(start, section_header(id));
    let named = renamed(lines, start, end, id);
    let d = named.len() - n;
    law_section_header(id);
    lemma_section_line_is_header(section_header(id));
    lemma_section_line_is_header(lines[start]);
    lemma_name_line_is_no_header(id);
    lemma_key_line(headed, start + 1, end, "name"@);
    assert(named[start] == section_header(id));
    assert forall|j: int| 0 <= j < start implies #[trigger] named[j] == lines[j] by {}
    lemma_sections_before(lines, named, start, start);
    let before = sections_upto(lines, start);
    let t = before.len() as int;
    assert(sections_upto(lines, start + 1) == before.push(section));
    assert(sections_upto(named, start + 1) == before.push(section_at(named, start, id)));
    assert forall|j: int| start + 1 <= j < end + d implies !is_header(#[trigger] named[j]) by {
        if has_key_line(headed, start, end, "name"@) {
            if j != key_line(headed, start + 1, end, "name"@) {
                assert(named[j] == lines[j]);
            }
        } else if j > start + 1 {
            assert(named[j] == lines[j - 1]);
        }
    }
    lemma_no_sections(lines, start + 1, end);
    lemma_no_sections(named, start + 1, end + d);
    assert forall|j: int| end <= j < n implies #[trigger] named[j + d] == lines[j] by {}
    lemma_sections_shift(lines, named, end, d, n, t, id);
    lemma_sections_prefix(lines, start + 1, n);
    t
}

/// After a repair the configuration selects the new id, and the section that
/// was renamed has it. The other sections keep their ids, their values and
/// their order.
pub proof fn law_repair_selects(text: Seq<char>, section: SectionModel, id: Seq<char>)
    requires
        provider_sections(text).contains(section),
        is_provider_id(id),
    ensures
        root_provider(repaired(text, section, id)) == id,
        first_section(provider_sections(repaired(text, section, id)), is_called(id)) is Some,
        exists|t: int|
            0 <= t < provider_sections(text).len() && #[trigger] provider_sections(text)[t] == section
                && same_sections_but(provider_sections(text), provider_sections(repaired(text, section, id)), t, id),
{
    let lines = text_lines(text);
    law_text_lines(text);
    law_sections_are_disjoint(text);
    assert(section_fits(section, lines));
    let start = section.start;
    let end = section.end;
    let headed = lines.update(start, section_header(id));
    let named = renamed(lines, start, end, id);
    law_section_header(id);
    lemma_quoted_is_line("name"@, id);
    lemma_id_is_plain(id);
    lemma_key_line(headed, start + 1, end, "name"@);
    assert forall|i: int| 0 <= i < headed.len() implies is_line(#[trigger] headed[i]) by {
        if i != start {
            assert(headed[i] == lines[i]);
        }
    }
    assert forall|i: int| 0 <= i < named.len() implies is_line(#[trigger] named[i]) by {
        if has_key_line(headed, start, end, "name"@) {
            let k = key_line(headed, start + 1, end, "name"@);
            if i != k {
                assert(named[i] == headed[i]);
            }
        } else if i <= start {
            assert(named[i] == headed[i]);
        } else if i > start + 1 {
            assert(named[i] == headed[i - 1]);
        }
    }
    assert(named[start] == section_header(id));
    law_lines_rejoin(named);
    let with_section = joined(named, "\n"@);
    law_root_provider_is_set(with_section, id);
    lemma_section_line_is_header(named[start]);
    lemma_root_spot_before(named, 0, start);
    let last = with_root_provider(named, id);
    lemma_root_line_is_line(id);
    assert forall|i: int| 0 <= i < last.len() implies is_line(#[trigger] last[i]) by {
        match root_spot(named, 0) {
            RootSpot::Replace(k) => {
                if i != k {
                    assert(last[i] == named[i]);
                }
            },
            RootSpot::Insert(k) => {
                if i < k {
                    assert(last[i] == named[i]);
                } else if i > k {
                    assert(last[i] == named[i - 1]);
                }
            },
        }
    }
    law_lines_rejoin(last);
    let at = match root_spot(named, 0) {
        RootSpot::Replace(k) => start,
        RootSpot::Insert(k) => start + 1,
    };
    assert(last[at] == section_header(id));
    let n = last.len() as int;
    lemma_section_listed(last, at, n, id);
    let found = sections_upto(last, n);
    assert(found == provider_sections(repaired(text, section, id)));
    lemma_first_section(found, is_called(id));
    let i = choose|i: int| 0 <= i < found.len() && (#[trigger] found[i]).id == id;
    assert(is_called(id)(found[i]));
    let t = lemma_renamed_sections(lines, section, id);
    lemma_root_keeps_sections(named, id);
    let kept = provider_sections(text);
    assert(same_sections_but(kept, sections_upto(named, named.len() as int), t, id));
    assert(same_sections_but(kept, found, t, id));
    assert(kept[t] == section);
}

pub proof fn lemma_key_line(lines: Seq<Seq<char>>, from: int, to: int, key: Seq<char>)
    requires
        0 <= from <= to <= lines.len(),
    ensures
        from <= key_line(lines, from, to, key) <= to,
    decreases to - from,
{
    if from < to && !is_key_line(lines[from], key) {
        lemma_key_line(lines, from + 1, to, key);
    }
}

/// Whether a text can stand as a key: no sign of an assignment in it, no
/// white space around it, and no sign of a comment or a header before it.
pub open spec fn is_plain_key(key: Seq<char>) -> bool {
    &&& key.len() > 0
    &&& !key.contains('=')
    &&& !is_white_space(key[0])
    &&& !is_white_space(key.last())
    &&& key[0] != '#'
}

/// A line that assigns a quoted value gives its key and that value.
pub proof fn lemma_quoted_entry(key: Seq<char>, value: Seq<char>)
    requires
        is_plain_key(key),
        !value.contains('#'),
        !value.contains('"'),
        !value.contains('\\'),
    ensures
        entry(key_value_line(key, quoted(value))) == Some((key, value)),
{
    lemma_replaced_absent(value, '\\', "\\\\"@);
    lemma_replaced_absent(value, '"', "\\\""@);
    reveal_strlit(" = ");
    reveal_strlit("\"");
    let line = key_value_line(key, quoted(value));
    let k = key.len() as int;
    let n = value.len() as int;
    assert(line =~= key + seq![' ', '=', ' ', '"'] + value + seq!['"']);
    assert(line[0] == key[0] && line.last() == '"');
    lemma_trimmed_between(line, 0, line.len() as int);
    assert(line.subrange(0, line.len() as int) =~= line);
    assert forall|j: int| 0 <= j < k + 1 implies !only('=')(#[trigger] line[j]) by {
        if j < k {
            assert(line[j] == key[j]);
            assert(key.contains(key[j]));
        }
    }
    assert(line[k + 1] == '=');
    lemma_index_where_is(line, only('='), k + 1);
    let left = line.take(k + 1);
    let right = line.skip(k + 2);
    assert(left[0] == key[0] && left[k - 1] == key.last() && left[k] == ' ');
    lemma_trimmed_between(left, 0, k);
    assert(left.subrange(0, k) =~= key);
    assert(right =~= seq![' ', '"'] + value + seq!['"']);
    assert forall|j: int| 0 <= j < right.len() implies !only('#')(#[trigger] right[j]) by {
        if 2 <= j < n + 2 {
            assert(right[j] == value[j - 2]);
            assert(value.contains(value[j - 2]));
        }
    }
    lemma_index_where_is(right, only('#'), right.len() as int);
    assert(right.take(right.len() as int) =~= right);
    lemma_trimmed_between(right, 1, right.len() as int);
    let inner = right.subrange(1, right.len() as int);
    lemma_trimmed_between(inner, 0, inner.len() as int);
    assert(inner.subrange(0, inner.len() as int) =~= inner);
    assert(inner.subrange(1, inner.len() - 1) =~= value);
}

pub proof fn lemma_last_value(lines: Seq<Seq<char>>, from: int, to: int, at: int, key: Seq<char>, value: Seq<char>)
    requires
        0 <= from <= at < to <= lines.len(),
        entry(lines[at]) == Some((key, value)),
        forall|i: int| at < i < to ==> (entry(#[trigger] lines[i]) matches Some((other, _)) ==> other != key),
    ensures
        values_in(lines, from, to).dom().contains(key),
        values_in(lines, from, to)[key] == value,
    decreases to - from,
{
    if at < to - 1 {
        lemma_last_value(lines, from, to - 1, at, key, value);
        assert(entry(lines[to - 1]) matches Some((other, _)) ==> other != key);
    }
}

/// A quoted value that is written to a section is read back from it, unless
/// another line of the section assigns the same key.
pub proof fn law_upsert_reads_back(
    lines: Seq<Seq<char>>,
    start: int,
    end: int,
    key: Seq<char>,
    value: Seq<char>,
)
    requires
        0 <= start < end <= lines.len(),
        is_plain_key(key),
        !value.contains('#'),
        !value.contains('"'),
        !value.contains('\\'),
        forall|i: int|
            start < i < end && i != key_line(lines, start + 1, end, key) ==> (entry(#[trigger] lines[i]) matches Some(
                (other, _),
            ) ==> other != key),
    ensures
        ({
            let next = upserted(lines, start, end, key, quoted(value));
            let values = values_in(next, start + 1, upserted_end(lines, start, end, key));
            values.dom().contains(key) && values[key] == value
        }),
{
    let next = upserted(lines, start, end, key, quoted(value));
    lemma_quoted_entry(key, value);
    lemma_key_line(lines, start + 1, end, key);
    if has_key_line(lines, start, end, key) {
        let at = key_line(lines, start + 1, end, key);
        assert forall|i: int| at < i < end implies (entry(#[trigger] next[i]) matches Some((other, _)) ==> other != key) by {
            assert(next[i] == lines[i]);
        }
        lemma_last_value(next, start + 1, end, at, key, value);
    } else {
        let at = start + 1;
        assert forall|i: int| at < i < end + 1 implies (entry(#[trigger] next[i]) matches Some((other, _)) ==> other
            != key) by {
            assert(next[i] == lines[i - 1]);
        }
        lemma_last_value(next, start + 1, end + 1, at, key, value);
    }
}

} // verus!
