//! What the commands on the configuration promise, said of the results of the
//! functions that make them up.

use vstd::prelude::*;

use crate::config::{
    entry, first_section, has_key_line, is_called, is_header, is_key_line, is_line, is_openai, key_line,
    key_value_line, law_lines_rejoin, law_sections_are_disjoint, law_text_lines, lemma_first_section,
    lemma_next_header, lemma_no_sections, lemma_section_line_is_header, lemma_sections_shift,
    lemma_sections_upto, next_header, parse_root_provider, provider_sections, root_provider,
    root_provider_from, same_sections_but, section_at, section_fits, section_for_repair, sections_upto,
    text_lines, upserted, upserted_end, SectionModel,
};
use crate::provider::{
    apply_experimental_token, has_id, id_or_reason, is_plain_key, is_provider_id, law_repair_selects,
    lemma_key_line, lemma_last_value, lemma_quoted_entry, lemma_sections_before, lemma_sections_prefix,
    openai_repair_outcome, plan_openai_repair, plan_repair, plan_token, quoted, repair_outcome,
    repair_provider, repaired, result_text, sanitize_provider_id, token_name, token_outcome, RepairEdit,
    RepairResult, TokenEdit,
};
use crate::relay::value_of;
use crate::report::ShellResult;
use crate::text::{
    ascii_lowered, kept_len, lemma_index_where_is, lemma_kept_len, lemma_lead_len_is, lemma_replaced_absent,
    lemma_trimmed_between, only, opt_text, trim_start_where, trimmed, unicode_lower, white,
};

verus! {

/// Whether the id or the name of a section is OpenAI, in any case of letters.
pub open spec fn says_openai(s: SectionModel) -> bool {
    ascii_lowered(s.id) == "openai"@ || (s.values.dom().contains("name"@) && ascii_lowered(s.values["name"@])
        == "openai"@)
}

/// Whether the id or the name of a section is `name`.
pub open spec fn goes_by(s: SectionModel, name: Seq<char>) -> bool {
    s.id == name || (s.values.dom().contains("name"@) && s.values["name"@] == name)
}

/// Whether section `t` is the one to repair: the first that says OpenAI, or,
/// where none does, the first that goes by the provider in use.
pub open spec fn is_to_repair(sections: Seq<SectionModel>, current: Seq<char>, t: int) -> bool {
    &&& 0 <= t < sections.len()
    &&& if exists|j: int| 0 <= j < sections.len() && says_openai(#[trigger] sections[j]) {
        says_openai(sections[t]) && forall|j: int| 0 <= j < t ==> !says_openai(#[trigger] sections[j])
    } else {
        goes_by(sections[t], current) && forall|j: int| 0 <= j < t ==> !goes_by(#[trigger] sections[j], current)
    }
}

pub proof fn lemma_openai_lower()
    ensures
        ascii_lowered("openai"@) == "openai"@,
{
    reveal_strlit("openai");
    assert(ascii_lowered("openai"@) =~= "openai"@);
}

/// Where the section that is found stands.
pub proof fn lemma_first_place(sections: Seq<SectionModel>, p: spec_fn(SectionModel) -> bool) -> (t: int)
    requires
        first_section(sections, p) is Some,
    ensures
        0 <= t < sections.len(),
        sections[t] == first_section(sections, p)->0,
        p(sections[t]),
        forall|j: int| 0 <= j < t ==> !p(#[trigger] sections[j]),
    decreases sections.len(),
{
    if p(sections[0]) {
        0
    } else {
        let rest = sections.drop_first();
        let k = lemma_first_place(rest, p);
        assert forall|j: int| 0 <= j < k + 1 implies !p(#[trigger] sections[j]) by {
            if j > 0 {
                assert(rest[j - 1] == sections[j]);
            }
        }
        k + 1
    }
}

/// Equal sections of a configuration stand in the same place.
pub proof fn lemma_same_place(text: Seq<char>, i: int, j: int)
    requires
        0 <= i < provider_sections(text).len(),
        0 <= j < provider_sections(text).len(),
        provider_sections(text)[i].start == provider_sections(text)[j].start,
    ensures
        i == j,
{
    law_sections_are_disjoint(text);
    let s = provider_sections(text);
    assert(section_fits(s[i], text_lines(text)) && section_fits(s[j], text_lines(text)));
    if i < j {
        assert(s[i].end <= s[j].start);
    } else if j < i {
        assert(s[j].end <= s[i].start);
    }
}

/// A repair renames the section that is to be repaired and selects it. Every
/// other section keeps its id and its values. Where there is no such section,
/// or another has the id already, nothing is repaired.
pub proof fn law_repair(config_text: &str, id: &str, r: Result<RepairEdit, String>)
    requires
        config_text@.len() + 2 <= usize::MAX,
        is_provider_id(id@),
        call_ensures(plan_repair, (config_text, id), r),
    ensures
        ({
            let sections = provider_sections(config_text@);
            let current = root_provider(config_text@);
            match r {
                Ok(edit) => exists|t: int| #[trigger]
                    is_to_repair(sections, current, t) && edit.provider_id@ == id@ && edit.next_text is Some
                        && root_provider(edit.next_text->0@) == id@ && same_sections_but(
                        sections,
                        provider_sections(edit.next_text->0@),
                        t,
                        id@,
                    ) && forall|j: int| 0 <= j < sections.len() && j != t ==> (#[trigger] sections[j]).id != id@,
                Err(_) => forall|t: int| #[trigger]
                    is_to_repair(sections, current, t) ==> exists|j: int|
                        0 <= j < sections.len() && j != t && (#[trigger] sections[j]).id == id@,
            }
        }),
{
    let text = config_text@;
    let sections = provider_sections(text);
    let current = root_provider(text);
    assert(repair_outcome(text, id@) is Ok == r is Ok);
    lemma_openai_lower();
    lemma_first_section(sections, is_openai());
    lemma_first_section(sections, is_called(current));
    assert forall|j: int| 0 <= j < sections.len() implies is_openai()(#[trigger] sections[j]) == says_openai(sections[j])
        && is_called(current)(sections[j]) == goes_by(sections[j], current) by {}
    match section_for_repair(sections, current) {
        Some(section) => {
            let t = if first_section(sections, is_openai()) is Some {
                let t = lemma_first_place(sections, is_openai());
                assert(says_openai(sections[t]));
                t
            } else {
                lemma_first_place(sections, is_called(current))
            };
            assert(is_to_repair(sections, current, t));
            assert(sections.contains(section));
            law_repair_selects(text, section, id@);
            let u = choose|u: int|
                0 <= u < sections.len() && #[trigger] sections[u] == section && same_sections_but(
                    sections,
                    provider_sections(repaired(text, section, id@)),
                    u,
                    id@,
                );
            lemma_same_place(text, t, u);
            if r is Ok {
                assert forall|j: int| 0 <= j < sections.len() && j != t implies (#[trigger] sections[j]).id != id@ by {
                    if sections[j].id == id@ && sections[j].start == section.start {
                        lemma_same_place(text, j, t);
                    }
                }
            } else {
                let j = choose|j: int|
                    0 <= j < sections.len() && (#[trigger] sections[j]).id == id@ && sections[j].start != section.start;
                assert forall|v: int| #[trigger] is_to_repair(sections, current, v) implies exists|j: int|
                    0 <= j < sections.len() && j != v && (#[trigger] sections[j]).id == id@ by {
                    assert(v == t) by {
                        if v < t {
                            assert(!is_openai()(sections[v]) || !says_openai(sections[t]));
                        }
                    }
                    assert(sections[j].id == id@ && j != v);
                }
            }
        },
        None => {
            assert forall|v: int| !#[trigger] is_to_repair(sections, current, v) by {}
        },
    }
}

/// Writing a value into a section leaves the other sections as they are.
pub proof fn lemma_upserted_sections(
    lines: Seq<Seq<char>>,
    section: SectionModel,
    key: Seq<char>,
    value: Seq<char>,
) -> (t: int)
    requires
        section_fits(section, lines),
        !is_header(key_value_line(key, value)),
    ensures
        ({
            let next = upserted(lines, section.start, section.end, key, value);
            let before = sections_upto(lines, lines.len() as int);
            let after = sections_upto(next, next.len() as int);
            let changed = section_at(next, section.start, section.id);
            &&& 0 <= t < before.len()
            &&& before[t] == section
            &&& same_sections_but(before, after, t, section.id)
            &&& after[t] == changed
            &&& section_fits(changed, next)
            &&& changed.end == upserted_end(lines, section.start, section.end, key)
        }),
{
    let start = section.start;
    let end = section.end;
    let n = lines.len() as int;
    let next = upserted(lines, start, end, key, value);
    let d = next.len() - n;
    lemma_section_line_is_header(lines[start]);
    lemma_key_line(lines, start + 1, end, key);
    assert(next[start] == lines[start]);
    assert forall|j: int| 0 <= j < start implies #[trigger] next[j] == lines[j] by {}
    lemma_sections_before(lines, next, start, start);
    let before = sections_upto(lines, start);
    let t = before.len() as int;
    let changed = section_at(next, start, section.id);
    assert(sections_upto(lines, start + 1) == before.push(section));
    assert(sections_upto(next, start + 1) == before.push(changed));
    assert forall|j: int| start + 1 <= j < end + d implies !is_header(#[trigger] next[j]) by {
        if has_key_line(lines, start, end, key) {
            if j != key_line(lines, start + 1, end, key) {
                assert(next[j] == lines[j]);
            }
        } else if j > start + 1 {
            assert(next[j] == lines[j - 1]);
        }
    }
    lemma_no_sections(lines, start + 1, end);
    lemma_no_sections(next, start + 1, end + d);
    assert forall|j: int| end <= j < n implies #[trigger] next[j + d] == lines[j] by {}
    lemma_sections_shift(lines, next, end, d, n, t, section.id);
    lemma_sections_prefix(lines, start + 1, n);
    lemma_sections_prefix(next, start + 1, n + d);
    lemma_next_header(lines, start + 1);
    lemma_next_header_is(next, start + 1, end + d);
    t
}

pub proof fn lemma_next_header_is(lines: Seq<Seq<char>>, i: int, h: int)
    requires
        0 <= i <= h <= lines.len(),
        forall|j: int| i <= j < h ==> !is_header(#[trigger] lines[j]),
        h < lines.len() ==> is_header(lines[h]),
    ensures
        next_header(lines, i) == h,
    decreases h - i,
{
    if i < h {
        assert(!is_header(lines[i]));
        lemma_next_header_is(lines, i + 1, h);
    }
}

/// A line that assigns a value to a plain key is no header.
pub proof fn lemma_assignment_is_no_header(key: Seq<char>, value: Seq<char>)
    requires
        is_plain_key(key),
        key[0] != '[',
    ensures
        !is_header(key_value_line(key, value)),
{
    let line = key_value_line(key, value);
    assert(line[0] == key[0]);
    lemma_lead_len_is(line, white(), 0);
    let rest = trim_start_where(line, white());
    assert(rest =~= line);
    lemma_kept_len(rest, white());
    assert(trimmed(line) == rest.take(kept_len(rest, white()) as int));
    if trimmed(line).len() > 0 {
        assert(trimmed(line)[0] == line[0]);
    }
}

proof fn lemma_assignment_is_line(key: Seq<char>, value: Seq<char>)
    requires
        !key.contains('\n'),
        !value.contains('\n'),
        value.len() > 0,
        value.last() != '\r',
    ensures
        is_line(key_value_line(key, value)),
{
    reveal_strlit(" = ");
    let line = key_value_line(key, value);
    assert(line.last() == value.last());
    if line.contains('\n') {
        let k = choose|k: int| 0 <= k < line.len() && line[k] == '\n';
        if k < key.len() {
            assert(key[k] == '\n');
        } else if k >= key.len() + 3 {
            assert(value[k - key.len() - 3] == '\n');
        } else {
            assert(line[k] == " = "@[k - key.len()]);
        }
    }
}

proof fn lemma_token_keys()
    ensures
        is_plain_key("experimental_bearer_token"@),
        is_plain_key("requires_openai_auth"@),
        "experimental_bearer_token"@[0] == 'e',
        "requires_openai_auth"@[0] == 'r',
        !"experimental_bearer_token"@.contains('\n'),
        !"requires_openai_auth"@.contains('\n'),
        "experimental_bearer_token"@ != "requires_openai_auth"@,
{
    reveal_strlit("experimental_bearer_token");
    reveal_strlit("requires_openai_auth");
    assert("experimental_bearer_token"@.len() == 25);
    assert("requires_openai_auth"@.len() == 20);
}

proof fn lemma_quoted_token_is_line(token: Seq<char>)
    requires
        !token.contains('"'),
        !token.contains('\\'),
        !token.contains('\n'),
    ensures
        quoted(token).len() > 0,
        quoted(token).last() == '"',
        !quoted(token).contains('\n'),
{
    lemma_replaced_absent(token, '\\', "\\\\"@);
    lemma_replaced_absent(token, '"', "\\\""@);
    reveal_strlit("\"");
    assert(quoted(token) =~= seq!['"'] + token + seq!['"']);
    if quoted(token).contains('\n') {
        let k = choose|k: int| 0 <= k < quoted(token).len() && quoted(token)[k] == '\n';
        assert(token[k - 1] == '\n');
    }
}

proof fn lemma_upserted_lines(lines: Seq<Seq<char>>, start: int, end: int, key: Seq<char>, value: Seq<char>)
    requires
        0 <= start < end <= lines.len(),
        forall|i: int| 0 <= i < lines.len() ==> is_line(#[trigger] lines[i]),
        is_line(key_value_line(key, value)),
    ensures
        forall|i: int|
            0 <= i < upserted(lines, start, end, key, value).len() ==> is_line(
                #[trigger] upserted(lines, start, end, key, value)[i],
            ),
        forall|i: int| 0 <= i <= start ==> #[trigger] upserted(lines, start, end, key, value)[i] == lines[i],
        upserted(lines, start, end, key, value).len() >= lines.len(),
{
    let next = upserted(lines, start, end, key, value);
    lemma_key_line(lines, start + 1, end, key);
    assert forall|i: int| 0 <= i < next.len() implies is_line(#[trigger] next[i]) by {
        if has_key_line(lines, start, end, key) {
            if i != key_line(lines, start + 1, end, key) {
                assert(next[i] == lines[i]);
            }
        } else if i <= start {
            assert(next[i] == lines[i]);
        } else if i > start + 1 {
            assert(next[i] == lines[i - 1]);
        }
    }
}

proof fn lemma_root_before(a: Seq<Seq<char>>, b: Seq<Seq<char>>, i: int, h: int)
    requires
        0 <= i <= h < a.len(),
        h < b.len(),
        forall|k: int| 0 <= k <= h ==> #[trigger] a[k] == b[k],
        is_header(a[h]),
    ensures
        root_provider_from(a, i) == root_provider_from(b, i),
    decreases h - i,
{
    assert(a[i] == b[i]);
    assert(a[h] == b[h]);
    if i < h {
        lemma_root_before(a, b, i + 1, h);
    }
}

/// Whether no line of a section has to do with a key.
pub open spec fn is_without(lines: Seq<Seq<char>>, section: SectionModel, key: Seq<char>) -> bool {
    forall|i: int|
        section.start < i < section.end ==> !is_key_line(#[trigger] lines[i], key) && (entry(lines[i]) matches Some(
            (other, _),
        ) ==> other != key)
}

proof fn lemma_no_key_line(lines: Seq<Seq<char>>, from: int, to: int, key: Seq<char>)
    requires
        0 <= from <= to <= lines.len(),
        forall|i: int| from <= i < to ==> !is_key_line(#[trigger] lines[i], key),
    ensures
        key_line(lines, from, to, key) == to,
    decreases to - from,
{
    if from < to {
        assert(!is_key_line(lines[from], key));
        lemma_no_key_line(lines, from + 1, to, key);
    }
}

/// The line `requires_openai_auth = true` gives that key and value.
proof fn lemma_auth_entry()
    ensures
        entry(key_value_line("requires_openai_auth"@, "true"@)) == Some(("requires_openai_auth"@, "true"@)),
{
    let key = "requires_openai_auth"@;
    lemma_token_keys();
    reveal_strlit("requires_openai_auth");
    reveal_strlit(" = ");
    reveal_strlit("true");
    let line = key_value_line(key, "true"@);
    assert(line =~= key + seq![' ', '=', ' ', 't', 'r', 'u', 'e']);
    assert(line[0] == 'r' && line.last() == 'e');
    lemma_trimmed_between(line, 0, line.len() as int);
    assert(line.subrange(0, line.len() as int) =~= line);
    assert forall|j: int| 0 <= j < 21 implies !only('=')(#[trigger] line[j]) by {
        if j < 20 {
            assert(line[j] == key[j]);
        }
    }
    assert(line[21] == '=');
    lemma_index_where_is(line, only('='), 21);
    let left = line.take(21);
    let right = line.skip(22);
    assert(left[0] == key[0] && left[19] == key[19] && left[20] == ' ');
    lemma_trimmed_between(left, 0, 20);
    assert(left.subrange(0, 20) =~= key);
    assert(right =~= seq![' ', 't', 'r', 'u', 'e']);
    assert forall|j: int| 0 <= j < right.len() implies !only('#')(#[trigger] right[j]) by {}
    lemma_index_where_is(right, only('#'), right.len() as int);
    assert(right.take(right.len() as int) =~= right);
    lemma_trimmed_between(right, 1, 5);
    let inner = right.subrange(1, 5);
    assert(inner =~= "true"@);
    lemma_trimmed_between(inner, 0, 4);
    assert(inner.subrange(0, 4) =~= inner);
}

/// A token goes into the first section of that id and nowhere else: the
/// selected provider, and every other section, stay as they are. Where the
/// section knew neither of the two keys, it holds the token afterwards and
/// asks for the login. What is no API key, or is for no section, is refused.
pub proof fn law_token(config_text: &str, id: String, token: String, r: Result<TokenEdit, String>)
    requires
        config_text@.len() + 3 <= usize::MAX,
        !token@.contains('#'),
        !token@.contains('"'),
        !token@.contains('\\'),
        !token@.contains('\n'),
        call_ensures(plan_token, (config_text, id, token), r),
    ensures
        ({
            let sections = provider_sections(config_text@);
            let lines = text_lines(config_text@);
            match r {
                Ok(edit) => exists|t: int|
                    0 <= t < sections.len() && (#[trigger] sections[t]).id == id@ && (forall|j: int|
                        0 <= j < t ==> (#[trigger] sections[j]).id != id@) && "sk-"@.is_prefix_of(token@)
                        && root_provider(edit.next_text@) == root_provider(config_text@) && same_sections_but(
                        sections,
                        provider_sections(edit.next_text@),
                        t,
                        id@,
                    ) && (is_without(lines, sections[t], "experimental_bearer_token"@) && is_without(
                        lines,
                        sections[t],
                        "requires_openai_auth"@,
                    ) ==> value_of(provider_sections(edit.next_text@)[t].values, "experimental_bearer_token"@) == Some(
                        token@,
                    ) && value_of(provider_sections(edit.next_text@)[t].values, "requires_openai_auth"@) == Some(
                        "true"@,
                    )),
                Err(_) => !"sk-"@.is_prefix_of(token@) || forall|j: int|
                    0 <= j < sections.len() ==> (#[trigger] sections[j]).id != id@,
            }
        }),
{
    let text = config_text@;
    let sections = provider_sections(text);
    let lines = text_lines(text);
    assert(token_outcome(text, id@, token@) is Ok == r is Ok);
    lemma_first_section(sections, has_id(id@));
    if r is Err {
        assert forall|j: int| "sk-"@.is_prefix_of(token@) && 0 <= j < sections.len() implies (#[trigger] sections[j]).id != id@ by {
            assert(!has_id(id@)(sections[j]));
        }
    } else {
        let section = first_section(sections, has_id(id@))->0;
        let t = lemma_first_place(sections, has_id(id@));
        assert forall|j: int| 0 <= j < t implies (#[trigger] sections[j]).id != id@ by {
            assert(!has_id(id@)(sections[j]));
        }
        law_text_lines(text);
        law_sections_are_disjoint(text);
        assert(section_fits(sections[t], lines));
        let start = section.start;
        let end = section.end;
        let k1 = "experimental_bearer_token"@;
        let k2 = "requires_openai_auth"@;
        lemma_token_keys();
        lemma_quoted_token_is_line(token@);
        reveal_strlit("true");
        assert(!"true"@.contains('\n'));
        lemma_assignment_is_no_header(k1, quoted(token@));
        lemma_assignment_is_no_header(k2, "true"@);
        lemma_assignment_is_line(k1, quoted(token@));
        lemma_assignment_is_line(k2, "true"@);
        let mid = upserted(lines, start, end, k1, quoted(token@));
        let end2 = upserted_end(lines, start, end, k1);
        let last = upserted(mid, start, end2, k2, "true"@);
        let t1 = lemma_upserted_sections(lines, section, k1, quoted(token@));
        let changed = section_at(mid, start, section.id);
        let t2 = lemma_upserted_sections(mid, changed, k2, "true"@);
        lemma_upserted_lines(lines, start, end, k1, quoted(token@));
        lemma_upserted_lines(mid, start, end2, k2, "true"@);
        law_lines_rejoin(last);
        lemma_section_line_is_header(lines[start]);
        assert(mid[start] == lines[start]);
        lemma_root_before(lines, mid, 0, start);
        lemma_root_before(mid, last, 0, start);
        lemma_same_place(text, t, t1);
        let after_mid = sections_upto(mid, mid.len() as int);
        let after = sections_upto(last, last.len() as int);
        lemma_sections_upto(mid, mid.len() as int);
        assert(t1 == t2) by {
            assert(after_mid[t1] == changed && after_mid[t2] == changed);
            assert(section_fits(after_mid[t1], mid));
            if t1 < t2 {
                assert(after_mid[t1].end <= after_mid[t2].start);
            } else if t2 < t1 {
                assert(after_mid[t2].end <= after_mid[t1].start);
            }
        }
        assert(same_sections_but(sections, after, t, id@));
        if is_without(lines, sections[t], k1) && is_without(lines, sections[t], k2) {
            lemma_no_key_line(lines, start + 1, end, k1);
            assert(mid == lines.insert(start + 1, key_value_line(k1, quoted(token@))));
            assert(end2 == end + 1);
            lemma_quoted_entry(k1, token@);
            lemma_auth_entry();
            lemma_first_key_line(k1, quoted(token@), k2);
            assert forall|i: int| start + 1 <= i < end2 implies !is_key_line(#[trigger] mid[i], k2) && (entry(mid[i]) matches Some(
                (other, _),
            ) ==> other != k2) by {
                if i > start + 1 {
                    assert(mid[i] == lines[i - 1]);
                }
            }
            lemma_no_key_line(mid, start + 1, end2, k2);
            assert(last == mid.insert(start + 1, key_value_line(k2, "true"@)));
            assert(after[t].end == end2 + 1);
            assert forall|i: int| start + 1 < i < end2 + 1 implies (entry(#[trigger] last[i]) matches Some((other, _))
                ==> other != k2) by {
                assert(last[i] == mid[i - 1]);
            }
            assert forall|i: int| start + 2 < i < end2 + 1 implies (entry(#[trigger] last[i]) matches Some((other, _))
                ==> other != k1) by {
                assert(last[i] == lines[i - 2]);
            }
            lemma_last_value(last, start + 1, end2 + 1, start + 1, k2, "true"@);
            lemma_last_value(last, start + 1, end2 + 1, start + 2, k1, token@);
        }
    }
}

/// A line that assigns one key does not begin with another that it differs
/// from in its first character.
proof fn lemma_first_key_line(key: Seq<char>, value: Seq<char>, other: Seq<char>)
    requires
        is_plain_key(key),
        other.len() > 0,
        other[0] != key[0],
    ensures
        !is_key_line(key_value_line(key, value), other),
{
    let line = key_value_line(key, value);
    assert(line[0] == key[0]);
    lemma_lead_len_is(line, white(), 0);
    let rest = trim_start_where(line, white());
    assert(rest =~= line);
    lemma_kept_len(rest, white());
    assert(trimmed(line) == rest.take(kept_len(rest, white()) as int));
    if other.is_prefix_of(trimmed(line)) {
        assert(trimmed(line)[0] == other[0]);
    }
}

/// The repair that is offered for OpenAI alone does what the general one does
/// where a section says OpenAI, and leaves the configuration alone where none
/// does.
pub proof fn law_openai_repair(
    config_text: &str,
    id: &str,
    general: Result<RepairEdit, String>,
    r: Result<RepairEdit, String>,
)
    requires
        config_text@.len() + 2 <= usize::MAX,
        call_ensures(plan_repair, (config_text, id), general),
        call_ensures(plan_openai_repair, (config_text, id), r),
    ensures
        (exists|j: int|
            0 <= j < provider_sections(config_text@).len() && says_openai(
                #[trigger] provider_sections(config_text@)[j],
            )) ==> (r is Ok <==> general is Ok) && (r matches Ok(edit) ==> opt_text(edit.next_text) == opt_text(
            general->Ok_0.next_text,
        ) && edit.provider_id@ == id@),
        !(exists|j: int|
            0 <= j < provider_sections(config_text@).len() && says_openai(
                #[trigger] provider_sections(config_text@)[j],
            )) ==> (r matches Ok(edit) && edit.next_text is None),
{
    let sections = provider_sections(config_text@);
    lemma_openai_lower();
    lemma_first_section(sections, is_openai());
    assert forall|j: int| 0 <= j < sections.len() implies says_openai(#[trigger] sections[j]) == is_openai()(
        sections[j],
    ) by {}
    assert(r is Ok == openai_repair_outcome(config_text@, id@) is Ok);
    assert(general is Ok == repair_outcome(config_text@, id@) is Ok);
    if exists|j: int| 0 <= j < sections.len() && says_openai(#[trigger] sections[j]) {
        let j = choose|j: int| 0 <= j < sections.len() && says_openai(#[trigger] sections[j]);
        assert(is_openai()(sections[j]));
        assert(first_section(sections, is_openai()) is Some);
    } else if first_section(sections, is_openai()) is Some {
        let s = first_section(sections, is_openai())->0;
        let j = choose|j: int| 0 <= j < sections.len() && sections[j] == s;
        assert(says_openai(sections[j]));
    }
}

/// A token that is applied goes to the provider that is named, or to the one in
/// use, under the id that its name makes.
pub proof fn law_apply_token(
    config_text: &str,
    provider_id: Option<String>,
    token: String,
    in_use: String,
    name: String,
    id: Result<String, String>,
    planned: Result<TokenEdit, String>,
    r: Result<TokenEdit, String>,
)
    requires
        config_text@.len() + 3 <= usize::MAX,
        call_ensures(parse_root_provider, (config_text,), in_use),
        provider_id matches Some(given) ==> name@ == given@,
        provider_id is None ==> name@ == in_use@,
        call_ensures(sanitize_provider_id, (Some(name),), id),
        id matches Ok(own) ==> call_ensures(plan_token, (config_text, own, token), planned),
        call_ensures(apply_experimental_token, (config_text, provider_id, token), r),
    ensures
        id is Err ==> r is Err,
        id matches Ok(own) ==> (r is Ok <==> planned is Ok) && (r matches Ok(edit) ==> edit.provider_id@ == own@
            && edit.token == token && edit.next_text@ == planned->Ok_0.next_text@),
{
    assert(in_use@ == root_provider(config_text@));
    let told = token_name(config_text@, opt_text(provider_id));
    assert(told == name@);
    assert(result_text(id) == id_or_reason(unicode_lower(trimmed(told))));
    match id {
        Ok(own) => {
            assert(planned is Ok == token_outcome(config_text@, own@, token@) is Ok);
        },
        Err(_) => {},
    }
}

/// A repair is told as a change exactly when there is a new text, and a backup
/// is told of only then.
pub proof fn law_repair_result(
    edit: RepairEdit,
    backup_dir: Option<String>,
    sync: Option<ShellResult>,
    r: RepairResult,
)
    requires
        call_ensures(repair_provider, (edit, backup_dir, sync), r),
    ensures
        r.changed <==> edit.next_text is Some,
        r.changed ==> r.backup_dir == backup_dir,
        !r.changed ==> r.backup_dir is None,
        r.provider_id == edit.provider_id,
        r.message == edit.message,
        r.sync == sync,
{
}

} // verus!
