//! What switching a relay off and on promises.

use vstd::prelude::*;

use crate::config::{
    entry, first_section, is_called, law_lines_rejoin, law_sections_are_disjoint, law_text_lines,
    lemma_first_section, lemma_section_line_is_header, parse_root_provider, provider_sections, root_provider,
    section_fits, text_lines, values_in,
};
use crate::law_config::{goes_by, lemma_first_place};
use crate::relay::{
    active_key, comment_in, comment_out, comment_toml_line, commented_key, is_relay_key, law_relay_round_trip,
    law_toggle_keeps_sections, law_toggle_leaves_none, lemma_indented, lemma_root_same, lemma_trim_start_of,
    plan_relay_toggle, relay_target, same_but_relay, section_called, switched_keys, switches, toggled_in,
    uncomment_toml_line, value_of, RelayEdit,
};
use crate::text::{
    index_where, is_white_space, joined, kept_len, lemma_index_where, lemma_index_where_is, lemma_kept_len,
    lemma_lead_len, lemma_lead_len_is, only, opt_text, texts, trim_start_where, trimmed, white,
};

verus! {

/// A line that is commented out gets its mark before its first character and
/// keeps its indent, and commenting it in takes the mark away.
pub proof fn law_comment_line(lead: Seq<char>, rest: Seq<char>, line: &str, marked: &str, out: String, back: String)
    requires
        forall|j: int| 0 <= j < lead.len() ==> is_white_space(#[trigger] lead[j]),
        rest.len() > 0,
        !is_white_space(rest[0]),
        line@ == lead + rest,
        marked@ == lead + seq!['#', ' '] + rest,
        call_ensures(comment_toml_line, (line,), out),
        call_ensures(uncomment_toml_line, (marked,), back),
    ensures
        out@ == marked@,
        back@ == line@,
{
    assert(out@ == comment_out(line@));
    assert(back@ == comment_in(marked@));
    reveal_strlit("# ");
    lemma_indented(lead, rest);
    assert("# "@ =~= seq!['#', ' ']);
    assert(out@ =~= marked@);
    let body = seq!['#', ' '] + rest;
    assert(marked@ =~= lead + body);
    lemma_indented(lead, body);
    let after = body.skip(1);
    assert(after =~= seq![' '] + rest);
    assert(is_white_space(' '));
    lemma_indented(seq![' '], rest);
    assert(back@ =~= line@);
}

/// A line that is read as an assignment of a relay key is an active relay line.
proof fn lemma_entry_is_active(line: Seq<char>)
    requires
        entry(line) is Some,
        is_relay_key((entry(line)->0).0),
    ensures
        active_key(line) == Some((entry(line)->0).0),
{
    let t = trim_start_where(line, white());
    let u = trimmed(line);
    lemma_trim_start_of(line);
    lemma_kept_len(t, white());
    lemma_lead_len(line, white());
    lemma_index_where(u, only('='));
    let i = index_where(u, only('=')) as int;
    assert(u == t.take(kept_len(t, white()) as int));
    assert forall|j: int| 0 <= j < i implies !only('=')(#[trigger] t[j]) by {
        assert(u[j] == t[j]);
    }
    assert(t[i] == u[i]);
    lemma_index_where_is(t, only('='), i);
    assert(t.take(i) =~= u.take(i));
    assert(t[0] == u[0]);
    lemma_lead_len_is(t, white(), 0);
    assert(t.skip(0) =~= t);
    assert(trim_start_where(t, white()) == t);
}

proof fn lemma_values_same(a: Seq<Seq<char>>, b: Seq<Seq<char>>, from: int, to: int)
    requires
        0 <= from,
        to <= a.len(),
        to <= b.len(),
        forall|k: int| from <= k < to ==> #[trigger] a[k] == b[k],
    ensures
        values_in(a, from, to) == values_in(b, from, to),
    decreases to - from,
{
    if from < to {
        lemma_values_same(a, b, from, to - 1);
        assert(a[to - 1] == b[to - 1]);
    }
}

proof fn lemma_value_has_line(lines: Seq<Seq<char>>, from: int, to: int, key: Seq<char>) -> (i: int)
    requires
        0 <= from,
        to <= lines.len(),
        values_in(lines, from, to).dom().contains(key),
    ensures
        from <= i < to,
        entry(lines[i]) matches Some((k, _)) && k == key,
    decreases to - from,
{
    if entry(lines[to - 1]) is Some && (entry(lines[to - 1])->0).0 == key {
        to - 1
    } else {
        lemma_value_has_line(lines, from, to - 1, key)
    }
}

/// Switching a relay touches the section of the provider that is named, or of
/// the one in use, and no other; of that section it touches the address and the
/// token alone, and the provider in use stays in use. Switched off, the section
/// has neither, and what it had is told. Where there is no such section it is
/// refused.
pub proof fn law_relay(
    config_text: &str,
    provider_id: Option<String>,
    commented: bool,
    in_use: String,
    r: Result<RelayEdit, String>,
)
    requires
        call_ensures(parse_root_provider, (config_text,), in_use),
        call_ensures(plan_relay_toggle, (config_text, provider_id, commented), r),
    ensures
        ({
            let target = match provider_id {
                Some(id) => trimmed(id@),
                None => trimmed(in_use@),
            };
            let sections = provider_sections(config_text@);
            match r {
                Ok(edit) => {
                    let next = provider_sections(edit.next_text@);
                    &&& target.len() > 0
                    &&& edit.provider_id@ == target
                    &&& edit.commented == commented
                    &&& root_provider(edit.next_text@) == in_use@
                    &&& next.len() == sections.len()
                    &&& exists|t: int|
                        0 <= t < sections.len() && goes_by(#[trigger] sections[t], target) && (forall|j: int|
                            0 <= j < t ==> !goes_by(#[trigger] sections[j], target)) && (forall|i: int|
                            0 <= i < sections.len() && i != t ==> (#[trigger] next[i]).id == sections[i].id && next[i].values
                                == sections[i].values) && next[t].id == sections[t].id && (forall|key: Seq<char>|
                            key != "base_url"@ && key != "experimental_bearer_token"@ ==> #[trigger] value_of(
                                next[t].values,
                                key,
                            ) == value_of(sections[t].values, key)) && (commented ==> !next[t].values.dom().contains(
                            "base_url"@,
                        ) && !next[t].values.dom().contains("experimental_bearer_token"@)) && (commented
                            && sections[t].values.dom().contains("base_url"@) ==> texts(edit.changed_keys@).contains(
                            "base_url"@,
                        )) && (commented && sections[t].values.dom().contains("experimental_bearer_token"@) ==> texts(
                            edit.changed_keys@,
                        ).contains("experimental_bearer_token"@))
                },
                Err(_) => target.len() == 0 || forall|j: int|
                    0 <= j < sections.len() ==> !goes_by(#[trigger] sections[j], target),
            }
        }),
{
    let text = config_text@;
    assert(in_use@ == root_provider(text));
    let target = relay_target(text, opt_text(provider_id));
    let sections = provider_sections(text);
    lemma_first_section(sections, is_called(target));
    assert forall|j: int| 0 <= j < sections.len() implies goes_by(#[trigger] sections[j], target) == is_called(target)(
        sections[j],
    ) by {}
    assert(section_called(text, target) == first_section(sections, is_called(target)));
    match r {
        Err(_) => {
            if target.len() > 0 {
                assert(section_called(text, target) is None);
                assert forall|j: int| 0 <= j < sections.len() implies !goes_by(#[trigger] sections[j], target) by {
                    assert(!is_called(target)(sections[j]));
                }
            }
        },
        Ok(edit) => {
            let section = section_called(text, target)->0;
            let t = lemma_first_place(sections, is_called(target));
            let lines = text_lines(text);
            let after = toggled_in(text, section, commented);
            assert(edit.next_text@ == joined(after, "\n"@));
            law_toggle_keeps_sections(text, section, commented);
            let next = provider_sections(edit.next_text@);
            law_sections_are_disjoint(text);
            law_sections_are_disjoint(edit.next_text@);
            assert(section_fits(section, lines));
            lemma_section_line_is_header(lines[section.start]);
            lemma_root_same(lines, after, 0, section.start);
            assert(text_lines(edit.next_text@) == after);
            assert forall|j: int| 0 <= j < t implies !goes_by(#[trigger] sections[j], target) by {
                assert(!is_called(target)(sections[j]));
            }
            assert forall|i: int| 0 <= i < sections.len() && i != t implies (#[trigger] next[i]).id == sections[i].id
                && next[i].values == sections[i].values by {
                assert(same_but_relay(sections[i], next[i]));
                assert(section_fits(sections[i], lines));
                assert(section_fits(next[i], after));
                let from = sections[i].start + 1;
                let to = sections[i].end;
                if i < t {
                    assert(sections[i].end <= sections[t].start);
                } else {
                    assert(sections[t].end <= sections[i].start);
                }
                assert forall|k: int| from <= k < to implies #[trigger] lines[k] == after[k] by {}
                lemma_values_same(lines, after, from, to);
            }
            assert(same_but_relay(sections[t], next[t]));
            assert(section_fits(next[t], after));
            assert forall|key: Seq<char>| key != "base_url"@ && key != "experimental_bearer_token"@ implies #[trigger] value_of(
                next[t].values,
                key,
            ) == value_of(sections[t].values, key) by {
                assert(!is_relay_key(key));
            }
            if commented {
                law_toggle_leaves_none(lines, section.start, section.end, true);
                lemma_no_relay_value(after, section.start, section.end, "base_url"@);
                lemma_no_relay_value(after, section.start, section.end, "experimental_bearer_token"@);
                let keys = switched_keys(lines, section.start, section.end, true);
                assert(texts(edit.changed_keys@) == keys);
                if sections[t].values.dom().contains("base_url"@) {
                    let i = lemma_value_has_line(lines, section.start + 1, section.end, "base_url"@);
                    lemma_entry_is_active(lines[i]);
                    assert(switches(lines, section.start + 1, section.end, true, "base_url"@));
                    assert(keys[0] == "base_url"@);
                }
                if sections[t].values.dom().contains("experimental_bearer_token"@) {
                    let i = lemma_value_has_line(lines, section.start + 1, section.end, "experimental_bearer_token"@);
                    lemma_entry_is_active(lines[i]);
                    assert(switches(lines, section.start + 1, section.end, true, "experimental_bearer_token"@));
                    assert(keys[keys.len() - 1] == "experimental_bearer_token"@);
                }
            }
        },
    }
}

proof fn lemma_no_relay_value(lines: Seq<Seq<char>>, start: int, end: int, key: Seq<char>)
    requires
        0 <= start < end <= lines.len(),
        is_relay_key(key),
        forall|i: int| start < i < end ==> active_key(#[trigger] lines[i]) is None,
    ensures
        !values_in(lines, start + 1, end).dom().contains(key),
{
    if values_in(lines, start + 1, end).dom().contains(key) {
        let i = lemma_value_has_line(lines, start + 1, end, key);
        lemma_entry_is_active(lines[i]);
        assert(active_key(lines[i]) is None);
    }
}

/// Switching a relay on again restores the lines that switching it off marked:
/// a config without marked relay lines in the section reads the same again.
pub proof fn law_relay_comes_back(
    config_text: &str,
    provider_id: Option<String>,
    off: RelayEdit,
    off_text: &str,
    on: Result<RelayEdit, String>,
)
    requires
        call_ensures(plan_relay_toggle, (config_text, provider_id, true), Ok(off)),
        off_text@ == off.next_text@,
        call_ensures(plan_relay_toggle, (off_text, provider_id, false), on),
        section_called(config_text@, off.provider_id@) matches Some(section) ==> forall|i: int|
            section.start < i < section.end ==> commented_key(#[trigger] text_lines(config_text@)[i]) is None,
    ensures
        on matches Ok(edit) && text_lines(edit.next_text@) == text_lines(config_text@),
{
    let text = config_text@;
    let target = relay_target(text, opt_text(provider_id));
    assert(section_called(text, target) is Some);
    law_relay_round_trip(text, target);
    let section = section_called(text, target)->0;
    let next = joined(toggled_in(text, section, true), "\n"@);
    assert(off.next_text@ == next);
    assert(relay_target(off_text@, opt_text(provider_id)) == target);
    law_text_lines(text);
    law_lines_rejoin(text_lines(text));
    assert(on matches Ok(edit) && edit.next_text@ == joined(
        toggled_in(next, section_called(next, target)->0, false),
        "\n"@,
    ));
}

} // verus!
