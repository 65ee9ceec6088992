//! What an edit of a section leaves of the values that it has.

use vstd::prelude::*;

use crate::config::{
    entry, first_section, has_key_line, is_called, is_header, is_key_line, is_line, is_openai, key_line,
    key_value_line, law_lines_rejoin, law_root_provider_is_set, law_sections_are_disjoint, law_text_lines,
    lemma_first_section, lemma_next_header, provider_sections, root_provider, same_sections,
    same_sections_but, section_at, section_fits, section_for_repair, section_id, sections_upto, text_lines,
    upsert_key_in_section, upserted, upserted_end, values_in, ProviderSection,
};
use crate::law_config::{
    goes_by, is_to_repair, is_without, law_repair, lemma_assignment_is_no_header, lemma_first_place,
    lemma_next_header_is, lemma_openai_lower, lemma_same_place, says_openai,
};
use crate::provider::{
    is_plain_key, is_provider_id, law_section_header, law_upsert_reads_back, lemma_id_is_plain,
    lemma_key_line, lemma_quoted_entry, lemma_quoted_is_line, plan_repair, quoted, renamed, repair_outcome,
    repaired, section_header, RepairEdit,
};
use crate::relay::value_of;
use crate::text::{
    index_where, joined, kept_len, lemma_index_where, lemma_kept_len, lemma_lead_len_is,
    lemma_replaced_absent, only, texts, trimmed, white,
};

verus! {

/// The key that a line assigns begins with every key that the line begins
/// with.
proof fn lemma_key_of_line(line: Seq<char>, key: Seq<char>)
    requires
        is_plain_key(key),
        is_key_line(line, key),
        entry(line) is Some,
    ensures
        key.is_prefix_of((entry(line)->0).0),
{
    let t = trimmed(line);
    lemma_index_where(t, only('='));
    let i = index_where(t, only('=')) as int;
    let left = t.take(i);
    assert forall|j: int| 0 <= j < key.len() implies t[j] == #[trigger] key[j] by {}
    assert(i >= key.len()) by {
        if i < key.len() {
            assert(key[i] == '=');
            assert(key.contains('='));
        }
    }
    let n = key.len() as int;
    assert(left[0] == key[0]);
    lemma_lead_len_is(left, white(), 0);
    assert(left.skip(0) =~= left);
    lemma_kept_len(left, white());
    let k = kept_len(left, white()) as int;
    assert(k >= n) by {
        if k < n {
            assert(left[n - 1] == key[n - 1]);
            assert(white()(left[n - 1]));
        }
    }
    assert(trimmed(left) == left.take(k));
    assert(trimmed(left).take(n) =~= key);
}

/// Putting another line in place of one changes no key but the two that they
/// assign.
proof fn lemma_values_update(
    lines: Seq<Seq<char>>,
    i: int,
    line: Seq<char>,
    from: int,
    to: int,
    key: Seq<char>,
)
    requires
        0 <= from <= i < to <= lines.len(),
        entry(lines[i]) matches Some((k, _)) ==> k != key,
        entry(line) matches Some((k, _)) ==> k != key,
    ensures
        value_of(values_in(lines.update(i, line), from, to), key) == value_of(values_in(lines, from, to), key),
    decreases to - from,
{
    let next = lines.update(i, line);
    if i == to - 1 {
        assert forall|j: int| from <= j < to - 1 implies #[trigger] next[j] == lines[j] by {}
        lemma_values_agree(lines, next, from, to - 1);
    } else {
        lemma_values_update(lines, i, line, from, to - 1, key);
        assert(next[to - 1] == lines[to - 1]);
    }
}

proof fn lemma_values_agree(a: Seq<Seq<char>>, b: Seq<Seq<char>>, from: int, to: int)
    requires
        0 <= from,
        to <= a.len(),
        to <= b.len(),
        forall|k: int| from <= k < to ==> #[trigger] b[k] == a[k],
    ensures
        values_in(a, from, to) == values_in(b, from, to),
    decreases to - from,
{
    if from < to {
        lemma_values_agree(a, b, from, to - 1);
        assert(b[to - 1] == a[to - 1]);
    }
}

/// A line that is put in before the others of a section changes no key but the
/// one that it assigns.
proof fn lemma_values_insert(lines: Seq<Seq<char>>, from: int, to: int, line: Seq<char>, key: Seq<char>)
    requires
        0 <= from <= to <= lines.len(),
        entry(line) matches Some((k, _)) ==> k != key,
    ensures
        value_of(values_in(lines.insert(from, line), from, to + 1), key) == value_of(values_in(lines, from, to), key),
    decreases to - from,
{
    let next = lines.insert(from, line);
    if from == to {
        assert(next[from] == line);
        assert(values_in(next, from, from) =~= Map::<Seq<char>, Seq<char>>::empty());
    } else {
        lemma_values_insert(lines, from, to - 1, line, key);
        assert(next[to] == lines[to - 1]);
    }
}

/// Setting a key of a section leaves the value of every key that does not begin
/// with it.
pub proof fn lemma_upsert_keeps(
    lines: Seq<Seq<char>>,
    start: int,
    end: int,
    key: Seq<char>,
    value: Seq<char>,
    other: Seq<char>,
)
    requires
        0 <= start < end <= lines.len(),
        is_plain_key(key),
        !key.is_prefix_of(other),
        entry(key_value_line(key, value)) matches Some((k, _)) ==> k == key,
    ensures
        value_of(
            values_in(upserted(lines, start, end, key, value), start + 1, upserted_end(lines, start, end, key)),
            other,
        ) == value_of(values_in(lines, start + 1, end), other),
{
    lemma_key_line(lines, start + 1, end, key);
    assert(key.is_prefix_of(key)) by {
        assert(key.take(key.len() as int) =~= key);
    }
    let line = key_value_line(key, value);
    if has_key_line(lines, start, end, key) {
        let i = key_line(lines, start + 1, end, key);
        lemma_key_line_is(lines, start + 1, end, key);
        if entry(lines[i]) is Some {
            lemma_key_of_line(lines[i], key);
        }
        lemma_values_update(lines, i, line, start + 1, end, other);
    } else {
        lemma_values_insert(lines, start + 1, end, line, other);
    }
}

proof fn lemma_key_line_is(lines: Seq<Seq<char>>, from: int, to: int, key: Seq<char>)
    requires
        0 <= from <= to <= lines.len(),
        key_line(lines, from, to, key) < to,
    ensures
        is_key_line(lines[key_line(lines, from, to, key)], key),
    decreases to - from,
{
    if from < to && !is_key_line(lines[from], key) {
        lemma_key_line_is(lines, from + 1, to, key);
    }
}

/// Setting a key in a section writes that key and no other: the values of the
/// other keys stay, and a value in quotes is read back.
pub proof fn law_upsert(
    lines: &mut Vec<String>,
    section: &mut ProviderSection,
    key: &str,
    value: &str,
    inner: Seq<char>,
    other: Seq<char>,
)
    requires
        old(section).start < old(lines)@.len() < usize::MAX,
        old(section).start < old(section).end <= old(lines)@.len(),
        is_plain_key(key@),
        !inner.contains('#'),
        !inner.contains('"'),
        !inner.contains('\\'),
        value@ == seq!['"'] + inner + seq!['"'],
        !key@.is_prefix_of(other),
        call_ensures(upsert_key_in_section, (lines, section, key, value), ()),
    ensures
        final(section).start == old(section).start,
        value_of(
            values_in(texts(final(lines)@), final(section).start + 1, final(section).end as int),
            other,
        ) == value_of(values_in(texts(old(lines)@), old(section).start + 1, old(section).end as int), other),
        (forall|i: int|
            old(section).start < i < old(section).end ==> !is_key_line((#[trigger] old(lines)@[i])@, key@) && (entry(
                old(lines)@[i]@,
            ) matches Some((k, _)) ==> k != key@)) ==> value_of(
            values_in(texts(final(lines)@), final(section).start + 1, final(section).end as int),
            key@,
        ) == Some(inner),
{
    let before = texts(old(lines)@);
    let start = old(section).start as int;
    let end = old(section).end as int;
    lemma_quoted_entry(key@, inner);
    lemma_replaced_absent(inner, '\\', "\\\\"@);
    lemma_replaced_absent(inner, '"', "\\\""@);
    reveal_strlit("\"");
    assert(quoted(inner) =~= value@);
    assert(final(section)@.end == upserted_end(before, start, end, key@));
    assert(texts(final(lines)@) == upserted(before, start, end, key@, value@));
    lemma_upsert_keeps(before, start, end, key@, value@, other);
    if forall|i: int|
        old(section).start < i < old(section).end ==> !is_key_line((#[trigger] old(lines)@[i])@, key@) && (entry(
            old(lines)@[i]@,
        ) matches Some((k, _)) ==> k != key@) {
        assert forall|i: int| start < i < end && i != key_line(before, start + 1, end, key@) implies (entry(
            #[trigger] before[i],
        ) matches Some((k, _)) ==> k != key@) by {
            assert(before[i] == old(lines)@[i]@);
        }
        law_upsert_reads_back(before, start, end, key@, inner);
    }
}

proof fn lemma_section_index(lines: Seq<Seq<char>>, k: int, n: int, id: Seq<char>)
    requires
        0 <= k < n <= lines.len(),
        section_id(lines[k]) == Some(id),
    ensures
        sections_upto(lines, k).len() < sections_upto(lines, n).len(),
        sections_upto(lines, n)[sections_upto(lines, k).len() as int] == section_at(lines, k, id),
    decreases n,
{
    if n - 1 > k {
        lemma_section_index(lines, k, n - 1, id);
    }
}

proof fn lemma_sections_count(a: Seq<Seq<char>>, b: Seq<Seq<char>>, n: int)
    requires
        0 <= n <= a.len(),
        n <= b.len(),
        forall|j: int| 0 <= j < n ==> #[trigger] b[j] == a[j],
    ensures
        sections_upto(a, n).len() == sections_upto(b, n).len(),
    decreases n,
{
    if n > 0 {
        lemma_sections_count(a, b, n - 1);
        assert(b[n - 1] == a[n - 1]);
    }
}

/// A repaired section goes by its new id in its name too, and keeps all that it
/// had besides: its address, its token and the rest.
pub proof fn law_repair_keeps_values(config_text: &str, id: &str, edit: RepairEdit, other: Seq<char>)
    requires
        config_text@.len() + 2 <= usize::MAX,
        is_provider_id(id@),
        !"name"@.is_prefix_of(other),
        call_ensures(plan_repair, (config_text, id), Ok(edit)),
    ensures
        exists|t: int| #[trigger]
            is_to_repair(provider_sections(config_text@), root_provider(config_text@), t) && ({
                let section = provider_sections(config_text@)[t];
                let next = provider_sections(edit.next_text->0@)[t];
                &&& next.id == id@
                &&& value_of(next.values, other) == value_of(section.values, other)
                &&& is_without(text_lines(config_text@), section, "name"@) ==> value_of(next.values, "name"@) == Some(id@)
            }),
{
    let text = config_text@;
    let sections = provider_sections(text);
    let current = root_provider(text);
    law_repair(config_text, id, Ok(edit));
    let t = choose|t: int| #[trigger]
        is_to_repair(sections, current, t) && edit.provider_id@ == id@ && edit.next_text is Some && root_provider(
            edit.next_text->0@,
        ) == id@ && same_sections_but(sections, provider_sections(edit.next_text->0@), t, id@) && forall|j: int|
            0 <= j < sections.len() && j != t ==> (#[trigger] sections[j]).id != id@;
    assert(repair_outcome(text, id@) is Ok);
    let section = section_for_repair(sections, current)->0;
    lemma_repaired_at(config_text, t);
    assert(sections[t] == section);
    let lines = text_lines(text);
    law_text_lines(text);
    law_sections_are_disjoint(text);
    assert(section_fits(section, lines));
    let start = section.start;
    let end = section.end;
    let headed = lines.update(start, section_header(id@));
    let named = renamed(lines, start, end, id@);
    law_section_header(id@);
    lemma_id_is_plain(id@);
    lemma_name_key();
    lemma_quoted_is_line("name"@, id@);
    lemma_key_line(headed, start + 1, end, "name"@);
    assert forall|i: int| 0 <= i < named.len() implies is_line(#[trigger] named[i]) by {
        if has_key_line(headed, start, end, "name"@) {
            let k = key_line(headed, start + 1, end, "name"@);
            if i != k && i != start {
                assert(named[i] == lines[i]);
            }
        } else if i < start {
            assert(named[i] == lines[i]);
        } else if i > start + 1 {
            assert(named[i] == lines[i - 1]);
        }
    }
    law_lines_rejoin(named);
    let with_section = joined(named, "\n"@);
    law_root_provider_is_set(with_section, id@);
    let middle = provider_sections(with_section);
    assert(edit.next_text->0@ == repaired(text, section, id@));
    let last = provider_sections(edit.next_text->0@);
    assert(same_sections(middle, last));
    assert(named[start] == section_header(id@));
    assert forall|j: int| 0 <= j < start implies #[trigger] named[j] == lines[j] by {}
    lemma_section_index(lines, start, lines.len() as int, section.id);
    lemma_section_index(named, start, named.len() as int, id@);
    lemma_sections_count(lines, named, start);
    let m = sections_upto(lines, start).len() as int;
    lemma_same_place(text, t, m);
    assert(middle[t] == section_at(named, start, id@));
    let stop = upserted_end(headed, start, end, "name"@);
    lemma_quoted_entry("name"@, id@);
    lemma_assignment_is_no_header("name"@, quoted(id@));
    assert forall|j: int| start + 1 <= j < stop implies !is_header(#[trigger] named[j]) by {
        if has_key_line(headed, start, end, "name"@) {
            if j != key_line(headed, start + 1, end, "name"@) {
                assert(named[j] == lines[j]);
            }
        } else if j > start + 1 {
            assert(named[j] == lines[j - 1]);
        }
    }
    if stop < named.len() {
        lemma_next_header(lines, start + 1);
        if has_key_line(headed, start, end, "name"@) {
            assert(named[stop] == lines[end]);
        } else {
            assert(named[stop] == lines[end]);
        }
    }
    lemma_next_header_is(named, start + 1, stop);
    lemma_upsert_keeps(headed, start, end, "name"@, quoted(id@), other);
    assert forall|k: int| start + 1 <= k < end implies #[trigger] headed[k] == lines[k] by {}
    lemma_values_agree(lines, headed, start + 1, end);
    if is_without(lines, section, "name"@) {
        assert forall|i: int| start < i < end && i != key_line(headed, start + 1, end, "name"@) implies (entry(
            #[trigger] headed[i],
        ) matches Some((k, _)) ==> k != "name"@) by {
            assert(headed[i] == lines[i]);
        }
        law_upsert_reads_back(headed, start, end, "name"@, id@);
    }
}

proof fn lemma_name_key()
    ensures
        is_plain_key("name"@),
        "name"@[0] == 'n',
{
    reveal_strlit("name");
}

/// The section that a repair takes is the one that is to be repaired.
proof fn lemma_repaired_at(config_text: &str, t: int)
    requires
        is_to_repair(provider_sections(config_text@), root_provider(config_text@), t),
    ensures
        section_for_repair(provider_sections(config_text@), root_provider(config_text@)) == Some(
            provider_sections(config_text@)[t],
        ),
{
    let sections = provider_sections(config_text@);
    let current = root_provider(config_text@);
    lemma_openai_lower();
    assert forall|j: int| 0 <= j < sections.len() implies is_openai()(#[trigger] sections[j]) == says_openai(sections[j])
        && is_called(current)(sections[j]) == goes_by(sections[j], current) by {}
    lemma_first_section(sections, is_openai());
    lemma_first_section(sections, is_called(current));
    if exists|j: int| 0 <= j < sections.len() && says_openai(#[trigger] sections[j]) {
        let j = choose|j: int| 0 <= j < sections.len() && says_openai(#[trigger] sections[j]);
        assert(is_openai()(sections[j]));
        let u = lemma_first_place(sections, is_openai());
        if u < t {
            assert(!says_openai(sections[u]));
        } else if t < u {
            assert(!is_openai()(sections[t]));
        }
    } else {
        if first_section(sections, is_openai()) is Some {
            let u = lemma_first_place(sections, is_openai());
            assert(says_openai(sections[u]));
        }
        assert(is_called(current)(sections[t]));
        let u = lemma_first_place(sections, is_called(current));
        if u < t {
            assert(!goes_by(sections[u], current));
        } else if t < u {
            assert(!is_called(current)(sections[t]));
        }
    }
}

} // verus!
