//! How a configuration is read, said of its lines.

use vstd::prelude::*;

use crate::config::{
    assigned, assignment_value, entry, escape_toml_string, escaped, is_header, is_idle, is_line, is_passed,
    key_value_line, law_lines_rejoin, law_root_provider_is_set, law_text_lines, lemma_assigned_is_root_line,
    lemma_root_line_assigns, lemma_root_provider_at, lemma_root_spot, mask_secret, masked, parse_config,
    parse_root_provider, parse_section_id, provider_sections, provider_shows, providers_show, root_line,
    root_provider, root_provider_from, root_spot, section_at, section_id, sections_upto, set_root_provider,
    split_lines, strip_toml_quotes, text_lines, unquoted, with_root_provider, ConfigView, RootSpot,
};
use crate::law_config::lemma_next_header_is;
use crate::provider::{
    is_plain_key, is_provider_id, law_section_header, lemma_last_value, lemma_quoted_entry, quoted,
    section_header,
};
use crate::text::{
    index_where, is_white_space, joined, lemma_index_where, lemma_index_where_is, lemma_replaced_absent,
    lemma_trimmed_between, lemma_trimmed_parts, only, opt_text, replaced, texts, trimmed,
};

verus! {

/// A line before which the provider in use may still be named: a blank one, a
/// comment, or the assignment of another key.
pub open spec fn is_before_root(line: Seq<char>) -> bool {
    let t = trimmed(line);
    t.len() == 0 || t[0] == '#' || (t[0] != '[' && !"model_provider"@.is_prefix_of(t))
}

proof fn lemma_is_passed(line: Seq<char>)
    requires
        is_before_root(line),
    ensures
        is_passed(line),
{
}

/// The provider in use is the one that `model_provider` names before the first
/// section.
pub proof fn law_reads_in_use(text: &str, lines: Seq<Seq<char>>, k: int, id: Seq<char>, r: String)
    requires
        text@ == joined(lines, "\n"@),
        forall|i: int| 0 <= i < lines.len() ==> is_line(#[trigger] lines[i]),
        0 <= k < lines.len(),
        lines[k] == "model_provider = \""@ + id + "\""@,
        !id.contains('#'),
        !id.contains('"'),
        !id.contains('\\'),
        forall|j: int| 0 <= j < k ==> is_before_root(#[trigger] lines[j]),
        call_ensures(parse_root_provider, (text,), r),
    ensures
        r@ == id,
{
    assert(r@ == root_provider(text@));
    law_lines_rejoin(lines);
    assert forall|j: int| 0 <= j < k implies is_passed(#[trigger] lines[j]) by {
        lemma_is_passed(lines[j]);
    }
    lemma_root_provider_at(lines, 0, k);
    lemma_root_line_assigns(id);
    lemma_replaced_absent(id, '\\', "\\\\"@);
    lemma_replaced_absent(id, '"', "\\\""@);
    assert(root_line(id) == lines[k]);
}

/// Where no line before the first section names a provider, that of Codex is in
/// use, whatever the sections say.
pub proof fn law_reads_default(text: &str, lines: Seq<Seq<char>>, h: int, r: String)
    requires
        text@ == joined(lines, "\n"@),
        lines.len() > 0,
        forall|i: int| 0 <= i < lines.len() ==> is_line(#[trigger] lines[i]),
        0 <= h <= lines.len(),
        h < lines.len() ==> trimmed(lines[h]).len() > 0 && trimmed(lines[h])[0] == '[',
        forall|j: int| 0 <= j < h ==> is_before_root(#[trigger] lines[j]),
        call_ensures(parse_root_provider, (text,), r),
    ensures
        r@ == "openai"@,
{
    assert(r@ == root_provider(text@));
    law_lines_rejoin(lines);
    assert forall|j: int| 0 <= j < h implies is_passed(#[trigger] lines[j]) by {
        lemma_is_passed(lines[j]);
    }
    if h < lines.len() {
        lemma_root_provider_at(lines, 0, h);
        assert(is_header(lines[h]) && !is_idle(lines[h]));
    } else {
        lemma_root_provider_at(lines, 0, h - 1);
        assert(is_passed(lines[h - 1]));
        lemma_passed_assigns_nothing(lines[h - 1]);
        assert(root_provider_from(lines, h) == "openai"@);
    }
}

proof fn lemma_passed_assigns_nothing(line: Seq<char>)
    requires
        is_before_root(line),
    ensures
        is_idle(line) || assigned(line, "model_provider"@) is None,
{
    if !is_idle(line) && assigned(line, "model_provider"@) is Some {
        lemma_assigned_is_root_line(line);
    }
}

/// The provider that is set is in use afterwards, the line that says so stands
/// in the configuration, and every section is what it was.
pub proof fn law_sets_in_use(
    config_text: &str,
    id: &str,
    out: String,
    out_text: &str,
    before: ConfigView,
    after: ConfigView,
    i: int,
)
    requires
        !id@.contains('#'),
        !id@.contains('"'),
        !id@.contains('\\'),
        !id@.contains('\n'),
        call_ensures(set_root_provider, (config_text, id), out),
        out_text@ == out@,
        call_ensures(parse_config, (config_text,), before),
        call_ensures(parse_config, (out_text,), after),
        0 <= i < before.providers@.len(),
    ensures
        after.root_provider@ == id@,
        after.providers@.len() == before.providers@.len(),
        after.providers@[i].id@ == before.providers@[i].id@,
        after.providers@[i].name@ == before.providers@[i].name@,
        after.providers@[i].base_url@ == before.providers@[i].base_url@,
        after.providers@[i].wire_api@ == before.providers@[i].wire_api@,
        after.providers@[i].requires_openai_auth@ == before.providers@[i].requires_openai_auth@,
        after.providers@[i].has_experimental_bearer_token == before.providers@[i].has_experimental_bearer_token,
        after.providers@[i].experimental_bearer_token_masked@ == before.providers@[i].experimental_bearer_token_masked@,
{
    law_root_provider_is_set(config_text@, id@);
    assert(out@ == joined(with_root_provider(text_lines(config_text@), id@), "\n"@));
    let a = provider_sections(config_text@);
    let b = provider_sections(out@);
    assert(after.root_provider@ == root_provider(out@));
    assert(providers_show(before.providers@, a));
    assert(providers_show(after.providers@, b));
    assert(provider_shows(before.providers@[i], a[i]));
    assert(provider_shows(after.providers@[i], b[i]));
    assert(b[i].id == a[i].id && b[i].values == a[i].values);
}

/// The line that names the provider in use is the one line that setting it
/// writes.
pub proof fn law_set_line(config_text: &str, id: &str, out: String)
    requires
        !id@.contains('"'),
        !id@.contains('\\'),
        !id@.contains('\n'),
        call_ensures(set_root_provider, (config_text, id), out),
    ensures
        exists|k: int|
            0 <= k < text_lines(out@).len() && #[trigger] text_lines(out@)[k] == "model_provider = \""@ + id@ + "\""@,
        text_lines(config_text@).len() <= text_lines(out@).len() <= text_lines(config_text@).len() + 1,
{
    let lines = text_lines(config_text@);
    let next = with_root_provider(lines, id@);
    lemma_replaced_absent(id@, '\\', "\\\\"@);
    lemma_replaced_absent(id@, '"', "\\\""@);
    let line = "model_provider = \""@ + id@ + "\""@;
    assert(root_line(id@) == line);
    assert(out@ == joined(next, "\n"@));
    law_text_lines(config_text@);
    lemma_root_spot(lines, 0);
    reveal_strlit("model_provider = \"");
    reveal_strlit("\"");
    assert(is_line(line)) by {
        assert(line.last() == '"');
        if line.contains('\n') {
            let k = choose|k: int| 0 <= k < line.len() && line[k] == '\n';
            if k < 18 {
                assert(line[k] == "model_provider = \""@[k]);
            } else if k < line.len() - 1 {
                assert(id@[k - 18] == '\n');
            }
        }
    }
    match root_spot(lines, 0) {
        RootSpot::Replace(i) => {
            assert(next[i] == line);
        },
        RootSpot::Insert(i) => {
            assert(next[i] == line);
        },
    }
    assert forall|i: int| 0 <= i < next.len() implies is_line(#[trigger] next[i]) by {
        match root_spot(lines, 0) {
            RootSpot::Replace(k) => {
                if i != k {
                    assert(next[i] == lines[i]);
                }
            },
            RootSpot::Insert(k) => {
                if i < k {
                    assert(next[i] == lines[i]);
                } else if i > k {
                    assert(next[i] == lines[i - 1]);
                }
            },
        }
    }
    law_lines_rejoin(next);
}

proof fn lemma_section_at_listed(lines: Seq<Seq<char>>, k: int, n: int, id: Seq<char>)
    requires
        0 <= k < n <= lines.len(),
        section_id(lines[k]) == Some(id),
    ensures
        exists|i: int|
            0 <= i < sections_upto(lines, n).len() && #[trigger] sections_upto(lines, n)[i] == section_at(lines, k, id),
    decreases n,
{
    let all = sections_upto(lines, n);
    if n - 1 > k {
        lemma_section_at_listed(lines, k, n - 1, id);
        let before = sections_upto(lines, n - 1);
        let i = choose|i: int| 0 <= i < before.len() && #[trigger] before[i] == section_at(lines, k, id);
        assert(all[i] == before[i]);
    } else {
        assert(all[all.len() - 1] == section_at(lines, k, id));
    }
}

proof fn lemma_no_sign_no_entry(line: Seq<char>)
    requires
        !line.contains('='),
    ensures
        entry(line) is None,
{
    let t = trimmed(line);
    lemma_trimmed_parts(line);
    lemma_index_where(t, only('='));
    let i = index_where(t, only('=')) as int;
    if i < t.len() {
        assert(t[i] == '=');
        assert(t.contains('='));
    }
}

/// A section `[model_providers.id]` is a provider of that id, and a line
/// `key = "value"` of it gives it that value.
pub proof fn law_reads_section(
    text: &str,
    lines: Seq<Seq<char>>,
    s: int,
    e: int,
    id: Seq<char>,
    i: int,
    key: Seq<char>,
    value: Seq<char>,
    r: ConfigView,
    secret: &str,
    hidden: String,
)
    requires
        text@ == joined(lines, "\n"@),
        forall|j: int| 0 <= j < lines.len() ==> is_line(#[trigger] lines[j]),
        0 <= s < i < e <= lines.len(),
        is_provider_id(id),
        lines[s] == "[model_providers."@ + id + "]"@,
        is_plain_key(key),
        !value.contains('#'),
        !value.contains('"'),
        !value.contains('\\'),
        lines[i] == key + " = \""@ + value + "\""@,
        forall|j: int| s < j < e ==> !is_header(#[trigger] lines[j]),
        e < lines.len() ==> is_header(lines[e]),
        forall|j: int| i < j < e ==> !(#[trigger] lines[j]).contains('='),
        call_ensures(parse_config, (text,), r),
        secret@ == value,
        call_ensures(mask_secret, (secret,), hidden),
    ensures
        exists|p: int|
            0 <= p < r.providers@.len() && (#[trigger] r.providers@[p]).id@ == id && (key == "name"@
                ==> r.providers@[p].name@ == value) && (key == "base_url"@ ==> r.providers@[p].base_url@ == value) && (key
                == "wire_api"@ ==> r.providers@[p].wire_api@ == value) && (key == "requires_openai_auth"@
                ==> r.providers@[p].requires_openai_auth@ == value) && (key == "experimental_bearer_token"@ ==> (
            r.providers@[p].has_experimental_bearer_token <==> value.len() > 0)
                && r.providers@[p].experimental_bearer_token_masked@ == hidden@),
{
    law_lines_rejoin(lines);
    law_section_header(id);
    assert(section_header(id) == lines[s]);
    lemma_section_at_listed(lines, s, lines.len() as int, id);
    let sections = provider_sections(text@);
    let p = choose|p: int| 0 <= p < sections.len() && #[trigger] sections[p] == section_at(lines, s, id);
    lemma_next_header_is(lines, s + 1, e);
    lemma_quoted_entry(key, value);
    lemma_replaced_absent(value, '\\', "\\\\"@);
    lemma_replaced_absent(value, '"', "\\\""@);
    reveal_strlit(" = \"");
    reveal_strlit(" = ");
    reveal_strlit("\"");
    assert(key_value_line(key, quoted(value)) =~= lines[i]);
    assert forall|j: int| i < j < e implies (entry(#[trigger] lines[j]) matches Some((other, _)) ==> other != key) by {
        lemma_no_sign_no_entry(lines[j]);
    }
    lemma_last_value(lines, s + 1, e, i, key, value);
    assert(providers_show(r.providers@, sections));
    assert(provider_shows(r.providers@[p], sections[p]));
    assert(hidden@ == masked(value));
}

/// What is masked shows at most the first seven and the last four characters of
/// what it hides, and of a short text no more than the first four.
pub proof fn law_mask(a: &str, b: &str, masked_a: String, masked_b: String)
    requires
        call_ensures(mask_secret, (a,), masked_a),
        call_ensures(mask_secret, (b,), masked_b),
    ensures
        a@.len() == 0 <==> masked_a@.len() == 0,
        a@.len() > 14 ==> masked_a@.len() == 14 && masked_a@.take(7) == a@.take(7) && masked_a@.skip(10) == a@.skip(
            a@.len() - 4,
        ),
        a@.len() > 14 && b@.len() > 14 && a@.take(7) == b@.take(7) && a@.skip(a@.len() - 4) == b@.skip(b@.len() - 4)
            ==> masked_a@ == masked_b@,
        4 <= a@.len() <= 14 ==> masked_a@.len() == 7 && masked_a@.take(4) == a@.take(4),
        4 <= a@.len() <= 14 && 4 <= b@.len() <= 14 && a@.take(4) == b@.take(4) ==> masked_a@ == masked_b@,
        0 < a@.len() < 4 ==> masked_a@ == a@ + "..."@,
{
    assert(masked_a@ == masked(a@));
    assert(masked_b@ == masked(b@));
    reveal_strlit("...");
    if a@.len() > 14 {
        assert(masked_a@.take(7) =~= a@.take(7));
        assert(masked_a@.skip(10) =~= a@.skip(a@.len() - 4));
    } else if a@.len() >= 4 {
        assert(masked_a@.take(4) =~= a@.take(4));
    } else {
        assert(a@.take(a@.len() as int) =~= a@);
    }
}

/// A value is read without the quotes around it, of either sort.
pub proof fn law_quotes(value: &str, inner: Seq<char>, r: String)
    requires
        call_ensures(strip_toml_quotes, (value,), r),
    ensures
        value@ == seq!['"'] + inner + seq!['"'] ==> r@ == inner,
        value@ == seq!['\''] + inner + seq!['\''] ==> r@ == inner,
        value@ == inner && trimmed(inner) == inner && !inner.contains('"') && !inner.contains('\'') ==> r@ == inner,
{
    assert(r@ == unquoted(value@));
    if value@ == seq!['"'] + inner + seq!['"'] || value@ == seq!['\''] + inner + seq!['\''] {
        assert(value@.last() == value@[0]);
        lemma_trimmed_between(value@, 0, value@.len() as int);
        assert(value@.subrange(0, value@.len() as int) =~= value@);
        assert(value@.subrange(1, value@.len() - 1) =~= inner);
    } else if value@ == inner && trimmed(inner) == inner && inner.len() > 0 {
        assert(inner.contains(inner[0]));
    }
}

/// A key is read from the line that assigns it; a comment and the assignment of
/// another key give nothing.
pub proof fn law_assignment(line: &str, key: &str, other: Seq<char>, value: Seq<char>, r: Option<String>)
    requires
        is_plain_key(other),
        !value.contains('#'),
        !value.contains('"'),
        !value.contains('\\'),
        line@ == other + " = \""@ + value + "\""@,
        call_ensures(assignment_value, (line, key), r),
    ensures
        key@ == other ==> opt_text(r) == Some(value),
        key@ != other ==> r is None,
{
    assert(opt_text(r) == assigned(line@, key@));
    lemma_quoted_entry(other, value);
    lemma_replaced_absent(value, '\\', "\\\\"@);
    lemma_replaced_absent(value, '"', "\\\""@);
    reveal_strlit(" = \"");
    reveal_strlit(" = ");
    reveal_strlit("\"");
    assert(key_value_line(other, quoted(value)) =~= line@);
}

/// A comment assigns nothing.
pub proof fn law_comment_assigns_nothing(line: &str, key: &str, r: Option<String>)
    requires
        trimmed(line@).len() > 0,
        trimmed(line@)[0] == '#',
        call_ensures(assignment_value, (line, key), r),
    ensures
        r is None,
{
    assert(opt_text(r) == assigned(line@, key@));
}

/// The id of a section is what its header names; no other line has one.
pub proof fn law_section_id(line: &str, id: Seq<char>, r: Option<String>)
    requires
        is_provider_id(id),
        call_ensures(parse_section_id, (line,), r),
    ensures
        line@ == "[model_providers."@ + id + "]"@ ==> opt_text(r) == Some(id),
        trimmed(line@).len() == 0 || trimmed(line@)[0] != '[' ==> r is None,
{
    assert(opt_text(r) == section_id(line@));
    law_section_header(id);
    assert(section_header(id) == "[model_providers."@ + id + "]"@);
    reveal_strlit("[model_providers.");
    if "[model_providers."@.is_prefix_of(trimmed(line@)) {
        assert(trimmed(line@)[0] == '[');
    }
}

/// Lines are split at line feeds and joined by them again.
pub proof fn law_lines(text: &str, lines: Seq<Seq<char>>, r: Vec<String>)
    requires
        lines.len() > 0,
        forall|i: int| 0 <= i < lines.len() ==> !(#[trigger] lines[i]).contains('\n') && (lines[i].len() > 0
            ==> lines[i].last() != '\r'),
        text@ == joined(lines, "\n"@),
        call_ensures(split_lines, (text,), r),
    ensures
        texts(r@) == lines,
{
    assert(texts(r@) == text_lines(text@));
    assert forall|i: int| 0 <= i < lines.len() implies is_line(#[trigger] lines[i]) by {}
    law_lines_rejoin(lines);
}

/// A remark behind a value does not count.
pub proof fn law_remark(line: &str, key: &str, value: Seq<char>, remark: Seq<char>, r: Option<String>)
    requires
        is_plain_key(key@),
        !value.contains('#'),
        !value.contains('"'),
        !value.contains('\\'),
        remark.len() > 0 ==> !is_white_space(remark.last()),
        line@ == key@ + " = \""@ + value + "\" #"@ + remark,
        call_ensures(assignment_value, (line, key), r),
    ensures
        opt_text(r) == Some(value),
{
    assert(opt_text(r) == assigned(line@, key@));
    reveal_strlit(" = \"");
    reveal_strlit("\" #");
    let s = line@;
    let k = key@.len() as int;
    let n = value.len() as int;
    assert(s =~= key@ + seq![' ', '=', ' ', '"'] + value + seq!['"', ' ', '#'] + remark);
    assert(s[0] == key@[0]);
    if remark.len() > 0 {
        assert(s.last() == remark.last());
    } else {
        assert(s.last() == '#');
    }
    lemma_trimmed_between(s, 0, s.len() as int);
    assert(s.subrange(0, s.len() as int) =~= s);
    assert forall|j: int| 0 <= j < k + 1 implies !only('=')(#[trigger] s[j]) by {
        if j < k {
            assert(s[j] == key@[j]);
            assert(key@.contains(key@[j]));
        }
    }
    assert(s[k + 1] == '=');
    lemma_index_where_is(s, only('='), k + 1);
    let left = s.take(k + 1);
    assert(left[0] == key@[0] && left[k - 1] == key@[k - 1] && left[k] == ' ');
    lemma_trimmed_between(left, 0, k);
    assert(left.subrange(0, k) =~= key@);
    let right = s.skip(k + 2);
    assert(right =~= seq![' ', '"'] + value + seq!['"', ' ', '#'] + remark);
    assert forall|j: int| 0 <= j < n + 4 implies !only('#')(#[trigger] right[j]) by {
        if 2 <= j < n + 2 {
            assert(right[j] == value[j - 2]);
            assert(value.contains(value[j - 2]));
        }
    }
    assert(right[n + 4] == '#');
    lemma_index_where_is(right, only('#'), n + 4);
    let kept = right.take(n + 4);
    assert(kept[1] == '"' && kept[n + 2] == '"' && kept[0] == ' ' && kept[n + 3] == ' ');
    lemma_trimmed_between(kept, 1, n + 3);
    let inner = kept.subrange(1, n + 3);
    assert(inner =~= seq!['"'] + value + seq!['"']);
    lemma_trimmed_between(inner, 0, n + 2);
    assert(inner.subrange(0, n + 2) =~= inner);
    assert(inner.subrange(1, n + 1) =~= value);
}

/// A quote and a backslash are written behind a backslash, and the rest as it
/// is.
pub proof fn law_escape(a: Seq<char>, b: Seq<char>, value: &str, r: String)
    requires
        !a.contains('"') && !a.contains('\\'),
        !b.contains('"') && !b.contains('\\'),
        call_ensures(escape_toml_string, (value,), r),
    ensures
        value@ == a ==> r@ == a,
        value@ == a + seq!['"'] + b ==> r@ == a + seq!['\\', '"'] + b,
        value@ == a + seq!['\\'] + b ==> r@ == a + seq!['\\', '\\'] + b,
{
    assert(r@ == escaped(value@));
    reveal_strlit("\\\\");
    reveal_strlit("\\\"");
    lemma_replaced_absent(a, '\\', "\\\\"@);
    lemma_replaced_absent(a, '"', "\\\""@);
    if value@ == a + seq!['"'] + b {
        assert(!value@.contains('\\')) by {
            if value@.contains('\\') {
                let k = choose|k: int| 0 <= k < value@.len() && value@[k] == '\\';
                if k < a.len() {
                    assert(a[k] == '\\');
                } else {
                    assert(b[k - a.len() - 1] == '\\');
                }
            }
        }
        lemma_replaced_absent(value@, '\\', "\\\\"@);
        lemma_replaced_one(a, '"', b, "\\\""@);
        assert("\\\""@ =~= seq!['\\', '"']);
    }
    if value@ == a + seq!['\\'] + b {
        lemma_replaced_one(a, '\\', b, "\\\\"@);
        assert("\\\\"@ =~= seq!['\\', '\\']);
        let out = a + seq!['\\', '\\'] + b;
        assert(!out.contains('"')) by {
            if out.contains('"') {
                let k = choose|k: int| 0 <= k < out.len() && out[k] == '"';
                if k < a.len() {
                    assert(a[k] == '"');
                } else {
                    assert(b[k - a.len() - 2] == '"');
                }
            }
        }
        lemma_replaced_absent(out, '"', "\\\""@);
    }
}

proof fn lemma_replaced_one(a: Seq<char>, c: char, b: Seq<char>, with: Seq<char>)
    requires
        !a.contains(c),
        !b.contains(c),
    ensures
        replaced(a + seq![c] + b, c, with) == a + with + b,
    decreases b.len(),
{
    let s = a + seq![c] + b;
    if b.len() == 0 {
        assert(s.drop_last() =~= a);
        assert(s.last() == c);
        lemma_replaced_absent(a, c, with);
        assert(replaced(s, c, with) =~= a + with + b);
    } else {
        let rest = b.drop_last();
        assert(s.drop_last() =~= a + seq![c] + rest);
        assert(s.last() == b.last());
        assert(b.contains(b[b.len() - 1]));
        assert(!rest.contains(c)) by {
            if rest.contains(c) {
                let k = choose|k: int| 0 <= k < rest.len() && rest[k] == c;
                assert(b[k] == c);
            }
        }
        lemma_replaced_one(a, c, rest, with);
        assert(replaced(s, c, with) =~= a + with + b);
    }
}

} // verus!
