//! The `config.toml` of Codex: its provider sections and the edits made to it.

use vstd::prelude::*;

use crate::text::{
    ascii_lowered, chars_of, contains_char, ends_with_char, index_where, is_white_space, join, joined,
    kept_len, law_join_undoes_split, law_split_undoes_join, lead_len, lemma_index_where, lemma_index_where_is,
    lemma_kept_len, lemma_kept_len_is, lemma_lead_len, lemma_replaced_absent, lemma_split_where_count,
    lemma_split_where_nonempty, lemma_trimmed_between, lemma_trimmed_parts, only, opt_text, replace_char,
    replaced, same, split_char, split_once, split_once_at, split_where, starts_with, starts_with_char, texts,
    to_ascii_lowercase, trim, trim_end_char, trim_end_where, trim_start_where, trimmed, white,
};

verus! {

pub const DEFAULT_PROVIDER_NAME: &'static str = "simplaj";

pub const DEFAULT_CODEX_PROVIDER: &'static str = "openai";

/// A `[model_providers.*]` section: its id, the lines from its header to
/// the next header, and the values that its lines assign.
pub struct ProviderSection {
    pub id: String,
    pub start: usize,
    pub end: usize,
    pub values: Vec<(String, String)>,
}

/// What a provider section says, as mathematical values.
pub struct SectionModel {
    pub id: Seq<char>,
    pub start: int,
    pub end: int,
    pub values: Map<Seq<char>, Seq<char>>,
}

/// The last assignment of each key.
pub open spec fn entries(s: Seq<(String, String)>) -> Map<Seq<char>, Seq<char>>
    decreases s.len(),
{
    if s.len() == 0 {
        Map::empty()
    } else {
        entries(s.drop_last()).insert(s.last().0@, s.last().1@)
    }
}

impl View for ProviderSection {
    type V = SectionModel;

    open spec fn view(&self) -> SectionModel {
        SectionModel {
            id: self.id@,
            start: self.start as int,
            end: self.end as int,
            values: entries(self.values@),
        }
    }
}

pub open spec fn section_models(s: Seq<ProviderSection>) -> Seq<SectionModel> {
    s.map_values(|x: ProviderSection| x@)
}

/// The lines of a text, without the carriage returns that end them.
pub open spec fn text_lines(text: Seq<char>) -> Seq<Seq<char>> {
    split_where(text, only('\n')).map_values(|line: Seq<char>| trim_end_where(line, only('\r')))
}

/// Whether `s` begins with the character.
pub open spec fn begins(s: Seq<char>, c: char) -> bool {
    s.len() > 0 && s[0] == c
}

/// A value without the pair of quotes around it.
pub open spec fn unquoted(value: Seq<char>) -> Seq<char> {
    let t = trimmed(value);
    if t.len() >= 2 && ((t[0] == '"' && t.last() == '"') || (t[0] == '\'' && t.last() == '\'')) {
        t.subrange(1, t.len() - 1)
    } else {
        t
    }
}

/// A text with backslashes before its backslashes and quotes.
pub open spec fn escaped(value: Seq<char>) -> Seq<char> {
    replaced(replaced(value, '\\', "\\\\"@), '"', "\\\""@)
}

/// What stands before the first `#`.
pub open spec fn before_hash(s: Seq<char>) -> Seq<char> {
    s.take(index_where(s, only('#')) as int)
}

/// The value that a line assigns to `key`, if it does.
pub open spec fn assigned(line: Seq<char>, key: Seq<char>) -> Option<Seq<char>> {
    let t = trimmed(line);
    if begins(t, '#') {
        None
    } else {
        match split_once_at(t, '=') {
            Some((left, right)) => if trimmed(left) == key {
                Some(unquoted(trimmed(before_hash(right))))
            } else {
                None
            },
            None => None,
        }
    }
}

/// Whether a line is a section header of any kind.
pub open spec fn is_header(line: Seq<char>) -> bool {
    begins(trimmed(line), '[')
}

/// Whether a line is blank or a comment.
pub open spec fn is_idle(line: Seq<char>) -> bool {
    trimmed(line).len() == 0 || begins(trimmed(line), '#')
}

/// The provider that the lines from `i` on select, before any header.
pub open spec fn root_provider_from(lines: Seq<Seq<char>>, i: int) -> Seq<char>
    decreases lines.len() - i,
{
    if i >= lines.len() {
        "openai"@
    } else if is_idle(lines[i]) {
        root_provider_from(lines, i + 1)
    } else if is_header(lines[i]) {
        "openai"@
    } else {
        match assigned(lines[i], "model_provider"@) {
            Some(value) => value,
            None => root_provider_from(lines, i + 1),
        }
    }
}

/// The provider that a configuration selects.
pub open spec fn root_provider(text: Seq<char>) -> Seq<char> {
    root_provider_from(text_lines(text), 0)
}

/// `s` without each `prefix` at its start.
pub open spec fn without_prefixes(s: Seq<char>, prefix: Seq<char>) -> Seq<char>
    decreases s.len(),
{
    if prefix.len() > 0 && prefix.is_prefix_of(s) {
        without_prefixes(s.skip(prefix.len() as int), prefix)
    } else {
        s
    }
}

/// The id in the header of a provider section.
pub open spec fn section_id(line: Seq<char>) -> Option<Seq<char>> {
    let t = trimmed(line);
    if "[model_providers."@.is_prefix_of(t) && t.len() > 0 && t.last() == ']' {
        Some(unquoted(trim_end_where(without_prefixes(t, "[model_providers."@), only(']'))))
    } else {
        None
    }
}

/// The key that a line assigns and its value.
pub open spec fn entry(line: Seq<char>) -> Option<(Seq<char>, Seq<char>)> {
    match split_once_at(trimmed(line), '=') {
        Some((left, _)) => {
            let key = trimmed(left);
            if key.len() > 0 && key[0] != '#' {
                match assigned(line, key) {
                    Some(value) => Some((key, value)),
                    None => None,
                }
            } else {
                None
            }
        },
        None => None,
    }
}

/// The first header from line `i` on, or the end.
pub open spec fn next_header(lines: Seq<Seq<char>>, i: int) -> int
    decreases lines.len() - i,
{
    if i >= lines.len() || is_header(lines[i]) {
        i
    } else {
        next_header(lines, i + 1)
    }
}

/// The values that the lines of a range assign, the last of each key.
pub open spec fn values_in(lines: Seq<Seq<char>>, from: int, to: int) -> Map<Seq<char>, Seq<char>>
    decreases to - from,
{
    if from >= to {
        Map::empty()
    } else {
        let before = values_in(lines, from, to - 1);
        match entry(lines[to - 1]) {
            Some((key, value)) => before.insert(key, value),
            None => before,
        }
    }
}

/// The section whose header with id `id` is line `i`.
pub open spec fn section_at(lines: Seq<Seq<char>>, i: int, id: Seq<char>) -> SectionModel {
    let end = next_header(lines, i + 1);
    SectionModel { id, start: i, end, values: values_in(lines, i + 1, end) }
}

/// The provider sections whose headers are among the first `n` lines.
pub open spec fn sections_upto(lines: Seq<Seq<char>>, n: int) -> Seq<SectionModel>
    decreases n,
{
    if n <= 0 {
        Seq::empty()
    } else {
        let before = sections_upto(lines, n - 1);
        match section_id(lines[n - 1]) {
            Some(id) => before.push(section_at(lines, n - 1, id)),
            None => before,
        }
    }
}

/// The provider sections of a configuration, in order.
pub open spec fn provider_sections(text: Seq<char>) -> Seq<SectionModel> {
    sections_upto(text_lines(text), text_lines(text).len() as int)
}

/// A secret with all but its ends left out.
pub open spec fn masked(value: Seq<char>) -> Seq<char> {
    if value.len() == 0 {
        Seq::empty()
    } else if value.len() <= 14 {
        value.take(if value.len() < 4 {
            value.len() as int
        } else {
            4
        }) + "..."@
    } else {
        value.take(7) + "..."@ + value.skip(value.len() - 4)
    }
}

/// Shortens a secret so that it can be shown.
pub fn mask_secret(value: &str) -> (r: String)
    ensures
        r@ == masked(value@),
{
    if value.is_empty() {
        return String::new();
    }
    let chars = chars_of(value);
    let n: usize = chars.len();
    if n <= 14 {
        let shown: usize = if n < 4 { n } else { 4 };
        let r = value.substring_char(0, shown).to_owned().concat("...");
        assert(r@ == masked(value@));
        return r;
    }
    let r = value.substring_char(0, 7).to_owned().concat("...").concat(value.substring_char(n - 4, n));
    assert(r@ == masked(value@));
    r
}

pub fn strip_toml_quotes(value: &str) -> (r: String)
    ensures
        r@ == unquoted(value@),
{
    let t = trim(value);
    let chars = chars_of(t);
    let n: usize = chars.len();
    if n >= 2 && ((chars[0] == '"' && chars[n - 1] == '"') || (chars[0] == '\'' && chars[n - 1] == '\'')) {
        return t.substring_char(1, n - 1).to_owned();
    }
    t.to_owned()
}

pub fn escape_toml_string(value: &str) -> (r: String)
    ensures
        r@ == escaped(value@),
{
    replace_char(replace_char(value, '\\', "\\\\").as_str(), '"', "\\\"")
}

pub fn split_lines(text: &str) -> (r: Vec<String>)
    ensures
        texts(r@) == text_lines(text@),
        r@.len() >= 1,
{
    let pieces = split_char(text, '\n');
    let mut out: Vec<String> = Vec::new();
    for i in 0..pieces.len()
        invariant
            texts(pieces@) == split_where(text@, only('\n')),
            texts(out@) == text_lines(text@).take(i as int),
    {
        let line = trim_end_char(pieces[i].as_str(), '\r').to_owned();
        proof {
            assert(texts(pieces@)[i as int] == pieces@[i as int]@);
            assert(texts(out@.push(line)) == texts(out@).push(line@));
            assert(text_lines(text@).take(i + 1) == text_lines(text@).take(i as int).push(line@));
        }
        out.push(line);
    }
    assert(text_lines(text@).take(pieces@.len() as int) == text_lines(text@));
    out
}

pub open spec fn opt_str(s: Option<&str>) -> Option<Seq<char>> {
    match s {
        Some(x) => Some(x@),
        None => None,
    }
}

pub fn assignment_value(line: &str, key: &str) -> (r: Option<String>)
    ensures
        opt_text(r) == assigned(line@, key@),
{
    let t = trim(line);
    if starts_with_char(t, '#') {
        return None;
    }
    match split_once(t, '=') {
        Some((left, right)) => {
            if !same(trim(left), key) {
                return None;
            }
            let parts = split_char(right, '#');
            proof {
                lemma_index_where(right@, only('#'));
                assert(texts(parts@)[0] == parts@[0]@);
                assert(parts@[0]@ == before_hash(right@));
            }
            Some(strip_toml_quotes(trim(parts[0].as_str())))
        },
        None => None,
    }
}

pub fn parse_root_provider(config_text: &str) -> (r: String)
    ensures
        r@ == root_provider(config_text@),
{
    let lines = split_lines(config_text);
    for i in 0..lines.len()
        invariant
            texts(lines@) == text_lines(config_text@),
            root_provider(config_text@) == root_provider_from(text_lines(config_text@), i as int),
    {
        let t = trim(lines[i].as_str());
        assert(texts(lines@)[i as int] == lines@[i as int]@);
        if !t.is_empty() && !starts_with_char(t, '#') {
            if starts_with_char(t, '[') {
                return DEFAULT_CODEX_PROVIDER.to_owned();
            }
            if let Some(value) = assignment_value(lines[i].as_str(), "model_provider") {
                return value;
            }
        }
    }
    DEFAULT_CODEX_PROVIDER.to_owned()
}

fn strip_prefixes<'a>(s: &'a str, prefix: &str) -> (r: &'a str)
    requires
        prefix@.len() > 0,
    ensures
        r@ == without_prefixes(s@, prefix@),
    decreases s@.len(),
{
    if starts_with(s, prefix) {
        let n = chars_of(s).len();
        let k = chars_of(prefix).len();
        let rest = s.substring_char(k, n);
        assert(rest@ == s@.skip(k as int));
        strip_prefixes(rest, prefix)
    } else {
        s
    }
}

pub fn parse_section_id(line: &str) -> (r: Option<String>)
    ensures
        opt_text(r) == section_id(line@),
{
    let t = trim(line);
    if !starts_with(t, "[model_providers.") || !ends_with_char(t, ']') {
        return None;
    }
    proof {
        reveal_strlit("[model_providers.");
    }
    let inner = trim_end_char(strip_prefixes(t, "[model_providers."), ']');
    Some(strip_toml_quotes(inner))
}

/// Assigns a value to a key.
fn set_entry(values: &mut Vec<(String, String)>, key: String, value: String)
    ensures
        entries(final(values)@) == entries(old(values)@).insert(key@, value@),
{
    values.push((key, value));
    assert(values@.drop_last() == old(values)@);
}

/// The value of a key, if one was assigned.
pub fn lookup<'a>(values: &'a Vec<(String, String)>, key: &str) -> (r: Option<&'a String>)
    ensures
        r is Some == entries(values@).dom().contains(key@),
        r matches Some(v) ==> v@ == entries(values@)[key@],
{
    let mut i: usize = values.len();
    assert(values@.take(i as int) == values@);
    while i > 0
        invariant
            i <= values@.len(),
            entries(values@).dom().contains(key@) == entries(values@.take(i as int)).dom().contains(key@),
            entries(values@).dom().contains(key@) ==> entries(values@)[key@] == entries(values@.take(i as int))[key@],
        decreases i,
    {
        i -= 1;
        assert(values@.take(i + 1).drop_last() == values@.take(i as int));
        if same(values[i].0.as_str(), key) {
            return Some(&values[i].1);
        }
    }
    None
}

fn line_entry(line: &str) -> (r: Option<(String, String)>)
    ensures
        match r {
            Some((k, v)) => entry(line@) == Some((k@, v@)),
            None => entry(line@) is None,
        },
{
    match split_once(trim(line), '=') {
        Some((left, _right)) => {
            let key = trim(left);
            if key.is_empty() || starts_with_char(key, '#') {
                return None;
            }
            match assignment_value(line, key) {
                Some(value) => Some((key.to_owned(), value)),
                None => None,
            }
        },
        None => None,
    }
}

fn header_after(lines: &Vec<String>, from: usize) -> (r: usize)
    requires
        from <= lines@.len(),
    ensures
        r == next_header(texts(lines@), from as int),
        from <= r <= lines@.len(),
{
    let mut i: usize = from;
    while i < lines.len() && !starts_with_char(trim(lines[i].as_str()), '[')
        invariant
            from <= i <= lines@.len(),
            next_header(texts(lines@), from as int) == next_header(texts(lines@), i as int),
        ensures
            from <= i <= lines@.len(),
            next_header(texts(lines@), from as int) == i,
        decreases lines@.len() - i,
    {
        i += 1;
    }
    i
}

fn collect_values(lines: &Vec<String>, from: usize, to: usize) -> (r: Vec<(String, String)>)
    requires
        from <= to <= lines@.len(),
    ensures
        entries(r@) == values_in(texts(lines@), from as int, to as int),
{
    let mut values: Vec<(String, String)> = Vec::new();
    for i in from..to
        invariant
            from <= to <= lines@.len(),
            entries(values@) == values_in(texts(lines@), from as int, i as int),
    {
        assert(texts(lines@)[i as int] == lines@[i as int]@);
        if let Some((key, value)) = line_entry(lines[i].as_str()) {
            set_entry(&mut values, key, value);
        }
    }
    values
}

pub fn parse_provider_sections(config_text: &str) -> (r: Vec<ProviderSection>)
    ensures
        section_models(r@) == provider_sections(config_text@),
{
    let lines = split_lines(config_text);
    let mut sections: Vec<ProviderSection> = Vec::new();
    for i in 0..lines.len()
        invariant
            texts(lines@) == text_lines(config_text@),
            section_models(sections@) == sections_upto(texts(lines@), i as int),
    {
        assert(texts(lines@)[i as int] == lines@[i as int]@);
        if let Some(id) = parse_section_id(lines[i].as_str()) {
            let end = header_after(&lines, i + 1);
            let values = collect_values(&lines, i + 1, end);
            let section = ProviderSection { id, start: i, end, values };
            assert(section_models(sections@.push(section)) == section_models(sections@).push(section@));
            sections.push(section);
        }
    }
    sections
}

/// What `config.toml` says of one provider, with its token masked.
pub struct ProviderView {
    pub id: String,
    pub name: String,
    pub base_url: String,
    pub wire_api: String,
    pub requires_openai_auth: String,
    pub has_experimental_bearer_token: bool,
    pub experimental_bearer_token_masked: String,
}

pub struct ConfigView {
    pub root_provider: String,
    pub providers: Vec<ProviderView>,
}

/// The value of a key in a section, or else `other`.
pub open spec fn value_or(section: SectionModel, key: Seq<char>, other: Seq<char>) -> Seq<char> {
    if section.values.dom().contains(key) {
        section.values[key]
    } else {
        other
    }
}

/// Whether a view says of a provider what its section says.
pub open spec fn provider_shows(p: ProviderView, section: SectionModel) -> bool {
    let token = value_or(section, "experimental_bearer_token"@, Seq::empty());
    &&& p.id@ == section.id
    &&& p.name@ == value_or(section, "name"@, section.id)
    &&& p.base_url@ == value_or(section, "base_url"@, Seq::empty())
    &&& p.wire_api@ == value_or(section, "wire_api"@, Seq::empty())
    &&& p.requires_openai_auth@ == value_or(section, "requires_openai_auth"@, Seq::empty())
    &&& p.has_experimental_bearer_token == (token.len() > 0)
    &&& p.experimental_bearer_token_masked@ == masked(token)
}

pub open spec fn providers_show(p: Seq<ProviderView>, sections: Seq<SectionModel>) -> bool {
    &&& p.len() == sections.len()
    &&& forall|i: int| 0 <= i < p.len() ==> provider_shows(#[trigger] p[i], sections[i])
}

pub(crate) fn section_value(section: &ProviderSection, key: &str, other: &str) -> (r: String)
    ensures
        r@ == value_or(section@, key@, other@),
{
    match lookup(&section.values, key) {
        Some(v) => v.clone(),
        None => other.to_owned(),
    }
}

fn provider_view(section: &ProviderSection) -> (r: ProviderView)
    ensures
        provider_shows(r, section@),
{
    assert(""@ == Seq::<char>::empty()) by {
        reveal_strlit("");
    }
    let token = section_value(section, "experimental_bearer_token", "");
    ProviderView {
        id: section.id.clone(),
        name: section_value(section, "name", section.id.as_str()),
        base_url: section_value(section, "base_url", ""),
        wire_api: section_value(section, "wire_api", ""),
        requires_openai_auth: section_value(section, "requires_openai_auth", ""),
        has_experimental_bearer_token: !token.as_str().is_empty(),
        experimental_bearer_token_masked: mask_secret(token.as_str()),
    }
}

pub fn parse_config(config_text: &str) -> (r: ConfigView)
    ensures
        r.root_provider@ == root_provider(config_text@),
        providers_show(r.providers@, provider_sections(config_text@)),
{
    let sections = parse_provider_sections(config_text);
    let mut providers: Vec<ProviderView> = Vec::new();
    for i in 0..sections.len()
        invariant
            providers_show(providers@, section_models(sections@).take(i as int)),
    {
        let p = provider_view(&sections[i]);
        providers.push(p);
    }
    assert(section_models(sections@).take(sections@.len() as int) == section_models(sections@));
    ConfigView { root_provider: parse_root_provider(config_text), providers }
}

/// Where the selected provider is written.
pub enum RootSpot {
    Replace(int),
    Insert(int),
}

/// Whether a line begins like the assignment of the selected provider.
pub open spec fn is_root_line(line: Seq<char>) -> bool {
    "model_provider"@.is_prefix_of(trimmed(line)) && trimmed(line).contains('=')
}

/// The place from line `i` on at which the selected provider is written.
pub open spec fn root_spot(lines: Seq<Seq<char>>, i: int) -> RootSpot
    decreases lines.len() - i,
{
    if i >= lines.len() {
        RootSpot::Insert(lines.len() as int)
    } else if is_idle(lines[i]) {
        root_spot(lines, i + 1)
    } else if is_header(lines[i]) {
        RootSpot::Insert(i)
    } else if is_root_line(lines[i]) {
        RootSpot::Replace(i)
    } else {
        root_spot(lines, i + 1)
    }
}

/// The line that selects a provider.
pub open spec fn root_line(provider_id: Seq<char>) -> Seq<char> {
    "model_provider = \""@ + escaped(provider_id) + "\""@
}

/// The lines with the selected provider written in its place.
pub open spec fn with_root_provider(lines: Seq<Seq<char>>, provider_id: Seq<char>) -> Seq<Seq<char>> {
    match root_spot(lines, 0) {
        RootSpot::Replace(i) => lines.update(i, root_line(provider_id)),
        RootSpot::Insert(i) => lines.insert(i, root_line(provider_id)),
    }
}

pub fn set_root_provider(config_text: &str, provider_id: &str) -> (r: String)
    ensures
        r@ == joined(with_root_provider(text_lines(config_text@), provider_id@), "\n"@),
{
    let mut lines = split_lines(config_text);
    let new_line = "model_provider = \"".to_owned().concat(escape_toml_string(provider_id).as_str()).concat("\"");
    let ghost old_lines = texts(lines@);
    let n: usize = lines.len();
    let mut i: usize = 0;
    while i < n
        invariant_except_break
            i <= n,
            root_spot(old_lines, 0) == root_spot(old_lines, i as int),
        invariant
            n == lines@.len(),
            texts(lines@) == old_lines,
            old_lines == text_lines(config_text@),
            new_line@ == root_line(provider_id@),
        ensures
            i <= n,
            root_spot(old_lines, 0) == RootSpot::Insert(i as int),
        decreases n - i,
    {
        assert(old_lines[i as int] == lines@[i as int]@);
        let t = trim(lines[i].as_str());
        if !t.is_empty() && !starts_with_char(t, '#') {
            if starts_with_char(t, '[') {
                break;
            }
            if starts_with(t, "model_provider") && contains_char(t, '=') {
                lines.set(i, new_line);
                assert(texts(lines@) == old_lines.update(i as int, new_line@));
                return join(lines.as_slice(), "\n");
            }
        }
        i += 1;
    }
    lines.insert(i, new_line);
    assert(texts(lines@) == old_lines.insert(i as int, new_line@));
    join(lines.as_slice(), "\n")
}

/// Whether a line begins like an assignment of `key`.
pub open spec fn is_key_line(line: Seq<char>, key: Seq<char>) -> bool {
    key.is_prefix_of(trimmed(line)) && trimmed(line).contains('=')
}

/// The first line of a range that begins like an assignment of `key`, or its end.
pub open spec fn key_line(lines: Seq<Seq<char>>, from: int, to: int, key: Seq<char>) -> int
    decreases to - from,
{
    if from >= to || is_key_line(lines[from], key) {
        from
    } else {
        key_line(lines, from + 1, to, key)
    }
}

/// The line that assigns `value` to `key`.
pub open spec fn key_value_line(key: Seq<char>, value: Seq<char>) -> Seq<char> {
    key + " = "@ + value
}

/// Whether a section from `start` to `end` has a line for `key`.
pub open spec fn has_key_line(lines: Seq<Seq<char>>, start: int, end: int, key: Seq<char>) -> bool {
    start + 1 < end && key_line(lines, start + 1, end, key) < end
}

/// The lines with `value` assigned to `key` in the section from `start` to `end`.
pub open spec fn upserted(
    lines: Seq<Seq<char>>,
    start: int,
    end: int,
    key: Seq<char>,
    value: Seq<char>,
) -> Seq<Seq<char>> {
    if has_key_line(lines, start, end, key) {
        lines.update(key_line(lines, start + 1, end, key), key_value_line(key, value))
    } else {
        lines.insert(start + 1, key_value_line(key, value))
    }
}

/// The end of the section after that assignment.
pub open spec fn upserted_end(lines: Seq<Seq<char>>, start: int, end: int, key: Seq<char>) -> int {
    if has_key_line(lines, start, end, key) {
        end
    } else {
        end + 1
    }
}

pub fn upsert_key_in_section(lines: &mut Vec<String>, section: &mut ProviderSection, key: &str, value: &str)
    requires
        old(section).start < old(lines)@.len() < usize::MAX,
        old(section).end <= old(lines)@.len(),
    ensures
        texts(final(lines)@) == upserted(
            texts(old(lines)@),
            old(section).start as int,
            old(section).end as int,
            key@,
            value@,
        ),
        final(section)@ == (SectionModel {
            end: upserted_end(texts(old(lines)@), old(section).start as int, old(section).end as int, key@),
            ..old(section)@
        }),
        final(lines)@.len() == old(lines)@.len() || final(lines)@.len() == old(lines)@.len() + 1,
        final(section).end <= final(lines)@.len(),
        final(section).start == old(section).start,
        final(section).end - old(section).end == final(lines)@.len() - old(lines)@.len(),
{
    let ghost before = texts(lines@);
    let start: usize = section.start;
    let end: usize = section.end;
    let new_line = key.to_owned().concat(" = ").concat(value);
    let mut i: usize = start + 1;
    while i < end
        invariant
            start < end ==> i <= end,
            start + 1 <= i,
            end <= lines@.len(),
            start + 1 < end ==> key_line(before, start + 1, end as int, key@) == key_line(
                before,
                i as int,
                end as int,
                key@,
            ),
            *lines == *old(lines),
            *section == *old(section),
            start == section.start,
            end == section.end,
            before == texts(lines@),
            new_line@ == key_value_line(key@, value@),
            section.start < lines@.len() < usize::MAX,
        decreases end - i,
    {
        assert(before[i as int] == lines@[i as int]@);
        let t = trim(lines[i].as_str());
        if starts_with(t, key) && contains_char(t, '=') {
            lines.set(i, new_line);
            assert(texts(lines@) == before.update(i as int, new_line@));
            return;
        }
        i += 1;
    }
    lines.insert(start + 1, new_line);
    assert(texts(lines@) == before.insert(start + 1, new_line@));
    section.end = end + 1;
}

/// The first section for which `p` holds.
pub open spec fn first_section(sections: Seq<SectionModel>, p: spec_fn(SectionModel) -> bool) -> Option<SectionModel>
    decreases sections.len(),
{
    if sections.len() == 0 {
        None
    } else if p(sections[0]) {
        Some(sections[0])
    } else {
        first_section(sections.drop_first(), p)
    }
}

/// The section whose id or name is OpenAI, in any case of letters.
pub open spec fn is_openai() -> spec_fn(SectionModel) -> bool {
    |s: SectionModel|
        ascii_lowered(s.id) == ascii_lowered("openai"@) || (s.values.dom().contains("name"@) && ascii_lowered(
            s.values["name"@],
        ) == ascii_lowered("openai"@))
}

/// The section whose id or name is `provider`.
pub open spec fn is_called(provider: Seq<char>) -> spec_fn(SectionModel) -> bool {
    |s: SectionModel| s.id == provider || (s.values.dom().contains("name"@) && s.values["name"@] == provider)
}

pub open spec fn opt_section(s: Option<ProviderSection>) -> Option<SectionModel> {
    match s {
        Some(x) => Some(x@),
        None => None,
    }
}

impl ProviderSection {
    /// A section that says the same.
    pub fn duplicate(&self) -> (r: ProviderSection)
        ensures
            r@ == self@,
    {
        let mut values: Vec<(String, String)> = Vec::new();
        for i in 0..self.values.len()
            invariant
                entries(values@) == entries(self.values@.take(i as int)),
        {
            assert(self.values@.take(i + 1).drop_last() == self.values@.take(i as int));
            set_entry(&mut values, self.values[i].0.clone(), self.values[i].1.clone());
        }
        assert(self.values@.take(self.values@.len() as int) == self.values@);
        ProviderSection { id: self.id.clone(), start: self.start, end: self.end, values }
    }
}

pub(crate) fn find_section<F: Fn(&ProviderSection) -> bool>(
    sections: &[ProviderSection],
    f: F,
    Ghost(p): Ghost<spec_fn(SectionModel) -> bool>,
) -> (r: Option<ProviderSection>)
    requires
        forall|s: &ProviderSection| call_requires(f, (s,)),
        forall|s: &ProviderSection, b: bool| call_ensures(f, (s,), b) ==> b == p(s@),
    ensures
        opt_section(r) == first_section(section_models(sections@), p),
{
    assert(section_models(sections@).skip(0) == section_models(sections@));
    for i in 0..sections.len()
        invariant
            forall|s: &ProviderSection| call_requires(f, (s,)),
            forall|s: &ProviderSection, b: bool| call_ensures(f, (s,), b) ==> b == p(s@),
            first_section(section_models(sections@), p) == first_section(section_models(sections@).skip(i as int), p),
    {
        assert(section_models(sections@).skip(i as int)[0] == sections@[i as int]@);
        assert(section_models(sections@).skip(i as int).drop_first() == section_models(sections@).skip(i + 1));
        if f(&sections[i]) {
            return Some(sections[i].duplicate());
        }
    }
    None
}

fn name_is(section: &ProviderSection, provider: &str) -> (r: bool)
    ensures
        r == is_called(provider@)(section@),
{
    if same(section.id.as_str(), provider) {
        return true;
    }
    match lookup(&section.values, "name") {
        Some(name) => same(name.as_str(), provider),
        None => false,
    }
}

fn openai_section(section: &ProviderSection) -> (r: bool)
    ensures
        r == is_openai()(section@),
{
    let wanted = to_ascii_lowercase("openai");
    if same(to_ascii_lowercase(section.id.as_str()).as_str(), wanted.as_str()) {
        return true;
    }
    match lookup(&section.values, "name") {
        Some(name) => same(to_ascii_lowercase(name.as_str()).as_str(), wanted.as_str()),
        None => false,
    }
}

pub fn find_openai_provider_section(sections: &[ProviderSection]) -> (r: Option<ProviderSection>)
    ensures
        opt_section(r) == first_section(section_models(sections@), is_openai()),
{
    let f = |s: &ProviderSection| -> (b: bool)
        ensures
            b == is_openai()(s@),
        { openai_section(s) };
    find_section(sections, f, Ghost(is_openai()))
}

pub fn find_provider_section_by_id_or_name(sections: &[ProviderSection], provider_id: &str) -> (r: Option<
    ProviderSection,
>)
    ensures
        opt_section(r) == first_section(section_models(sections@), is_called(provider_id@)),
{
    let f = |s: &ProviderSection| -> (b: bool)
        ensures
            b == is_called(provider_id@)(s@),
        { name_is(s, provider_id) };
    find_section(sections, f, Ghost(is_called(provider_id@)))
}

/// The section to rename: the OpenAI one, or else the one of the current provider.
pub open spec fn section_for_repair(sections: Seq<SectionModel>, current: Seq<char>) -> Option<SectionModel> {
    match first_section(sections, is_openai()) {
        Some(s) => Some(s),
        None => first_section(sections, is_called(current)),
    }
}

pub fn find_provider_section_for_repair(sections: &[ProviderSection], current_provider: &str) -> (r: Option<
    ProviderSection,
>)
    ensures
        opt_section(r) == section_for_repair(section_models(sections@), current_provider@),
{
    match find_openai_provider_section(sections) {
        Some(s) => Some(s),
        None => find_provider_section_by_id_or_name(sections, current_provider),
    }
}

pub proof fn lemma_next_header(lines: Seq<Seq<char>>, i: int)
    requires
        0 <= i <= lines.len(),
    ensures
        i <= next_header(lines, i) <= lines.len(),
        forall|k: int| i <= k < next_header(lines, i) ==> !is_header(#[trigger] lines[k]),
        next_header(lines, i) < lines.len() ==> is_header(lines[next_header(lines, i)]),
    decreases lines.len() - i,
{
    if i < lines.len() && !is_header(lines[i]) {
        lemma_next_header(lines, i + 1);
    }
}

/// A section of a configuration lies within its lines: its header is one of
/// them, and no header stands between that line and the end of the section.
pub open spec fn section_fits(s: SectionModel, lines: Seq<Seq<char>>) -> bool {
    &&& 0 <= s.start < s.end <= lines.len()
    &&& section_id(lines[s.start]) == Some(s.id)
    &&& s == section_at(lines, s.start, s.id)
    &&& forall|k: int| s.start < k < s.end ==> !is_header(#[trigger] lines[k])
}

pub proof fn lemma_sections_upto(lines: Seq<Seq<char>>, n: int)
    requires
        0 <= n <= lines.len(),
    ensures
        forall|i: int| 0 <= i < sections_upto(lines, n).len() ==> section_fits(#[trigger] sections_upto(lines, n)[i], lines),
        forall|i: int| 0 <= i < sections_upto(lines, n).len() ==> (#[trigger] sections_upto(lines, n)[i]).start < n,
        forall|i: int, j: int| 0 <= i < j < sections_upto(lines, n).len() ==> (#[trigger] sections_upto(lines, n)[i]).end
            <= (#[trigger] sections_upto(lines, n)[j]).start,
    decreases n,
{
    if n > 0 {
        lemma_sections_upto(lines, n - 1);
        let before = sections_upto(lines, n - 1);
        if let Some(id) = section_id(lines[n - 1]) {
            lemma_next_header(lines, n);
            lemma_section_line_is_header(lines[n - 1]);
            assert forall|i: int| 0 <= i < before.len() implies (#[trigger] before[i]).end <= n - 1 by {
                assert(section_fits(before[i], lines));
                if before[i].end > n - 1 {
                    assert(!is_header(lines[n - 1]));
                }
            }
        }
    }
}

pub proof fn lemma_section_line_is_header(line: Seq<char>)
    requires
        section_id(line) is Some,
    ensures
        is_header(line),
{
    reveal_strlit("[model_providers.");
    assert("[model_providers."@[0] == trimmed(line)[0]);
}

/// The provider sections lie within the lines of the configuration, in order
/// and without overlap.
pub proof fn law_sections_are_disjoint(text: Seq<char>)
    ensures
        forall|i: int| 0 <= i < provider_sections(text).len() ==> section_fits(
            #[trigger] provider_sections(text)[i],
            text_lines(text),
        ),
        forall|i: int, j: int| 0 <= i < j < provider_sections(text).len() ==> (#[trigger] provider_sections(text)[i]).end
            <= (#[trigger] provider_sections(text)[j]).start,
{
    lemma_sections_upto(text_lines(text), text_lines(text).len() as int);
}

/// What is found among sections is one of them, and `p` holds for it.
pub proof fn lemma_first_section(sections: Seq<SectionModel>, p: spec_fn(SectionModel) -> bool)
    ensures
        match first_section(sections, p) {
            Some(s) => sections.contains(s) && p(s),
            None => forall|i: int| 0 <= i < sections.len() ==> !p(#[trigger] sections[i]),
        },
    decreases sections.len(),
{
    if sections.len() > 0 && !p(sections[0]) {
        lemma_first_section(sections.drop_first(), p);
        match first_section(sections, p) {
            Some(s) => {
                let k = choose|k: int| 0 <= k < sections.drop_first().len() && sections.drop_first()[k] == s;
                assert(sections[k + 1] == s);
            },
            None => {
                assert forall|i: int| 0 <= i < sections.len() implies !p(#[trigger] sections[i]) by {
                    if i > 0 {
                        assert(sections.drop_first()[i - 1] == sections[i]);
                    }
                }
            },
        }
    } else if sections.len() > 0 {
        assert(sections.contains(sections[0]));
    }
}

/// Whether a text can be a line: it holds no line feed and does not end in a
/// carriage return.
pub open spec fn is_line(s: Seq<char>) -> bool {
    !s.contains('\n') && (s.len() > 0 ==> s.last() != '\r')
}

/// A text has at least one line, and each of its lines can be a line.
pub proof fn law_text_lines(text: Seq<char>)
    ensures
        text_lines(text).len() >= 1,
        forall|i: int| 0 <= i < text_lines(text).len() ==> is_line(#[trigger] text_lines(text)[i]),
{
    law_join_undoes_split(text, '\n');
    lemma_split_where_nonempty(text, only('\n'));
    let pieces = split_where(text, only('\n'));
    assert forall|i: int| 0 <= i < pieces.len() implies is_line(#[trigger] text_lines(text)[i]) by {
        let piece = pieces[i];
        lemma_kept_len(piece, only('\r'));
        let line = trim_end_where(piece, only('\r'));
        assert(text_lines(text)[i] == line);
        assert(!piece.contains('\n'));
        if line.contains('\n') {
            let k = choose|k: int| 0 <= k < line.len() && line[k] == '\n';
            assert(piece[k] == '\n');
        }
    }
}

/// Lines that are joined come back as they were.
pub proof fn law_lines_rejoin(lines: Seq<Seq<char>>)
    requires
        lines.len() >= 1,
        forall|i: int| 0 <= i < lines.len() ==> is_line(#[trigger] lines[i]),
    ensures
        text_lines(joined(lines, "\n"@)) == lines,
{
    reveal_strlit("\n");
    assert("\n"@ == seq!['\n']);
    assert forall|i: int| 0 <= i < lines.len() implies !(#[trigger] lines[i]).contains('\n') by {
        assert(is_line(lines[i]));
    }
    law_split_undoes_join(lines, '\n');
    assert forall|i: int| 0 <= i < lines.len() implies trim_end_where(#[trigger] lines[i], only('\r')) == lines[i] by {
        assert(is_line(lines[i]));
        lemma_kept_len_is(lines[i], only('\r'), lines[i].len() as int);
        assert(lines[i].take(lines[i].len() as int) == lines[i]);
    }
    assert(text_lines(joined(lines, "\n"@)) =~= lines);
}

/// A line that assigns the selected provider begins like one.
pub proof fn lemma_assigned_is_root_line(line: Seq<char>)
    requires
        assigned(line, "model_provider"@) is Some,
    ensures
        is_root_line(line),
{
    let t = trimmed(line);
    let i = index_where(t, only('=')) as int;
    lemma_index_where(t, only('='));
    lemma_trimmed_parts(line);
    let left = t.take(i);
    let key = "model_provider"@;
    reveal_strlit("model_provider");
    assert(t[i] == '=');
    assert(t.contains('='));
    lemma_trimmed_parts(left);
    lemma_lead_len(left, white());
    let lead = lead_len(left, white()) as int;
    if lead > 0 {
        assert(is_white_space(left[0]));
        assert(t[0] == left[0]);
    }
    let rest = trim_start_where(left, white());
    assert(rest == left);
    lemma_kept_len(rest, white());
    assert(trimmed(left) == left.take(kept_len(left, white()) as int));
    assert forall|j: int| 0 <= j < key.len() implies key[j] == #[trigger] t[j] by {
        assert(trimmed(left)[j] == left[j]);
    }
    assert(key.is_prefix_of(t));
}

/// The line that selects a plain id assigns that id.
pub proof fn lemma_root_line_assigns(id: Seq<char>)
    requires
        !id.contains('#'),
        !id.contains('"'),
        !id.contains('\\'),
    ensures
        assigned(root_line(id), "model_provider"@) == Some(id),
        !is_idle(root_line(id)),
        !is_header(root_line(id)),
{
    lemma_replaced_absent(id, '\\', "\\\\"@);
    lemma_replaced_absent(id, '"', "\\\""@);
    assert(escaped(id) == id);
    let line = root_line(id);
    let n = id.len() as int;
    reveal_strlit("model_provider = \"");
    reveal_strlit("\"");
    reveal_strlit("model_provider");
    let head = "model_provider = \""@;
    assert(head.len() == 18);
    assert(line.len() == n + 19);
    assert(line == head + id + seq!['"']);
    assert(line[0] == 'm' && line.last() == '"');
    lemma_trimmed_between(line, 0, line.len() as int);
    assert(line.subrange(0, line.len() as int) == line);
    assert(trimmed(line) == line);
    assert forall|j: int| 0 <= j < 15 implies !only('=')(#[trigger] line[j]) by {
        assert(line[j] == head[j]);
    }
    assert(line[15] == head[15]);
    lemma_index_where_is(line, only('='), 15);
    let left = line.take(15);
    let right = line.skip(16);
    assert(left[0] == head[0] && left[13] == head[13] && left[14] == head[14]);
    lemma_trimmed_between(left, 0, 14);
    assert(left.subrange(0, 14) =~= "model_provider"@) by {
        assert forall|j: int| 0 <= j < 14 implies left.subrange(0, 14)[j] == "model_provider"@[j] by {
            assert(left[j] == head[j]);
        }
    }
    assert(right[0] == head[16] && right[1] == head[17]);
    assert(right =~= seq![' ', '"'] + id + seq!['"']);
    assert forall|j: int| 0 <= j < right.len() implies !only('#')(#[trigger] right[j]) by {
        if 2 <= j < n + 2 {
            assert(right[j] == id[j - 2]);
            assert(id.contains(id[j - 2]));
        }
    }
    lemma_index_where_is(right, only('#'), right.len() as int);
    assert(before_hash(right) == right);
    lemma_trimmed_between(right, 1, right.len() as int);
    let value = right.subrange(1, right.len() as int);
    assert(trimmed(right) == value);
    lemma_trimmed_between(value, 0, value.len() as int);
    assert(value.subrange(0, value.len() as int) == value);
    assert(unquoted(value) == value.subrange(1, value.len() - 1));
    assert(value.subrange(1, value.len() - 1) =~= id);
}

/// Whether the search for the selected provider goes on after a line.
pub open spec fn is_passed(line: Seq<char>) -> bool {
    is_idle(line) || (!is_header(line) && !is_root_line(line))
}

pub proof fn lemma_root_spot(lines: Seq<Seq<char>>, i: int)
    requires
        0 <= i <= lines.len(),
    ensures
        match root_spot(lines, i) {
            RootSpot::Replace(k) => i <= k < lines.len() && !is_header(lines[k]) && forall|j: int|
                i <= j < k ==> is_passed(#[trigger] lines[j]),
            RootSpot::Insert(k) => i <= k <= lines.len() && forall|j: int| i <= j < k ==> is_passed(#[trigger] lines[j]),
        },
    decreases lines.len() - i,
{
    if i < lines.len() {
        lemma_root_spot(lines, i + 1);
    }
}

proof fn lemma_root_spot_at(lines: Seq<Seq<char>>, i: int, k: int)
    requires
        0 <= i <= k < lines.len(),
        forall|j: int| i <= j < k ==> is_passed(#[trigger] lines[j]),
        !is_idle(lines[k]),
        !is_header(lines[k]),
        is_root_line(lines[k]),
    ensures
        root_spot(lines, i) == RootSpot::Replace(k),
    decreases k - i,
{
    if i < k {
        assert(is_passed(lines[i]));
        lemma_root_spot_at(lines, i + 1, k);
    }
}

pub proof fn lemma_root_provider_at(lines: Seq<Seq<char>>, i: int, k: int)
    requires
        0 <= i <= k < lines.len(),
        forall|j: int| i <= j < k ==> is_passed(#[trigger] lines[j]),
    ensures
        root_provider_from(lines, i) == root_provider_from(lines, k),
    decreases k - i,
{
    if i < k {
        assert(is_passed(lines[i]));
        if assigned(lines[i], "model_provider"@) is Some {
            lemma_assigned_is_root_line(lines[i]);
        }
        lemma_root_provider_at(lines, i + 1, k);
    }
}

/// Whether two lists of sections have the same ids and values in the same
/// order, but that section `but`, if there is one, has another id.
pub open spec fn same_sections_but(a: Seq<SectionModel>, b: Seq<SectionModel>, but: int, id: Seq<char>) -> bool {
    &&& a.len() == b.len()
    &&& forall|i: int| 0 <= i < a.len() && i != but ==> (#[trigger] b[i]).id == a[i].id && b[i].values == a[i].values
    &&& 0 <= but < b.len() ==> b[but].id == id
}

/// Whether two lists of sections have the same ids and values in the same
/// order.
pub open spec fn same_sections(a: Seq<SectionModel>, b: Seq<SectionModel>) -> bool {
    &&& a.len() == b.len()
    &&& forall|i: int| 0 <= i < a.len() ==> (#[trigger] b[i]).id == a[i].id && b[i].values == a[i].values
}

pub proof fn lemma_next_header_shift(a: Seq<Seq<char>>, b: Seq<Seq<char>>, i: int, d: int)
    requires
        0 <= i <= a.len(),
        0 <= d,
        b.len() == a.len() + d,
        forall|j: int| i <= j < a.len() ==> #[trigger] b[j + d] == a[j],
    ensures
        next_header(b, i + d) == next_header(a, i) + d,
    decreases a.len() - i,
{
    if i < a.len() {
        assert(b[i + d] == a[i]);
        if !is_header(a[i]) {
            lemma_next_header_shift(a, b, i + 1, d);
        }
    }
}

pub proof fn lemma_values_shift(a: Seq<Seq<char>>, b: Seq<Seq<char>>, from: int, to: int, d: int)
    requires
        0 <= from <= to <= a.len(),
        0 <= d,
        b.len() == a.len() + d,
        forall|j: int| from <= j < to ==> #[trigger] b[j + d] == a[j],
    ensures
        values_in(b, from + d, to + d) == values_in(a, from, to),
    decreases to - from,
{
    if from < to {
        lemma_values_shift(a, b, from, to - 1, d);
        assert(b[to - 1 + d] == a[to - 1]);
    }
}

/// Lines without a header among them begin no section.
pub proof fn lemma_no_sections(lines: Seq<Seq<char>>, m: int, n: int)
    requires
        0 <= m <= n <= lines.len(),
        forall|j: int| m <= j < n ==> !is_header(#[trigger] lines[j]),
    ensures
        sections_upto(lines, n) == sections_upto(lines, m),
    decreases n - m,
{
    if m < n {
        lemma_no_sections(lines, m, n - 1);
        assert(!is_header(lines[n - 1]));
        if section_id(lines[n - 1]) is Some {
            lemma_section_line_is_header(lines[n - 1]);
        }
    }
}

/// Sections that begin in lines which are only moved are the same.
pub proof fn lemma_sections_shift(
    a: Seq<Seq<char>>,
    b: Seq<Seq<char>>,
    p: int,
    d: int,
    n: int,
    but: int,
    id: Seq<char>,
)
    requires
        0 <= p <= n <= a.len(),
        0 <= d,
        b.len() == a.len() + d,
        forall|j: int| p <= j < a.len() ==> #[trigger] b[j + d] == a[j],
        same_sections_but(sections_upto(a, p), sections_upto(b, p + d), but, id),
        but < sections_upto(a, p).len(),
    ensures
        same_sections_but(sections_upto(a, n), sections_upto(b, n + d), but, id),
        but < sections_upto(a, n).len(),
    decreases n - p,
{
    if p < n {
        lemma_sections_shift(a, b, p, d, n - 1, but, id);
        assert(b[n - 1 + d] == a[n - 1]);
        let x = sections_upto(a, n - 1);
        let y = sections_upto(b, n - 1 + d);
        if let Some(found) = section_id(a[n - 1]) {
            lemma_next_header_shift(a, b, n, d);
            lemma_next_header(a, n);
            lemma_values_shift(a, b, n, next_header(a, n), d);
            let u = section_at(a, n - 1, found);
            let v = section_at(b, n - 1 + d, found);
            assert(sections_upto(a, n) == x.push(u));
            assert(sections_upto(b, n + d) == y.push(v));
            assert(v.id == u.id && v.values == u.values);
            assert forall|i: int| 0 <= i < x.push(u).len() && i != but implies (#[trigger] y.push(v)[i]).id == x.push(u)[i].id
                && y.push(v)[i].values == x.push(u)[i].values by {
                if i < x.len() {
                    assert(y[i].id == x[i].id && y[i].values == x[i].values);
                }
            }
        }
    }
}

/// Where lines lie the same but for the selected provider, so do the sections.
pub proof fn lemma_root_keeps_sections(lines: Seq<Seq<char>>, id: Seq<char>)
    requires
        !id.contains('#'),
        !id.contains('"'),
        !id.contains('\\'),
    ensures
        same_sections(
            sections_upto(lines, lines.len() as int),
            sections_upto(with_root_provider(lines, id), with_root_provider(lines, id).len() as int),
        ),
{
    let next = with_root_provider(lines, id);
    let n = lines.len() as int;
    lemma_root_line_assigns(id);
    lemma_root_spot(lines, 0);
    match root_spot(lines, 0) {
        RootSpot::Replace(k) => {
            assert forall|j: int| 0 <= j < k + 1 implies !is_header(#[trigger] lines[j]) by {
                if j < k {
                    assert(is_passed(lines[j]));
                }
            }
            assert forall|j: int| 0 <= j < k + 1 implies !is_header(#[trigger] next[j]) by {
                if j < k {
                    assert(next[j] == lines[j]);
                }
            }
            lemma_no_sections(lines, 0, k + 1);
            lemma_no_sections(next, 0, k + 1);
            lemma_sections_shift(lines, next, k + 1, 0, n, -1, id);
        },
        RootSpot::Insert(k) => {
            assert forall|j: int| 0 <= j < k implies !is_header(#[trigger] lines[j]) by {
                assert(is_passed(lines[j]));
            }
            assert forall|j: int| 0 <= j < k + 1 implies !is_header(#[trigger] next[j]) by {
                if j < k {
                    assert(next[j] == lines[j]);
                }
            }
            lemma_no_sections(lines, 0, k);
            lemma_no_sections(next, 0, k + 1);
            assert forall|j: int| k <= j < lines.len() implies #[trigger] next[j + 1] == lines[j] by {}
            lemma_sections_shift(lines, next, k, 1, n, -1, id);
        },
    }
}

/// After a provider is selected, the configuration selects it. Its provider
/// sections have the same ids and values as before, and selecting it a second
/// time changes nothing. The id may hold no character that the quoted form
/// escapes or cuts off.
pub proof fn law_root_provider_is_set(text: Seq<char>, id: Seq<char>)
    requires
        !id.contains('#'),
        !id.contains('"'),
        !id.contains('\\'),
        !id.contains('\n'),
    ensures
        root_provider(joined(with_root_provider(text_lines(text), id), "\n"@)) == id,
        same_sections(
            provider_sections(text),
            provider_sections(joined(with_root_provider(text_lines(text), id), "\n"@)),
        ),
        with_root_provider(text_lines(joined(with_root_provider(text_lines(text), id), "\n"@)), id)
            == with_root_provider(text_lines(text), id),
{
    let lines = text_lines(text);
    let next = with_root_provider(lines, id);
    law_text_lines(text);
    lemma_root_line_assigns(id);
    lemma_root_line_is_line(id);
    lemma_assigned_is_root_line(root_line(id));
    lemma_root_spot(lines, 0);
    assert forall|i: int| 0 <= i < next.len() implies is_line(#[trigger] next[i]) by {
        match root_spot(lines, 0) {
            RootSpot::Replace(k) => {
                if i != k {
                    assert(next[i] == lines[i]);
                }
            },
            RootSpot::Insert(k) => {
                if i < k {
                    assert(next[i] == lines[i]);
                } else if i > k {
                    assert(next[i] == lines[i - 1]);
                }
            },
        }
    }
    law_lines_rejoin(next);
    lemma_root_keeps_sections(lines, id);
    let k = match root_spot(lines, 0) {
        RootSpot::Replace(k) => k,
        RootSpot::Insert(k) => k,
    };
    assert forall|j: int| 0 <= j < k implies is_passed(#[trigger] next[j]) by {
        assert(next[j] == lines[j]);
        assert(is_passed(lines[j]));
    }
    assert(next[k] == root_line(id));
    lemma_root_provider_at(next, 0, k);
    lemma_root_spot_at(next, 0, k);
    assert(next.update(k, root_line(id)) =~= next);
}

pub proof fn lemma_root_line_is_line(id: Seq<char>)
    requires
        !id.contains('"'),
        !id.contains('\\'),
        !id.contains('\n'),
    ensures
        is_line(root_line(id)),
{
    lemma_replaced_absent(id, '\\', "\\\\"@);
    lemma_replaced_absent(id, '"', "\\\""@);
    reveal_strlit("model_provider = \"");
    reveal_strlit("\"");
    let line = root_line(id);
    let head = "model_provider = \""@;
    if line.contains('\n') {
        let k = choose|k: int| 0 <= k < line.len() && line[k] == '\n';
        if k < head.len() {
            assert(line[k] == head[k]);
        } else if k < line.len() - 1 {
            assert(line[k] == id[k - head.len()]);
        }
    }
}

/// A text has at most one line more than characters.
pub proof fn lemma_text_lines_count(text: Seq<char>)
    ensures
        text_lines(text).len() <= text.len() + 1,
{
    lemma_split_where_count(text, only('\n'));
}

/// The keys that are assigned are those of the list.
pub proof fn lemma_entries(s: Seq<(String, String)>)
    ensures
        forall|key: Seq<char>| #[trigger] entries(s).dom().contains(key) <==> exists|i: int|
            0 <= i < s.len() && (#[trigger] s[i]).0@ == key,
    decreases s.len(),
{
    if s.len() > 0 {
        let before = s.drop_last();
        lemma_entries(before);
        assert forall|key: Seq<char>| #[trigger] entries(s).dom().contains(key) implies exists|i: int|
            0 <= i < s.len() && (#[trigger] s[i]).0@ == key by {
            if key == s.last().0@ {
                assert(s[s.len() - 1].0@ == key);
            } else {
                assert(entries(before).dom().contains(key));
                let i = choose|i: int| 0 <= i < before.len() && (#[trigger] before[i]).0@ == key;
                assert(s[i].0@ == key);
            }
        }
        assert forall|key: Seq<char>|
            (exists|i: int| 0 <= i < s.len() && (#[trigger] s[i]).0@ == key) implies #[trigger] entries(
            s,
        ).dom().contains(key) by {
            let i = choose|i: int| 0 <= i < s.len() && (#[trigger] s[i]).0@ == key;
            if i < before.len() {
                assert(before[i].0@ == key);
                assert(entries(before).dom().contains(key));
            }
        }
    }
}

} // verus!
