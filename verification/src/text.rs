//! Text as sequences of characters: trimming, splitting, joining and searching.

use vstd::prelude::*;
use vstd::utf8::*;

verus! {

/// The characters with the Unicode property White_Space.
pub open spec fn is_white_space(c: char) -> bool {
    ||| '\u{9}' <= c <= '\u{d}'
    ||| c == ' '
    ||| c == '\u{85}'
    ||| c == '\u{a0}'
    ||| c == '\u{1680}'
    ||| '\u{2000}' <= c <= '\u{200a}'
    ||| c == '\u{2028}'
    ||| c == '\u{2029}'
    ||| c == '\u{202f}'
    ||| c == '\u{205f}'
    ||| c == '\u{3000}'
}

/// The set of white space characters, as a predicate.
pub open spec fn white() -> spec_fn(char) -> bool {
    |c: char| is_white_space(c)
}

/// The set that holds one character, as a predicate.
pub open spec fn only(wanted: char) -> spec_fn(char) -> bool {
    |c: char| c == wanted
}

/// The length of the longest prefix of `s` without a character of `p`.
pub open spec fn index_where(s: Seq<char>, p: spec_fn(char) -> bool) -> nat
    decreases s.len(),
{
    if s.len() == 0 || p(s[0]) {
        0
    } else {
        1 + index_where(s.drop_first(), p)
    }
}

/// The length of the longest prefix of `s` made of characters of `p`.
pub open spec fn lead_len(s: Seq<char>, p: spec_fn(char) -> bool) -> nat
    decreases s.len(),
{
    if s.len() == 0 || !p(s[0]) {
        0
    } else {
        1 + lead_len(s.drop_first(), p)
    }
}

/// The length of what stays of `s` when the characters of `p` at its end go.
pub open spec fn kept_len(s: Seq<char>, p: spec_fn(char) -> bool) -> nat
    decreases s.len(),
{
    if s.len() > 0 && p(s.last()) {
        kept_len(s.drop_last(), p)
    } else {
        s.len()
    }
}

/// `s` without the characters of `p` at its start.
pub open spec fn trim_start_where(s: Seq<char>, p: spec_fn(char) -> bool) -> Seq<char> {
    s.skip(lead_len(s, p) as int)
}

/// `s` without the characters of `p` at its end.
pub open spec fn trim_end_where(s: Seq<char>, p: spec_fn(char) -> bool) -> Seq<char> {
    s.take(kept_len(s, p) as int)
}

/// `s` without the characters of `p` at either end.
pub open spec fn trim_where(s: Seq<char>, p: spec_fn(char) -> bool) -> Seq<char> {
    trim_end_where(trim_start_where(s, p), p)
}

/// `s` without white space at either end.
pub open spec fn trimmed(s: Seq<char>) -> Seq<char> {
    trim_where(s, white())
}

/// Whether `s` holds nothing but white space.
pub open spec fn is_blank(s: Seq<char>) -> bool {
    trimmed(s).len() == 0
}

/// What stands before the first `c` of `s` and what stands after it.
pub open spec fn split_once_at(s: Seq<char>, c: char) -> Option<(Seq<char>, Seq<char>)> {
    let i = index_where(s, only(c)) as int;
    if i < s.len() {
        Some((s.take(i), s.skip(i + 1)))
    } else {
        None
    }
}

/// The pieces of `s` between its characters of `p`, always at least one.
pub open spec fn split_where(s: Seq<char>, p: spec_fn(char) -> bool) -> Seq<Seq<char>>
    decreases s.len(),
{
    let i = index_where(s, p) as int;
    if i < s.len() {
        seq![s.take(i)] + split_where(s.skip(i + 1), p)
    } else {
        seq![s]
    }
}

/// The pieces put together, with `sep` between each two.
pub open spec fn joined(parts: Seq<Seq<char>>, sep: Seq<char>) -> Seq<char>
    decreases parts.len(),
{
    if parts.len() == 0 {
        Seq::empty()
    } else if parts.len() == 1 {
        parts[0]
    } else {
        joined(parts.drop_last(), sep) + sep + parts.last()
    }
}

/// Whether `needle` stands somewhere in `s`.
pub open spec fn has_text(s: Seq<char>, needle: Seq<char>) -> bool {
    exists|i: int| 0 <= i <= s.len() - needle.len() && #[trigger] s.subrange(i, i + needle.len()) == needle
}

pub open spec fn ascii_lower(c: char) -> char {
    if 'A' <= c <= 'Z' {
        (c as u32 + 32) as char
    } else {
        c
    }
}

/// `s` with the letters A to Z in lower case.
pub open spec fn ascii_lowered(s: Seq<char>) -> Seq<char> {
    s.map_values(|c: char| ascii_lower(c))
}

/// `s` with `with` in place of each `c`.
pub open spec fn replaced(s: Seq<char>, c: char, with: Seq<char>) -> Seq<char>
    decreases s.len(),
{
    if s.len() == 0 {
        Seq::empty()
    } else {
        replaced(s.drop_last(), c, with) + if s.last() == c {
            with
        } else {
            seq![s.last()]
        }
    }
}

pub open spec fn digit(n: nat) -> char {
    (48 + n % 10) as u32 as char
}

/// The decimal digits of a number.
pub open spec fn decimal(n: nat) -> Seq<char>
    decreases n,
{
    if n < 10 {
        seq![digit(n)]
    } else {
        decimal(n / 10).push(digit(n))
    }
}

/// The views of a list of strings.
pub open spec fn texts(s: Seq<String>) -> Seq<Seq<char>> {
    s.map_values(|x: String| x@)
}

pub open spec fn opt_text(s: Option<String>) -> Option<Seq<char>> {
    match s {
        Some(x) => Some(x@),
        None => None,
    }
}

pub proof fn lemma_index_where(s: Seq<char>, p: spec_fn(char) -> bool)
    ensures
        index_where(s, p) <= s.len(),
        forall|j: int| 0 <= j < index_where(s, p) ==> !p(#[trigger] s[j]),
        index_where(s, p) < s.len() ==> p(s[index_where(s, p) as int]),
    decreases s.len(),
{
    if s.len() != 0 && !p(s[0]) {
        lemma_index_where(s.drop_first(), p);
        assert forall|j: int| 0 <= j < index_where(s, p) implies !p(#[trigger] s[j]) by {
            if j > 0 {
                assert(s[j] == s.drop_first()[j - 1]);
            }
        }
    }
}

pub proof fn lemma_index_where_is(s: Seq<char>, p: spec_fn(char) -> bool, i: int)
    requires
        0 <= i <= s.len(),
        forall|j: int| 0 <= j < i ==> !p(#[trigger] s[j]),
        i < s.len() ==> p(s[i]),
    ensures
        index_where(s, p) == i,
{
    lemma_index_where(s, p);
    let k = index_where(s, p) as int;
    if k < i {
        assert(!p(s[k]));
    } else if i < k {
        assert(!p(s[i]));
    }
}

pub proof fn lemma_lead_len(s: Seq<char>, p: spec_fn(char) -> bool)
    ensures
        lead_len(s, p) <= s.len(),
        forall|j: int| 0 <= j < lead_len(s, p) ==> p(#[trigger] s[j]),
        lead_len(s, p) < s.len() ==> !p(s[lead_len(s, p) as int]),
    decreases s.len(),
{
    if s.len() != 0 && p(s[0]) {
        lemma_lead_len(s.drop_first(), p);
        assert forall|j: int| 0 <= j < lead_len(s, p) implies p(#[trigger] s[j]) by {
            if j > 0 {
                assert(s[j] == s.drop_first()[j - 1]);
            }
        }
    }
}

pub proof fn lemma_lead_len_is(s: Seq<char>, p: spec_fn(char) -> bool, i: int)
    requires
        0 <= i <= s.len(),
        forall|j: int| 0 <= j < i ==> p(#[trigger] s[j]),
        i < s.len() ==> !p(s[i]),
    ensures
        lead_len(s, p) == i,
{
    lemma_lead_len(s, p);
    let k = lead_len(s, p) as int;
    if k < i {
        assert(p(s[k]));
    } else if i < k {
        assert(p(s[i]));
    }
}

pub proof fn lemma_kept_len(s: Seq<char>, p: spec_fn(char) -> bool)
    ensures
        kept_len(s, p) <= s.len(),
        forall|j: int| kept_len(s, p) <= j < s.len() ==> p(#[trigger] s[j]),
        kept_len(s, p) > 0 ==> !p(s[kept_len(s, p) - 1]),
    decreases s.len(),
{
    if s.len() > 0 && p(s.last()) {
        lemma_kept_len(s.drop_last(), p);
        assert forall|j: int| kept_len(s, p) <= j < s.len() implies p(#[trigger] s[j]) by {
            if j < s.len() - 1 {
                assert(s[j] == s.drop_last()[j]);
            }
        }
    }
}

pub proof fn lemma_kept_len_is(s: Seq<char>, p: spec_fn(char) -> bool, i: int)
    requires
        0 <= i <= s.len(),
        forall|j: int| i <= j < s.len() ==> p(#[trigger] s[j]),
        i > 0 ==> !p(s[i - 1]),
    ensures
        kept_len(s, p) == i,
{
    lemma_kept_len(s, p);
    let k = kept_len(s, p) as int;
    if k < i {
        assert(p(s[i - 1]));
    } else if i < k {
        assert(p(s[k - 1]));
    }
}

/// A text whose ends are not white space stays as it is.
pub proof fn lemma_trimmed_between(s: Seq<char>, from: int, to: int)
    requires
        0 <= from < to <= s.len(),
        forall|j: int| 0 <= j < from ==> is_white_space(#[trigger] s[j]),
        forall|j: int| to <= j < s.len() ==> is_white_space(#[trigger] s[j]),
        !is_white_space(s[from]),
        !is_white_space(s[to - 1]),
    ensures
        trimmed(s) == s.subrange(from, to),
{
    lemma_lead_len_is(s, white(), from);
    let rest = s.skip(from);
    assert forall|j: int| to - from <= j < rest.len() implies white()(#[trigger] rest[j]) by {
        assert(rest[j] == s[from + j]);
    }
    lemma_kept_len_is(rest, white(), to - from);
    assert(rest.take(to - from) == s.subrange(from, to));
}

/// Trimming leaves a middle part whose ends are not white space.
pub proof fn lemma_trimmed_parts(s: Seq<char>)
    ensures
        trimmed(s).len() > 0 ==> !is_white_space(trimmed(s)[0]) && !is_white_space(trimmed(s).last()),
        forall|c: char| #[trigger] trimmed(s).contains(c) ==> s.contains(c),
{
    lemma_lead_len(s, white());
    let rest = trim_start_where(s, white());
    lemma_kept_len(rest, white());
    if trimmed(s).len() > 0 {
        assert(trimmed(s)[0] == rest[0]);
        assert(rest[0] == s[lead_len(s, white()) as int]);
    }
    assert forall|c: char| #[trigger] trimmed(s).contains(c) implies s.contains(c) by {
        let k = choose|k: int| 0 <= k < trimmed(s).len() && trimmed(s)[k] == c;
        assert(s[lead_len(s, white()) + k] == c);
    }
}

/// Trimming a second time changes nothing.
pub proof fn law_trim_is_idempotent(s: Seq<char>)
    ensures
        trimmed(trimmed(s)) == trimmed(s),
{
    lemma_trimmed_parts(s);
    let t = trimmed(s);
    if t.len() > 0 {
        lemma_trimmed_between(t, 0, t.len() as int);
        assert(t.subrange(0, t.len() as int) == t);
    } else {
        lemma_lead_len(t, white());
        lemma_kept_len(trim_start_where(t, white()), white());
        assert(trimmed(t) == t);
    }
}

pub proof fn lemma_joined_first(parts: Seq<Seq<char>>, sep: Seq<char>)
    requires
        parts.len() >= 2,
    ensures
        joined(parts, sep) == parts[0] + sep + joined(parts.drop_first(), sep),
    decreases parts.len(),
{
    if parts.len() == 2 {
        assert(joined(parts.drop_last(), sep) == parts[0]);
        assert(parts.drop_first() == seq![parts[1]]);
    } else {
        lemma_joined_first(parts.drop_last(), sep);
        assert(parts.drop_last().drop_first() == parts.drop_first().drop_last());
        let inner = joined(parts.drop_first().drop_last(), sep);
        assert(joined(parts, sep) == (parts[0] + sep + inner) + sep + parts.last());
        assert(joined(parts.drop_first(), sep) == inner + sep + parts.last());
        assert((parts[0] + sep + inner) + sep + parts.last() == parts[0] + sep + (inner + sep + parts.last()));
    }
}

/// Splitting at `c` what was joined by `c` gives the pieces back, as long as
/// no piece holds a `c`.
pub proof fn law_split_undoes_join(parts: Seq<Seq<char>>, c: char)
    requires
        parts.len() >= 1,
        forall|i: int| 0 <= i < parts.len() ==> !(#[trigger] parts[i]).contains(c),
    ensures
        split_where(joined(parts, seq![c]), only(c)) == parts,
    decreases parts.len(),
{
    let all = joined(parts, seq![c]);
    let first = parts[0];
    if parts.len() == 1 {
        assert forall|j: int| 0 <= j < all.len() implies !only(c)(#[trigger] all[j]) by {
            assert(first.contains(all[j]));
        }
        lemma_index_where_is(all, only(c), all.len() as int);
        assert(parts == seq![all]);
    } else {
        lemma_joined_first(parts, seq![c]);
        let rest = joined(parts.drop_first(), seq![c]);
        let i = first.len() as int;
        assert forall|j: int| 0 <= j < i implies !only(c)(#[trigger] all[j]) by {
            assert(all[j] == first[j]);
            assert(first.contains(first[j]));
        }
        assert(all[i] == c);
        lemma_index_where_is(all, only(c), i);
        assert(all.take(i) == first);
        assert(all.skip(i + 1) == rest);
        law_split_undoes_join(parts.drop_first(), c);
        assert(seq![first] + parts.drop_first() == parts);
    }
}

/// Joining by `c` what was split at `c` gives the text back.
pub proof fn law_join_undoes_split(s: Seq<char>, c: char)
    ensures
        joined(split_where(s, only(c)), seq![c]) == s,
        forall|i: int| 0 <= i < split_where(s, only(c)).len() ==> !(#[trigger] split_where(s, only(c))[i]).contains(c),
    decreases s.len(),
{
    lemma_index_where(s, only(c));
    let i = index_where(s, only(c)) as int;
    if i < s.len() {
        law_join_undoes_split(s.skip(i + 1), c);
        let rest = split_where(s.skip(i + 1), only(c));
        lemma_split_where_nonempty(s.skip(i + 1), only(c));
        let all = seq![s.take(i)] + rest;
        lemma_joined_first(all, seq![c]);
        assert(all.drop_first() == rest);
        assert(s.take(i) + seq![c] + s.skip(i + 1) == s);
        assert forall|k: int| 0 <= k < all.len() implies !(#[trigger] all[k]).contains(c) by {
            if k == 0 {
                if s.take(i).contains(c) {
                    let m = choose|m: int| 0 <= m < s.take(i).len() && s.take(i)[m] == c;
                    assert(only(c)(s[m]));
                }
            } else {
                assert(all[k] == rest[k - 1]);
            }
        }
    } else {
        if s.contains(c) {
            let m = choose|m: int| 0 <= m < s.len() && s[m] == c;
            assert(only(c)(s[m]));
        }
        assert(split_where(s, only(c)) == seq![s]);
    }
}

pub proof fn lemma_split_where_nonempty(s: Seq<char>, p: spec_fn(char) -> bool)
    ensures
        split_where(s, p).len() >= 1,
    decreases s.len(),
{
    lemma_index_where(s, p);
    let i = index_where(s, p) as int;
    if i < s.len() {
        lemma_split_where_nonempty(s.skip(i + 1), p);
    }
}

/// There is at most one piece more than there are characters.
pub proof fn lemma_split_where_count(s: Seq<char>, p: spec_fn(char) -> bool)
    ensures
        split_where(s, p).len() <= s.len() + 1,
    decreases s.len(),
{
    lemma_index_where(s, p);
    let i = index_where(s, p) as int;
    if i < s.len() {
        lemma_split_where_count(s.skip(i + 1), p);
    }
}

/// Replacing a character that is not there changes nothing.
pub proof fn lemma_replaced_absent(s: Seq<char>, c: char, with: Seq<char>)
    requires
        !s.contains(c),
    ensures
        replaced(s, c, with) == s,
    decreases s.len(),
{
    if s.len() > 0 {
        assert(s.contains(s.last()));
        assert forall|x: char| s.drop_last().contains(x) implies s.contains(x) by {
            let k = choose|k: int| 0 <= k < s.drop_last().len() && s.drop_last()[k] == x;
            assert(s[k] == x);
        }
        lemma_replaced_absent(s.drop_last(), c, with);
        assert(replaced(s, c, with) == s);
    }
}

/// std's `String::push`: appends the character to the end of the string.
pub assume_specification[ String::push ](s: &mut String, c: char)
    ensures
        final(s)@ == old(s)@.push(c),
;

/// The characters of a text.
pub fn chars_of(s: &str) -> (r: Vec<char>)
    ensures
        r@ == s@,
{
    let mut out: Vec<char> = Vec::new();
    for c in it: s.chars()
        invariant
            it.seq() == s@,
            out@ == s@.take(it.index() as int),
    {
        out.push(c);
    }
    out
}

/// The text made of the characters.
pub fn string_of(chars: &[char]) -> (r: String)
    ensures
        r@ == chars@,
{
    let mut out = String::new();
    for i in 0..chars.len()
        invariant
            out@ == chars@.take(i as int),
    {
        out.push(chars[i]);
        assert(chars@.take(i + 1) == chars@.take(i as int).push(chars@[i as int]));
    }
    assert(chars@.take(chars@.len() as int) == chars@);
    out
}

/// Whether two texts hold the same characters.
pub fn same(a: &str, b: &str) -> (r: bool)
    ensures
        r == (a@ == b@),
{
    a.to_owned() == b.to_owned()
}

pub fn is_whitespace(c: char) -> (r: bool)
    ensures
        r == is_white_space(c),
{
    ('\u{9}' <= c && c <= '\u{d}') || c == ' ' || c == '\u{85}' || c == '\u{a0}' || c == '\u{1680}' || (
    '\u{2000}' <= c && c <= '\u{200a}') || c == '\u{2028}' || c == '\u{2029}' || c == '\u{202f}' || c
        == '\u{205f}' || c == '\u{3000}'
}

/// What a closure on characters decides, when it decides as `p` does.
pub open spec fn decides<F: Fn(char) -> bool>(f: F, p: spec_fn(char) -> bool) -> bool {
    &&& forall|c: char| call_requires(f, (c,))
    &&& forall|c: char, r: bool| call_ensures(f, (c,), r) ==> r == p(c)
}

fn first_where<F: Fn(char) -> bool>(chars: &[char], f: F, Ghost(p): Ghost<spec_fn(char) -> bool>) -> (r:
    usize)
    requires
        decides(f, p),
    ensures
        r == index_where(chars@, p),
        r <= chars@.len(),
{
    let mut i: usize = 0;
    while i < chars.len() && !f(chars[i])
        invariant
            decides(f, p),
            i <= chars@.len(),
            forall|j: int| 0 <= j < i ==> !p(#[trigger] chars@[j]),
        ensures
            i <= chars@.len(),
            forall|j: int| 0 <= j < i ==> !p(#[trigger] chars@[j]),
            i < chars@.len() ==> p(chars@[i as int]),
        decreases chars@.len() - i,
    {
        i += 1;
    }
    proof {
        lemma_index_where_is(chars@, p, i as int);
    }
    i
}

fn leading_run<F: Fn(char) -> bool>(chars: &[char], f: F, Ghost(p): Ghost<spec_fn(char) -> bool>) -> (r:
    usize)
    requires
        decides(f, p),
    ensures
        r == lead_len(chars@, p),
        r <= chars@.len(),
{
    let mut i: usize = 0;
    while i < chars.len() && f(chars[i])
        invariant
            decides(f, p),
            i <= chars@.len(),
            forall|j: int| 0 <= j < i ==> p(#[trigger] chars@[j]),
        ensures
            i <= chars@.len(),
            forall|j: int| 0 <= j < i ==> p(#[trigger] chars@[j]),
            i < chars@.len() ==> !p(chars@[i as int]),
        decreases chars@.len() - i,
    {
        i += 1;
    }
    proof {
        lemma_lead_len_is(chars@, p, i as int);
    }
    i
}

/// The kept length of what follows the first `from` characters.
fn kept_after<F: Fn(char) -> bool>(
    chars: &[char],
    from: usize,
    f: F,
    Ghost(p): Ghost<spec_fn(char) -> bool>,
) -> (r: usize)
    requires
        decides(f, p),
        from <= chars@.len(),
    ensures
        r == kept_len(chars@.skip(from as int), p),
        from + r <= chars@.len() <= usize::MAX,
{
    let mut end: usize = chars.len();
    while end > from && f(chars[end - 1])
        invariant
            decides(f, p),
            from <= end <= chars@.len(),
            forall|j: int| end <= j < chars@.len() ==> p(#[trigger] chars@[j]),
        ensures
            from <= end <= chars@.len(),
            forall|j: int| end <= j < chars@.len() ==> p(#[trigger] chars@[j]),
            end > from ==> !p(chars@[end - 1]),
        decreases end,
    {
        end -= 1;
    }
    proof {
        lemma_kept_len_is(chars@.skip(from as int), p, end - from);
    }
    end - from
}

/// std's `str::trim`: without the white space at either end.
pub fn trim<'a>(s: &'a str) -> (r: &'a str)
    ensures
        r@ == trimmed(s@),
{
    let chars = chars_of(s);
    let f = |c: char| -> (b: bool)
        ensures
            b == is_white_space(c),
        { is_whitespace(c) };
    let start = leading_run(chars.as_slice(), f, Ghost(white()));
    let kept = kept_after(chars.as_slice(), start, f, Ghost(white()));
    let r = s.substring_char(start, start + kept);
    assert(r@ == trimmed(s@));
    r
}

/// Without the white space at the start.
pub fn trim_start<'a>(s: &'a str) -> (r: &'a str)
    ensures
        r@ == trim_start_where(s@, white()),
{
    let chars = chars_of(s);
    let f = |c: char| -> (b: bool)
        ensures
            b == is_white_space(c),
        { is_whitespace(c) };
    let start = leading_run(chars.as_slice(), f, Ghost(white()));
    let r = s.substring_char(start, chars.len());
    assert(r@ == trim_start_where(s@, white()));
    r
}

/// Without the characters at the end that `f` decides on.
pub fn trim_end_by<'a, F: Fn(char) -> bool>(s: &'a str, f: F, Ghost(p): Ghost<spec_fn(char) -> bool>) -> (r: &'a str)
    requires
        decides(f, p),
    ensures
        r@ == trim_end_where(s@, p),
{
    let chars = chars_of(s);
    let kept = kept_after(chars.as_slice(), 0, f, Ghost(p));
    assert(chars@.skip(0) == chars@);
    s.substring_char(0, kept)
}

/// Without each `c` at the end.
pub fn trim_end_char<'a>(s: &'a str, c: char) -> (r: &'a str)
    ensures
        r@ == trim_end_where(s@, only(c)),
{
    let f = |x: char| -> (b: bool)
        ensures
            b == (x == c),
        { x == c };
    trim_end_by(s, f, Ghost(only(c)))
}

/// Without each `c` at either end.
pub fn trim_char<'a>(s: &'a str, c: char) -> (r: &'a str)
    ensures
        r@ == trim_where(s@, only(c)),
{
    let chars = chars_of(s);
    let f = |x: char| -> (b: bool)
        ensures
            b == (x == c),
        { x == c };
    let start = leading_run(chars.as_slice(), f, Ghost(only(c)));
    let kept = kept_after(chars.as_slice(), start, f, Ghost(only(c)));
    let r = s.substring_char(start, start + kept);
    assert(r@ == trim_where(s@, only(c)));
    r
}

/// Whether nothing but white space is in the text.
pub fn blank(s: &str) -> (r: bool)
    ensures
        r == is_blank(s@),
{
    trim(s).is_empty()
}

pub open spec fn opt_pair(p: Option<(&str, &str)>) -> Option<(Seq<char>, Seq<char>)> {
    match p {
        Some((a, b)) => Some((a@, b@)),
        None => None,
    }
}

/// The text before the first `c`, and the text after it.
pub fn split_once<'a>(s: &'a str, c: char) -> (r: Option<(&'a str, &'a str)>)
    ensures
        opt_pair(r) == split_once_at(s@, c),
{
    let chars = chars_of(s);
    let f = |x: char| -> (b: bool)
        ensures
            b == (x == c),
        { x == c };
    let i = first_where(chars.as_slice(), f, Ghost(only(c)));
    if i < chars.len() {
        let a = s.substring_char(0, i);
        let b = s.substring_char(i + 1, chars.len());
        assert(a@ == s@.take(i as int));
        assert(b@ == s@.skip(i + 1));
        Some((a, b))
    } else {
        None
    }
}

/// The pieces between the characters for which `f` holds.
pub fn split_by<F: Fn(char) -> bool>(s: &str, f: F, Ghost(p): Ghost<spec_fn(char) -> bool>) -> (r: Vec<
    String,
>)
    requires
        decides(f, p),
    ensures
        texts(r@) == split_where(s@, p),
        r@.len() >= 1,
{
    let chars = chars_of(s);
    let mut out: Vec<String> = Vec::new();
    let mut from: usize = 0;
    let mut i: usize = 0;
    proof {
        assert(s@.skip(0) == s@);
        assert(texts(out@) + split_where(s@, p) == split_where(s@, p));
    }
    while i < chars.len()
        invariant
            decides(f, p),
            chars@ == s@,
            from <= i <= chars@.len(),
            forall|j: int| from <= j < i ==> !p(#[trigger] s@[j]),
            texts(out@) + split_where(s@.skip(from as int), p) == split_where(s@, p),
        decreases chars@.len() - i,
    {
        if f(chars[i]) {
            let piece = s.substring_char(from, i).to_owned();
            proof {
                let rest = s@.skip(from as int);
                assert forall|j: int| 0 <= j < i - from implies !p(#[trigger] rest[j]) by {
                    assert(rest[j] == s@[from + j]);
                }
                lemma_index_where_is(rest, p, i - from);
                assert(rest.take(i - from) == s@.subrange(from as int, i as int));
                assert(rest.skip(i - from + 1) == s@.skip(i + 1));
                assert(texts(out@.push(piece)) == texts(out@).push(piece@));
                assert(texts(out@).push(piece@) + split_where(s@.skip(i + 1), p) == texts(out@) + (seq![piece@]
                    + split_where(s@.skip(i + 1), p)));
            }
            out.push(piece);
            from = i + 1;
        }
        i += 1;
    }
    let piece = s.substring_char(from, chars.len()).to_owned();
    proof {
        let rest = s@.skip(from as int);
        assert forall|j: int| 0 <= j < rest.len() implies !p(#[trigger] rest[j]) by {
            assert(rest[j] == s@[from + j]);
        }
        lemma_index_where_is(rest, p, rest.len() as int);
        assert(rest == s@.subrange(from as int, s@.len() as int));
        assert(texts(out@.push(piece)) == texts(out@).push(piece@));
        assert(texts(out@).push(piece@) == texts(out@) + seq![piece@]);
    }
    out.push(piece);
    out
}

/// The pieces between the characters equal to `c`.
pub fn split_char(s: &str, c: char) -> (r: Vec<String>)
    ensures
        texts(r@) == split_where(s@, only(c)),
        r@.len() >= 1,
{
    let f = |x: char| -> (b: bool)
        ensures
            b == (x == c),
        { x == c };
    split_by(s, f, Ghost(only(c)))
}

/// The pieces put together, with `sep` between each two.
pub fn join(parts: &[String], sep: &str) -> (r: String)
    ensures
        r@ == joined(texts(parts@), sep@),
{
    let mut out = String::new();
    for i in 0..parts.len()
        invariant
            out@ == joined(texts(parts@).take(i as int), sep@),
    {
        if i > 0 {
            out.append(sep);
        }
        out.append(parts[i].as_str());
        proof {
            let all = texts(parts@);
            assert(all.take(i + 1).drop_last() == all.take(i as int));
            assert(all.take(i + 1).last() == parts@[i as int]@);
            if i == 0 {
                assert(out@ == parts@[0]@);
            }
        }
    }
    assert(texts(parts@).take(parts@.len() as int) == texts(parts@));
    out
}

fn same_at(chars: &[char], at: usize, needle: &[char]) -> (r: bool)
    requires
        at + needle@.len() <= chars@.len(),
    ensures
        r == (chars@.subrange(at as int, at + needle@.len()) == needle@),
{
    let n: usize = chars.len();
    for j in 0..needle.len()
        invariant
            n == chars@.len(),
            at + needle@.len() <= n,
            forall|k: int| 0 <= k < j ==> chars@[at + k] == #[trigger] needle@[k],
    {
        if chars[at + j] != needle[j] {
            assert(chars@.subrange(at as int, at + needle@.len())[j as int] != needle@[j as int]);
            return false;
        }
    }
    assert(chars@.subrange(at as int, at + needle@.len()) == needle@);
    true
}

/// Whether the text begins with `prefix`.
pub fn starts_with(s: &str, prefix: &str) -> (r: bool)
    ensures
        r == prefix@.is_prefix_of(s@),
{
    let chars = chars_of(s);
    let needle = chars_of(prefix);
    if needle.len() > chars.len() {
        return false;
    }
    same_at(chars.as_slice(), 0, needle.as_slice())
}

/// Whether the text ends with `suffix`.
pub fn ends_with(s: &str, suffix: &str) -> (r: bool)
    ensures
        r == suffix@.is_suffix_of(s@),
{
    let chars = chars_of(s);
    let needle = chars_of(suffix);
    if needle.len() > chars.len() {
        return false;
    }
    same_at(chars.as_slice(), chars.len() - needle.len(), needle.as_slice())
}

/// Whether the text begins with the character.
pub fn starts_with_char(s: &str, c: char) -> (r: bool)
    ensures
        r == (s@.len() > 0 && s@[0] == c),
{
    let chars = chars_of(s);
    chars.len() > 0 && chars[0] == c
}

/// Whether the text ends with the character.
pub fn ends_with_char(s: &str, c: char) -> (r: bool)
    ensures
        r == (s@.len() > 0 && s@.last() == c),
{
    let chars = chars_of(s);
    chars.len() > 0 && chars[chars.len() - 1] == c
}

/// Whether the character stands somewhere in the text.
pub fn contains_char(s: &str, c: char) -> (r: bool)
    ensures
        r == s@.contains(c),
{
    let chars = chars_of(s);
    for i in 0..chars.len()
        invariant
            chars@ == s@,
            forall|j: int| 0 <= j < i ==> s@[j] != c,
    {
        if chars[i] == c {
            assert(s@[i as int] == c);
            return true;
        }
    }
    false
}

/// Whether `needle` stands somewhere in the text.
pub fn contains(s: &str, needle: &str) -> (r: bool)
    ensures
        r == has_text(s@, needle@),
{
    let chars = chars_of(s);
    let wanted = chars_of(needle);
    if wanted.len() > chars.len() {
        return false;
    }
    let last: usize = chars.len() - wanted.len();
    let mut i: usize = 0;
    loop
        invariant
            chars@ == s@,
            wanted@ == needle@,
            last == chars@.len() - wanted@.len(),
            i <= last,
            forall|j: int| 0 <= j < i ==> #[trigger] s@.subrange(j, j + needle@.len()) != needle@,
        decreases last - i,
    {
        if same_at(chars.as_slice(), i, wanted.as_slice()) {
            assert(s@.subrange(i as int, i + needle@.len()) == needle@);
            return true;
        }
        if i == last {
            return false;
        }
        i += 1;
    }
}

fn lower_char(c: char) -> (r: char)
    ensures
        r == ascii_lower(c),
{
    if 'A' <= c && c <= 'Z' {
        (c as u8 + 32) as char
    } else {
        c
    }
}

/// std's `str::to_ascii_lowercase`.
pub fn to_ascii_lowercase(s: &str) -> (r: String)
    ensures
        r@ == ascii_lowered(s@),
{
    let chars = chars_of(s);
    let mut out = String::new();
    for i in 0..chars.len()
        invariant
            chars@ == s@,
            out@ == ascii_lowered(s@.take(i as int)),
    {
        out.push(lower_char(chars[i]));
        assert(s@.take(i + 1) == s@.take(i as int).push(s@[i as int]));
        assert(ascii_lowered(s@.take(i + 1)) == ascii_lowered(s@.take(i as int)).push(ascii_lower(s@[i as int])));
    }
    assert(s@.take(s@.len() as int) == s@);
    out
}

/// The text with `with` in place of each `c`.
pub fn replace_char(s: &str, c: char, with: &str) -> (r: String)
    ensures
        r@ == replaced(s@, c, with@),
{
    let chars = chars_of(s);
    let mut out = String::new();
    for i in 0..chars.len()
        invariant
            chars@ == s@,
            out@ == replaced(s@.take(i as int), c, with@),
    {
        let ghost before = out@;
        if chars[i] == c {
            out.append(with);
        } else {
            out.push(chars[i]);
        }
        assert(s@.take(i + 1).drop_last() == s@.take(i as int));
        assert(out@ == before + if s@[i as int] == c {
            with@
        } else {
            seq![s@[i as int]]
        });
    }
    assert(s@.take(s@.len() as int) == s@);
    out
}

fn digit_char(n: u8) -> (r: char)
    requires
        n < 10,
    ensures
        r == digit(n as nat),
{
    (48 + n) as char
}

/// The decimal digits of a number.
pub fn decimal_text(n: u128) -> (r: String)
    ensures
        r@ == decimal(n as nat),
    decreases n,
{
    if n < 10 {
        let mut out = String::new();
        out.push(digit_char(n as u8));
        assert(out@ == decimal(n as nat));
        out
    } else {
        let mut out = decimal_text(n / 10);
        let last = (n % 10) as u8;
        out.push(digit_char(last));
        assert(digit(last as nat) == digit(n as nat));
        out
    }
}

/// Whether all characters are ASCII.
pub open spec fn is_ascii_text(s: Seq<char>) -> bool {
    forall|i: int| 0 <= i < s.len() ==> #[trigger] s[i] <= '\u{7f}'
}

/// What std's `str::to_lowercase` makes of a text.
pub uninterp spec fn unicode_lower(s: Seq<char>) -> Seq<char>;

/// std's `str::to_lowercase`: the lower case of a text by the Unicode tables,
/// which for ASCII text is that of the letters A to Z. No letter A to Z is
/// left of any text.
#[verifier::external_body]
pub(crate) fn to_lowercase(s: &str) -> (r: String)
    ensures
        r@ == unicode_lower(s@),
        is_ascii_text(s@) ==> r@ == ascii_lowered(s@),
        forall|i: int| 0 <= i < r@.len() ==> !('A' <= #[trigger] r@[i] <= 'Z'),
{
    s.to_lowercase()
}

/// The texts that are not empty.
pub open spec fn nonempty(s: Seq<Seq<char>>) -> Seq<Seq<char>>
    decreases s.len(),
{
    if s.len() == 0 {
        Seq::empty()
    } else if s.last().len() == 0 {
        nonempty(s.drop_last())
    } else {
        nonempty(s.drop_last()).push(s.last())
    }
}

pub fn drop_empty(lines: &Vec<String>) -> (r: Vec<String>)
    ensures
        texts(r@) == nonempty(texts(lines@)),
{
    let ghost all = texts(lines@);
    let mut kept: Vec<String> = Vec::new();
    for i in 0..lines.len()
        invariant
            all == texts(lines@),
            texts(kept@) == nonempty(all.take(i as int)),
    {
        assert(all.take(i + 1).drop_last() =~= all.take(i as int));
        assert(all[i as int] == lines@[i as int]@);
        if !lines[i].as_str().is_empty() {
            let ghost before = texts(kept@);
            kept.push(lines[i].clone());
            assert(texts(kept@) =~= before.push(all[i as int]));
        }
    }
    assert(all.take(all.len() as int) =~= all);
    kept
}

/// The bytes of a character beyond ASCII are beyond ASCII, and the byte of an
/// ASCII character is its code.
proof fn lemma_encode_scalar(c: u32)
    requires
        is_scalar(c),
    ensures
        c <= 0x7f ==> encode_scalar(c) == seq![c as u8],
        c > 0x7f ==> forall|i: int| 0 <= i < encode_scalar(c).len() ==> #[trigger] encode_scalar(c)[i] >= 0x80,
{
    assert(c <= 0x7f ==> (c & 0x7F) as u8 == c as u8) by (bit_vector);
    assert((0xC0 | ((c >> 6) & 0x1F) as u8) >= 0x80) by (bit_vector);
    assert((0xE0 | ((c >> 12) & 0x0F) as u8) >= 0x80) by (bit_vector);
    assert((0xF0 | ((c >> 18) & 0x7) as u8) >= 0x80) by (bit_vector);
    assert((0x80 | (c & 0x3F) as u8) >= 0x80) by (bit_vector);
    assert((0x80 | ((c >> 6) & 0x3F) as u8) >= 0x80) by (bit_vector);
    assert((0x80 | ((c >> 12) & 0x3F) as u8) >= 0x80) by (bit_vector);
}

/// An ASCII character that a text does not hold is not among its bytes.
pub proof fn lemma_encode_without(chars: Seq<char>, c: char, code: u8)
    requires
        !chars.contains(c),
        c as u32 == code,
        code <= 0x7f,
    ensures
        !encode_utf8(chars).contains(code),
    decreases chars.len(),
{
    if chars.len() > 0 {
        let rest = chars.drop_first();
        let first = chars[0];
        assert(chars.contains(first));
        assert forall|x: char| rest.contains(x) implies chars.contains(x) by {
            let k = choose|k: int| 0 <= k < rest.len() && rest[k] == x;
            assert(chars[k + 1] == x);
        }
        lemma_encode_without(rest, c, code);
        char_is_scalar(first);
        char_u32_cast(first, first as u32);
        char_u32_cast(c, c as u32);
        lemma_encode_scalar(first as u32);
        let head = encode_scalar(first as u32);
        let tail = encode_utf8(rest);
        let all = encode_utf8(chars);
        assert(all == head + tail);
        if all.contains(code) {
            let k = choose|k: int| 0 <= k < all.len() && all[k] == code;
            if k < head.len() {
                assert(head[k] == code);
                if first as u32 <= 0x7f {
                    assert(head[0] == (first as u32) as u8);
                    assert(first as u32 == code);
                }
            } else {
                assert(tail[k - head.len()] == code);
                assert(tail.contains(code));
            }
        }
    }
}

/// A text without its first character.
pub fn after_first<'a>(s: &'a str) -> (r: &'a str)
    requires
        s@.len() > 0,
    ensures
        r@ == s@.skip(1),
{
    let n: usize = chars_of(s).len();
    let r = s.substring_char(1, n);
    assert(r@ =~= s@.skip(1));
    r
}

} // verus!
