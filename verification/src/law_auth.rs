//! What is read from a login and from backups of one, and what is shown of it.

use vstd::prelude::*;
use vstd::utf8::*;

use crate::auth::{
    between_tokens, chatgpt_auth, chatgpt_id_token, collect_strings_from_json, extract_sk_tokens,
    header_models, is_candidate, is_sk_token, jwt_payload_part, login_account, login_problem, mask_email,
    masked_email, payload_part, quota_headers, quota_request_headers, stands_in, texts_in, texts_in_fields,
    texts_in_items, token_candidate, token_to_write, tokens_in_backup, AuthFile, AuthTokens, Header,
    JwtClaims, LocalChatGptAuth, TokenCandidate,
};
use crate::config::{mask_secret, masked};
use crate::json::{json_read, Json, JsonModel};
use crate::order::{ascending, is_ascending, law_ascending_exists};
use crate::text::{
    ascii_lowered, decimal, has_text, index_where, lemma_index_where, lemma_index_where_is,
    lemma_split_where_nonempty, only, split_where, texts, trimmed,
};

verus! {

/// A piece of a text between two characters that it is split at is one of its
/// pieces.
proof fn lemma_piece_is_found(before: Seq<char>, piece: Seq<char>, after: Seq<char>, p: spec_fn(char) -> bool)
    requires
        before.len() > 0 ==> p(before.last()),
        after.len() > 0 ==> p(after[0]),
        forall|i: int| 0 <= i < piece.len() ==> !p(#[trigger] piece[i]),
    ensures
        split_where(before + piece + after, p).contains(piece),
    decreases before.len(),
{
    let s = before + piece + after;
    lemma_index_where(s, p);
    let i = index_where(s, p) as int;
    let parts = split_where(s, p);
    if before.len() == 0 {
        assert forall|j: int| 0 <= j < piece.len() implies !p(#[trigger] s[j]) by {
            assert(s[j] == piece[j]);
        }
        if after.len() > 0 {
            assert(s[piece.len() as int] == after[0]);
        }
        lemma_index_where_is(s, p, piece.len() as int);
        assert(s.take(piece.len() as int) =~= piece);
        if after.len() == 0 {
            assert(s =~= piece);
        }
        assert(parts[0] == piece);
    } else {
        assert(s[before.len() - 1] == before.last());
        assert(i < before.len());
        let shorter = before.skip(i + 1);
        assert(s.skip(i + 1) =~= shorter + piece + after);
        if shorter.len() > 0 {
            assert(shorter.last() == before.last());
        }
        lemma_piece_is_found(shorter, piece, after, p);
        let rest = split_where(s.skip(i + 1), p);
        let k = choose|k: int| 0 <= k < rest.len() && rest[k] == piece;
        assert(parts[k + 1] == piece);
    }
}

/// A piece of a text stands in it and holds none of the characters that it is
/// split at.
proof fn lemma_piece_stands(s: Seq<char>, p: spec_fn(char) -> bool, k: int)
    requires
        0 <= k < split_where(s, p).len(),
    ensures
        ({
            let piece = split_where(s, p)[k];
            &&& forall|i: int| 0 <= i < piece.len() ==> !p(#[trigger] piece[i])
            &&& has_text(s, piece)
        }),
    decreases s.len(),
{
    lemma_index_where(s, p);
    let i = index_where(s, p) as int;
    let parts = split_where(s, p);
    let piece = parts[k];
    if i < s.len() {
        if k == 0 {
            assert(piece == s.take(i));
            assert(s.subrange(0, 0int + piece.len()) =~= piece);
        } else {
            let rest = s.skip(i + 1);
            lemma_piece_stands(rest, p, k - 1);
            assert(split_where(rest, p)[k - 1] == piece);
            let at = choose|at: int|
                0 <= at <= rest.len() - piece.len() && #[trigger] rest.subrange(at, at + piece.len()) == piece;
            assert(s.subrange(i + 1 + at, i + 1 + at + piece.len()) =~= piece) by {
                assert forall|j: int| 0 <= j < piece.len() implies #[trigger] s.subrange(
                    i + 1 + at,
                    i + 1 + at + piece.len(),
                )[j] == piece[j] by {
                    assert(rest.subrange(at, at + piece.len())[j] == piece[j]);
                }
            }
        }
    } else {
        assert(piece == s);
        assert(s.subrange(0, 0int + piece.len()) =~= piece);
    }
}

/// Whether a text has the shape of an API key.
pub open spec fn is_key(word: Seq<char>) -> bool {
    word.len() >= 15 && word[0] == 's' && word[1] == 'k' && word[2] == '-' && forall|i: int|
        0 <= i < word.len() ==> ('a' <= #[trigger] word[i] <= 'z' || 'A' <= word[i] <= 'Z' || '0' <= word[i] <= '9'
            || word[i] == '-' || word[i] == '_')
}

/// Whether a character can stand in an API key.
pub open spec fn is_key_char(c: char) -> bool {
    'a' <= c <= 'z' || 'A' <= c <= 'Z' || '0' <= c <= '9' || c == '-' || c == '_'
}

/// An API key that stands by itself in a text is found, and everything that is
/// found is a key that stands in the text. Each is told once, in order.
pub proof fn law_keys_found(
    text: &str,
    before: Seq<char>,
    word: Seq<char>,
    after: Seq<char>,
    r: Vec<String>,
    found: Seq<char>,
)
    requires
        text@ == before + word + after,
        before.len() > 0 ==> !is_key_char(before.last()),
        after.len() > 0 ==> !is_key_char(after[0]),
        call_ensures(extract_sk_tokens, (text,), r),
    ensures
        is_key(word) ==> texts(r@).contains(word),
        texts(r@).contains(found) ==> is_key(found) && has_text(text@, found),
        is_ascending(texts(r@)),
{
    let p = between_tokens();
    reveal_strlit("sk-");
    if is_key(word) {
        assert forall|i: int| 0 <= i < word.len() implies !p(#[trigger] word[i]) by {}
        lemma_piece_is_found(before, word, after, p);
        assert(word.take(3) =~= "sk-"@);
        assert(is_sk_token(word));
        assert(texts(r@).contains(word));
    }
    if texts(r@).contains(found) {
        assert(split_where(text@, p).contains(found) && is_sk_token(found));
        let k = choose|k: int| 0 <= k < split_where(text@, p).len() && split_where(text@, p)[k] == found;
        lemma_piece_stands(text@, p, k);
        assert("sk-"@[0] == found[0] && "sk-"@[1] == found[1] && "sk-"@[2] == found[2]);
        assert forall|i: int| 0 <= i < found.len() implies ('a' <= #[trigger] found[i] <= 'z' || 'A' <= found[i] <= 'Z'
            || '0' <= found[i] <= '9' || found[i] == '-' || found[i] == '_') by {
            assert(!p(found[i]));
        }
    }
}

/// A backup that is no JSON is searched as it is; of one that is, the texts are.
pub proof fn law_backup_keys(raw: &str, r: Vec<String>, plain: Vec<String>, found: Seq<char>)
    requires
        call_ensures(tokens_in_backup, (raw,), r),
        call_ensures(extract_sk_tokens, (raw,), plain),
    ensures
        json_read(raw@) is Err ==> (texts(r@).contains(found) <==> texts(plain@).contains(found)),
        json_read(raw@) matches Ok(JsonModel::Text(inner)) ==> (texts(r@).contains(found) <==> is_sk_token(found)
            && split_where(inner, between_tokens()).contains(found)),
        texts(r@).contains(found) ==> is_sk_token(found),
{
    let p = between_tokens();
    assert(texts(plain@).contains(found) <==> split_where(raw@, p).contains(found) && is_sk_token(found));
    if json_read(raw@) is Err {
        assert(stands_in(raw@, raw@));
    }
    if json_read(raw@) is Ok && json_read(raw@)->Ok_0 is Text {
        let inner = json_read(raw@)->Ok_0->Text_0;
        assert(texts_in(JsonModel::Text(inner)) =~= seq![inner]);
        assert(texts_in(JsonModel::Text(inner))[0] == inner);
        assert(stands_in(raw@, inner));
    }
    if texts(r@).contains(found) {
        assert(is_sk_token(found));
        let s = choose|s: Seq<char>| #[trigger] stands_in(raw@, s) && split_where(s, p).contains(found);
        assert(stands_in(raw@, s) && split_where(s, p).contains(found));
    }
}

/// Only what begins as an API key is written.
pub proof fn law_key_to_write(token: Option<String>, r: Result<String, String>)
    requires
        call_ensures(token_to_write, (token,), r),
    ensures
        r is Ok <==> (token matches Some(t) && t@.len() >= 3 && t@[0] == 's' && t@[1] == 'k' && t@[2] == '-'),
        r matches Ok(key) ==> token == Some(key),
{
    reveal_strlit("sk-");
    match token {
        Some(t) => {
            if "sk-"@.is_prefix_of(t@) {
                assert(t@[0] == "sk-"@[0] && t@[1] == "sk-"@[1] && t@[2] == "sk-"@[2]);
            }
            if t@.len() >= 3 && t@[0] == 's' && t@[1] == 'k' && t@[2] == '-' {
                assert(t@.take(3) =~= "sk-"@);
            }
        },
        None => {},
    }
}

/// The quota is asked for with a ChatGPT login alone: one by API key, one
/// without tokens and one without an access token are refused.
pub proof fn law_login_needed(auth: AuthFile, r: Result<String, String>)
    requires
        call_ensures(chatgpt_id_token, (&auth,), r),
    ensures
        auth.openai_api_key is Some ==> r is Err,
        auth.auth_mode matches Some(mode) ==> (ascii_lowered(mode@) == "apikey"@ || ascii_lowered(mode@) == "api_key"@)
            ==> r is Err,
        auth.tokens is None ==> r is Err,
        auth.tokens matches Some(tokens) ==> trimmed(tokens.access_token@).len() == 0 ==> r is Err,
        r matches Ok(token) ==> (auth.tokens matches Some(tokens) && token@ == tokens.id_token@),
        auth.openai_api_key is None && auth.auth_mode is None ==> (auth.tokens matches Some(tokens) ==> trimmed(
            tokens.access_token@,
        ).len() > 0 ==> r is Ok),
{
    reveal_strlit("apikey");
    reveal_strlit("api_key");
    assert(ascii_lowered("apikey"@) =~= "apikey"@);
    assert(ascii_lowered("api_key"@) =~= "api_key"@);
    assert(r is Err == login_problem(auth) is Some);
}

/// The account is the one that the login names, and else the one in its token;
/// the access token is the login's own.
pub proof fn law_login(auth: AuthFile, tokens: AuthTokens, claims: JwtClaims, r: Result<LocalChatGptAuth, String>)
    requires
        auth.tokens == Some(tokens),
        call_ensures(chatgpt_auth, (auth, claims), r),
    ensures
        r is Ok <==> tokens.account_id is Some || (claims.auth matches Some(own) && own.chatgpt_account_id is Some),
        r matches Ok(login) ==> {
            &&& tokens.account_id matches Some(id) ==> login.account_id == id
            &&& tokens.account_id is None ==> (claims.auth matches Some(own) && own.chatgpt_account_id == Some(
                login.account_id,
            ))
            &&& login.access_token == tokens.access_token
            &&& login.auth_mode == auth.auth_mode
            &&& login.last_refresh == auth.last_refresh
            &&& claims.email is Some ==> login.email == claims.email
            &&& claims.email is None ==> login.email == claims.profile_email
            &&& claims.auth matches Some(own) ==> login.plan_type == own.chatgpt_plan_type && login.fedramp
                == own.chatgpt_account_is_fedramp
            &&& claims.auth is None ==> login.plan_type is None && !login.fedramp
        },
{
    assert(r is Ok == login_account(tokens, claims) is Some);
}

/// The quota is asked for in the name of the login: with its access token, for
/// its account.
pub proof fn law_quota_headers(auth: LocalChatGptAuth, r: Vec<Header>)
    requires
        call_ensures(quota_request_headers, (&auth,), r),
    ensures
        exists|i: int|
            0 <= i < r@.len() && (#[trigger] r@[i]).name@ == "authorization"@ && r@[i].value@ == "Bearer "@
                + auth.access_token@,
        exists|i: int|
            0 <= i < r@.len() && (#[trigger] r@[i]).name@ == "chatgpt-account-id"@ && r@[i].value@ == auth.account_id@,
        auth.fedramp <==> exists|i: int|
            0 <= i < r@.len() && (#[trigger] r@[i]).name@ == "x-openai-fedramp"@ && r@[i].value@ == "true"@,
        r@.len() == if auth.fedramp {
            5nat
        } else {
            4nat
        },
{
    let models = header_models(r@);
    assert(models == quota_headers(auth));
    assert(forall|i: int| 0 <= i < r@.len() ==> #[trigger] models[i] == (r@[i].name@, r@[i].value@));
    assert(models[2] == ("authorization"@, "Bearer "@ + auth.access_token@));
    assert(models[3] == ("chatgpt-account-id"@, auth.account_id@));
    assert(r@[2].name@ == "authorization"@);
    assert(r@[3].name@ == "chatgpt-account-id"@);
    reveal_strlit("x-openai-fedramp");
    reveal_strlit("user-agent");
    reveal_strlit("accept");
    reveal_strlit("authorization");
    reveal_strlit("chatgpt-account-id");
    assert("x-openai-fedramp"@.len() == 16);
    assert("user-agent"@.len() == 10);
    assert("accept"@.len() == 6);
    assert("authorization"@.len() == 13);
    assert("chatgpt-account-id"@.len() == 18);
    if auth.fedramp {
        assert(models[4] == ("x-openai-fedramp"@, "true"@));
        assert(r@[4].name@ == "x-openai-fedramp"@);
    } else if exists|i: int|
        0 <= i < r@.len() && (#[trigger] r@[i]).name@ == "x-openai-fedramp"@ && r@[i].value@ == "true"@ {
        let i = choose|i: int|
            0 <= i < r@.len() && (#[trigger] r@[i]).name@ == "x-openai-fedramp"@ && r@[i].value@ == "true"@;
        assert(models[i] == (r@[i].name@, r@[i].value@));
        assert(models[0].0 == "user-agent"@ && models[1].0 == "accept"@);
        assert(i == 0 || i == 1 || i == 2 || i == 3);
    }
}

/// Of an address the domain and the first character are shown, and the last of
/// a long name; the rest is hidden.
pub proof fn law_email(
    first: char,
    middle: Seq<char>,
    last: char,
    domain: Seq<char>,
    other_middle: Seq<char>,
    email: &str,
    other: &str,
    r: String,
    r_other: String,
)
    requires
        email@ == seq![first] + middle + seq![last, '@'] + domain,
        other@ == seq![first] + other_middle + seq![last, '@'] + domain,
        first != '@',
        last != '@',
        !middle.contains('@'),
        !other_middle.contains('@'),
        encode_utf8(seq![first] + middle + seq![last]).len() > 3,
        encode_utf8(seq![first] + other_middle + seq![last]).len() > 3,
        call_ensures(mask_email, (email,), r),
        call_ensures(mask_email, (other,), r_other),
    ensures
        r@ == r_other@,
        r@ == seq![first, '*', '*', '*', last, '@'] + domain,
{
    lemma_masked_email(first, middle, last, domain);
    lemma_masked_email(first, other_middle, last, domain);
    assert(r@ == masked_email(email@));
    assert(r_other@ == masked_email(other@));
}

proof fn lemma_masked_email(first: char, middle: Seq<char>, last: char, domain: Seq<char>)
    requires
        first != '@',
        last != '@',
        !middle.contains('@'),
        encode_utf8(seq![first] + middle + seq![last]).len() > 3,
    ensures
        masked_email(seq![first] + middle + seq![last, '@'] + domain) == seq![first, '*', '*', '*', last, '@'] + domain,
{
    let s = seq![first] + middle + seq![last, '@'] + domain;
    let local = seq![first] + middle + seq![last];
    let n = local.len() as int;
    assert forall|j: int| 0 <= j < n implies !only('@')(#[trigger] s[j]) by {
        assert(s[j] == local[j]);
        if 0 < j < n - 1 {
            assert(middle.contains(middle[j - 1]));
        }
    }
    assert(s[n] == '@');
    lemma_index_where_is(s, only('@'), n);
    assert(s.take(n) =~= local);
    assert(s.skip(n + 1) =~= domain);
    reveal_strlit("***");
    reveal_strlit("@");
    assert(masked_email(s) =~= seq![first, '*', '*', '*', last, '@'] + domain);
}

/// The payload of a token is its second part of three.
pub proof fn law_payload_part(a: Seq<char>, b: Seq<char>, c: Seq<char>, jwt: &str, r: Result<String, String>)
    requires
        !a.contains('.'),
        !b.contains('.'),
        !c.contains('.'),
        b.len() > 0,
        jwt@ == a + seq!['.'] + b + seq!['.'] + c,
        call_ensures(jwt_payload_part, (jwt,), r),
    ensures
        r matches Ok(part) && part@ == b,
{
    let s = jwt@;
    let p = only('.');
    let n = a.len() as int;
    let rest = b + seq!['.'] + c;
    assert forall|j: int| 0 <= j < n implies !p(#[trigger] s[j]) by {
        assert(s[j] == a[j]);
        assert(a.contains(a[j]));
    }
    assert(s[n] == '.');
    lemma_index_where_is(s, p, n);
    assert(s.skip(n + 1) =~= rest);
    let m = b.len() as int;
    assert forall|j: int| 0 <= j < m implies !p(#[trigger] rest[j]) by {
        assert(rest[j] == b[j]);
        assert(b.contains(b[j]));
    }
    assert(rest[m] == '.');
    lemma_index_where_is(rest, p, m);
    assert(rest.take(m) =~= b);
    lemma_split_where_nonempty(rest.skip(m + 1), p);
    let parts = split_where(s, p);
    assert(split_where(rest, p)[0] == b);
    assert(parts[1] == split_where(rest, p)[0]);
    assert(payload_part(s) == Some(b));
}

/// Every text that stands in a JSON value, in a list or under a key, is
/// collected behind what was there.
pub proof fn law_strings_collected(
    value: &Json,
    output: &mut Vec<String>,
    i: int,
    key: Seq<char>,
    text: Seq<char>,
)
    requires
        call_ensures(collect_strings_from_json, (value, output), ()),
    ensures
        texts(old(output)@).is_prefix_of(texts(final(output)@)),
        value@ == JsonModel::Text(text) ==> texts(final(output)@) == texts(old(output)@).push(text),
        value@ matches JsonModel::Array(items) ==> 0 <= i < items.len() && items[i] == JsonModel::Text(text) ==> texts(
            final(output)@,
        ).contains(text),
        value@ matches JsonModel::Object(map) ==> map.dom().finite() && map.dom().contains(key) && map[key]
            == JsonModel::Text(text) ==> texts(final(output)@).contains(text),
        value@ is Null || value@ is Bool || value@ is Number ==> texts(final(output)@) == texts(old(output)@),
{
    let before = texts(old(output)@);
    let after = texts(final(output)@);
    let found = texts_in(value@);
    assert(after == before + found);
    assert(after.take(before.len() as int) =~= before);
    match value@ {
        JsonModel::Text(t) => {
            assert(after =~= before.push(t));
        },
        JsonModel::Array(items) => {
            if 0 <= i < items.len() && items[i] == JsonModel::Text(text) {
                lemma_text_in_items(items, i, text);
                let k = choose|k: int| 0 <= k < found.len() && found[k] == text;
                assert(after[before.len() + k] == text);
            }
        },
        JsonModel::Object(map) => {
            if map.dom().finite() && map.dom().contains(key) && map[key] == JsonModel::Text(text) {
                let keys = ascending(map.dom());
                law_ascending_exists(map.dom());
                assert(keys.to_set().contains(key));
                lemma_text_in_fields(map, keys, key, text);
                let k = choose|k: int| 0 <= k < found.len() && found[k] == text;
                assert(after[before.len() + k] == text);
            }
        },
        _ => {
            assert(after =~= before);
        },
    }
}

proof fn lemma_text_in_items(items: Seq<JsonModel>, i: int, text: Seq<char>)
    requires
        0 <= i < items.len(),
        items[i] == JsonModel::Text(text),
    ensures
        texts_in_items(items).contains(text),
    decreases items.len(),
{
    let all = texts_in_items(items);
    let before = texts_in_items(items.drop_last());
    if i == items.len() - 1 {
        assert(texts_in(items.last()) =~= seq![text]);
        assert(all[before.len() as int] == text);
    } else {
        lemma_text_in_items(items.drop_last(), i, text);
        let k = choose|k: int| 0 <= k < before.len() && before[k] == text;
        assert(all[k] == text);
    }
}

proof fn lemma_text_in_fields(map: Map<Seq<char>, JsonModel>, keys: Seq<Seq<char>>, key: Seq<char>, text: Seq<char>)
    requires
        map.dom().finite(),
        map.dom().contains(key),
        map[key] == JsonModel::Text(text),
        keys.contains(key),
    ensures
        texts_in_fields(map, keys).contains(text),
    decreases keys.len(),
{
    let all = texts_in_fields(map, keys);
    let before = texts_in_fields(map, keys.drop_last());
    if keys.last() == key {
        assert(texts_in(map[key]) =~= seq![text]);
        assert(all[before.len() as int] == text);
    } else {
        let i = choose|i: int| 0 <= i < keys.len() && keys[i] == key;
        assert(keys.drop_last()[i] == key);
        lemma_text_in_fields(map, keys.drop_last(), key, text);
        let k = choose|k: int| 0 <= k < before.len() && before[k] == text;
        assert(all[k] == text);
    }
}

/// A key that was found in a backup is offered under the backup's name and its
/// number there, and shown masked.
pub proof fn law_candidate(
    token: &str,
    dir_name: &str,
    index: usize,
    backup_path: &str,
    backup_dir: &str,
    hidden: String,
    r: TokenCandidate,
)
    requires
        call_ensures(mask_secret, (token,), hidden),
        call_ensures(token_candidate, (token, dir_name, index, backup_path, backup_dir), r),
    ensures
        r.id@ == dir_name@ + ":"@ + decimal(index as nat),
        r.masked@ == hidden@,
        r.backup_path@ == backup_path@,
        r.backup_dir@ == backup_dir@,
        r.length == encode_utf8(token@).len(),
{
    assert(hidden@ == masked(token@));
    assert(is_candidate(r, token@, dir_name@, index as nat, backup_path@, backup_dir@));
}

} // verus!
