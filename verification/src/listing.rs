//! Lists of sessions as text.

use vstd::prelude::*;

use crate::cli::{flag, option_of, option_usize, option_value, usize_option_of};
use crate::digest::{short_hash, shortened};
use crate::sessions::{LocalSessionMeta, SessionManifest};
use crate::text::{decimal, decimal_text, opt_text, texts};

verus! {

/// What a list of local sessions is to show.
pub struct ListOptions {
    pub codex_home: Option<String>,
    pub json: bool,
    pub limit: usize,
}

/// What a list is to show, with a limit of its own where none is given.
pub fn list_options(args: &[String], usual_limit: usize) -> (r: Result<ListOptions, String>)
    ensures
        match r {
            Ok(options) => {
                &&& opt_text(options.codex_home) == option_of(texts(args@), "--codex-home"@)
                &&& options.json == texts(args@).contains("--json"@)
                &&& match usize_option_of(texts(args@), "--limit"@) {
                    Ok(Some(limit)) => options.limit == limit,
                    Ok(None) => options.limit == usual_limit,
                    Err(_) => false,
                }
            },
            Err(error) => usize_option_of(texts(args@), "--limit"@) == Err::<Option<nat>, Seq<char>>(error@),
        },
{
    match option_usize(args, "--limit") {
        Ok(limit) => Ok(
            ListOptions {
                codex_home: option_value(args, "--codex-home"),
                json: flag(args, "--json"),
                limit: match limit {
                    Some(limit) => limit,
                    None => usual_limit,
                },
            },
        ),
        Err(error) => Err(error),
    }
}

/// A text, or a dash.
pub open spec fn or_dash(text: Option<String>) -> Seq<char> {
    match text {
        Some(text) => text@,
        None => "-"@,
    }
}

fn text_or_dash(text: &Option<String>) -> (r: String)
    ensures
        r@ == or_dash(*text),
{
    match text {
        Some(text) => text.clone(),
        None => "-".to_owned(),
    }
}

pub open spec fn local_session_line(session: LocalSessionMeta) -> Seq<char> {
    session.session_id@ + "  "@ + or_dash(session.provider_name) + "  "@ + or_dash(session.model) + "  "@
        + session.relative_path@
}

fn local_session_text(session: &LocalSessionMeta) -> (r: String)
    ensures
        r@ == local_session_line(*session),
{
    session.session_id.clone().concat("  ").concat(text_or_dash(&session.provider_name).as_str()).concat("  ").concat(
        text_or_dash(&session.model).as_str(),
    ).concat("  ").concat(session.relative_path.as_str())
}

/// The lines on the first sessions.
pub open spec fn session_lines(sessions: Seq<LocalSessionMeta>) -> Seq<Seq<char>> {
    sessions.map_values(|session: LocalSessionMeta| local_session_line(session))
}

/// How many of the sessions are shown.
pub open spec fn shown_count(total: int, limit: int) -> int {
    if total < limit {
        total
    } else {
        limit
    }
}

/// The list of local sessions, up to the limit.
pub open spec fn local_list(sessions: Seq<LocalSessionMeta>, limit: int) -> Seq<Seq<char>> {
    let shown = shown_count(sessions.len() as int, limit);
    let lines = seq!["local sessions: "@ + decimal(sessions.len())] + session_lines(sessions.take(shown));
    if sessions.len() > shown {
        lines.push("... "@ + decimal((sessions.len() - shown) as nat) + " more"@)
    } else {
        lines
    }
}

/// The list of local sessions, up to the limit.
pub fn local_list_text(sessions: &Vec<LocalSessionMeta>, limit: usize) -> (r: Vec<String>)
    ensures
        texts(r@) == local_list(sessions@, limit as int),
{
    let total: usize = sessions.len();
    let shown: usize = if total < limit {
        total
    } else {
        limit
    };
    let mut lines: Vec<String> = Vec::new();
    lines.push("local sessions: ".to_owned().concat(decimal_text(total as u128).as_str()));
    let ghost first = seq!["local sessions: "@ + decimal(total as nat)];
    assert(texts(lines@) =~= first + session_lines(sessions@.take(0)));
    for i in 0..shown
        invariant
            shown <= sessions@.len(),
            texts(lines@) == first + session_lines(sessions@.take(i as int)),
    {
        let ghost before = texts(lines@);
        lines.push(local_session_text(&sessions[i]));
        assert(texts(lines@) =~= before.push(local_session_line(sessions@[i as int])));
        assert(session_lines(sessions@.take(i + 1)) =~= session_lines(sessions@.take(i as int)).push(
            local_session_line(sessions@[i as int]),
        ));
        assert(first + session_lines(sessions@.take(i + 1)) =~= before.push(
            local_session_line(sessions@[i as int]),
        ));
    }
    if total > shown {
        let ghost before = texts(lines@);
        lines.push("... ".to_owned().concat(decimal_text((total - shown) as u128).as_str()).concat(" more"));
        assert(texts(lines@) =~= before.push("... "@ + decimal((total - shown) as nat) + " more"@));
    }
    lines
}

/// The line that a text is shown on, if there is one.
pub open spec fn optional_line(start: Seq<char>, text: Option<String>) -> Seq<Seq<char>> {
    match text {
        Some(text) => seq![start + text@],
        None => Seq::empty(),
    }
}

pub open spec fn version_tail(manifest: SessionManifest) -> Seq<Seq<char>> {
    seq![
        "  path: "@ + manifest.relative_path@,
        "  raw/encrypted: "@ + shortened(manifest.raw_sha256@) + " / "@ + decimal(manifest.encrypted_size as nat)
            + " bytes"@,
        "  uploaded_at_ms: "@ + decimal(manifest.uploaded_at_ms as nat),
        "  pull: codex-tools cloud pull --session-id "@ + manifest.session_id@,
    ]
}

/// The lines on a version in the cloud.
pub open spec fn version_lines(manifest: SessionManifest) -> Seq<Seq<char>> {
    seq![
        manifest.session_id@,
        "  provider/model: "@ + or_dash(manifest.provider_name) + "/"@ + or_dash(manifest.model),
    ] + optional_line("  title: "@, manifest.title) + optional_line("  cwd: "@, manifest.cwd) + version_tail(manifest)
}

fn push_optional_line(lines: &mut Vec<String>, start: &str, text: &Option<String>)
    ensures
        texts(final(lines)@) == texts(old(lines)@) + optional_line(start@, *text),
{
    match text {
        Some(text) => {
            lines.push(start.to_owned().concat(text.as_str()));
            assert(texts(lines@) =~= texts(old(lines)@) + seq![start@ + text@]);
        },
        None => {
            assert(texts(lines@) =~= texts(old(lines)@) + Seq::<Seq<char>>::empty());
        },
    }
}

fn push_version_head(lines: &mut Vec<String>, manifest: &SessionManifest)
    ensures
        texts(final(lines)@) == texts(old(lines)@) + seq![
            manifest.session_id@,
            "  provider/model: "@ + or_dash(manifest.provider_name) + "/"@ + or_dash(manifest.model),
        ],
{
    lines.push(manifest.session_id.clone());
    lines.push(
        "  provider/model: ".to_owned().concat(text_or_dash(&manifest.provider_name).as_str()).concat("/").concat(
            text_or_dash(&manifest.model).as_str(),
        ),
    );
    assert(texts(lines@) =~= texts(old(lines)@) + seq![
        manifest.session_id@,
        "  provider/model: "@ + or_dash(manifest.provider_name) + "/"@ + or_dash(manifest.model),
    ]);
}

fn push_version_tail(lines: &mut Vec<String>, manifest: &SessionManifest)
    ensures
        texts(final(lines)@) == texts(old(lines)@) + version_tail(*manifest),
{
    lines.push("  path: ".to_owned().concat(manifest.relative_path.as_str()));
    lines.push(
        "  raw/encrypted: ".to_owned().concat(short_hash(manifest.raw_sha256.as_str()).as_str()).concat(" / ").concat(
            decimal_text(manifest.encrypted_size as u128).as_str(),
        ).concat(" bytes"),
    );
    lines.push("  uploaded_at_ms: ".to_owned().concat(decimal_text(manifest.uploaded_at_ms).as_str()));
    lines.push("  pull: codex-tools cloud pull --session-id ".to_owned().concat(manifest.session_id.as_str()));
    assert(texts(lines@) =~= texts(old(lines)@) + version_tail(*manifest));
}

fn push_version(lines: &mut Vec<String>, manifest: &SessionManifest)
    ensures
        texts(final(lines)@) == texts(old(lines)@) + version_lines(*manifest),
{
    push_version_head(lines, manifest);
    push_optional_line(lines, "  title: ", &manifest.title);
    push_optional_line(lines, "  cwd: ", &manifest.cwd);
    push_version_tail(lines, manifest);
    assert(texts(lines@) =~= texts(old(lines)@) + version_lines(*manifest));
}

/// The lines on versions in the cloud.
pub open spec fn all_version_lines(manifests: Seq<SessionManifest>) -> Seq<Seq<char>>
    decreases manifests.len(),
{
    if manifests.len() == 0 {
        Seq::empty()
    } else {
        all_version_lines(manifests.drop_last()) + version_lines(manifests.last())
    }
}

/// The list of the latest versions in the cloud.
pub open spec fn cloud_list_lines(latest: Seq<SessionManifest>) -> Seq<Seq<char>> {
    (seq!["cloud sessions: "@ + decimal(latest.len()) + " latest version(s)"@] + all_version_lines(latest)).push(
        "Use `codex-tools cloud pull --all` to restore every listed latest session."@,
    )
}

/// The list of the latest versions in the cloud.
pub fn cloud_list_text(latest: &Vec<SessionManifest>) -> (r: Vec<String>)
    ensures
        texts(r@) == cloud_list_lines(latest@),
{
    let mut lines: Vec<String> = Vec::new();
    lines.push(
        "cloud sessions: ".to_owned().concat(decimal_text(latest.len() as u128).as_str()).concat(" latest version(s)"),
    );
    let ghost first = seq!["cloud sessions: "@ + decimal(latest@.len()) + " latest version(s)"@];
    assert(texts(lines@) =~= first + all_version_lines(latest@.take(0)));
    for i in 0..latest.len()
        invariant
            texts(lines@) == first + all_version_lines(latest@.take(i as int)),
    {
        push_version(&mut lines, &latest[i]);
        assert(latest@.take(i + 1).drop_last() =~= latest@.take(i as int));
        assert(first + all_version_lines(latest@.take(i + 1)) =~= first + all_version_lines(latest@.take(i as int))
            + version_lines(latest@[i as int]));
    }
    assert(latest@.take(latest@.len() as int) =~= latest@);
    let ghost before = texts(lines@);
    lines.push("Use `codex-tools cloud pull --all` to restore every listed latest session.".to_owned());
    assert(texts(lines@) =~= before.push(
        "Use `codex-tools cloud pull --all` to restore every listed latest session."@,
    ));
    lines
}

} // verus!
