//! Pre-delivery artifact references: normalizing link targets, the places a
//! workspace artifact may live, bare image names rewritten as markdown images, and
//! the texts of web-delivered copies. Existence checks and copies are made outside.
use vstd::prelude::*;
use crate::decimal::{i64_decimal, signed_decimal_seq};
use crate::paths::{is_path_under, path_join, path_join_id, path_join_seq, path_join_str, path_under};
use crate::pattern::{matches_view, regex_captures, regex_matches};
use crate::text::{
    append_str, append_vec, before_set, before_set_vec, chars_of, contains, contains_seq, has_char,
    has_prefix, lines_seq, lines_vec, lower_seq, lower_vec, replace_all_seq, replace_all_vec,
    rfind, rfind_seq, starts_with, string_of, subvec, trim_seq, trim_set, trim_set_vec,
    trim_start_set, trim_start_set_vec, trim_vec, vec_eq, lemma_rfind_seq,
};

verus! {

broadcast use vstd::string::group_string_axioms;

#[derive(Debug, Clone, Copy, PartialEq, Eq, Structural)]
pub enum ArtifactResolveKind {
    /// PNG/JPEG/GIF/WebP/BMP only (Telegram auto-photos, bare-line normalization).
    ImageOnly,
    /// Any existing file (web link materialization).
    AnyFile,
}

/// Quote and angle-bracket characters stripped around a reference.
pub open spec fn ref_quotes() -> Seq<char> {
    seq!['"', '\'', '<', '>']
}

/// A reference trimmed of whitespace, then of quotes and angle brackets.
pub open spec fn trim_artifact_ref_seq(raw: Seq<char>) -> Seq<char> {
    trim_set(trim_seq(raw), ref_quotes())
}

fn trim_artifact_ref(raw: &str) -> (r: Vec<char>)
    ensures
        r@ == trim_artifact_ref_seq(raw@),
{
    let q = vec!['"', '\'', '<', '>'];
    assert(q@ =~= ref_quotes());
    trim_set_vec(&trim_vec(&chars_of(raw)), &q)
}

/// The path of a `file://` URL: `file://localhost/p` and `file://localhost//p` give
/// `/p`, `file:///p` gives `/p`, anything else keeps what follows `file://`.
pub open spec fn file_url_path(rest: Seq<char>) -> Seq<char> {
    if has_prefix(rest, "localhost/"@) {
        seq!['/'] + rest.subrange(10, rest.len() as int)
    } else if rest.len() > 0 && rest[0] == '/' {
        rest
    } else if has_prefix(rest, "localhost"@) {
        let path = trim_start_set(rest.subrange(9, rest.len() as int), seq!['/']);
        if path.len() == 0 {
            rest
        } else {
            seq!['/'] + path
        }
    } else {
        rest
    }
}

/// A reference normalized for local resolution: trimmed, `file://` removed, and cut
/// before any `?` query or `#` fragment.
pub open spec fn normalize_ref_seq(raw: Seq<char>) -> Seq<char> {
    let t = trim_artifact_ref_seq(raw);
    let t = if has_prefix(t, "file://"@) {
        file_url_path(t.subrange(7, t.len() as int))
    } else {
        t
    };
    before_set(t, seq!['?', '#'])
}

/// Normalize markdown link targets and path refs for local artifact resolution.
///
/// Strips `file://` (including `file://localhost/…`) and URL query/fragment suffixes
/// so delivery materialization can resolve workspace files.
pub fn normalize_local_artifact_ref(raw: &str) -> (r: String)
    ensures
        r@ == normalize_ref_seq(raw@),
        !r@.contains('?') && !r@.contains('#'),
{
    proof {
        reveal_strlit("file://");
        reveal_strlit("localhost/");
        reveal_strlit("localhost");
    }
    let t = trim_artifact_ref(raw);
    let file = chars_of("file://");
    let t = if starts_with(&t, &file) {
        let rest = subvec(&t, 7, t.len());
        if starts_with(&rest, &chars_of("localhost/")) {
            let mut out = vec!['/'];
            append_vec(&mut out, &subvec(&rest, 10, rest.len()));
            assert(out@ =~= seq!['/'] + rest@.subrange(10, rest@.len() as int));
            out
        } else if rest.len() > 0 && rest[0] == '/' {
            rest
        } else if starts_with(&rest, &chars_of("localhost")) {
            let slash = vec!['/'];
            assert(slash@ =~= seq!['/']);
            let path = trim_start_set_vec(&subvec(&rest, 9, rest.len()), &slash);
            if path.len() == 0 {
                rest
            } else {
                let mut out = vec!['/'];
                append_vec(&mut out, &path);
                assert(out@ =~= seq!['/'] + path@);
                out
            }
        } else {
            rest
        }
    } else {
        t
    };
    let stops = vec!['?', '#'];
    assert(stops@ =~= seq!['?', '#']);
    let r = before_set_vec(&t, &stops);
    proof {
        lemma_before_set_free(t@, seq!['?', '#']);
        assert(seq!['?', '#'][0] == '?');
        assert(seq!['?', '#'][1] == '#');
        assert(seq!['?', '#'].contains('?'));
        assert(seq!['?', '#'].contains('#'));
    }
    string_of(&r)
}

proof fn lemma_before_set_free(s: Seq<char>, cs: Seq<char>)
    ensures
        forall|c: char| cs.contains(c) ==> !before_set(s, cs).contains(c),
    decreases s.len(),
{
    crate::text::lemma_first_in_set_bounds(s, cs);
    if s.len() > 0 && !cs.contains(s[0]) {
        lemma_before_set_free(s.drop_first(), cs);
        let k = crate::text::first_in_set(s, cs);
        assert(before_set(s, cs) =~= seq![s[0]] + before_set(s.drop_first(), cs));
    } else {
        assert(before_set(s, cs) =~= Seq::<char>::empty());
    }
}

/// A web delivery copy: `YYYYMMDD-HHMMSS-bot-<name>`.
pub open spec fn delivery_copy_pattern() -> Seq<char> {
    "^\\d{8}-\\d{6}-bot-(.+)$"@
}

/// An upload stored under a hash: `<16 hex digits>-<name>`, in any case.
pub open spec fn hash_prefix_pattern() -> Seq<char> {
    "(?i)^[0-9a-f]{16}-(.+)$"@
}

/// The first capture group of the first match, if any.
pub open spec fn first_group(ms: Seq<(Seq<char>, Option<Seq<char>>)>) -> Option<Seq<char>> {
    if ms.len() > 0 {
        ms[0].1
    } else {
        None
    }
}

/// `out` with `v` added when it is a new, non-empty value.
pub open spec fn push_unique(out: Seq<Seq<char>>, v: Option<Seq<char>>) -> Seq<Seq<char>> {
    match v {
        Some(x) => if x.len() > 0 && !out.contains(x) {
            out.push(x)
        } else {
            out
        },
        None => out,
    }
}

/// The basename, then the name inside a delivery copy, then the name after a hash
/// prefix; empty names and repeats left out.
pub open spec fn fallback_candidates_seq(basename: Seq<char>) -> Seq<Seq<char>> {
    let a = push_unique(Seq::empty(), Some(basename));
    let b = push_unique(a, first_group(regex_matches(delivery_copy_pattern(), basename)));
    push_unique(b, first_group(regex_matches(hash_prefix_pattern(), basename)))
}


fn holds_string(out: &Vec<String>, x: &Vec<char>) -> (r: bool)
    ensures
        r == out@.map_values(|s: String| s@).contains(x@),
{
    let ghost ov = out@.map_values(|s: String| s@);
    let mut i: usize = 0;
    while i < out.len()
        invariant
            i <= out@.len(),
            ov == out@.map_values(|s: String| s@),
            forall|k: int| 0 <= k < i ==> ov[k] != x@,
        decreases out@.len() - i,
    {
        if vec_eq(&chars_of(out[i].as_str()), x) {
            assert(ov[i as int] == x@);
            return true;
        }
        i += 1;
    }
    assert(!ov.contains(x@)) by {
        if ov.contains(x@) {
            let k = choose|k: int| 0 <= k < ov.len() && ov[k] == x@;
            assert(ov[k] != x@);
        }
    }
    false
}

fn push_unique_exec(out: &mut Vec<String>, v: Option<String>)
    ensures
        final(out)@.map_values(|s: String| s@) == push_unique(
            old(out)@.map_values(|s: String| s@),
            match v { Some(x) => Some(x@), None => None },
        ),
{
    match v {
        Some(x) => {
            let xv = chars_of(x.as_str());
            if xv.len() > 0 && !holds_string(out, &xv) {
                let ghost ov = out@.map_values(|s: String| s@);
                out.push(x);
                assert(out@.map_values(|s: String| s@) =~= ov.push(xv@));
            }
        },
        None => {},
    }
}

fn first_capture(pattern: &str, haystack: &str) -> (r: Option<String>)
    ensures
        match r { Some(x) => Some(x@), None => None } == first_group(regex_matches(pattern@, haystack@)),
{
    let ms = regex_captures(pattern, haystack);
    proof {
        assert(matches_view(ms@) == regex_matches(pattern@, haystack@));
    }
    if ms.len() > 0 {
        let g = &ms[0].1;
        match g {
            Some(s) => Some(s.clone()),
            None => None,
        }
    } else {
        None
    }
}

/// Basename variants to try when a delivery URL or `-bot-` copy path does not exist on disk.
pub fn artifact_basename_fallback_candidates(basename: &str) -> (r: Vec<String>)
    ensures
        r@.map_values(|s: String| s@) == fallback_candidates_seq(basename@),
{
    let mut out: Vec<String> = Vec::new();
    assert(out@.map_values(|s: String| s@) =~= Seq::<Seq<char>>::empty());
    push_unique_exec(&mut out, Some(string_of(&chars_of(basename))));
    push_unique_exec(&mut out, first_capture("^\\d{8}-\\d{6}-bot-(.+)$", basename));
    push_unique_exec(&mut out, first_capture("(?i)^[0-9a-f]{16}-(.+)$", basename));
    out
}

/// An extension (of `Path::extension`) that names a deliverable image, in any case.
pub open spec fn spec_image_extension(ext: Option<Seq<char>>) -> bool {
    match ext {
        Some(e) => {
            let l = lower_seq(e);
            l == "png"@ || l == "jpg"@ || l == "jpeg"@ || l == "gif"@ || l == "webp"@ || l == "bmp"@
        },
        None => false,
    }
}

/// Whether a file with extension `ext` (as `Path::extension` gives it) is a
/// deliverable image: png, jpg, jpeg, gif, webp or bmp, in any case.
pub fn is_deliverable_image_extension(ext: Option<&str>) -> (r: bool)
    ensures
        r == spec_image_extension(match ext { Some(e) => Some(e@), None => None }),
{
    match ext {
        Some(e) => {
            let l = lower_vec(&chars_of(e));
            vec_eq(&l, &chars_of("png")) || vec_eq(&l, &chars_of("jpg")) || vec_eq(&l, &chars_of("jpeg"))
                || vec_eq(&l, &chars_of("gif")) || vec_eq(&l, &chars_of("webp")) || vec_eq(
                &l,
                &chars_of("bmp"),
            )
        },
        None => false,
    }
}

/// A file is a deliverable image exactly when its extension, lower-cased, is one
/// of png, jpg, jpeg, gif, webp and bmp; a file without an extension is not.
pub proof fn lemma_image_extensions(ext: Option<Seq<char>>)
    ensures
        spec_image_extension(ext) <==> (ext matches Some(e) && seq!["png"@, "jpg"@, "jpeg"@, "gif"@, "webp"@, "bmp"@].contains(
            lower_seq(e),
        )),
{
    let list = seq!["png"@, "jpg"@, "jpeg"@, "gif"@, "webp"@, "bmp"@];
    match ext {
        Some(e) => {
            let l = lower_seq(e);
            if list.contains(l) {
                let i = choose|i: int| 0 <= i < list.len() && list[i] == l;
                assert(i == 0 || i == 1 || i == 2 || i == 3 || i == 4 || i == 5);
            }
            if l == "png"@ { assert(list[0] == l); }
            if l == "jpg"@ { assert(list[1] == l); }
            if l == "jpeg"@ { assert(list[2] == l); }
            if l == "gif"@ { assert(list[3] == l); }
            if l == "webp"@ { assert(list[4] == l); }
            if l == "bmp"@ { assert(list[5] == l); }
        },
        None => {},
    }
}

/// Whether an existing path matches the kind asked for.
pub fn path_matches_kind(is_file: bool, ext: Option<&str>, kind: ArtifactResolveKind) -> (r: bool)
    ensures
        r == (is_file && (kind == ArtifactResolveKind::AnyFile || spec_image_extension(
            match ext { Some(e) => Some(e@), None => None },
        ))),
{
    if !is_file {
        return false;
    }
    match kind {
        ArtifactResolveKind::AnyFile => true,
        ArtifactResolveKind::ImageOnly => is_deliverable_image_extension(ext),
    }
}

/// A candidate artifact is delivered only when it resolves to a canonical path
/// under the canonical workspace root and is an existing file of the kind asked
/// for; the path delivered is the canonical one. No path outside the workspace is
/// ever accepted.
pub fn accept_artifact_path(
    canonical: Option<String>,
    root: &str,
    is_file: bool,
    ext: Option<&str>,
    kind: ArtifactResolveKind,
) -> (r: Option<String>)
    ensures
        match canonical {
            Some(c) => if path_under(c@, root@) && is_file && (kind == ArtifactResolveKind::AnyFile
                || spec_image_extension(
                match ext {
                    Some(e) => Some(e@),
                    None => None,
                },
            )) {
                r matches Some(p) && p@ == c@
            } else {
                r is None
            },
            None => r is None,
        },
        r matches Some(p) ==> path_under(p@, root@),
{
    match canonical {
        Some(c) => {
            if is_path_under(c.as_str(), root) && path_matches_kind(is_file, ext, kind) {
                Some(c)
            } else {
                None
            }
        },
        None => None,
    }
}

/// `<root>/shared/personas/<chat>/<persona>`.
pub open spec fn persona_dir_seq(root: Seq<char>, chat_id: i64, persona_id: i64) -> Seq<char> {
    path_join_seq(
        path_join_seq(path_join_seq(path_join_seq(root, "shared"@), "personas"@), signed_decimal_seq(chat_id as int)),
        signed_decimal_seq(persona_id as int),
    )
}

fn persona_dir(root: &Vec<char>, chat_id: i64, persona_id: i64) -> (r: Vec<char>)
    ensures
        r@ == persona_dir_seq(root@, chat_id, persona_id),
{
    path_join_id(&path_join_id(&path_join_str(&path_join_str(root, "shared"), "personas"), chat_id), persona_id)
}

/// `<root>/runtime/groups/<chat>/<persona>`.
pub open spec fn group_dir_seq(root: Seq<char>, chat_id: i64, persona_id: i64) -> Seq<char> {
    path_join_seq(
        path_join_seq(path_join_seq(path_join_seq(root, "runtime"@), "groups"@), signed_decimal_seq(chat_id as int)),
        signed_decimal_seq(persona_id as int),
    )
}

/// `s` with the prefix `p` removed, when it has it.
pub open spec fn strip_prefix_seq(s: Seq<char>, p: Seq<char>) -> Option<Seq<char>> {
    if has_prefix(s, p) {
        Some(s.subrange(p.len() as int, s.len() as int))
    } else {
        None
    }
}

fn strip_prefix_vec(s: &Vec<char>, p: &str) -> (r: Option<Vec<char>>)
    ensures
        match r { Some(x) => Some(x@), None => None } == strip_prefix_seq(s@, p@),
{
    let pv = chars_of(p);
    if starts_with(s, &pv) {
        Some(subvec(s, pv.len(), s.len()))
    } else {
        None
    }
}

/// The places a relative reference `t` may live, in the order they are tried: the
/// workspace root and its `shared` directory (also without a leading `./`, and
/// `shared/` references under `shared`), the persona directory, the persona's
/// runtime group directory, and the repository root (also without a leading
/// `workspace/`).
pub open spec fn artifact_candidates_seq(
    root: Seq<char>,
    repo_root: Option<Seq<char>>,
    chat_id: i64,
    persona_id: i64,
    t: Seq<char>,
) -> Seq<Seq<char>> {
    let shared = path_join_seq(root, "shared"@);
    let c1 = seq![path_join_seq(root, t), path_join_seq(shared, t)];
    let c2 = match strip_prefix_seq(t, "./"@) {
        Some(s) => c1 + seq![path_join_seq(root, s), path_join_seq(shared, s)],
        None => c1,
    };
    let c3 = match strip_prefix_seq(t, "shared/"@) {
        Some(s) => c2.push(path_join_seq(shared, s)),
        None => c2,
    };
    let c4 = c3.push(path_join_seq(persona_dir_seq(root, chat_id, persona_id), t)).push(
        path_join_seq(group_dir_seq(root, chat_id, persona_id), t),
    );
    match repo_root {
        Some(repo) => {
            let c5 = c4.push(path_join_seq(repo, t));
            match strip_prefix_seq(t, "workspace/"@) {
                Some(s) => c5.push(path_join_seq(repo, s)),
                None => c5,
            }
        },
        None => c4,
    }
}

/// The candidate paths for the relative reference `trimmed`; `repo_root` is the
/// workspace root's parent (`Path::parent`), when it has one.
pub fn collect_artifact_candidates(
    workspace_root: &str,
    repo_root: Option<&str>,
    chat_id: i64,
    persona_id: i64,
    trimmed: &str,
) -> (r: Vec<String>)
    ensures
        r@.map_values(|s: String| s@) == artifact_candidates_seq(
            workspace_root@,
            match repo_root { Some(x) => Some(x@), None => None },
            chat_id,
            persona_id,
            trimmed@,
        ),
{
    let root = chars_of(workspace_root);
    let t = chars_of(trimmed);
    let shared = path_join_str(&root, "shared");
    let mut out: Vec<String> = Vec::new();
    out.push(string_of(&path_join(&root, &t)));
    out.push(string_of(&path_join(&shared, &t)));
    match strip_prefix_vec(&t, "./") {
        Some(s) => {
            out.push(string_of(&path_join(&root, &s)));
            out.push(string_of(&path_join(&shared, &s)));
        },
        None => {},
    }
    match strip_prefix_vec(&t, "shared/") {
        Some(s) => {
            out.push(string_of(&path_join(&shared, &s)));
        },
        None => {},
    }
    out.push(string_of(&path_join(&persona_dir(&root, chat_id, persona_id), &t)));
    let group = path_join_id(
        &path_join_id(&path_join_str(&path_join_str(&root, "runtime"), "groups"), chat_id),
        persona_id,
    );
    out.push(string_of(&path_join(&group, &t)));
    match repo_root {
        Some(repo) => {
            let rv = chars_of(repo);
            out.push(string_of(&path_join(&rv, &t)));
            match strip_prefix_vec(&t, "workspace/") {
                Some(s) => {
                    out.push(string_of(&path_join(&rv, &s)));
                },
                None => {},
            }
        },
        None => {},
    }
    assert(out@.map_values(|s: String| s@) =~= artifact_candidates_seq(
        workspace_root@,
        match repo_root { Some(x) => Some(x@), None => None },
        chat_id,
        persona_id,
        trimmed@,
    ));
    out
}

/// How a reference is looked up in the workspace.
#[derive(Debug, Clone)]
pub enum ArtifactLookup {
    /// Not a local path: empty, a web URL, a data URI or an internal upload URL.
    NotLocal,
    /// An absolute path, accepted only when it lies inside the workspace.
    Absolute(String),
    /// A relative path: the candidates to try in order (persona-scoped, empty without
    /// a chat and persona); whether a unique basename search under the persona
    /// directory follows; then the `shared` location, used when it exists, else the
    /// root location.
    Relative { candidates: Vec<String>, basename_search: bool, legacy_shared: String, legacy_root: String },
}

/// The reference is not a local path.
pub open spec fn not_local_ref(t: Seq<char>) -> bool {
    t.len() == 0 || has_prefix(t, "http://"@) || has_prefix(t, "https://"@) || has_prefix(t, "data:"@)
        || has_prefix(t, "/api/uploads/"@)
}

/// How to look up a local workspace artifact (persona-scoped when `chat_id` and
/// `persona_id` are set): the reference is normalized first; web, data and internal
/// upload references are not local; an absolute path is checked as it is; a relative
/// one goes through the persona candidates, a unique basename search when it names
/// no directory, and the legacy `shared`/root locations.
pub fn resolve_workspace_artifact_path(
    workspace_root: &str,
    repo_root: Option<&str>,
    chat_id: Option<i64>,
    persona_id: Option<i64>,
    raw: &str,
) -> (r: ArtifactLookup)
    ensures
        ({
            let t = normalize_ref_seq(raw@);
            match r {
                ArtifactLookup::NotLocal => not_local_ref(t),
                ArtifactLookup::Absolute(p) => !not_local_ref(t) && t[0] == '/' && p@ == t,
                ArtifactLookup::Relative { candidates, basename_search, legacy_shared, legacy_root } => {
                    &&& !not_local_ref(t) && t[0] != '/'
                    &&& candidates@.map_values(|s: String| s@) == (match (chat_id, persona_id) {
                        (Some(c), Some(p)) => artifact_candidates_seq(
                            workspace_root@,
                            match repo_root { Some(x) => Some(x@), None => None },
                            c,
                            p,
                            t,
                        ),
                        _ => Seq::empty(),
                    })
                    &&& basename_search == (chat_id is Some && persona_id is Some && !t.contains('/')
                        && !t.contains('\\'))
                    &&& legacy_shared@ == path_join_seq(path_join_seq(workspace_root@, "shared"@), t)
                    &&& legacy_root@ == path_join_seq(workspace_root@, t)
                },
            }
        }),
{
    let t = chars_of(normalize_local_artifact_ref(raw).as_str());
    if t.len() == 0 || starts_with(&t, &chars_of("http://")) || starts_with(&t, &chars_of("https://"))
        || starts_with(&t, &chars_of("data:")) || starts_with(&t, &chars_of("/api/uploads/")) {
        return ArtifactLookup::NotLocal;
    }
    if t[0] == '/' {
        return ArtifactLookup::Absolute(string_of(&t));
    }
    let ts = string_of(&t);
    let (candidates, basename_search) = match (chat_id, persona_id) {
        (Some(c), Some(p)) => (
            collect_artifact_candidates(workspace_root, repo_root, c, p, ts.as_str()),
            !has_char(&t, '/') && !has_char(&t, '\\'),
        ),
        _ => {
            let v: Vec<String> = Vec::new();
            assert(v@.map_values(|s: String| s@) =~= Seq::<Seq<char>>::empty());
            (v, false)
        },
    };
    let root = chars_of(workspace_root);
    let legacy_shared = string_of(&path_join(&path_join_str(&root, "shared"), &t));
    let legacy_root = string_of(&path_join(&root, &t));
    ArtifactLookup::Relative { candidates, basename_search, legacy_shared, legacy_root }
}

/// The persona directory searched for a unique basename match.
pub fn persona_search_root(workspace_root: &str, chat_id: i64, persona_id: i64) -> (r: String)
    ensures
        r@ == persona_dir_seq(workspace_root@, chat_id, persona_id),
{
    string_of(&persona_dir(&chars_of(workspace_root), chat_id, persona_id))
}

/// A basename search succeeds only when exactly one file matches.
pub fn unique_basename_match(matches: Vec<String>) -> (r: Option<String>)
    ensures
        matches@.len() == 1 ==> (r matches Some(p) && p@ == matches@[0]@),
        matches@.len() != 1 ==> r is None,
{
    if matches.len() == 1 {
        Some(matches[0].clone())
    } else {
        None
    }
}

/// Lines left alone by bare-name normalization: blank lines, markdown images,
/// internal upload URLs and web links.
pub open spec fn skip_bare_line(line: Seq<char>) -> bool {
    let t = trim_seq(line);
    t.len() == 0 || contains_seq(t, "!["@) || contains_seq(t, "/api/uploads/"@) || has_prefix(t, "http://"@)
        || has_prefix(t, "https://"@)
}

pub fn line_should_skip_bare_normalize(line: &str) -> (r: bool)
    ensures
        r == skip_bare_line(line@),
{
    let t = trim_vec(&chars_of(line));
    t.len() == 0 || contains(&t, &chars_of("![")) || contains(&t, &chars_of("/api/uploads/"))
        || starts_with(&t, &chars_of("http://")) || starts_with(&t, &chars_of("https://"))
}

/// A line that is only an image file name, optionally followed by a parenthesized note.
pub open spec fn bare_image_line_pattern() -> Seq<char> {
    "(?m)^[ \\t]*(?P<name>[^\\s/\\\\]+\\.(?:png|jpg|jpeg|gif|webp|bmp))(?:[ \\t]+\\([^)]+\\))?[ \\t]*$"@
}

/// An image file name wrapped in backticks.
pub open spec fn backtick_image_pattern() -> Seq<char> {
    "`([^`\\n]+\\.(?:png|jpg|jpeg|gif|webp|bmp))`"@
}

/// The markdown image resolved for a basename, when the table has one.
pub open spec fn lookup_seq(table: Seq<(Seq<char>, Seq<char>)>, key: Seq<char>) -> Option<Seq<char>>
    decreases table.len(),
{
    if table.len() == 0 {
        None
    } else if table[0].0 == key {
        Some(table[0].1)
    } else {
        lookup_seq(table.drop_first(), key)
    }
}

/// A table of `(key, value)` strings as texts.
pub open spec fn pairs_view(t: Seq<(String, String)>) -> Seq<(Seq<char>, Seq<char>)> {
    t.map_values(|p: (String, String)| (p.0@, p.1@))
}

fn lookup(table: &Vec<(String, String)>, key: &Vec<char>) -> (r: Option<String>)
    ensures
        match r { Some(x) => Some(x@), None => None } == lookup_seq(pairs_view(table@), key@),
{
    let ghost tv = pairs_view(table@);
    let mut i: usize = 0;
    assert(tv.subrange(0, tv.len() as int) =~= tv);
    while i < table.len()
        invariant
            i <= table.len(),
            tv == pairs_view(table@),
            lookup_seq(tv, key@) == lookup_seq(tv.subrange(i as int, tv.len() as int), key@),
        decreases table.len() - i,
    {
        let ghost sub = tv.subrange(i as int, tv.len() as int);
        assert(sub[0] == (table@[i as int].0@, table@[i as int].1@));
        assert(sub.drop_first() =~= tv.subrange(i + 1, tv.len() as int));
        if vec_eq(&chars_of(table[i].0.as_str()), key) {
            return Some(table[i].1.clone());
        }
        i += 1;
    }
    assert(tv.subrange(i as int, tv.len() as int) =~= Seq::<(Seq<char>, Seq<char>)>::empty());
    None
}

/// The bare image name a line holds, when it is not skipped.
pub open spec fn bare_line_name(line: Seq<char>) -> Option<Seq<char>> {
    if skip_bare_line(line) {
        None
    } else {
        first_group(regex_matches(bare_image_line_pattern(), trim_seq(line)))
    }
}

/// Bare-name lines rewritten in order: each line naming an image found in `table`
/// is replaced (as it stands, or trimmed when it has surrounding whitespace) by the
/// markdown image everywhere in the text.
pub open spec fn rewrite_bare_lines(out: Seq<char>, ls: Seq<Seq<char>>, table: Seq<(Seq<char>, Seq<char>)>) -> Seq<char>
    decreases ls.len(),
{
    if ls.len() == 0 {
        out
    } else {
        let line = ls[0];
        let next = match bare_line_name(line) {
            Some(name) => match lookup_seq(table, name) {
                Some(md) => if line == trim_seq(line) {
                    replace_all_seq(out, line, md)
                } else {
                    replace_all_seq(out, trim_seq(line), md)
                },
                None => out,
            },
            None => out,
        };
        rewrite_bare_lines(next, ls.drop_first(), table)
    }
}

/// The image names held by bare-name lines, in order.
pub open spec fn bare_names(ls: Seq<Seq<char>>) -> Seq<Seq<char>>
    decreases ls.len(),
{
    if ls.len() == 0 {
        Seq::empty()
    } else {
        let rest = bare_names(ls.drop_last());
        match bare_line_name(ls.last()) {
            Some(n) => rest.push(n),
            None => rest,
        }
    }
}

/// The image names of the bare-name lines of `text`, in order, for resolution.
pub fn bare_image_line_names(text: &str) -> (r: Vec<String>)
    ensures
        r@.map_values(|s: String| s@) == bare_names(lines_seq(text@)),
{
    let lines = lines_vec(&chars_of(text));
    let ghost lv = lines@.map_values(|l: Vec<char>| l@);
    let mut names: Vec<String> = Vec::new();
    let mut i: usize = 0;
    assert(names@.map_values(|s: String| s@) =~= bare_names(lv.subrange(0, 0)));
    while i < lines.len()
        invariant
            i <= lines.len(),
            lv == lines@.map_values(|l: Vec<char>| l@),
            lv == lines_seq(text@),
            names@.map_values(|s: String| s@) == bare_names(lv.subrange(0, i as int)),
        decreases lines.len() - i,
    {
        let ghost sub = lv.subrange(0, i + 1);
        assert(sub.drop_last() =~= lv.subrange(0, i as int));
        assert(sub.last() == lines@[i as int]@);
        let ghost before = names@.map_values(|s: String| s@);
        match bare_name_of(&lines[i]) {
            Some(n) => {
                names.push(n);
                assert(names@.map_values(|s: String| s@) =~= before.push(n@));
            },
            None => {},
        }
        i += 1;
    }
    assert(lv.subrange(0, lv.len() as int) =~= lv);
    names
}

fn bare_name_of(line: &Vec<char>) -> (r: Option<String>)
    ensures
        match r { Some(x) => Some(x@), None => None } == bare_line_name(line@),
{
    let ls = string_of(line);
    if line_should_skip_bare_normalize(ls.as_str()) {
        return None;
    }
    let t = string_of(&trim_vec(line));
    first_capture(
        "(?m)^[ \\t]*(?P<name>[^\\s/\\\\]+\\.(?:png|jpg|jpeg|gif|webp|bmp))(?:[ \\t]+\\([^)]+\\))?[ \\t]*$",
        t.as_str(),
    )
}

/// Rewrites bare image-name lines of `text` with the markdown images of `table`
/// (basename to `![name](path)`).
pub fn normalize_bare_image_lines(text: &str, table: &Vec<(String, String)>) -> (r: String)
    ensures
        r@ == rewrite_bare_lines(text@, lines_seq(text@), pairs_view(table@)),
{
    let tv = chars_of(text);
    let lines = lines_vec(&tv);
    let ghost lv = lines@.map_values(|l: Vec<char>| l@);
    let mut out = tv.clone();
    let mut i: usize = 0;
    assert(lv.subrange(0, lv.len() as int) =~= lv);
    while i < lines.len()
        invariant
            i <= lines.len(),
            lv == lines@.map_values(|l: Vec<char>| l@),
            lv == lines_seq(text@),
            rewrite_bare_lines(text@, lv, pairs_view(table@)) == rewrite_bare_lines(
                out@,
                lv.subrange(i as int, lv.len() as int),
                pairs_view(table@),
            ),
        decreases lines.len() - i,
    {
        let ghost sub = lv.subrange(i as int, lv.len() as int);
        assert(sub[0] == lines@[i as int]@);
        assert(sub.drop_first() =~= lv.subrange(i + 1, lv.len() as int));
        let line = &lines[i];
        match bare_name_of(line) {
            Some(name) => {
                match lookup(table, &chars_of(name.as_str())) {
                    Some(md) => {
                        let t = trim_vec(line);
                        let mdv = chars_of(md.as_str());
                        if vec_eq(line, &t) {
                            out = replace_all_vec(&out, line, &mdv);
                        } else {
                            out = replace_all_vec(&out, &t, &mdv);
                        }
                    },
                    None => {},
                }
            },
            None => {},
        }
        i += 1;
    }
    assert(lv.subrange(i as int, lv.len() as int) =~= Seq::<Seq<char>>::empty());
    string_of(&out)
}

/// The backticked image names of `text` with their tokens, skipping names already
/// shown as markdown images.
pub open spec fn backtick_candidates(out: Seq<char>, ms: Seq<(Seq<char>, Option<Seq<char>>)>) -> Seq<(Seq<char>, Seq<char>)>
    decreases ms.len(),
{
    if ms.len() == 0 {
        Seq::empty()
    } else {
        let rest = backtick_candidates(out, ms.drop_last());
        match ms.last().1 {
            Some(name) => if contains_seq(out, "!["@ + name + "]"@) {
                rest
            } else {
                rest.push((ms.last().0, name))
            },
            None => rest,
        }
    }
}

/// Backticked rewrites: for each candidate whose name the table resolves, the token
/// and its markdown image, the first of equal tokens kept.
pub open spec fn backtick_rewrites(cands: Seq<(Seq<char>, Seq<char>)>, table: Seq<(Seq<char>, Seq<char>)>) -> Seq<(Seq<char>, Seq<char>)>
    decreases cands.len(),
{
    if cands.len() == 0 {
        Seq::empty()
    } else {
        let rest = backtick_rewrites(cands.drop_last(), table);
        let (token, name) = cands.last();
        match lookup_seq(table, name) {
            Some(md) => if lookup_seq(rest, token) is Some {
                rest
            } else {
                rest.push((token, md))
            },
            None => rest,
        }
    }
}

/// The rewrites applied in order, each replacing every occurrence.
pub open spec fn apply_rewrites(out: Seq<char>, rw: Seq<(Seq<char>, Seq<char>)>) -> Seq<char>
    decreases rw.len(),
{
    if rw.len() == 0 {
        out
    } else {
        replace_all_seq(apply_rewrites(out, rw.drop_last()), rw.last().0, rw.last().1)
    }
}

/// Backticked image names of `text` (already-shown images skipped), for resolution.
pub fn backtick_image_names(text: &str) -> (r: Vec<String>)
    ensures
        r@.map_values(|s: String| s@) == backtick_candidates(text@, regex_matches(backtick_image_pattern(), text@)).map_values(
            |c: (Seq<char>, Seq<char>)| c.1,
        ),
{
    let cands = backtick_candidate_list(text);
    let mut names: Vec<String> = Vec::new();
    let mut i: usize = 0;
    while i < cands.len()
        invariant
            i <= cands.len(),
            names@.len() == i,
            forall|k: int| 0 <= k < i ==> #[trigger] names@[k]@ == cands@[k].1@,
        decreases cands.len() - i,
    {
        names.push(cands[i].1.clone());
        i += 1;
    }
    assert(names@.map_values(|s: String| s@) =~= pairs_view(cands@).map_values(|c: (Seq<char>, Seq<char>)| c.1));
    names
}

fn backtick_candidate_list(text: &str) -> (r: Vec<(String, String)>)
    ensures
        pairs_view(r@) == backtick_candidates(text@, regex_matches(backtick_image_pattern(), text@)),
{
    proof {
        reveal_strlit("`([^`\\n]+\\.(?:png|jpg|jpeg|gif|webp|bmp))`");
    }
    let ms = regex_captures("`([^`\\n]+\\.(?:png|jpg|jpeg|gif|webp|bmp))`", text);
    let ghost mv = matches_view(ms@);
    let tv = chars_of(text);
    let mut out: Vec<(String, String)> = Vec::new();
    let mut i: usize = 0;
    assert(pairs_view(out@) =~= backtick_candidates(tv@, mv.subrange(0, 0)));
    while i < ms.len()
        invariant
            i <= ms.len(),
            mv == matches_view(ms@),
            tv@ == text@,
            pairs_view(out@) == backtick_candidates(tv@, mv.subrange(0, i as int)),
        decreases ms.len() - i,
    {
        let ghost sub = mv.subrange(0, i + 1);
        assert(sub.drop_last() =~= mv.subrange(0, i as int));
        match &ms[i].1 {
            Some(name) => {
                let mut shown = chars_of("![");
                append_str(&mut shown, name.as_str());
                shown.push(']');
                assert(shown@ =~= "!["@ + name@ + "]"@) by {
                    reveal_strlit("]");
                    assert("]"@ =~= seq![']']);
                }
                if !contains(&tv, &shown) {
                    let ghost before = pairs_view(out@);
                    out.push((ms[i].0.clone(), name.clone()));
                    assert(pairs_view(out@) =~= before.push((ms@[i as int].0@, name@)));
                }
            },
            None => {},
        }
        i += 1;
    }
    assert(mv.subrange(0, mv.len() as int) =~= mv);
    out
}

/// Rewrite bare image filename lines, then backticked image names, into markdown
/// images with the canonical paths of `table` (basename to `![name](path)`; a name
/// the table does not hold is left as it is).
pub fn normalize_assistant_artifact_references(text: &str, table: &Vec<(String, String)>) -> (r: String)
    ensures
        ({
            let out = rewrite_bare_lines(text@, lines_seq(text@), pairs_view(table@));
            let cands = backtick_candidates(out, regex_matches(backtick_image_pattern(), out));
            r@ == apply_rewrites(out, backtick_rewrites(cands, pairs_view(table@)))
        }),
{
    let out = normalize_bare_image_lines(text, table);
    let cands = backtick_candidate_list(out.as_str());
    let ghost cv = pairs_view(cands@);
    let mut rewrites: Vec<(String, String)> = Vec::new();
    let mut i: usize = 0;
    assert(pairs_view(rewrites@) =~= backtick_rewrites(cv.subrange(0, 0), pairs_view(table@)));
    while i < cands.len()
        invariant
            i <= cands.len(),
            cv == pairs_view(cands@),
            pairs_view(rewrites@) == backtick_rewrites(cv.subrange(0, i as int), pairs_view(table@)),
        decreases cands.len() - i,
    {
        let ghost sub = cv.subrange(0, i + 1);
        assert(sub.drop_last() =~= cv.subrange(0, i as int));
        assert(sub.last() == (cands@[i as int].0@, cands@[i as int].1@));
        match lookup(table, &chars_of(cands[i].1.as_str())) {
            Some(md) => {
                if lookup(&rewrites, &chars_of(cands[i].0.as_str())).is_none() {
                    let ghost before = pairs_view(rewrites@);
                    rewrites.push((cands[i].0.clone(), md));
                    assert(pairs_view(rewrites@) =~= before.push((cands@[i as int].0@, md@)));
                }
            },
            None => {},
        }
        i += 1;
    }
    assert(cv.subrange(0, cv.len() as int) =~= cv);
    let r = apply_rewrite_list(out.as_str(), &rewrites);
    r
}

fn apply_rewrite_list(text: &str, rw: &Vec<(String, String)>) -> (r: String)
    ensures
        r@ == apply_rewrites(text@, pairs_view(rw@)),
{
    let ghost rv = pairs_view(rw@);
    let mut out = chars_of(text);
    let mut i: usize = 0;
    assert(rv.subrange(0, 0) =~= Seq::<(Seq<char>, Seq<char>)>::empty());
    while i < rw.len()
        invariant
            i <= rw.len(),
            rv == pairs_view(rw@),
            out@ == apply_rewrites(text@, rv.subrange(0, i as int)),
        decreases rw.len() - i,
    {
        let ghost sub = rv.subrange(0, i + 1);
        assert(sub.drop_last() =~= rv.subrange(0, i as int));
        out = replace_all_vec(&out, &chars_of(rw[i].0.as_str()), &chars_of(rw[i].1.as_str()));
        i += 1;
    }
    assert(rv.subrange(0, rv.len() as int) =~= rv);
    string_of(&out)
}

/// The markdown image shown for a resolved artifact: `![<basename>](<path>)`.
pub fn markdown_image_for_basename(basename: &str, path: &str) -> (r: String)
    ensures
        r@ == "!["@ + basename@ + "]("@ + path@ + ")"@,
{
    let mut v = chars_of("![");
    append_str(&mut v, basename);
    append_str(&mut v, "](");
    append_str(&mut v, path);
    append_str(&mut v, ")");
    string_of(&v)
}

// ---------------------------------------------------------------------------
// Web delivery copies
// ---------------------------------------------------------------------------

/// A character kept in a stored file name.
pub open spec fn safe_name_char(c: char) -> bool {
    ('a' <= c && c <= 'z') || ('A' <= c && c <= 'Z') || ('0' <= c && c <= '9') || c == '.' || c == '-'
        || c == '_'
}

/// Every other character replaced by `_`.
pub open spec fn sanitize_seq(name: Seq<char>) -> Seq<char> {
    name.map_values(|c: char| if safe_name_char(c) { c } else { '_' })
}

/// The stored name of a delivered file: unsafe characters become `_`; an empty name
/// becomes `web-upload.bin`. The result is never empty and holds only safe
/// characters.
pub fn sanitize_delivery_upload_filename(name: &str) -> (r: String)
    ensures
        name@.len() > 0 ==> r@ == sanitize_seq(name@),
        name@.len() == 0 ==> r@ == "web-upload.bin"@,
        r@.len() > 0,
        forall|i: int| 0 <= i < r@.len() ==> safe_name_char(#[trigger] r@[i]),
{
    let v = chars_of(name);
    if v.len() == 0 {
        proof {
            reveal_strlit("web-upload.bin");
        }
        let r = String::from_str("web-upload.bin");
        assert(r@ =~= seq!['w', 'e', 'b', '-', 'u', 'p', 'l', 'o', 'a', 'd', '.', 'b', 'i', 'n']);
        return r;
    }
    let mut out: Vec<char> = Vec::new();
    let mut i: usize = 0;
    while i < v.len()
        invariant
            i <= v.len(),
            out@ == sanitize_seq(v@.subrange(0, i as int)),
            forall|k: int| 0 <= k < out@.len() ==> safe_name_char(#[trigger] out@[k]),
        decreases v.len() - i,
    {
        let c = v[i];
        let keep = ('a' <= c && c <= 'z') || ('A' <= c && c <= 'Z') || ('0' <= c && c <= '9') || c == '.'
            || c == '-' || c == '_';
        out.push(if keep { c } else { '_' });
        assert(out@ =~= sanitize_seq(v@.subrange(0, i + 1)));
        i += 1;
    }
    assert(v@.subrange(0, v@.len() as int) =~= v@);
    string_of(&out)
}

/// `<root>/shared/upload/web/<chat>/<persona>`.
pub open spec fn web_upload_dir_seq(root: Seq<char>, chat_id: i64, persona_id: i64) -> Seq<char> {
    path_join_seq(
        path_join_seq(
            path_join_seq(path_join_seq(path_join_seq(root, "shared"@), "upload"@), "web"@),
            signed_decimal_seq(chat_id as int),
        ),
        signed_decimal_seq(persona_id as int),
    )
}

pub fn web_upload_dir_for_persona(workspace_root: &str, chat_id: i64, persona_id: i64) -> (r: String)
    ensures
        r@ == web_upload_dir_seq(workspace_root@, chat_id, persona_id),
{
    let root = chars_of(workspace_root);
    let d = path_join_str(&path_join_str(&path_join_str(&root, "shared"), "upload"), "web");
    string_of(&path_join_id(&path_join_id(&d, chat_id), persona_id))
}

/// The name a delivered copy is stored under: `<timestamp>-bot-<sanitized name>`,
/// with `attachment.bin` for a source without a file name.
pub fn stored_delivery_name(timestamp: &str, file_name: Option<&str>) -> (r: String)
    ensures
        r@ == timestamp@ + "-bot-"@ + (match file_name {
            Some(n) => if n@.len() > 0 { sanitize_seq(n@) } else { "web-upload.bin"@ },
            None => sanitize_seq("attachment.bin"@),
        }),
{
    let safe = match file_name {
        Some(n) => sanitize_delivery_upload_filename(n),
        None => {
            proof {
                reveal_strlit("attachment.bin");
            }
            sanitize_delivery_upload_filename("attachment.bin")
        },
    };
    let mut v = chars_of(timestamp);
    append_str(&mut v, "-bot-");
    append_str(&mut v, safe.as_str());
    string_of(&v)
}

/// The URL a delivered copy is served at: `/api/uploads/web/<chat>/<persona>/<name>`.
pub fn web_delivery_url(chat_id: i64, persona_id: i64, stored_name: &str) -> (r: String)
    ensures
        r@ == "/api/uploads/web/"@ + signed_decimal_seq(chat_id as int) + "/"@ + signed_decimal_seq(
            persona_id as int,
        ) + "/"@ + stored_name@,
{
    let mut v = chars_of("/api/uploads/web/");
    append_vec(&mut v, &i64_decimal(chat_id));
    append_str(&mut v, "/");
    append_vec(&mut v, &i64_decimal(persona_id));
    append_str(&mut v, "/");
    append_str(&mut v, stored_name);
    string_of(&v)
}

/// Internal upload URLs in a text.
pub open spec fn upload_url_pattern() -> Seq<char> {
    "/api/uploads/[^\\s\\)\\]\\(<>\"']+"@
}

/// The internal upload URLs of `text`, in order.
pub fn extract_upload_urls_from_text(text: &str) -> (r: Vec<String>)
    ensures
        r@.map_values(|s: String| s@) == regex_matches(upload_url_pattern(), text@).map_values(
            |m: (Seq<char>, Option<Seq<char>>)| m.0,
        ),
{
    let ms = regex_captures("/api/uploads/[^\\s\\)\\]\\(<>\"']+", text);
    let ghost mv = matches_view(ms@);
    let mut out: Vec<String> = Vec::new();
    let mut i: usize = 0;
    while i < ms.len()
        invariant
            i <= ms.len(),
            mv == matches_view(ms@),
            out@.len() == i,
            forall|k: int| 0 <= k < i ==> #[trigger] out@[k]@ == mv[k].0,
        decreases ms.len() - i,
    {
        out.push(ms[i].0.clone());
        i += 1;
    }
    assert(out@.map_values(|s: String| s@) =~= mv.map_values(|m: (Seq<char>, Option<Seq<char>>)| m.0));
    out
}

/// Where an internal upload URL's file may be: the shared upload directory and, with
/// a working directory, its legacy `uploads` directory. `None` for a URL that is not
/// an internal upload (it needs no file).
pub fn upload_rel_url_paths(workspace_root: &str, working_dir: Option<&str>, rel_url: &str) -> (r: Option<(String, Option<String>)>)
    ensures
        match strip_prefix_seq(rel_url@, "/api/uploads/"@) {
            None => r is None,
            Some(rel) => r matches Some((shared, legacy)) && shared@ == path_join_seq(
                path_join_seq(path_join_seq(workspace_root@, "shared"@), "upload"@),
                rel,
            ) && match working_dir {
                Some(d) => legacy matches Some(l) && l@ == path_join_seq(path_join_seq(d@, "uploads"@), rel),
                None => legacy is None,
            },
        },
{
    let u = chars_of(rel_url);
    match strip_prefix_vec(&u, "/api/uploads/") {
        None => None,
        Some(rel) => {
            let root = chars_of(workspace_root);
            let shared = string_of(&path_join(&path_join_str(&path_join_str(&root, "shared"), "upload"), &rel));
            let legacy = match working_dir {
                Some(d) => Some(string_of(&path_join(&path_join_str(&chars_of(d), "uploads"), &rel))),
                None => None,
            };
            Some((shared, legacy))
        },
    }
}

/// A link target worth resolving locally: trimmed of whitespace, quotes and angle
/// brackets; `None` for in-page anchors and `mailto:` links.
pub fn delivery_local_ref(raw: &str) -> (r: Option<String>)
    ensures
        ({
            let t = trim_artifact_ref_seq(raw@);
            if (t.len() > 0 && t[0] == '#') || has_prefix(t, "mailto:"@) {
                r is None
            } else {
                r matches Some(x) && x@ == t
            }
        }),
{
    let t = trim_artifact_ref(raw);
    if (t.len() > 0 && t[0] == '#') || starts_with(&t, &chars_of("mailto:")) {
        None
    } else {
        Some(string_of(&t))
    }
}

/// `s` without the entries equal to `x`, in order.
pub open spec fn without_seq(s: Seq<Seq<char>>, x: Seq<char>) -> Seq<Seq<char>>
    decreases s.len(),
{
    if s.len() == 0 {
        Seq::empty()
    } else if s.last() == x {
        without_seq(s.drop_last(), x)
    } else {
        without_seq(s.drop_last(), x).push(s.last())
    }
}

/// The fallback names tried for a missing file: the basename variants other than the
/// basename itself.
pub fn basename_fallbacks_to_try(basename: &str) -> (r: Vec<String>)
    ensures
        r@.map_values(|s: String| s@) == without_seq(fallback_candidates_seq(basename@), basename@),
{
    let all = artifact_basename_fallback_candidates(basename);
    let ghost av = all@.map_values(|s: String| s@);
    let b = chars_of(basename);
    let mut out: Vec<String> = Vec::new();
    let mut i: usize = 0;
    assert(out@.map_values(|s: String| s@) =~= without_seq(av.subrange(0, 0), basename@));
    while i < all.len()
        invariant
            i <= all.len(),
            av == all@.map_values(|s: String| s@),
            b@ == basename@,
            out@.map_values(|s: String| s@) == without_seq(av.subrange(0, i as int), basename@),
        decreases all.len() - i,
    {
        let ghost sub = av.subrange(0, i + 1);
        assert(sub.drop_last() =~= av.subrange(0, i as int));
        let ghost before = out@.map_values(|s: String| s@);
        if !vec_eq(&chars_of(all[i].as_str()), &b) {
            out.push(all[i].clone());
            assert(out@.map_values(|s: String| s@) =~= before.push(av[i as int]));
        }
        i += 1;
    }
    assert(av.subrange(0, av.len() as int) =~= av);
    out
}

/// The last path segment of a URL (`rsplit('/').next()`).
pub open spec fn last_segment_seq(url: Seq<char>) -> Seq<char> {
    let k = rfind_seq(url, seq!['/']);
    if k < 0 {
        url
    } else {
        url.subrange(k + 1, url.len() as int)
    }
}

pub fn upload_url_basename(url: &str) -> (r: String)
    ensures
        r@ == last_segment_seq(url@),
{
    let u = chars_of(url);
    let slash = vec!['/'];
    assert(slash@ =~= seq!['/']);
    proof {
        lemma_rfind_seq(u@, seq!['/']);
    }
    match rfind(&u, &slash) {
        Some(k) => {
            assert(k + 1 <= u.len());
            string_of(&subvec(&u, k + 1, u.len()))
        },
        None => string_of(&u),
    }
}

/// Markdown link targets `](target)`.
pub open spec fn markdown_link_pattern() -> Seq<char> {
    "\\]\\(([^)\\n]+)\\)"@
}

/// Parenthesized targets `(target)`.
pub open spec fn parenthesized_target_pattern() -> Seq<char> {
    "\\(([^()\\n]+)\\)"@
}

/// The first capture groups of a list of matches.
pub open spec fn groups_of(ms: Seq<(Seq<char>, Option<Seq<char>>)>) -> Seq<Seq<char>>
    decreases ms.len(),
{
    if ms.len() == 0 {
        Seq::empty()
    } else {
        let rest = groups_of(ms.drop_last());
        match ms.last().1 {
            Some(g) => rest.push(g),
            None => rest,
        }
    }
}

fn groups_exec(ms: &Vec<(String, Option<String>)>, out: &mut Vec<String>)
    ensures
        final(out)@.map_values(|s: String| s@) == old(out)@.map_values(|s: String| s@) + groups_of(
            matches_view(ms@),
        ),
{
    let ghost mv = matches_view(ms@);
    let ghost start = out@.map_values(|s: String| s@);
    let mut i: usize = 0;
    assert(mv.subrange(0, 0) =~= Seq::<(Seq<char>, Option<Seq<char>>)>::empty());
    assert(start + groups_of(mv.subrange(0, 0)) =~= start);
    while i < ms.len()
        invariant
            i <= ms.len(),
            mv == matches_view(ms@),
            out@.map_values(|s: String| s@) == start + groups_of(mv.subrange(0, i as int)),
        decreases ms.len() - i,
    {
        let ghost sub = mv.subrange(0, i + 1);
        assert(sub.drop_last() =~= mv.subrange(0, i as int));
        let ghost before = out@.map_values(|s: String| s@);
        match &ms[i].1 {
            Some(g) => {
                out.push(g.clone());
                assert(out@.map_values(|s: String| s@) =~= before.push(g@));
            },
            None => {},
        }
        i += 1;
    }
    assert(mv.subrange(0, mv.len() as int) =~= mv);
}

/// The link targets of a response, in the order they are materialized: markdown
/// link targets, then parenthesized targets.
pub fn link_targets(response: &str) -> (r: Vec<String>)
    ensures
        r@.map_values(|s: String| s@) == groups_of(regex_matches(markdown_link_pattern(), response@))
            + groups_of(regex_matches(parenthesized_target_pattern(), response@)),
{
    let mut out: Vec<String> = Vec::new();
    assert(out@.map_values(|s: String| s@) =~= Seq::<Seq<char>>::empty());
    let a = regex_captures("\\]\\(([^)\\n]+)\\)", response);
    groups_exec(&a, &mut out);
    let b = regex_captures("\\(([^()\\n]+)\\)", response);
    groups_exec(&b, &mut out);
    out
}

/// Each `(target)` of the response replaced by `(url)`, rewrite by rewrite.
pub open spec fn apply_link_rewrites_seq(text: Seq<char>, rw: Seq<(Seq<char>, Seq<char>)>) -> Seq<char>
    decreases rw.len(),
{
    if rw.len() == 0 {
        text
    } else {
        let prev = apply_link_rewrites_seq(text, rw.drop_last());
        replace_all_seq(prev, seq!['('] + rw.last().0 + seq![')'], seq!['('] + rw.last().1 + seq![')'])
    }
}

/// Rewrites `(target)` to `(url)` for each materialized target.
pub fn apply_link_rewrites(response: &str, rewrites: &Vec<(String, String)>) -> (r: String)
    ensures
        r@ == apply_link_rewrites_seq(response@, pairs_view(rewrites@)),
{
    let ghost rv = pairs_view(rewrites@);
    let mut out = chars_of(response);
    let mut i: usize = 0;
    while i < rewrites.len()
        invariant
            i <= rewrites.len(),
            rv == pairs_view(rewrites@),
            out@ == apply_link_rewrites_seq(response@, rv.subrange(0, i as int)),
        decreases rewrites.len() - i,
    {
        let ghost sub = rv.subrange(0, i + 1);
        assert(sub.drop_last() =~= rv.subrange(0, i as int));
        let mut from = vec!['('];
        append_str(&mut from, rewrites[i].0.as_str());
        from.push(')');
        let mut to = vec!['('];
        append_str(&mut to, rewrites[i].1.as_str());
        to.push(')');
        assert(from@ =~= seq!['('] + rv[i as int].0 + seq![')']);
        assert(to@ =~= seq!['('] + rv[i as int].1 + seq![')']);
        out = replace_all_vec(&out, &from, &to);
        i += 1;
    }
    assert(rv.subrange(0, rv.len() as int) =~= rv);
    string_of(&out)
}

/// Every occurrence of a missing upload URL replaced by its materialized copy's URL.
pub fn replace_upload_url(text: &str, url: &str, replacement: &str) -> (r: String)
    ensures
        r@ == replace_all_seq(text@, url@, replacement@),
{
    string_of(&replace_all_vec(&chars_of(text), &chars_of(url), &chars_of(replacement)))
}

} // verus!
