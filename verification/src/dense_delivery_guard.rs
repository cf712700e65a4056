//! Persona-gated dense delivery: over-limit replies are spilled to a PDF offered
//! through a public HTTPS URL; the chat gets a natural summary that never shows
//! local or internal paths.
use vstd::prelude::*;
use vstd::string::StrSliceExecFns;
use crate::config::Config;
use crate::db::Persona;
use crate::safety_redaction::{redact_seq, EnvSecretRedactor};
use crate::json::{entries_get, entries_index, entries_index_exec, json_parse, json_value_of, JsonModel, JsonValue};
use crate::ip_literal::{ip_internal_seq, ip_literal_internal};
use crate::text::{
    before_set, before_set_vec, first_in_set, has_suffix, rfind, rfind_seq, trim_end_set,
    trim_end_set_vec, has_ws, trim_set, trim_set_vec, trim_start_set, trim_start_set_vec,
    all_ascii_alnum, is_ascii_alnum, trim_start_vec, trim_end_vec, starts_with, ends_with, contains, lemma_rfind_seq,
    append_vec, chars_of, contains_seq, find, find_seq, has_prefix, is_ws, lemma_find_seq,
    lines_seq, lines_vec, lower_seq, replace_all_seq, replace_all_vec, lower_vec, occurs_at, string_of, subvec, take_chars,
    take_vec, trim_seq, trim_vec, vec_eq, char_is_ws, append_str, has_char, any_ascii_digit,
    byte_len, byte_len_capped,
};

verus! {

broadcast use vstd::string::group_string_axioms;

pub const DEFAULT_MESSAGING_MAX_CHARS: usize = 2000;
pub const DEFAULT_WEB_MAX_CHARS: usize = 1000;
pub const DEFAULT_SUMMARY_CHARS: usize = 1200;
/// Upload attempts before giving up on a public URL.
pub const UPLOAD_ATTEMPTS: u32 = 2;

/// Channels that deliver through an outside messaging app.
pub open spec fn spec_is_messaging(channel: Seq<char>) -> bool {
    let l = lower_seq(trim_seq(channel));
    l == "telegram"@ || l == "discord"@ || l == "whatsapp"@ || l == "wecom"@
}

/// True for telegram, discord, whatsapp and wecom (case and surrounding whitespace ignored).
pub fn is_messaging_channel(caller_channel: &str) -> (r: bool)
    ensures
        r == spec_is_messaging(caller_channel@),
{
    let c = lower_vec(&trim_vec(&chars_of(caller_channel)));
    vec_eq(&c, &chars_of("telegram")) || vec_eq(&c, &chars_of("discord")) || vec_eq(
        &c,
        &chars_of("whatsapp"),
    ) || vec_eq(&c, &chars_of("wecom"))
}

/// `value` when it is positive, else `default`.
pub open spec fn spec_positive_or_default(value: Option<i64>, default: usize) -> usize {
    match value {
        Some(n) => if n > 0 {
            n as usize
        } else {
            default
        },
        None => default,
    }
}

fn positive_or_default(value: Option<i64>, default: usize) -> (r: usize)
    ensures
        r == spec_positive_or_default(value, default),
{
    match value {
        Some(n) => if n > 0 {
            n as usize
        } else {
            default
        },
        None => default,
    }
}

/// The character cap of a persona on a channel.
pub open spec fn spec_max_chars(persona: Persona, channel: Seq<char>) -> usize {
    if spec_is_messaging(channel) {
        spec_positive_or_default(persona.dense_delivery_messaging_max_chars, DEFAULT_MESSAGING_MAX_CHARS)
    } else {
        spec_positive_or_default(persona.dense_delivery_web_max_chars, DEFAULT_WEB_MAX_CHARS)
    }
}

/// Messaging channels use the persona's messaging cap (default 2000), other channels
/// its web cap (default 1000); non-positive overrides fall back to the default.
pub fn effective_max_chars(persona: &Persona, caller_channel: &str) -> (r: usize)
    ensures
        r == spec_max_chars(*persona, caller_channel@),
{
    if is_messaging_channel(caller_channel) {
        positive_or_default(persona.dense_delivery_messaging_max_chars, DEFAULT_MESSAGING_MAX_CHARS)
    } else {
        positive_or_default(persona.dense_delivery_web_max_chars, DEFAULT_WEB_MAX_CHARS)
    }
}

/// A persona's cap is its own positive override for the kind of channel: on
/// Telegram, Discord, WhatsApp and WeCom (case and surrounding whitespace ignored)
/// the messaging override, else 2000; on any other channel the web override, else
/// 1000. A missing or non-positive override gives the default.
pub proof fn lemma_max_chars_uses_override(persona: Persona, channel: Seq<char>)
    ensures
        ({
            let l = lower_seq(trim_seq(channel));
            let messaging = l == "telegram"@ || l == "discord"@ || l == "whatsapp"@ || l == "wecom"@;
            let over = if messaging {
                persona.dense_delivery_messaging_max_chars
            } else {
                persona.dense_delivery_web_max_chars
            };
            let default: usize = if messaging { 2000 } else { 1000 };
            spec_max_chars(persona, channel) == (match over {
                Some(n) => if n > 0 { n as usize } else { default },
                None => default,
            })
        }),
{
}

/// The persona's summary length (default 1200).
pub fn effective_summary_chars(persona: &Persona) -> (r: usize)
    ensures
        r == spec_positive_or_default(persona.dense_delivery_summary_chars, DEFAULT_SUMMARY_CHARS),
{
    positive_or_default(persona.dense_delivery_summary_chars, DEFAULT_SUMMARY_CHARS)
}

// ---------------------------------------------------------------------------
// Local path leak removal
// ---------------------------------------------------------------------------

/// The text that replaces a leaked local path.
pub open spec fn path_mark() -> Seq<char> {
    "[local path omitted]"@
}

/// Characters that end a leaked path.
pub open spec fn is_path_end(c: char) -> bool {
    is_ws(c) || c == ')' || c == ']' || c == '>'
}

/// Length of the leading run of `s` that holds no path-ending character.
pub open spec fn path_end(s: Seq<char>) -> int
    decreases s.len(),
{
    if s.len() == 0 {
        0
    } else if is_path_end(s[0]) {
        0
    } else {
        1 + path_end(s.drop_first())
    }
}

/// Every occurrence of `n` in `s`, together with the rest of its path, replaced by
/// the mark, left to right.
pub open spec fn strip_needle_seq(s: Seq<char>, n: Seq<char>) -> Seq<char>
    decreases s.len(),
{
    let i = find_seq(s, n);
    if i < 0 || n.len() == 0 || i > s.len() {
        s
    } else {
        let rest = s.subrange(i, s.len() as int);
        let e = path_end(rest);
        if e <= 0 || e > rest.len() {
            s
        } else {
            s.subrange(0, i) + path_mark() + strip_needle_seq(
                rest.subrange(e, rest.len() as int),
                n,
            )
        }
    }
}

/// The markers of a local or internal path, in the order they are removed.
pub open spec fn leak_needles() -> Seq<Seq<char>> {
    seq![
        "/home/"@,
        "/api/uploads/"@,
        "file://"@,
        "http://127.0.0.1"@,
        "https://127.0.0.1"@,
        "http://localhost"@,
        "https://localhost"@,
    ]
}

/// `s` with the first `k` needles stripped in order.
pub open spec fn strip_leaks_upto(s: Seq<char>, k: nat) -> Seq<char>
    decreases k,
{
    if k == 0 {
        s
    } else {
        strip_needle_seq(strip_leaks_upto(s, (k - 1) as nat), leak_needles()[k - 1])
    }
}

/// `s` with every local path marker and the rest of its path replaced.
pub open spec fn strip_leaks_seq(s: Seq<char>) -> Seq<char> {
    strip_leaks_upto(s, 7)
}

/// `s` holds no local path marker.
pub open spec fn leak_free(s: Seq<char>) -> bool {
    forall|k: int| 0 <= k < 7 ==> !contains_seq(s, #[trigger] leak_needles()[k])
}

/// A needle the mark can never form or hide: non-empty, starting with a character
/// that does not end a path, holding a `'/'` and no bracket.
pub open spec fn well_formed_needle(n: Seq<char>) -> bool {
    n.len() > 0 && !is_path_end(n[0]) && n.contains('/') && !n.contains('[') && !n.contains(']')
}

pub proof fn lemma_mark_facts()
    ensures
        path_mark().len() == 20,
        path_mark()[0] == '[',
        path_mark()[19] == ']',
        !path_mark().contains('/'),
{
    reveal_strlit("[local path omitted]");
    assert(path_mark() =~= seq!['[', 'l', 'o', 'c', 'a', 'l', ' ', 'p', 'a', 't', 'h', ' ', 'o', 'm', 'i', 't', 't', 'e', 'd', ']']);
}

pub proof fn lemma_needles_well_formed()
    ensures
        forall|k: int| 0 <= k < 7 ==> well_formed_needle(#[trigger] leak_needles()[k]),
{
    reveal_strlit("/home/");
    reveal_strlit("/api/uploads/");
    reveal_strlit("file://");
    reveal_strlit("http://127.0.0.1");
    reveal_strlit("https://127.0.0.1");
    reveal_strlit("http://localhost");
    reveal_strlit("https://localhost");
    assert("/home/"@ =~= seq!['/', 'h', 'o', 'm', 'e', '/']);
    assert("/api/uploads/"@ =~= seq!['/', 'a', 'p', 'i', '/', 'u', 'p', 'l', 'o', 'a', 'd', 's', '/']);
    assert("file://"@ =~= seq!['f', 'i', 'l', 'e', ':', '/', '/']);
    assert("http://127.0.0.1"@ =~= seq!['h', 't', 't', 'p', ':', '/', '/', '1', '2', '7', '.', '0', '.', '0', '.', '1']);
    assert("https://127.0.0.1"@ =~= seq!['h', 't', 't', 'p', 's', ':', '/', '/', '1', '2', '7', '.', '0', '.', '0', '.', '1']);
    assert("http://localhost"@ =~= seq!['h', 't', 't', 'p', ':', '/', '/', 'l', 'o', 'c', 'a', 'l', 'h', 'o', 's', 't']);
    assert("https://localhost"@ =~= seq!['h', 't', 't', 'p', 's', ':', '/', '/', 'l', 'o', 'c', 'a', 'l', 'h', 'o', 's', 't']);
    assert forall|k: int| 0 <= k < 7 implies well_formed_needle(#[trigger] leak_needles()[k]) by {
        let n = leak_needles()[k];
        assert(n[0] == '/' || n[0] == 'f' || n[0] == 'h');
        if k == 0 { assert(n[0] == '/'); }
        if k == 1 { assert(n[0] == '/'); }
        if k == 2 { assert(n[5] == '/'); }
        if k >= 3 { assert(n[6] == '/' || n[5] == '/'); }
    }
}

pub proof fn lemma_occurs_in_subrange(s: Seq<char>, a: int, b: int, n: Seq<char>, j: int)
    requires
        0 <= a <= b <= s.len(),
        occurs_at(s.subrange(a, b), n, j),
    ensures
        occurs_at(s, n, a + j),
{
    assert(s.subrange(a, b).subrange(j, j + n.len()) =~= s.subrange(a + j, a + j + n.len()));
}

pub proof fn lemma_subrange_free(s: Seq<char>, a: int, b: int, n: Seq<char>)
    requires
        0 <= a <= b <= s.len(),
        !contains_seq(s, n),
    ensures
        !contains_seq(s.subrange(a, b), n),
{
    assert forall|j: int| !occurs_at(s.subrange(a, b), n, j) by {
        if occurs_at(s.subrange(a, b), n, j) {
            lemma_occurs_in_subrange(s, a, b, n, j);
        }
    }
}

/// Joining two needle-free texts around the mark creates no needle.
pub proof fn lemma_concat_mark_free(x: Seq<char>, y: Seq<char>, n: Seq<char>)
    requires
        well_formed_needle(n),
        !contains_seq(x, n),
        !contains_seq(y, n),
    ensures
        !contains_seq(x + path_mark() + y, n),
{
    lemma_mark_facts();
    let m = path_mark();
    let z = x + m + y;
    assert forall|i: int| !occurs_at(z, n, i) by {
        if occurs_at(z, n, i) {
            let sub = z.subrange(i, i + n.len());
            if i + n.len() <= x.len() {
                assert(z.subrange(i, i + n.len()) =~= x.subrange(i, i + n.len()));
                assert(occurs_at(x, n, i));
            } else if i >= x.len() + 20 {
                assert(z.subrange(i, i + n.len()) =~= y.subrange(i - x.len() - 20, i - x.len() - 20 + n.len()));
                assert(occurs_at(y, n, i - x.len() - 20));
            } else if i < x.len() {
                assert(sub[x.len() - i] == z[x.len() as int]);
                assert(z[x.len() as int] == '[');
                assert(n[x.len() - i] == '[');
            } else if i + n.len() > x.len() + 20 {
                assert(sub[x.len() + 19 - i] == z[x.len() + 19int]);
                assert(z[x.len() + 19int] == ']');
                assert(n[x.len() + 19 - i] == ']');
            } else {
                let w = choose|w: int| 0 <= w < n.len() && n[w] == '/';
                assert(sub[w] == z[i + w]);
                assert(z[i + w] == m[i + w - x.len()]);
                assert(m.contains('/'));
            }
        }
    }
}

pub proof fn lemma_path_end_bounds(s: Seq<char>)
    ensures
        0 <= path_end(s) <= s.len(),
    decreases s.len(),
{
    if s.len() > 0 && !is_path_end(s[0]) {
        lemma_path_end_bounds(s.drop_first());
    }
}

/// Stripping `n` leaves no occurrence of `n`.
pub proof fn lemma_strip_needle_removes(s: Seq<char>, n: Seq<char>)
    requires
        well_formed_needle(n),
    ensures
        !contains_seq(strip_needle_seq(s, n), n),
    decreases s.len(),
{
    lemma_find_seq(s, n);
    let i = find_seq(s, n);
    if i >= 0 {
        let rest = s.subrange(i, s.len() as int);
        lemma_path_end_bounds(rest);
        assert(rest[0] == n[0]) by {
            assert(s.subrange(i, i + n.len())[0] == n[0]);
        }
        assert(rest.len() > 0);
        lemma_path_end_bounds(rest.drop_first());
        assert(path_end(rest) >= 1);
        let e = path_end(rest);
        let tail = rest.subrange(e, rest.len() as int);
        lemma_strip_needle_removes(tail, n);
        let pre = s.subrange(0, i);
        assert forall|j: int| !occurs_at(pre, n, j) by {
            if occurs_at(pre, n, j) {
                lemma_occurs_in_subrange(s, 0, i, n, j);
            }
        }
        lemma_concat_mark_free(pre, strip_needle_seq(tail, n), n);
    }
}

/// Stripping `n` from a text free of another needle `m` keeps it free of `m`.
pub proof fn lemma_strip_needle_keeps(s: Seq<char>, n: Seq<char>, m: Seq<char>)
    requires
        well_formed_needle(m),
        !contains_seq(s, m),
    ensures
        !contains_seq(strip_needle_seq(s, n), m),
    decreases s.len(),
{
    let i = find_seq(s, n);
    lemma_find_seq(s, n);
    if i >= 0 && n.len() != 0 && i <= s.len() {
        let rest = s.subrange(i, s.len() as int);
        let e = path_end(rest);
        if e > 0 && e <= rest.len() {
            let tail = rest.subrange(e, rest.len() as int);
            lemma_subrange_free(s, i, s.len() as int, m);
            lemma_subrange_free(rest, e, rest.len() as int, m);
            lemma_strip_needle_keeps(tail, n, m);
            lemma_subrange_free(s, 0, i, m);
            lemma_concat_mark_free(s.subrange(0, i), strip_needle_seq(tail, n), m);
        }
    }
}

pub proof fn lemma_strip_upto_free(s: Seq<char>, k: nat)
    requires
        k <= 7,
    ensures
        forall|j: int| 0 <= j < k ==> !contains_seq(strip_leaks_upto(s, k), #[trigger] leak_needles()[j]),
    decreases k,
{
    lemma_needles_well_formed();
    if k > 0 {
        lemma_strip_upto_free(s, (k - 1) as nat);
        let prev = strip_leaks_upto(s, (k - 1) as nat);
        let n = leak_needles()[k - 1];
        lemma_strip_needle_removes(prev, n);
        assert forall|j: int| 0 <= j < k implies !contains_seq(strip_leaks_upto(s, k), #[trigger] leak_needles()[j]) by {
            if j < k - 1 {
                lemma_strip_needle_keeps(prev, n, leak_needles()[j]);
            }
        }
    }
}

/// Removing local path leaks leaves no local path marker.
pub proof fn lemma_strip_leaks_free(s: Seq<char>)
    ensures
        leak_free(strip_leaks_seq(s)),
{
    lemma_strip_upto_free(s, 7);
}

/// A text without `n` is left unchanged by stripping `n`.
pub proof fn lemma_strip_needle_identity(s: Seq<char>, n: Seq<char>)
    requires
        !contains_seq(s, n),
    ensures
        strip_needle_seq(s, n) == s,
{
    lemma_find_seq(s, n);
}

/// A leak-free text is left unchanged.
pub proof fn lemma_strip_leaks_identity(s: Seq<char>)
    requires
        leak_free(s),
    ensures
        strip_leaks_seq(s) == s,
{
    assert forall|k: nat| k <= 7 implies strip_leaks_upto(s, k) == s by {
        lemma_strip_upto_identity(s, k);
    }
}

proof fn lemma_strip_upto_identity(s: Seq<char>, k: nat)
    requires
        leak_free(s),
        k <= 7,
    ensures
        strip_leaks_upto(s, k) == s,
    decreases k,
{
    if k > 0 {
        lemma_strip_upto_identity(s, (k - 1) as nat);
        assert(!contains_seq(s, leak_needles()[k - 1]));
        lemma_strip_needle_identity(s, leak_needles()[k - 1]);
    }
}

// ---------------------------------------------------------------------------
// Public HTTPS URL checks
// ---------------------------------------------------------------------------

/// The host of an `https://` URL: the authority before `/`, `?` or `#`, after any
/// `user@`, without a port, and without brackets for an IPv6 literal.
pub open spec fn https_host_seq(url: Seq<char>) -> Option<Seq<char>> {
    if !has_prefix(url, "https://"@) {
        None
    } else {
        let rest = url.subrange("https://"@.len() as int, url.len() as int);
        let authority = before_set(rest, seq!['/', '?', '#']);
        let at = rfind_seq(authority, seq!['@']);
        let hostport = if at >= 0 && at < authority.len() {
            authority.subrange(at + 1, authority.len() as int)
        } else {
            authority
        };
        if hostport.len() > 0 && hostport[0] == '[' {
            let inner = before_set(hostport.drop_first(), seq![']']);
            if inner.len() == 0 {
                None
            } else {
                Some(inner)
            }
        } else {
            let host = before_set(hostport, seq![':']);
            if host.len() == 0 {
                None
            } else {
                Some(host)
            }
        }
    }
}

fn https_host(url: &Vec<char>) -> (r: Option<Vec<char>>)
    ensures
        match (r, https_host_seq(url@)) {
            (Some(a), Some(b)) => a@ == b,
            (None, None) => true,
            _ => false,
        },
{
    let scheme = chars_of("https://");
    if !starts_with(url, &scheme) {
        return None;
    }
    let rest = subvec(url, scheme.len(), url.len());
    let cs = vec!['/', '?', '#'];
    assert(cs@ =~= seq!['/', '?', '#']);
    let authority = before_set_vec(&rest, &cs);
    let atv = vec!['@'];
    assert(atv@ =~= seq!['@']);
    let at = rfind(&authority, &atv);
    let hostport = match at {
        Some(i) => {
            proof {
                lemma_rfind_seq(authority@, seq!['@']);
            }
            subvec(&authority, i + 1, authority.len())
        },
        None => authority,
    };
    if hostport.len() > 0 && hostport[0] == '[' {
        let tail = subvec(&hostport, 1, hostport.len());
        assert(tail@ =~= hostport@.drop_first());
        let cb = vec![']'];
        assert(cb@ =~= seq![']']);
        let inner = before_set_vec(&tail, &cb);
        if inner.len() == 0 {
            None
        } else {
            Some(inner)
        }
    } else {
        let cc = vec![':'];
        assert(cc@ =~= seq![':']);
        let host = before_set_vec(&hostport, &cc);
        if host.len() == 0 {
            None
        } else {
            Some(host)
        }
    }
}

/// A public `https://` link: no whitespace, not this bot's `/api/uploads/`, and a
/// host that is neither local nor an internal IP address.
pub open spec fn public_https_seq(url: Seq<char>) -> bool {
    let t = trim_seq(url);
    &&& has_prefix(t, "https://"@)
    &&& !(exists|k: int| 0 <= k < t.len() && is_ws(t[k]))
    &&& !contains_seq(t, "/api/uploads/"@)
    &&& match https_host_seq(t) {
        None => false,
        Some(h) => {
            let host = lower_seq(trim_end_set(trim_seq(h), seq!['.']));
            &&& !(host.len() == 0 || host == "localhost"@ || host == "127.0.0.1"@ || host
                == "::1"@ || host == "[::1]"@ || has_suffix(host, ".local"@) || has_suffix(
                host,
                ".localhost"@,
            ))
            &&& ip_internal_seq(host) != Some(true)
        },
    }
}

fn host_is_public_https(url: &Vec<char>) -> (r: bool)
    ensures
        r == public_https_seq(url@),
{
    let t = trim_vec(url);
    if !starts_with(&t, &chars_of("https://")) || has_ws(&t) {
        return false;
    }
    if contains(&t, &chars_of("/api/uploads/")) {
        return false;
    }
    let h = match https_host(&t) {
        Some(h) => h,
        None => return false,
    };
    let dot = vec!['.'];
    assert(dot@ =~= seq!['.']);
    let host = lower_vec(&trim_end_set_vec(&trim_vec(&h), &dot));
    if host.len() == 0 || vec_eq(&host, &chars_of("localhost")) || vec_eq(&host, &chars_of("127.0.0.1"))
        || vec_eq(&host, &chars_of("::1")) || vec_eq(&host, &chars_of("[::1]")) || ends_with(
        &host,
        &chars_of(".local"),
    ) || ends_with(&host, &chars_of(".localhost")) {
        return false;
    }
    match ip_literal_internal(&host) {
        Some(internal) => !internal,
        None => true,
    }
}

/// True when `url` is a public https:// link (not localhost, not this bot's /api/uploads/).
pub fn validate_public_https_url(url: &str) -> (r: Result<&str, &'static str>)
    ensures
        public_https_seq(url@) ==> (r matches Ok(u) && u@ == trim_seq(url@)),
        !public_https_seq(url@) ==> (r matches Err(e) && e@ == "upload response was not a public https URL"@),
{
    let v = chars_of(url);
    if host_is_public_https(&v) {
        let (a, b) = crate::text::trim_bounds(&v);
        Ok(url.substring_char(a, b))
    } else {
        Err("upload response was not a public https URL")
    }
}

/// `https://tmpfiles.org/<id>` rewritten to its direct-download form `https://tmpfiles.org/dl/<id>`.
pub open spec fn tmpfiles_direct_seq(url: Seq<char>) -> Option<Seq<char>> {
    let lower = lower_seq(url);
    let is_tmp = has_prefix(lower, "https://tmpfiles.org/"@) || has_prefix(lower, "https://www.tmpfiles.org/"@);
    let k = find_seq(url, "tmpfiles.org/"@);
    if !is_tmp || contains_seq(lower, "/dl/"@) || k < 0 {
        None
    } else {
        let after = trim_start_set(url.subrange(k + "tmpfiles.org/"@.len(), url.len() as int), seq!['/']);
        if after.len() == 0 {
            None
        } else {
            Some("https://tmpfiles.org/dl/"@ + after)
        }
    }
}

fn rewrite_tmpfiles_direct(url: &Vec<char>) -> (r: Option<Vec<char>>)
    ensures
        match (r, tmpfiles_direct_seq(url@)) {
            (Some(a), Some(b)) => a@ == b,
            (None, None) => true,
            _ => false,
        },
{
    let lower = lower_vec(url);
    let is_tmp = starts_with(&lower, &chars_of("https://tmpfiles.org/")) || starts_with(
        &lower,
        &chars_of("https://www.tmpfiles.org/"),
    );
    let needle = chars_of("tmpfiles.org/");
    let k = find(url, &needle);
    if !is_tmp || contains(&lower, &chars_of("/dl/")) {
        return None;
    }
    match k {
        None => None,
        Some(i) => {
            assert(occurs_at(url@, needle@, i as int));
            assert(i + needle@.len() <= url@.len());
            assert(i + needle.len() <= url.len());
            let rest = subvec(url, i + needle.len(), url.len());
            let slash = vec!['/'];
            assert(slash@ =~= seq!['/']);
            let after = trim_start_set_vec(&rest, &slash);
            if after.len() == 0 {
                None
            } else {
                let mut out = chars_of("https://tmpfiles.org/dl/");
                append_vec(&mut out, &after);
                Some(out)
            }
        },
    }
}

/// Quote and bracket characters stripped around a URL candidate.
pub open spec fn quote_chars() -> Seq<char> {
    seq!['"', '\'', '<', '>', '(', ')', '[', ']']
}

/// A URL candidate made canonical: trimmed of whitespace and quotes, `http://`
/// upgraded to `https://`, tmpfiles links made direct, and kept only when public.
pub open spec fn canonical_candidate_seq(raw: Seq<char>) -> Option<Seq<char>> {
    let s0 = trim_set(trim_seq(raw), quote_chars());
    let s1 = if has_prefix(s0, "http://"@) {
        "https://"@ + s0.subrange("http://"@.len() as int, s0.len() as int)
    } else {
        s0
    };
    let s2 = match tmpfiles_direct_seq(s1) {
        Some(r) => r,
        None => s1,
    };
    if public_https_seq(s2) {
        Some(s2)
    } else {
        None
    }
}

fn canonicalize_candidate(raw: &Vec<char>) -> (r: Option<Vec<char>>)
    ensures
        match (r, canonical_candidate_seq(raw@)) {
            (Some(a), Some(b)) => a@ == b,
            (None, None) => true,
            _ => false,
        },
{
    let q = vec!['"', '\'', '<', '>', '(', ')', '[', ']'];
    assert(q@ =~= quote_chars());
    let s0 = trim_set_vec(&trim_vec(raw), &q);
    let http = chars_of("http://");
    let s1 = if starts_with(&s0, &http) {
        let mut t = chars_of("https://");
        let rest = subvec(&s0, http.len(), s0.len());
        append_vec(&mut t, &rest);
        t
    } else {
        s0
    };
    let s2 = match rewrite_tmpfiles_direct(&s1) {
        Some(r) => r,
        None => s1,
    };
    if host_is_public_https(&s2) {
        Some(s2)
    } else {
        None
    }
}

/// Characters that end a URL token in free text.
pub open spec fn is_token_end(c: char) -> bool {
    is_ws(c) || c == '"' || c == '\'' || c == '<' || c == '>' || c == ')' || c == ']' || c == '\\'
}

/// Length of the leading run of `s` without a token-ending character.
pub open spec fn token_end(s: Seq<char>) -> int
    decreases s.len(),
{
    if s.len() == 0 {
        0
    } else if is_token_end(s[0]) {
        0
    } else {
        1 + token_end(s.drop_first())
    }
}

/// The first `https://` token of free text, without trailing punctuation.
pub open spec fn https_token_seq(raw: Seq<char>) -> Option<Seq<char>> {
    let start = find_seq(raw, "https://"@);
    if start < 0 || start > raw.len() {
        None
    } else {
        let rest = raw.subrange(start, raw.len() as int);
        let e = token_end(rest);
        let token = trim_end_set(rest.subrange(0, if 0 <= e <= rest.len() { e } else { 0 }), seq!['.', ',', ';', ':']);
        if has_prefix(token, "https://"@) {
            Some(token)
        } else {
            None
        }
    }
}

pub proof fn lemma_token_end_bounds(s: Seq<char>)
    ensures
        0 <= token_end(s) <= s.len(),
    decreases s.len(),
{
    if s.len() > 0 && !is_token_end(s[0]) {
        lemma_token_end_bounds(s.drop_first());
    }
}

fn token_end_exec(v: &Vec<char>) -> (r: usize)
    ensures
        r as int == token_end(v@),
        r <= v.len(),
{
    let mut i: usize = 0;
    assert(v@.subrange(0, v@.len() as int) =~= v@);
    while i < v.len() && !(char_is_ws(v[i]) || v[i] == '"' || v[i] == '\'' || v[i] == '<' || v[i] == '>'
        || v[i] == ')' || v[i] == ']' || v[i] == '\\')
        invariant
            i <= v.len(),
            token_end(v@) == i + token_end(v@.subrange(i as int, v@.len() as int)),
        decreases v.len() - i,
    {
        proof {
            let t = v@.subrange(i as int, v@.len() as int);
            assert(t.drop_first() =~= v@.subrange(i + 1, v@.len() as int));
        }
        i += 1;
    }
    proof {
        let t = v@.subrange(i as int, v@.len() as int);
        if i < v.len() {
            assert(t[0] == v@[i as int]);
        }
    }
    i
}

fn find_https_token(raw: &Vec<char>) -> (r: Option<Vec<char>>)
    ensures
        match (r, https_token_seq(raw@)) {
            (Some(a), Some(b)) => a@ == b,
            (None, None) => true,
            _ => false,
        },
{
    let scheme = chars_of("https://");
    let start = match find(raw, &scheme) {
        Some(i) => i,
        None => return None,
    };
    proof {
        lemma_find_seq(raw@, scheme@);
    }
    let rest = subvec(raw, start, raw.len());
    let e = token_end_exec(&rest);
    let head = subvec(&rest, 0, e);
    let punct = vec!['.', ',', ';', ':'];
    assert(punct@ =~= seq!['.', ',', ';', ':']);
    let token = trim_end_set_vec(&head, &punct);
    if starts_with(&token, &scheme) {
        Some(token)
    } else {
        None
    }
}

/// Keys under which upload hosts report the file URL, in priority order.
pub open spec fn url_keys() -> Seq<Seq<char>> {
    seq!["url"@, "link"@, "direct_link"@, "download_url"@, "downloadUrl"@, "href"@]
}

/// The first non-blank string among `keys` in an object's entries, trimmed.
pub open spec fn first_url_key(entries: Seq<(String, JsonValue)>, keys: Seq<Seq<char>>) -> Option<Seq<char>>
    decreases keys.len(),
{
    if keys.len() == 0 {
        None
    } else {
        match entries_get(entries, keys[0]) {
            Some(JsonValue::Str(s)) if trim_seq(s@).len() > 0 => Some(trim_seq(s@)),
            _ => first_url_key(entries, keys.drop_first()),
        }
    }
}

/// A URL reported by an upload host's JSON reply: a known key of the object, or of
/// its `data` member, recursively.
pub open spec fn json_url_candidate_seq(v: JsonValue) -> Option<Seq<char>>
    decreases v,
{
    match v {
        JsonValue::Object(entries) => {
            match first_url_key(entries@, url_keys()) {
                Some(u) => Some(u),
                None => {
                    let i = entries_index(entries@, "data"@);
                    if 0 <= i < entries@.len() {
                        json_url_candidate_seq(entries@[i].1)
                    } else {
                        None
                    }
                },
            }
        },
        _ => None,
    }
}

fn first_url_key_exec(v: &JsonValue) -> (r: Option<Vec<char>>)
    ensures
        match v {
            JsonValue::Object(entries) => match (r, first_url_key(entries@, url_keys())) {
                (Some(a), Some(b)) => a@ == b,
                (None, None) => true,
                _ => false,
            },
            _ => r is None,
        },
{
    let keys = ["url", "link", "direct_link", "download_url", "downloadUrl", "href"];
    let ghost ks = url_keys();
    let mut k: usize = 0;
    match v {
        JsonValue::Object(entries) => {
            assert(ks.subrange(0, 6) =~= ks);
            while k < 6
                invariant
                    k <= 6,
                    ks == url_keys(),
                    ks.len() == 6,
                    forall|j: int| 0 <= j < 6 ==> (#[trigger] keys@[j])@ == ks[j],
                    *v == JsonValue::Object(*entries),
                    first_url_key(entries@, ks) == first_url_key(entries@, ks.subrange(k as int, 6)),
                decreases 6 - k,
            {
                let ghost sub = ks.subrange(k as int, 6);
                assert(sub[0] == ks[k as int]);
                assert(sub.drop_first() =~= ks.subrange(k + 1, 6));
                match v.get(keys[k]) {
                    Some(JsonValue::Str(s)) => {
                        let t = trim_vec(&chars_of(s.as_str()));
                        if t.len() > 0 {
                            return Some(t);
                        }
                    },
                    _ => {},
                }
                k += 1;
            }
            assert(ks.subrange(6, 6) =~= Seq::<Seq<char>>::empty());
            None
        },
        _ => None,
    }
}

/// A URL reported by an upload host's JSON reply.
fn json_url_candidate(v: &JsonValue) -> (r: Option<Vec<char>>)
    ensures
        match (r, json_url_candidate_seq(*v)) {
            (Some(a), Some(b)) => a@ == b,
            (None, None) => true,
            _ => false,
        },
    decreases v,
{
    match first_url_key_exec(v) {
        Some(u) => return Some(u),
        None => {},
    }
    match v {
        JsonValue::Object(entries) => {
            let i = entries_index_exec(entries, "data");
            if i < entries.len() {
                proof {
                    assert(decreases_to!(*v => entries@[i as int].1));
                }
                json_url_candidate(&entries[i].1)
            } else {
                None
            }
        },
        _ => None,
    }
}

/// Pull the public HTTPS URL out of an upload host's reply: the trimmed body as a
/// URL, else (when the body parsed as `json`) a URL member or a pixeldrain `id`, else
/// the first `https://` token of the text. `json` is the parse of the trimmed body.
pub open spec fn extract_public_url_seq(raw: Seq<char>, json: Option<JsonValue>) -> Result<Seq<char>, Seq<char>> {
    let t = trim_seq(raw);
    if t.len() == 0 {
        Err("empty upload response"@)
    } else if canonical_candidate_seq(t) is Some {
        Ok(canonical_candidate_seq(t)->0)
    } else if json is Some && json_url_candidate_seq(json->0) is Some
        && canonical_candidate_seq(json_url_candidate_seq(json->0)->0) is Some {
        Ok(canonical_candidate_seq(json_url_candidate_seq(json->0)->0)->0)
    } else if json is Some && pixeldrain_candidate(json->0) is Some
        && canonical_candidate_seq(pixeldrain_candidate(json->0)->0) is Some {
        Ok(canonical_candidate_seq(pixeldrain_candidate(json->0)->0)->0)
    } else if https_token_seq(t) is Some && canonical_candidate_seq(https_token_seq(t)->0) is Some {
        Ok(canonical_candidate_seq(https_token_seq(t)->0)->0)
    } else {
        Err("upload response was not a public https URL: "@ + take_chars(t, 120))
    }
}

/// The pixeldrain file URL of an alphanumeric `id` member.
pub open spec fn pixeldrain_candidate(v: JsonValue) -> Option<Seq<char>> {
    match v.spec_get("id"@) {
        Some(JsonValue::Str(id)) => {
            let t = trim_seq(id@);
            if t.len() > 0 && forall|k: int| 0 <= k < t.len() ==> is_ascii_alnum(#[trigger] t[k]) {
                Some("https://pixeldrain.com/api/file/"@ + t)
            } else {
                None
            }
        },
        _ => None,
    }
}

fn pixeldrain_candidate_exec(v: &JsonValue) -> (r: Option<Vec<char>>)
    ensures
        match (r, pixeldrain_candidate(*v)) {
            (Some(a), Some(b)) => a@ == b,
            (None, None) => true,
            _ => false,
        },
{
    match v.get("id") {
        Some(JsonValue::Str(id)) => {
            let t = trim_vec(&chars_of(id.as_str()));
            if t.len() > 0 && all_ascii_alnum(&t) {
                let mut out = chars_of("https://pixeldrain.com/api/file/");
                append_vec(&mut out, &t);
                Some(out)
            } else {
                None
            }
        },
        _ => None,
    }
}

/// Pull the public HTTPS URL out of an upload host's reply (see `extract_public_url_seq`).
pub fn extract_public_https_url(raw: &str, json: Option<&JsonValue>) -> (r: Result<String, String>)
    ensures
        match (r, extract_public_url_seq(raw@, match json { Some(j) => Some(*j), None => None })) {
            (Ok(a), Ok(b)) => a@ == b,
            (Err(a), Err(b)) => a@ == b,
            _ => false,
        },
{
    let t = trim_vec(&chars_of(raw));
    if t.len() == 0 {
        return Err(String::from_str("empty upload response"));
    }
    match canonicalize_candidate(&t) {
        Some(u) => return Ok(string_of(&u)),
        None => {},
    }
    match json {
        Some(j) => {
            match json_url_candidate(j) {
                Some(c) => match canonicalize_candidate(&c) {
                    Some(u) => return Ok(string_of(&u)),
                    None => {},
                },
                None => {},
            }
            match pixeldrain_candidate_exec(j) {
                Some(c) => match canonicalize_candidate(&c) {
                    Some(u) => return Ok(string_of(&u)),
                    None => {},
                },
                None => {},
            }
        },
        None => {},
    }
    match find_https_token(&t) {
        Some(c) => match canonicalize_candidate(&c) {
            Some(u) => return Ok(string_of(&u)),
            None => {},
        },
        None => {},
    }
    let mut msg = chars_of("upload response was not a public https URL: ");
    append_vec(&mut msg, &take_vec(&t, 120));
    Err(string_of(&msg))
}

// ---------------------------------------------------------------------------
// Natural summary and the delivered message
// ---------------------------------------------------------------------------

/// The report's topic: the first non-blank line with its leading `#`s removed, at
/// most 80 characters; `Report` when there is none.
pub open spec fn topic_of_lines(ls: Seq<Seq<char>>) -> Seq<char>
    decreases ls.len(),
{
    if ls.len() == 0 {
        "Report"@
    } else {
        let t = trim_seq(ls[0]);
        let heading = trim_seq(trim_start_set(t, seq!['#']));
        if t.len() > 0 && heading.len() > 0 {
            take_chars(heading, 80)
        } else {
            topic_of_lines(ls.drop_first())
        }
    }
}

fn extract_topic(text: &Vec<char>) -> (r: Vec<char>)
    ensures
        r@ == topic_of_lines(lines_seq(text@)),
{
    let lines = lines_vec(text);
    let ghost lv = lines@.map_values(|l: Vec<char>| l@);
    let hash = vec!['#'];
    assert(hash@ =~= seq!['#']);
    let mut i: usize = 0;
    assert(lv.subrange(0, lv.len() as int) =~= lv);
    while i < lines.len()
        invariant
            i <= lines.len(),
            hash@ == seq!['#'],
            lv == lines@.map_values(|l: Vec<char>| l@),
            lv == lines_seq(text@),
            topic_of_lines(lv) == topic_of_lines(lv.subrange(i as int, lv.len() as int)),
        decreases lines.len() - i,
    {
        let ghost sub = lv.subrange(i as int, lv.len() as int);
        assert(sub[0] == lines@[i as int]@);
        assert(sub.drop_first() =~= lv.subrange(i + 1, lv.len() as int));
        let t = trim_vec(&lines[i]);
        let heading = trim_vec(&trim_start_set_vec(&t, &hash));
        if t.len() > 0 && heading.len() > 0 {
            return take_vec(&heading, 80);
        }
        i += 1;
    }
    assert(lv.subrange(i as int, lv.len() as int) =~= Seq::<Seq<char>>::empty());
    chars_of("Report")
}

/// The `## ` headings of the report as bullets (each at most 120 characters),
/// collected until `max` are held.
pub open spec fn bullets_of_lines(ls: Seq<Seq<char>>, max: nat, acc: Seq<Seq<char>>) -> Seq<Seq<char>>
    decreases ls.len(),
{
    if ls.len() == 0 {
        acc
    } else {
        let t = trim_seq(ls[0]);
        let item = trim_seq(t.subrange("## "@.len() as int, t.len() as int));
        let acc2 = if has_prefix(t, "## "@) && item.len() > 0 {
            acc.push(take_chars(item, 120))
        } else {
            acc
        };
        if acc2.len() >= max {
            acc2
        } else {
            bullets_of_lines(ls.drop_first(), max, acc2)
        }
    }
}

fn extract_heading_bullets(text: &Vec<char>, max: usize) -> (r: Vec<Vec<char>>)
    ensures
        r@.map_values(|l: Vec<char>| l@) == bullets_of_lines(lines_seq(text@), max as nat, Seq::empty()),
{
    let lines = lines_vec(text);
    let ghost lv = lines@.map_values(|l: Vec<char>| l@);
    let prefix = chars_of("## ");
    let mut bullets: Vec<Vec<char>> = Vec::new();
    let mut i: usize = 0;
    assert(lv.subrange(0, lv.len() as int) =~= lv);
    assert(bullets@.map_values(|l: Vec<char>| l@) =~= Seq::<Seq<char>>::empty());
    while i < lines.len()
        invariant
            i <= lines.len(),
            prefix@ == "## "@,
            lv == lines@.map_values(|l: Vec<char>| l@),
            lv == lines_seq(text@),
            bullets_of_lines(lv, max as nat, Seq::empty()) == bullets_of_lines(
                lv.subrange(i as int, lv.len() as int),
                max as nat,
                bullets@.map_values(|l: Vec<char>| l@),
            ),
        decreases lines.len() - i,
    {
        let ghost sub = lv.subrange(i as int, lv.len() as int);
        let ghost acc = bullets@.map_values(|l: Vec<char>| l@);
        assert(sub[0] == lines@[i as int]@);
        assert(sub.drop_first() =~= lv.subrange(i + 1, lv.len() as int));
        let t = trim_vec(&lines[i]);
        if starts_with(&t, &prefix) {
            let item = trim_vec(&subvec(&t, prefix.len(), t.len()));
            if item.len() > 0 {
                bullets.push(take_vec(&item, 120));
                assert(bullets@.map_values(|l: Vec<char>| l@) =~= acc.push(take_chars(item@, 120)));
            }
        }
        if bullets.len() >= max {
            return bullets;
        }
        i += 1;
    }
    assert(lv.subrange(i as int, lv.len() as int) =~= Seq::<Seq<char>>::empty());
    bullets
}

/// Plain report lines (not blank, not headings, not table rows) joined by spaces
/// until at least `max` characters are held.
pub open spec fn excerpt_of_lines(ls: Seq<Seq<char>>, max: nat, buf: Seq<char>) -> Seq<char>
    decreases ls.len(),
{
    if ls.len() == 0 {
        buf
    } else {
        let t = trim_seq(ls[0]);
        if t.len() == 0 || t[0] == '#' || t[0] == '|' {
            excerpt_of_lines(ls.drop_first(), max, buf)
        } else {
            let buf2 = if buf.len() > 0 { buf + seq![' '] + t } else { buf + t };
            if buf2.len() >= max {
                buf2
            } else {
                excerpt_of_lines(ls.drop_first(), max, buf2)
            }
        }
    }
}

fn first_plain_excerpt(text: &Vec<char>, max_chars: usize) -> (r: Vec<char>)
    ensures
        r@ == take_chars(excerpt_of_lines(lines_seq(text@), max_chars as nat, Seq::empty()), max_chars as nat),
{
    let lines = lines_vec(text);
    let ghost lv = lines@.map_values(|l: Vec<char>| l@);
    let mut buf: Vec<char> = Vec::new();
    let mut i: usize = 0;
    assert(lv.subrange(0, lv.len() as int) =~= lv);
    while i < lines.len()
        invariant
            i <= lines.len(),
            lv == lines@.map_values(|l: Vec<char>| l@),
            lv == lines_seq(text@),
            excerpt_of_lines(lv, max_chars as nat, Seq::empty()) == excerpt_of_lines(
                lv.subrange(i as int, lv.len() as int),
                max_chars as nat,
                buf@,
            ),
        decreases lines.len() - i,
    {
        let ghost sub = lv.subrange(i as int, lv.len() as int);
        assert(sub[0] == lines@[i as int]@);
        assert(sub.drop_first() =~= lv.subrange(i + 1, lv.len() as int));
        let t = trim_vec(&lines[i]);
        if t.len() == 0 || t[0] == '#' || t[0] == '|' {
            assert(t@ == trim_seq(sub[0]));
            assert(excerpt_of_lines(sub, max_chars as nat, buf@) == excerpt_of_lines(
                sub.drop_first(),
                max_chars as nat,
                buf@,
            ));
            i += 1;
            continue;
        }
        let ghost old_buf = buf@;
        if buf.len() > 0 {
            buf.push(' ');
        }
        append_vec(&mut buf, &t);
        assert(t@ == trim_seq(sub[0]));
        assert(buf@ == (if old_buf.len() > 0 { old_buf + seq![' '] + t@ } else { old_buf + t@ }));
        if buf.len() >= max_chars {
            return take_vec(&buf, max_chars);
        }
        assert(excerpt_of_lines(sub, max_chars as nat, old_buf) == excerpt_of_lines(
            sub.drop_first(),
            max_chars as nat,
            buf@,
        ));
        i += 1;
    }
    assert(lv.subrange(i as int, lv.len() as int) =~= Seq::<Seq<char>>::empty());
    take_vec(&buf, max_chars)
}

/// Bullets written as `- item` lines.
pub open spec fn bullet_block(bs: Seq<Seq<char>>) -> Seq<char>
    decreases bs.len(),
{
    if bs.len() == 0 {
        Seq::empty()
    } else {
        bullet_block(bs.drop_last()) + "- "@ + bs.last() + seq!['\n']
    }
}

/// The extractive summary used when the summarizer gives nothing: topic, excerpt,
/// heading bullets, then the public link or a note that the link did not go through.
pub open spec fn fallback_summary_seq(full: Seq<char>, url: Option<Seq<char>>) -> Seq<char> {
    let ls = lines_seq(full);
    let topic = topic_of_lines(ls);
    let excerpt = take_chars(excerpt_of_lines(ls, 420, Seq::empty()), 420);
    let bullets = bullets_of_lines(ls, 4, Seq::empty());
    let p1 = if topic.len() > 0 && topic != "Report"@ { topic + ".\n\n"@ } else { Seq::empty() };
    let p2 = if excerpt.len() > 0 { excerpt + "\n\n"@ } else { Seq::empty() };
    let p3 = if bullets.len() > 0 { bullet_block(bullets) + seq!['\n'] } else { Seq::empty() };
    let p4 = match url {
        Some(u) => "I put the full write-up — including the detailed figures — here:\n"@ + u,
        None => "I have the full write-up ready, but the public PDF link did not go through. Ask me to resend the file if you need it."@,
    };
    p1 + p2 + p3 + p4
}

fn fallback_natural_summary(full_text: &Vec<char>, public_url: Option<&Vec<char>>) -> (r: Vec<char>)
    ensures
        r@ == fallback_summary_seq(full_text@, match public_url { Some(u) => Some(u@), None => None }),
{
    let topic = extract_topic(full_text);
    let excerpt = first_plain_excerpt(full_text, 420);
    let bullets = extract_heading_bullets(full_text, 4);
    let ghost bv = bullets@.map_values(|l: Vec<char>| l@);
    let mut out: Vec<char> = Vec::new();
    if topic.len() > 0 && !vec_eq(&topic, &chars_of("Report")) {
        append_vec(&mut out, &topic);
        append_vec(&mut out, &chars_of(".\n\n"));
    }
    let ghost o1 = out@;
    if excerpt.len() > 0 {
        append_vec(&mut out, &excerpt);
        append_vec(&mut out, &chars_of("\n\n"));
    }
    let ghost o2 = out@;
    if bullets.len() > 0 {
        let mut k: usize = 0;
        while k < bullets.len()
            invariant
                k <= bullets.len(),
                bv == bullets@.map_values(|l: Vec<char>| l@),
                out@ == o2 + bullet_block(bv.subrange(0, k as int)),
            decreases bullets.len() - k,
        {
            let ghost before = out@;
            append_vec(&mut out, &chars_of("- "));
            append_vec(&mut out, &bullets[k]);
            out.push('\n');
            proof {
                let sub = bv.subrange(0, k + 1);
                assert(sub.drop_last() =~= bv.subrange(0, k as int));
                assert(sub.last() == bullets@[k as int]@);
                assert(out@ =~= o2 + bullet_block(sub));
            }
            k += 1;
        }
        assert(bv.subrange(0, bv.len() as int) =~= bv);
        out.push('\n');
    }
    match public_url {
        Some(url) => {
            append_vec(&mut out, &chars_of("I put the full write-up — including the detailed figures — here:\n"));
            append_vec(&mut out, url);
        },
        None => {
            append_vec(&mut out, &chars_of("I have the full write-up ready, but the public PDF link did not go through. Ask me to resend the file if you need it."));
        },
    }
    proof {
        let u = match public_url { Some(u) => Some(u@), None => None };
        let spec = fallback_summary_seq(full_text@, u);
        assert(out@ =~= spec);
    }
    out
}

/// `a - b`, or 0 when `b` exceeds `a`.
pub open spec fn sat_sub(a: nat, b: nat) -> nat {
    if a >= b {
        (a - b) as nat
    } else {
        0
    }
}

/// `t` cut to `budget - 1` characters and an ellipsis when longer than `budget`.
pub open spec fn fit_with_ellipsis(t: Seq<char>, budget: nat) -> Seq<char> {
    if t.len() > budget {
        take_chars(t, sat_sub(budget, 1)) + seq!['…']
    } else {
        t
    }
}

/// The body with the public URL removed, cleaned, fitted and followed by the URL.
pub open spec fn body_with_url(text: Seq<char>, url: Seq<char>, summary: nat) -> Seq<char> {
    let t1 = if contains_seq(text, url) { replace_all_seq(text, url, Seq::empty()) } else { text };
    let t2 = strip_leaks_seq(trim_seq(t1));
    let stanza = "\n\n"@ + url;
    fit_with_ellipsis(t2, sat_sub(summary, stanza.len())) + stanza
}

/// The message shown in chat: the trimmed body with local paths removed, fitted to
/// `summary` characters; a public URL, when given, is moved to the end after a blank
/// line and the body is shortened so that the link is kept.
pub open spec fn finalize_seq(body: Seq<char>, url: Option<Seq<char>>, summary: nat) -> Seq<char> {
    let text = strip_leaks_seq(trim_seq(body));
    let t = match url {
        Some(u) => if public_https_seq(u) {
            body_with_url(text, u, summary)
        } else {
            text
        },
        None => fit_with_ellipsis(text, summary),
    };
    let t = match url {
        Some(u) => if public_https_seq(u) { t } else { fit_with_ellipsis(t, summary) },
        None => t,
    };
    strip_leaks_seq(t)
}

/// No character of `n` ends a path, and all of them are ASCII.
pub open spec fn plain_needle(n: Seq<char>) -> bool {
    &&& n.len() > 0
    &&& forall|i: int| 0 <= i < n.len() ==> !is_path_end(#[trigger] n[i]) && (n[i] as u32) < 128
}

proof fn lemma_plain_literal(n: Seq<char>)
    requires
        n.len() > 0,
        forall|i: int| 0 <= i < n.len() ==> (#[trigger] n[i] as u32) >= 0x21 && (n[i] as u32) < 128
            && n[i] != ')' && n[i] != ']' && n[i] != '>',
    ensures
        plain_needle(n),
{
}

pub proof fn lemma_needles_plain()
    ensures
        forall|k: int| 0 <= k < 7 ==> plain_needle(#[trigger] leak_needles()[k]),
{
    reveal_strlit("/home/");
    reveal_strlit("/api/uploads/");
    reveal_strlit("file://");
    reveal_strlit("http://127.0.0.1");
    reveal_strlit("https://127.0.0.1");
    reveal_strlit("http://localhost");
    reveal_strlit("https://localhost");
    let n0 = seq!['/', 'h', 'o', 'm', 'e', '/'];
    let n1 = seq!['/', 'a', 'p', 'i', '/', 'u', 'p', 'l', 'o', 'a', 'd', 's', '/'];
    let n2 = seq!['f', 'i', 'l', 'e', ':', '/', '/'];
    let n3 = seq!['h', 't', 't', 'p', ':', '/', '/', '1', '2', '7', '.', '0', '.', '0', '.', '1'];
    let n4 = seq!['h', 't', 't', 'p', 's', ':', '/', '/', '1', '2', '7', '.', '0', '.', '0', '.', '1'];
    let n5 = seq!['h', 't', 't', 'p', ':', '/', '/', 'l', 'o', 'c', 'a', 'l', 'h', 'o', 's', 't'];
    let n6 = seq!['h', 't', 't', 'p', 's', ':', '/', '/', 'l', 'o', 'c', 'a', 'l', 'h', 'o', 's', 't'];
    assert("/home/"@ =~= n0);
    assert("/api/uploads/"@ =~= n1);
    assert("file://"@ =~= n2);
    assert("http://127.0.0.1"@ =~= n3);
    assert("https://127.0.0.1"@ =~= n4);
    assert("http://localhost"@ =~= n5);
    assert("https://localhost"@ =~= n6);
    lemma_plain_literal(n0);
    lemma_plain_literal(n1);
    lemma_plain_literal(n2);
    lemma_plain_literal(n3);
    lemma_plain_literal(n4);
    lemma_plain_literal(n5);
    lemma_plain_literal(n6);
}

proof fn lemma_path_end_concat(x: Seq<char>, b: Seq<char>)
    requires
        b.len() > 0,
        is_path_end(b[0]),
    ensures
        path_end(x + b) == path_end(x),
    decreases x.len(),
{
    if x.len() == 0 {
        assert(x + b =~= b);
    } else {
        assert((x + b)[0] == x[0]);
        assert((x + b).drop_first() =~= x.drop_first() + b);
        lemma_path_end_concat(x.drop_first(), b);
    }
}

/// An occurrence of a plain needle never reaches into a suffix that starts with a
/// path-ending character.
proof fn lemma_occurs_concat(a: Seq<char>, b: Seq<char>, n: Seq<char>, j: int)
    requires
        plain_needle(n),
        b.len() > 0,
        is_path_end(b[0]),
        !contains_seq(b, n),
    ensures
        occurs_at(a + b, n, j) <==> occurs_at(a, n, j),
{
    let s = a + b;
    if occurs_at(s, n, j) {
        if j + n.len() <= a.len() {
            assert(s.subrange(j, j + n.len()) =~= a.subrange(j, j + n.len()));
        } else if j >= a.len() {
            assert(s.subrange(j, j + n.len()) =~= b.subrange(j - a.len(), j - a.len() + n.len()));
            assert(occurs_at(b, n, j - a.len()));
        } else {
            assert(s.subrange(j, j + n.len())[a.len() - j] == s[a.len() as int]);
            assert(n[a.len() - j] == b[0]);
        }
    }
    if occurs_at(a, n, j) {
        assert(s.subrange(j, j + n.len()) =~= a.subrange(j, j + n.len()));
    }
}

proof fn lemma_find_concat(a: Seq<char>, b: Seq<char>, n: Seq<char>)
    requires
        plain_needle(n),
        b.len() > 0,
        is_path_end(b[0]),
        !contains_seq(b, n),
    ensures
        find_seq(a + b, n) == find_seq(a, n),
{
    let s = a + b;
    lemma_find_seq(s, n);
    lemma_find_seq(a, n);
    let fs = find_seq(s, n);
    let fa = find_seq(a, n);
    assert forall|j: int| occurs_at(s, n, j) <==> occurs_at(a, n, j) by {
        lemma_occurs_concat(a, b, n, j);
    }
    if fa >= 0 {
        assert(occurs_at(s, n, fa));
        assert(fs >= 0);
        assert(occurs_at(a, n, fs));
    } else {
        if fs >= 0 {
            assert(occurs_at(a, n, fs));
        }
    }
}

/// Stripping a text followed by a needle-free suffix that starts with a path end
/// leaves the suffix as it is.
proof fn lemma_strip_needle_suffix(a: Seq<char>, b: Seq<char>, n: Seq<char>)
    requires
        plain_needle(n),
        b.len() > 0,
        is_path_end(b[0]),
        !contains_seq(b, n),
    ensures
        strip_needle_seq(a + b, n) == strip_needle_seq(a, n) + b,
    decreases a.len(),
{
    let s = a + b;
    lemma_find_concat(a, b, n);
    lemma_find_seq(a, n);
    let i = find_seq(a, n);
    if i >= 0 {
        let rest_a = a.subrange(i, a.len() as int);
        let rest_s = s.subrange(i, s.len() as int);
        assert(rest_s =~= rest_a + b);
        lemma_path_end_concat(rest_a, b);
        lemma_path_end_bounds(rest_a);
        let e = path_end(rest_a);
        if e > 0 {
            let tail_a = rest_a.subrange(e, rest_a.len() as int);
            assert(rest_s.subrange(e, rest_s.len() as int) =~= tail_a + b);
            lemma_strip_needle_suffix(tail_a, b, n);
            assert(s.subrange(0, i) =~= a.subrange(0, i));
            assert(strip_needle_seq(s, n) =~= strip_needle_seq(a, n) + b);
        }
    }
}

proof fn lemma_strip_upto_suffix(a: Seq<char>, b: Seq<char>, k: nat)
    requires
        k <= 7,
        b.len() > 0,
        is_path_end(b[0]),
        leak_free(b),
    ensures
        strip_leaks_upto(a + b, k) == strip_leaks_upto(a, k) + b,
    decreases k,
{
    if k > 0 {
        lemma_needles_plain();
        lemma_strip_upto_suffix(a, b, (k - 1) as nat);
        let n = leak_needles()[k - 1];
        assert(!contains_seq(b, n));
        lemma_strip_needle_suffix(strip_leaks_upto(a, (k - 1) as nat), b, n);
    }
}

/// Removing local paths from a text followed by a leak-free suffix that starts with
/// whitespace or a closing bracket changes nothing in the suffix.
pub proof fn lemma_strip_leaks_suffix(a: Seq<char>, b: Seq<char>)
    requires
        b.len() > 0,
        is_path_end(b[0]),
        leak_free(b),
    ensures
        strip_leaks_seq(a + b) == strip_leaks_seq(a) + b,
{
    lemma_strip_upto_suffix(a, b, 7);
}

/// The URL stanza holds a local path marker only if the URL does.
proof fn lemma_stanza_leak_free(u: Seq<char>)
    requires
        leak_free(u),
    ensures
        leak_free("\n\n"@ + u),
        ("\n\n"@ + u).len() == u.len() + 2,
        is_path_end(("\n\n"@ + u)[0]),
{
    reveal_strlit("\n\n");
    assert("\n\n"@ =~= seq!['\n', '\n']);
    let b = "\n\n"@ + u;
    lemma_needles_plain();
    assert forall|k: int| 0 <= k < 7 implies !contains_seq(b, #[trigger] leak_needles()[k]) by {
        let n = leak_needles()[k];
        assert forall|j: int| !occurs_at(b, n, j) by {
            if occurs_at(b, n, j) {
                if j >= 2 {
                    assert(b.subrange(j, j + n.len()) =~= u.subrange(j - 2, j - 2 + n.len()));
                    assert(occurs_at(u, n, j - 2));
                } else {
                    assert(b.subrange(j, j + n.len())[0] == b[j]);
                    assert(n[0] == '\n');
                }
            }
        }
    }
}

/// A leak-free text stays leak-free when cut short and followed by an ellipsis.
proof fn lemma_fit_leak_free(t: Seq<char>, budget: nat)
    requires
        leak_free(t),
    ensures
        leak_free(fit_with_ellipsis(t, budget)),
{
    if t.len() > budget {
        let p = take_chars(t, sat_sub(budget, 1));
        let f = p + seq!['…'];
        lemma_needles_plain();
        assert forall|k: int| 0 <= k < 7 implies !contains_seq(f, #[trigger] leak_needles()[k]) by {
            let n = leak_needles()[k];
            lemma_subrange_free(t, 0, p.len() as int, n);
            assert(p =~= t.subrange(0, p.len() as int));
            assert forall|j: int| !occurs_at(f, n, j) by {
                if occurs_at(f, n, j) {
                    if j + n.len() <= p.len() {
                        assert(f.subrange(j, j + n.len()) =~= p.subrange(j, j + n.len()));
                        assert(occurs_at(p, n, j));
                    } else {
                        assert(f.subrange(j, j + n.len())[p.len() - j] == f[p.len() as int]);
                        assert(n[p.len() - j] == '…');
                    }
                }
            }
        }
    }
}

proof fn lemma_fit_len(t: Seq<char>, budget: nat)
    ensures
        budget >= 1 ==> fit_with_ellipsis(t, budget).len() <= budget,
        fit_with_ellipsis(t, budget).len() <= t.len() || t.len() == 0,
{
}

/// The delivered message never shows a local path; a public URL free of local path
/// markers always ends the message after a blank line, and the message then stays
/// within the summary budget whenever the budget leaves room for a character besides
/// the link; without a link the message stays within any positive budget.
pub proof fn lemma_finalize_delivery(body: Seq<char>, url: Option<Seq<char>>, summary: nat)
    ensures
        leak_free(finalize_seq(body, url, summary)),
        url is Some && public_https_seq(url.unwrap()) && leak_free(url.unwrap()) ==> has_suffix(
            finalize_seq(body, url, summary),
            "\n\n"@ + url.unwrap(),
        ),
        url is Some && public_https_seq(url.unwrap()) && leak_free(url.unwrap()) && summary
            > url.unwrap().len() + 2 ==> finalize_seq(body, url, summary).len() <= summary,
        (url matches Some(u) ==> !public_https_seq(u)) && summary >= 1 ==> finalize_seq(
            body,
            url,
            summary,
        ).len() <= summary,
{
    let text = strip_leaks_seq(trim_seq(body));
    lemma_strip_leaks_free(trim_seq(body));
    match url {
        Some(u) => {
            if public_https_seq(u) {
                let t = body_with_url(text, u, summary);
                lemma_strip_leaks_free(t);
                if leak_free(u) {
                    let t1 = if contains_seq(text, u) { replace_all_seq(text, u, Seq::empty()) } else { text };
                    let t2 = strip_leaks_seq(trim_seq(t1));
                    lemma_strip_leaks_free(trim_seq(t1));
                    let stanza = "\n\n"@ + u;
                    lemma_stanza_leak_free(u);
                    let budget = sat_sub(summary, stanza.len());
                    let t3 = fit_with_ellipsis(t2, budget);
                    lemma_fit_leak_free(t2, budget);
                    lemma_fit_len(t2, budget);
                    lemma_strip_leaks_suffix(t3, stanza);
                    lemma_strip_leaks_identity(t3);
                    assert(finalize_seq(body, url, summary) == t3 + stanza);
                    assert((t3 + stanza).subrange(t3.len() as int, (t3 + stanza).len() as int) =~= stanza);
                }
            } else {
                let t = fit_with_ellipsis(text, summary);
                lemma_fit_leak_free(text, summary);
                lemma_fit_len(text, summary);
                lemma_strip_leaks_free(t);
                lemma_strip_leaks_identity(t);
            }
        },
        None => {
            let t = fit_with_ellipsis(text, summary);
            lemma_fit_leak_free(text, summary);
            lemma_fit_len(text, summary);
            lemma_strip_leaks_free(t);
            lemma_strip_leaks_identity(t);
        },
    }
}

fn fit_with_ellipsis_exec(t: Vec<char>, budget: usize) -> (r: Vec<char>)
    ensures
        r@ == fit_with_ellipsis(t@, budget as nat),
{
    if t.len() > budget {
        let keep = if budget >= 1 { budget - 1 } else { 0 };
        let mut out = take_vec(&t, keep);
        out.push('…');
        out
    } else {
        t
    }
}

/// The chat message that goes out with a spilled report: local paths removed, the
/// public URL (when it is a public https link) moved to the end after a blank line,
/// and the body shortened with an ellipsis to keep the whole within `summary_chars`.
pub fn finalize_delivery_message(
    body: &str,
    public_url: Option<&str>,
    summary_chars: usize,
    _messaging: bool,
) -> (r: String)
    ensures
        r@ == finalize_seq(body@, match public_url { Some(u) => Some(u@), None => None }, summary_chars as nat),
        leak_free(r@),
        public_url is Some && public_https_seq(public_url.unwrap()@) && leak_free(public_url.unwrap()@)
            ==> has_suffix(r@, "\n\n"@ + public_url.unwrap()@),
        public_url is Some && public_https_seq(public_url.unwrap()@) && leak_free(public_url.unwrap()@)
            && summary_chars > public_url.unwrap()@.len() + 2 ==> r@.len() <= summary_chars,
        (public_url matches Some(u) ==> !public_https_seq(u@)) && summary_chars >= 1 ==> r@.len() <= summary_chars,
{
    let ghost url_seq = match public_url { Some(u) => Some(u@), None => None };
    let text = strip_local_path_leaks(&trim_vec(&chars_of(body)));
    let t = match public_url {
        Some(url) => {
            let u = chars_of(url);
            if host_is_public_https(&u) {
                let nothing: Vec<char> = Vec::new();
                assert(nothing@ =~= Seq::<char>::empty());
                let t1 = if contains(&text, &u) {
                    replace_all_vec(&text, &u, &nothing)
                } else {
                    text
                };
                let t2 = strip_local_path_leaks(&trim_vec(&t1));
                let nl = chars_of("\n\n");
                let mut stanza = nl;
                append_vec(&mut stanza, &u);
                let budget = summary_chars.saturating_sub(stanza.len());
                let mut t3 = fit_with_ellipsis_exec(t2, budget);
                append_vec(&mut t3, &stanza);
                t3
            } else {
                fit_with_ellipsis_exec(text, summary_chars)
            }
        },
        None => fit_with_ellipsis_exec(text, summary_chars),
    };
    let out = strip_local_path_leaks(&t);
    proof {
        lemma_finalize_delivery(body@, url_seq, summary_chars as nat);
    }
    string_of(&out)
}

fn path_end_exec(v: &Vec<char>, a: usize) -> (r: usize)
    requires
        a <= v.len(),
    ensures
        r as int == path_end(v@.subrange(a as int, v@.len() as int)),
        a + r <= v.len(),
{
    let mut i = a;
    while i < v.len() && !(char_is_ws(v[i]) || v[i] == ')' || v[i] == ']' || v[i] == '>')
        invariant
            a <= i <= v.len(),
            path_end(v@.subrange(a as int, v@.len() as int)) == (i - a) + path_end(
                v@.subrange(i as int, v@.len() as int),
            ),
        decreases v.len() - i,
    {
        proof {
            let t = v@.subrange(i as int, v@.len() as int);
            assert(t.drop_first() =~= v@.subrange(i + 1, v@.len() as int));
        }
        i += 1;
    }
    proof {
        let t = v@.subrange(i as int, v@.len() as int);
        if i < v.len() {
            assert(t[0] == v@[i as int]);
        }
    }
    i - a
}

/// Replaces every occurrence of `n` in `v`, with the rest of its path, by the mark.
fn strip_needle(v: &Vec<char>, n: &Vec<char>) -> (r: Vec<char>)
    ensures
        r@ == strip_needle_seq(v@, n@),
{
    let mark = chars_of("[local path omitted]");
    let mut out: Vec<char> = Vec::new();
    let mut p: usize = 0;
    assert(v@.subrange(0, v@.len() as int) =~= v@);
    loop
        invariant
            p <= v.len(),
            mark@ == path_mark(),
            strip_needle_seq(v@, n@) == out@ + strip_needle_seq(
                v@.subrange(p as int, v@.len() as int),
                n@,
            ),
        decreases v.len() - p,
    {
        let s = subvec(v, p, v.len());
        let i = find(&s, n);
        proof {
            lemma_find_seq(s@, n@);
        }
        match i {
            None => {
                append_vec(&mut out, &s);
                return out;
            },
            Some(ii) => {
                if n.len() == 0 {
                    append_vec(&mut out, &s);
                    return out;
                }
                let e = path_end_exec(&s, ii);
                if e == 0 {
                    append_vec(&mut out, &s);
                    return out;
                }
                let ghost old_out = out@;
                let pre = subvec(&s, 0, ii);
                append_vec(&mut out, &pre);
                append_vec(&mut out, &mark);
                proof {
                    let rest = s@.subrange(ii as int, s@.len() as int);
                    assert(rest.subrange(e as int, rest.len() as int) =~= v@.subrange(
                        p + ii + e,
                        v@.len() as int,
                    ));
                    assert(old_out + (pre@ + mark@ + strip_needle_seq(
                        rest.subrange(e as int, rest.len() as int),
                        n@,
                    )) =~= out@ + strip_needle_seq(v@.subrange(p + ii + e, v@.len() as int), n@));
                }
                p = p + ii + e;
            },
        }
    }
}

/// Replace leaked local paths (home directories, internal upload URLs, `file://`
/// links and loopback URLs) up to the next whitespace, `)`, `]` or `>` with
/// `[local path omitted]`.
fn strip_local_path_leaks(text: &Vec<char>) -> (r: Vec<char>)
    ensures
        r@ == strip_leaks_seq(text@),
{
    let needles = [
        chars_of("/home/"),
        chars_of("/api/uploads/"),
        chars_of("file://"),
        chars_of("http://127.0.0.1"),
        chars_of("https://127.0.0.1"),
        chars_of("http://localhost"),
        chars_of("https://localhost"),
    ];
    let mut out = subvec(text, 0, text.len());
    assert(text@.subrange(0, text@.len() as int) =~= text@);
    let mut k: usize = 0;
    while k < 7
        invariant
            k <= 7,
            out@ == strip_leaks_upto(text@, k as nat),
            forall|j: int| 0 <= j < 7 ==> (#[trigger] needles@[j])@ == leak_needles()[j],
        decreases 7 - k,
    {
        out = strip_needle(&out, &needles[k]);
        k += 1;
    }
    out
}


// ---------------------------------------------------------------------------
// Spill decisions
// ---------------------------------------------------------------------------

/// What an over-limit reply needs to be spilled.
#[derive(Debug, Clone)]
pub struct DenseSpillPlan {
    /// The reply trimmed of surrounding whitespace.
    pub cleaned: String,
    /// Its length in characters.
    pub char_count: usize,
    /// The cap it exceeds.
    pub max_chars: usize,
    pub messaging: bool,
    pub summary_chars: usize,
}

/// The reply is spilled when the persona turned dense delivery on and the trimmed
/// reply is longer than the channel's cap.
pub open spec fn spill_needed(persona: Persona, channel: Seq<char>, text: Seq<char>) -> bool {
    persona.dense_delivery_enabled && trim_seq(text).len() > spec_max_chars(persona, channel)
}

/// The check made before a spill: `None` leaves the reply as it is; otherwise the plan
/// holds the trimmed reply, its length, the cap, the channel kind and the summary
/// length.
pub fn dense_delivery_gate(persona: &Persona, caller_channel: &str, text: &str) -> (r: Option<DenseSpillPlan>)
    ensures
        r is Some <==> spill_needed(*persona, caller_channel@, text@),
        r matches Some(p) ==> {
            &&& p.cleaned@ == trim_seq(text@)
            &&& p.char_count == trim_seq(text@).len()
            &&& p.max_chars == spec_max_chars(*persona, caller_channel@)
            &&& p.char_count > p.max_chars
            &&& p.messaging == spec_is_messaging(caller_channel@)
            &&& p.summary_chars == spec_positive_or_default(persona.dense_delivery_summary_chars, DEFAULT_SUMMARY_CHARS)
        },
{
    if !persona.dense_delivery_enabled {
        return None;
    }
    let cleaned = trim_vec(&chars_of(text));
    let max_chars = effective_max_chars(persona, caller_channel);
    let char_count = cleaned.len();
    if char_count <= max_chars {
        return None;
    }
    Some(DenseSpillPlan {
        cleaned: string_of(&cleaned),
        char_count,
        max_chars,
        messaging: is_messaging_channel(caller_channel),
        summary_chars: effective_summary_chars(persona),
    })
}

/// The MIME type sent with an upload, from the file's extension.
pub open spec fn spec_mime_for_extension(ext: Option<Seq<char>>) -> Seq<char> {
    match ext {
        Some(e) => if lower_seq(e) == "pdf"@ {
            "application/pdf"@
        } else if lower_seq(e) == "md"@ {
            "text/markdown"@
        } else {
            "application/octet-stream"@
        },
        None => "application/octet-stream"@,
    }
}

/// `application/pdf` for `.pdf`, `text/markdown` for `.md` (any case), else
/// `application/octet-stream`.
pub fn mime_for_extension(ext: Option<&str>) -> (r: &'static str)
    ensures
        r@ == spec_mime_for_extension(match ext { Some(e) => Some(e@), None => None }),
{
    match ext {
        Some(e) => {
            let l = lower_vec(&chars_of(e));
            if vec_eq(&l, &chars_of("pdf")) {
                "application/pdf"
            } else if vec_eq(&l, &chars_of("md")) {
                "text/markdown"
            } else {
                "application/octet-stream"
            }
        },
        None => "application/octet-stream",
    }
}

/// The upload host setting: `none` (any case, surrounding whitespace ignored) turns
/// uploads off; anything else, or no setting, uses the public hosts.
pub fn upload_provider(setting: Option<&str>) -> (r: &'static str)
    ensures
        (match setting {
            Some(v) => lower_seq(trim_seq(v@)) == "none"@,
            None => false,
        }) ==> r@ == "none"@,
        !(match setting {
            Some(v) => lower_seq(trim_seq(v@)) == "none"@,
            None => false,
        }) ==> r@ == "catbox"@,
{
    match setting {
        Some(v) => {
            if vec_eq(&lower_vec(&trim_vec(&chars_of(v))), &chars_of("none")) {
                "none"
            } else {
                "catbox"
            }
        },
        None => "catbox",
    }
}

/// Uploads nothing: every upload is refused.
pub struct NoopUploader;

impl NoopUploader {
    pub fn upload_file(&self, _path: &str) -> (r: Result<String, String>)
        ensures
            r matches Err(e) && e@ == "DELIVERY_UPLOAD_PROVIDER=none"@,
    {
        Err(String::from_str("DELIVERY_UPLOAD_PROVIDER=none"))
    }
}

/// Renders the spilled markdown with the persona's `md2pdf_cjk.py`, falling back to
/// pandoc; the commands themselves run outside the library.
pub struct RealPdfRenderer;

/// How one render command ended.
#[derive(Debug, Clone)]
pub enum RenderOutcome {
    /// The command exited successfully; whether the PDF file now exists.
    Finished { pdf_exists: bool },
    /// The command could not run or failed, with its error text.
    Failed(String),
}

impl RealPdfRenderer {
    /// After the `md2pdf_cjk.py` step (`None` when the script is absent): `Ok` when it
    /// produced the PDF, else the error to carry into the pandoc fallback.
    pub fn after_script(&self, outcome: Option<RenderOutcome>) -> (r: Result<(), Option<String>>)
        ensures
            match outcome {
                None => r matches Err(None),
                Some(RenderOutcome::Finished { pdf_exists }) => if pdf_exists {
                    r is Ok
                } else {
                    r matches Err(Some(e)) && e@ == "md2pdf_cjk.py succeeded but PDF missing"@
                },
                Some(RenderOutcome::Failed(e)) => r matches Err(Some(x)) && x@ == e@,
            },
    {
        match outcome {
            None => Err(None),
            Some(RenderOutcome::Finished { pdf_exists }) => if pdf_exists {
                Ok(())
            } else {
                Err(Some(String::from_str("md2pdf_cjk.py succeeded but PDF missing")))
            },
            Some(RenderOutcome::Failed(e)) => Err(Some(e)),
        }
    }

    /// After the pandoc fallback: `Ok` when it produced the PDF, else the error,
    /// prefixed by the script's error when there was one.
    pub fn after_pandoc(&self, script_err: Option<String>, outcome: RenderOutcome) -> (r: Result<(), String>)
        ensures
            match outcome {
                RenderOutcome::Finished { pdf_exists } => if pdf_exists {
                    r is Ok
                } else {
                    r matches Err(e) && e@ == (match script_err {
                        Some(s) => s@ + "; pandoc succeeded but PDF missing"@,
                        None => "pandoc succeeded but PDF missing"@,
                    })
                },
                RenderOutcome::Failed(p) => r matches Err(e) && e@ == (match script_err {
                    Some(s) => s@ + "; pandoc fallback failed: "@ + p@,
                    None => p@,
                }),
            },
    {
        match outcome {
            RenderOutcome::Finished { pdf_exists } => {
                if pdf_exists {
                    Ok(())
                } else {
                    match script_err {
                        Some(s) => {
                            let mut v = chars_of(s.as_str());
                            append_str(&mut v, "; pandoc succeeded but PDF missing");
                            Err(string_of(&v))
                        },
                        None => Err(String::from_str("pandoc succeeded but PDF missing")),
                    }
                }
            },
            RenderOutcome::Failed(p) => match script_err {
                Some(s) => {
                    let mut v = chars_of(s.as_str());
                    append_str(&mut v, "; pandoc fallback failed: ");
                    append_str(&mut v, p.as_str());
                    Err(string_of(&v))
                },
                None => Err(p),
            },
        }
    }
}

/// Which spilled file is uploaded.
#[derive(Debug, Clone, Copy, PartialEq, Eq, Structural)]
pub enum SpillUpload {
    Pdf,
    Markdown,
}

/// The PDF is uploaded when rendering succeeded and the file exists; otherwise the
/// markdown spill is uploaded in its place.
pub fn choose_spill_upload(render_ok: bool, pdf_exists: bool) -> (r: SpillUpload)
    ensures
        r == (if render_ok && pdf_exists { SpillUpload::Pdf } else { SpillUpload::Markdown }),
{
    if render_ok && pdf_exists {
        SpillUpload::Pdf
    } else {
        SpillUpload::Markdown
    }
}

/// What one upload attempt leads to.
#[derive(Debug, Clone)]
pub enum UploadStep {
    /// A public HTTPS URL to offer.
    Accept(String),
    /// The attempt failed with this error; try again.
    Retry(String),
    /// The last attempt failed with this error; no link is offered.
    Exhausted(String),
}

/// The outcome of upload attempt `attempt` (1-based, at most `UPLOAD_ATTEMPTS`): a
/// URL that is public HTTPS is accepted trimmed; any other URL or error is retried
/// while attempts remain, and ends the uploads after the last one. A local or
/// internal URL is never accepted.
pub fn upload_attempt_outcome(attempt: u32, outcome: Result<String, String>) -> (r: UploadStep)
    requires
        1 <= attempt <= UPLOAD_ATTEMPTS,
    ensures
        match outcome {
            Ok(url) => if public_https_seq(url@) {
                r matches UploadStep::Accept(u) && u@ == trim_seq(url@)
            } else if attempt < UPLOAD_ATTEMPTS {
                r matches UploadStep::Retry(e) && e@ == "upload response was not a public https URL"@
            } else {
                r matches UploadStep::Exhausted(e) && e@ == "upload response was not a public https URL"@
            },
            Err(err) => if attempt < UPLOAD_ATTEMPTS {
                r matches UploadStep::Retry(e) && e@ == err@
            } else {
                r matches UploadStep::Exhausted(e) && e@ == err@
            },
        },
{
    let err = match outcome {
        Ok(url) => match validate_public_https_url(url.as_str()) {
            Ok(u) => return UploadStep::Accept(string_of(&chars_of(u))),
            Err(e) => String::from_str(e),
        },
        Err(e) => e,
    };
    if attempt < UPLOAD_ATTEMPTS {
        UploadStep::Retry(err)
    } else {
        UploadStep::Exhausted(err)
    }
}

/// The result of a multipart upload: a failed HTTP status gives `<label> HTTP
/// <status>: <body>` with the trimmed body cut to 180 characters; a success gives the
/// public URL found in the body (`json` is the body parsed as JSON, when it is).
pub fn multipart_reply(label: &str, success: bool, status: &str, body: &str, json: Option<&JsonValue>) -> (r: Result<String, String>)
    ensures
        !success ==> (r matches Err(e) && e@ == label@ + " HTTP "@ + status@ + ": "@ + take_chars(trim_seq(body@), 180)),
        success ==> match (r, extract_public_url_seq(body@, match json { Some(j) => Some(*j), None => None })) {
            (Ok(a), Ok(b)) => a@ == b,
            (Err(a), Err(b)) => a@ == b,
            _ => false,
        },
{
    if !success {
        let mut v = chars_of(label);
        append_str(&mut v, " HTTP ");
        append_str(&mut v, status);
        append_str(&mut v, ": ");
        append_vec(&mut v, &take_vec(&trim_vec(&chars_of(body)), 180));
        return Err(string_of(&v));
    }
    extract_public_https_url(body, json)
}

/// The reply read as JSON matches `json`: the content the trimmed reply text
/// parses into, or `None` when it is not JSON.
pub open spec fn reply_json_matches(raw: Seq<char>, json: Option<JsonValue>) -> bool {
    match (json_value_of(trim_seq(raw)), json) {
        (Some(m), Some(v)) => v@ == m,
        (None, None) => true,
        _ => false,
    }
}

/// The outcome for an upload reply `raw` read with some parse `json` of it.
pub open spec fn public_url_outcome(r: Result<String, String>, raw: Seq<char>, json: Option<JsonValue>) -> bool {
    match (r, extract_public_url_seq(raw, json)) {
        (Ok(a), Ok(b)) => a@ == b,
        (Err(a), Err(b)) => a@ == b,
        _ => false,
    }
}

/// Reads the trimmed reply text as JSON, `None` when it is not JSON.
fn reply_json(raw: &str) -> (r: Option<JsonValue>)
    ensures
        reply_json_matches(raw@, r),
{
    let t = string_of(&trim_vec(&chars_of(raw)));
    match json_parse(t.as_str()) {
        Ok(v) => Some(v),
        Err(_) => None,
    }
}

/// Pulls the public HTTPS URL out of an upload host's reply text, reading the
/// trimmed text as JSON where it is JSON (see `extract_public_url_seq`).
pub fn extract_public_https_url_raw(raw: &str) -> (r: Result<String, String>)
    ensures
        exists|json: Option<JsonValue>|
            #![trigger public_url_outcome(r, raw@, json)]
            reply_json_matches(raw@, json) && public_url_outcome(r, raw@, json),
{
    let json = reply_json(raw);
    let r = extract_public_https_url(raw, json.as_ref());
    assert(public_url_outcome(r, raw@, json));
    r
}

/// What an upload host's HTTP reply gives: an error quoting the status and the
/// start of the body when it failed, else the public URL read from the body text
/// (see `extract_public_https_url_raw`).
pub fn multipart_reply_raw(label: &str, success: bool, status: &str, body: &str) -> (r: Result<String, String>)
    ensures
        !success ==> (r matches Err(e) && e@ == label@ + " HTTP "@ + status@ + ": "@ + take_chars(trim_seq(body@), 180)),
        success ==> exists|json: Option<JsonValue>|
            #![trigger public_url_outcome(r, body@, json)]
            reply_json_matches(body@, json) && public_url_outcome(r, body@, json),
{
    let json = reply_json(body);
    let r = multipart_reply(label, success, status, body, json.as_ref());
    proof {
        if success {
            assert(public_url_outcome(r, body@, json));
        }
    }
    r
}

/// The error when every public host refused the upload: `all public hosts failed: `
/// and each host's error, joined by ` | `.
pub open spec fn join_errors(errors: Seq<Seq<char>>) -> Seq<char>
    decreases errors.len(),
{
    if errors.len() == 0 {
        Seq::empty()
    } else if errors.len() == 1 {
        errors[0]
    } else {
        join_errors(errors.drop_last()) + " | "@ + errors.last()
    }
}

pub fn all_hosts_failed(errors: &Vec<String>) -> (r: String)
    ensures
        r@ == "all public hosts failed: "@ + join_errors(errors@.map_values(|e: String| e@)),
{
    let ghost ev = errors@.map_values(|e: String| e@);
    let mut v = chars_of("all public hosts failed: ");
    let ghost head = v@;
    let mut i: usize = 0;
    while i < errors.len()
        invariant
            i <= errors.len(),
            ev == errors@.map_values(|e: String| e@),
            v@ == head + join_errors(ev.subrange(0, i as int)),
        decreases errors.len() - i,
    {
        let ghost sub = ev.subrange(0, i + 1);
        assert(sub.drop_last() =~= ev.subrange(0, i as int));
        if i > 0 {
            append_str(&mut v, " | ");
        } else {
            assert(ev.subrange(0, 0) =~= Seq::<Seq<char>>::empty());
        }
        append_str(&mut v, errors[i].as_str());
        assert(v@ =~= head + join_errors(sub));
        i += 1;
    }
    assert(ev.subrange(0, ev.len() as int) =~= ev);
    string_of(&v)
}

/// The file name sent with an upload; `delivery.bin` when the path has none.
pub fn upload_file_name(file_name: Option<&str>) -> (r: String)
    ensures
        r@ == (match file_name { Some(n) => n@, None => "delivery.bin"@ }),
{
    match file_name {
        Some(n) => string_of(&chars_of(n)),
        None => String::from_str("delivery.bin"),
    }
}

// ---------------------------------------------------------------------------
// Payload preservation
// ---------------------------------------------------------------------------

/// A line that carries dense payload: a table row, a figure, a code fence, or a long
/// line (at least 80 bytes).
pub open spec fn keeps_payload(t: Seq<char>) -> bool {
    t.contains('|') || (exists|k: int| 0 <= k < t.len() && crate::text::is_ascii_digit(#[trigger] t[k]))
        || has_prefix(t, "```"@) || byte_len(t) >= 80
}

/// Distinct snippets (each the first 80 characters) of payload lines, until `max`
/// are held.
pub open spec fn snippets_of_lines(ls: Seq<Seq<char>>, max: nat, acc: Seq<Seq<char>>) -> Seq<Seq<char>>
    decreases ls.len(),
{
    if ls.len() == 0 {
        acc
    } else {
        let t = trim_seq(ls[0]);
        if t.len() == 0 || !keeps_payload(t) {
            snippets_of_lines(ls.drop_first(), max, acc)
        } else {
            let sn = take_chars(t, 80);
            let acc2 = if sn.len() > 0 && !acc.contains(sn) { acc.push(sn) } else { acc };
            if acc2.len() >= max {
                acc2
            } else {
                snippets_of_lines(ls.drop_first(), max, acc2)
            }
        }
    }
}

fn holds_snippet(out: &Vec<Vec<char>>, sn: &Vec<char>) -> (r: bool)
    ensures
        r == out@.map_values(|l: Vec<char>| l@).contains(sn@),
{
    let ghost ov = out@.map_values(|l: Vec<char>| l@);
    let mut i: usize = 0;
    while i < out.len()
        invariant
            i <= out.len(),
            ov == out@.map_values(|l: Vec<char>| l@),
            forall|k: int| 0 <= k < i ==> ov[k] != sn@,
        decreases out.len() - i,
    {
        if vec_eq(&out[i], sn) {
            assert(ov[i as int] == sn@);
            return true;
        }
        i += 1;
    }
    false
}

/// Tables, figures and other dense payload lines that must travel with the PDF.
pub fn distinctive_payload_snippets(text: &str, max: usize) -> (r: Vec<String>)
    ensures
        r@.map_values(|s: String| s@) == snippets_of_lines(lines_seq(text@), max as nat, Seq::empty()),
{
    let tv = chars_of(text);
    let lines = lines_vec(&tv);
    let ghost lv = lines@.map_values(|l: Vec<char>| l@);
    let fence = chars_of("```");
    let mut out: Vec<Vec<char>> = Vec::new();
    let mut i: usize = 0;
    assert(lv.subrange(0, lv.len() as int) =~= lv);
    assert(out@.map_values(|l: Vec<char>| l@) =~= Seq::<Seq<char>>::empty());
    while i < lines.len()
        invariant
            i <= lines.len(),
            fence@ == "```"@,
            lv == lines@.map_values(|l: Vec<char>| l@),
            lv == lines_seq(text@),
            snippets_of_lines(lv, max as nat, Seq::empty()) == snippets_of_lines(
                lv.subrange(i as int, lv.len() as int),
                max as nat,
                out@.map_values(|l: Vec<char>| l@),
            ),
        decreases lines.len() - i,
    {
        let ghost sub = lv.subrange(i as int, lv.len() as int);
        let ghost acc = out@.map_values(|l: Vec<char>| l@);
        assert(sub[0] == lines@[i as int]@);
        assert(sub.drop_first() =~= lv.subrange(i + 1, lv.len() as int));
        let t = trim_vec(&lines[i]);
        let keep = has_char(&t, '|') || any_ascii_digit(&t) || starts_with(&t, &fence)
            || byte_len_capped(&t, 80) >= 80;
        if t.len() == 0 || !keep {
            i += 1;
            continue;
        }
        let sn = take_vec(&t, 80);
        if sn.len() > 0 && !holds_snippet(&out, &sn) {
            out.push(sn);
            assert(out@.map_values(|l: Vec<char>| l@) =~= acc.push(take_chars(t@, 80)));
        }
        if out.len() >= max {
            let mut res: Vec<String> = Vec::new();
            let mut k: usize = 0;
            while k < out.len()
                invariant
                    k <= out.len(),
                    res@.len() == k,
                    forall|j: int| 0 <= j < k ==> #[trigger] res@[j]@ == out@[j]@,
                decreases out.len() - k,
            {
                res.push(string_of(&out[k]));
                k += 1;
            }
            assert(res@.map_values(|s: String| s@) =~= out@.map_values(|l: Vec<char>| l@));
            return res;
        }
        i += 1;
    }
    assert(lv.subrange(i as int, lv.len() as int) =~= Seq::<Seq<char>>::empty());
    let mut res: Vec<String> = Vec::new();
    let mut k: usize = 0;
    while k < out.len()
        invariant
            k <= out.len(),
            res@.len() == k,
            forall|j: int| 0 <= j < k ==> #[trigger] res@[j]@ == out@[j]@,
        decreases out.len() - k,
    {
        res.push(string_of(&out[k]));
        k += 1;
    }
    assert(res@.map_values(|s: String| s@) =~= out@.map_values(|l: Vec<char>| l@));
    res
}

/// The number of distinctive snippets of `original` (at most six) that `spilled`
/// does not hold; zero means the spill keeps the report's payload.
pub fn missing_payload_snippets(original: &str, spilled: &str) -> (r: usize)
    ensures
        r <= 6,
        r == 0 <==> (forall|k: int| 0 <= k < snippets_of_lines(lines_seq(original@), 6, Seq::empty()).len()
            ==> contains_seq(spilled@, #[trigger] snippets_of_lines(lines_seq(original@), 6, Seq::empty())[k])),
{
    let snippets = distinctive_payload_snippets(original, 6);
    let ghost sv = snippets@.map_values(|s: String| s@);
    proof {
        lemma_snippets_len(lines_seq(original@), 6, Seq::empty());
    }
    let sp = chars_of(spilled);
    let mut missing: usize = 0;
    let mut i: usize = 0;
    while i < snippets.len()
        invariant
            i <= snippets.len(),
            snippets.len() <= 6,
            sv == snippets@.map_values(|s: String| s@),
            missing <= i,
            missing == 0 <==> (forall|k: int| 0 <= k < i ==> contains_seq(sp@, #[trigger] sv[k])),
            sp@ == spilled@,
        decreases snippets.len() - i,
    {
        let sn = chars_of(snippets[i].as_str());
        assert(sv[i as int] == sn@);
        if !contains(&sp, &sn) {
            missing += 1;
        }
        i += 1;
    }
    missing
}

proof fn lemma_snippets_len(ls: Seq<Seq<char>>, max: nat, acc: Seq<Seq<char>>)
    requires
        acc.len() < max,
    ensures
        snippets_of_lines(ls, max, acc).len() <= max,
    decreases ls.len(),
{
    if ls.len() > 0 {
        let t = trim_seq(ls[0]);
        if t.len() == 0 || !keeps_payload(t) {
            lemma_snippets_len(ls.drop_first(), max, acc);
        } else {
            let sn = take_chars(t, 80);
            let acc2 = if sn.len() > 0 && !acc.contains(sn) { acc.push(sn) } else { acc };
            if acc2.len() < max {
                lemma_snippets_len(ls.drop_first(), max, acc2);
            }
        }
    }
}

// ---------------------------------------------------------------------------
// The summarizer request
// ---------------------------------------------------------------------------

/// Longest report text handed to the summarizer, in characters.
pub const SUMMARY_SOURCE_MAX_CHARS: usize = 12_000;
/// Output budget of the summarizer, in tokens.
pub const SUMMARY_MAX_TOKENS: u32 = 700;
/// Shortest wait for the summarizer, in seconds.
pub const SUMMARY_LLM_TIMEOUT_SECS: u64 = 45;

/// The summarizer's instructions.
pub open spec fn summary_system_prompt() -> Seq<char> {
    "You write the short chat reply that accompanies a longer report. Sound like a helpful colleague, not a template, status dump, or table of contents. Match the language of the report. Do not use headings like '— summary'. Do not mention character counts, 'spilled to PDF', or local file paths. Do not invent facts or URLs."@
}

/// The summarizer's request text for a report `source` and a reply budget.
pub open spec fn summary_user_prompt(summary_chars: nat, source: Seq<char>) -> Seq<char> {
    "Write a natural reply of at most "@ + crate::decimal::decimal_seq(summary_chars)
        + " characters.\nCover the main takeaway and a few key points. Keep specific numbers/names that matter.\nTell the reader the detailed/sensitive analysis is in the PDF, not omitted.\nDo not include URLs, markdown links, or file paths. A public HTTPS PDF URL will be appended after your reply. Do not invent a link.\n\nFull report:\n"@
        + source
}

/// The request sent to the summarizer.
#[derive(Debug, Clone)]
pub struct SummaryRequest {
    pub model: String,
    pub max_tokens: u32,
    pub system: String,
    pub user: String,
    pub timeout_secs: u64,
}

/// The model that writes summaries: the hook prompt model, else the orchestrator
/// model (each trimmed, when not blank), else the main model.
pub open spec fn spec_summary_model(config: Config) -> Seq<char> {
    if trim_seq(config.hook_prompt_model@).len() > 0 {
        trim_seq(config.hook_prompt_model@)
    } else if trim_seq(config.orchestrator_model@).len() > 0 {
        trim_seq(config.orchestrator_model@)
    } else {
        config.model@
    }
}

/// The summarizer request for a report: the summary model; an output budget of the
/// summary length plus 200 tokens, kept within 256..=700; the report with secrets
/// redacted, cut to 12000 characters; and a wait of at least 45 seconds.
pub fn summary_request(
    config: &Config,
    env_redactor: &EnvSecretRedactor,
    full_text: &str,
    summary_chars: usize,
) -> (r: SummaryRequest)
    requires
        summary_chars < 1_000_000,
    ensures
        r.model@ == spec_summary_model(*config),
        r.max_tokens == (if summary_chars + 200 <= 256 {
            256
        } else if summary_chars + 200 >= 700 {
            700
        } else {
            summary_chars + 200
        }),
        r.system@ == summary_system_prompt(),
        r.user@ == summary_user_prompt(
            summary_chars as nat,
            take_chars(redact_seq(full_text@, env_redactor.needle_seqs()), SUMMARY_SOURCE_MAX_CHARS as nat),
        ),
        r.timeout_secs == (if config.hook_prompt_timeout_secs >= SUMMARY_LLM_TIMEOUT_SECS {
            config.hook_prompt_timeout_secs
        } else {
            SUMMARY_LLM_TIMEOUT_SECS
        }),
{
    let hook = trim_vec(&chars_of(config.hook_prompt_model.as_str()));
    let orch = trim_vec(&chars_of(config.orchestrator_model.as_str()));
    let model = if hook.len() > 0 {
        string_of(&hook)
    } else if orch.len() > 0 {
        string_of(&orch)
    } else {
        config.model.clone()
    };
    let wanted: u32 = summary_chars as u32 + 200;
    let capped = if wanted < SUMMARY_MAX_TOKENS { wanted } else { SUMMARY_MAX_TOKENS };
    let max_tokens = if capped > 256 { capped } else { 256 };
    let redacted = env_redactor.redact(full_text);
    let source = take_vec(&chars_of(redacted.as_str()), SUMMARY_SOURCE_MAX_CHARS);
    let mut user = chars_of("Write a natural reply of at most ");
    append_vec(&mut user, &crate::decimal::u64_decimal(summary_chars as u64));
    append_str(
        &mut user,
        " characters.\nCover the main takeaway and a few key points. Keep specific numbers/names that matter.\nTell the reader the detailed/sensitive analysis is in the PDF, not omitted.\nDo not include URLs, markdown links, or file paths. A public HTTPS PDF URL will be appended after your reply. Do not invent a link.\n\nFull report:\n",
    );
    append_vec(&mut user, &source);
    let timeout_secs = if config.hook_prompt_timeout_secs >= SUMMARY_LLM_TIMEOUT_SECS {
        config.hook_prompt_timeout_secs
    } else {
        SUMMARY_LLM_TIMEOUT_SECS
    };
    SummaryRequest {
        model,
        max_tokens,
        system: String::from_str(
            "You write the short chat reply that accompanies a longer report. Sound like a helpful colleague, not a template, status dump, or table of contents. Match the language of the report. Do not use headings like '— summary'. Do not mention character counts, 'spilled to PDF', or local file paths. Do not invent facts or URLs.",
        ),
        user: string_of(&user),
        timeout_secs,
    }
}

/// The summary text from the reply's text blocks, joined; an error when it is blank.
pub fn summary_from_text_blocks(texts: &Vec<String>) -> (r: Result<String, String>)
    ensures
        ({
            let joined = crate::text::join_seqs(texts@.map_values(|t: String| t@));
            &&& trim_seq(joined).len() > 0 ==> (r matches Ok(s) && s@ == joined)
            &&& trim_seq(joined).len() == 0 ==> (r matches Err(e) && e@ == "summary LLM returned empty text"@)
        }),
{
    let joined = crate::text::join_strings(texts);
    if trim_vec(&chars_of(joined.as_str())).len() == 0 {
        Err(String::from_str("summary LLM returned empty text"))
    } else {
        Ok(joined)
    }
}

/// The summarizer that writes the chat reply with the configured LLM.
pub struct LlmDeliverySummarizer<'a> {
    pub config: &'a Config,
    pub env_redactor: &'a EnvSecretRedactor,
}

impl<'a> LlmDeliverySummarizer<'a> {
    pub fn new(config: &'a Config, env_redactor: &'a EnvSecretRedactor) -> (r: Self)
        ensures
            r.config == config,
            r.env_redactor == env_redactor,
    {
        LlmDeliverySummarizer { config, env_redactor }
    }

    /// The request this summarizer sends for a report.
    pub fn request(&self, full_text: &str, summary_chars: usize) -> (r: SummaryRequest)
        requires
            summary_chars < 1_000_000,
        ensures
            r.model@ == spec_summary_model(*self.config),
            r.user@ == summary_user_prompt(
                summary_chars as nat,
                take_chars(redact_seq(full_text@, self.env_redactor.needle_seqs()), SUMMARY_SOURCE_MAX_CHARS as nat),
            ),
    {
        summary_request(self.config, self.env_redactor, full_text, summary_chars)
    }
}

/// The body of the delivered message: the summarizer's text when it is not blank,
/// else the extractive fallback.
pub open spec fn summary_body(llm: Result<Seq<char>, Seq<char>>, full: Seq<char>, url: Option<Seq<char>>) -> Seq<char> {
    match llm {
        Ok(s) => if trim_seq(s).len() > 0 {
            s
        } else {
            fallback_summary_seq(full, url)
        },
        Err(_) => fallback_summary_seq(full, url),
    }
}

/// The chat reply for a spilled report, from what the summarizer returned: its text
/// when not blank, else the extractive fallback (topic, excerpt, heading bullets and
/// the link or a note that it did not go through), then finalized: no local path,
/// the public link at the end, within the summary budget.
pub fn deliver_natural_summary(
    llm_result: Result<String, String>,
    full_text: &str,
    public_url: Option<&str>,
    summary_chars: usize,
    messaging: bool,
) -> (r: String)
    ensures
        ({
            let url = match public_url { Some(u) => Some(u@), None => None };
            let llm = match llm_result { Ok(s) => Ok(s@), Err(e) => Err(e@) };
            r@ == finalize_seq(summary_body(llm, full_text@, url), url, summary_chars as nat)
        }),
        leak_free(r@),
        public_url is Some && public_https_seq(public_url.unwrap()@) && leak_free(public_url.unwrap()@)
            ==> has_suffix(r@, "\n\n"@ + public_url.unwrap()@),
{
    let full = chars_of(full_text);
    let body: String = match llm_result {
        Ok(s) => {
            if trim_vec(&chars_of(s.as_str())).len() > 0 {
                s
            } else {
                let u = match public_url { Some(x) => Some(chars_of(x)), None => None };
                let fb = match &u { Some(x) => fallback_natural_summary(&full, Some(x)), None => fallback_natural_summary(&full, None) };
                string_of(&fb)
            }
        },
        Err(_) => {
            let u = match public_url { Some(x) => Some(chars_of(x)), None => None };
            let fb = match &u { Some(x) => fallback_natural_summary(&full, Some(x)), None => fallback_natural_summary(&full, None) };
            string_of(&fb)
        },
    };
    finalize_delivery_message(body.as_str(), public_url, summary_chars, messaging)
}

} // verus!
