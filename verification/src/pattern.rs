//! Regular-expression matching, done by the `regex` crate.
use vstd::prelude::*;

verus! {

/// Each match of the regular expression `pattern` in `haystack`, left to right and
/// without overlap: the matched text, and the text of the first capture group when
/// that group took part in the match. No match when `pattern` is not a valid
/// expression.
pub uninterp spec fn regex_matches(pattern: Seq<char>, haystack: Seq<char>) -> Seq<(Seq<char>, Option<Seq<char>>)>;

/// The texts of a list of matches.
pub open spec fn matches_view(ms: Seq<(String, Option<String>)>) -> Seq<(Seq<char>, Option<Seq<char>>)> {
    ms.map_values(
        |m: (String, Option<String>)|
            (
                m.0@,
                match m.1 {
                    Some(g) => Some(g@),
                    None => None,
                },
            ),
    )
}

/// Compiles `pattern` with `regex::Regex::new` and lists its matches in `haystack`
/// with `Regex::captures_iter`: for each, group 0 and group 1 (`Captures::get`). The
/// contract claims only that the list is the one `regex_matches` names, which is
/// what the crate computes from the two texts and nothing else.
#[verifier::external_body]
pub(crate) fn regex_captures(pattern: &str, haystack: &str) -> (r: Vec<(String, Option<String>)>)
    ensures
        matches_view(r@) == regex_matches(pattern@, haystack@),
{
    let mut out: Vec<(String, Option<String>)> = Vec::new();
    if let Ok(re) = regex::Regex::new(pattern) {
        for caps in re.captures_iter(haystack) {
            out.push((caps[0].to_string(), caps.get(1).map(|m| m.as_str().to_string())));
        }
    }
    out
}

} // verus!
