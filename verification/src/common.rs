//! Reading the host, owner and name of a repository out of its URL, and the share
//! of a count in a total.

use vstd::prelude::*;

use crate::text::{hundredths_string, hundredths_text};

verus! {

/// The end of the run of characters other than `/` that starts at `start`.
pub open spec fn run_end(u: Seq<char>, start: int) -> int
    decreases u.len() - start,
{
    if start < 0 || start >= u.len() {
        u.len() as int
    } else if u[start] == '/' {
        start
    } else {
        run_end(u, start + 1)
    }
}

/// A run starts where it is asked to and ends within the text.
pub proof fn lemma_run_end_bounds(u: Seq<char>, start: int)
    requires
        0 <= start <= u.len(),
    ensures
        start <= run_end(u, start) <= u.len(),
        forall|k: int| start <= k < run_end(u, start) ==> u[k] != '/',
        run_end(u, start) < u.len() ==> u[run_end(u, start)] == '/',
    decreases u.len() - start,
{
    if start < u.len() && u[start] != '/' {
        lemma_run_end_bounds(u, start + 1);
    }
}

/// The three groups that `^https://(github|gitlab).com/([^/]+)/([^/]+)/?.*$` captures
/// in `u`: the host name, the owner and the repository, as written. The character
/// between the host name and `com` may be any character but a newline; the owner
/// runs up to the next `/`, the repository up to the next `/` or the end, and what
/// follows the repository may not hold a newline.
pub open spec fn repo_url_groups(u: Seq<char>) -> Option<(Seq<char>, Seq<char>, Seq<char>)> {
    if u.len() >= 19 && u.subrange(0, 8) == seq!['h', 't', 't', 'p', 's', ':', '/', '/'] && (
    u.subrange(8, 14) == seq!['g', 'i', 't', 'h', 'u', 'b'] || u.subrange(8, 14) == seq![
        'g',
        'i',
        't',
        'l',
        'a',
        'b',
    ]) && u[14] != '\n' && u.subrange(15, 19) == seq!['c', 'o', 'm', '/'] {
        let e2 = run_end(u, 19);
        if 19 < e2 < u.len() {
            let e3 = run_end(u, e2 + 1);
            if e3 > e2 + 1 && forall|k: int| e3 < k < u.len() ==> u[k] != '\n' {
                Some((u.subrange(8, 14), u.subrange(19, e2), u.subrange(e2 + 1, e3)))
            } else {
                None
            }
        } else {
            None
        }
    } else {
        None
    }
}

/// The pattern of the repository URLs of GitHub and GitLab.
pub open spec fn repo_url_pattern() -> Seq<char> {
    "^https://(github|gitlab).com/([^/]+)/([^/]+)/?.*$"@
}

/// The pattern of the option names of `rustfmt.toml` that get pages.
pub open spec fn option_name_pattern() -> Seq<char> {
    "^[a-z_]+$"@
}

/// The pattern of the option values of `rustfmt.toml` that get pages.
pub open spec fn option_value_pattern() -> Seq<char> {
    "^[0-9A-Za-z_]+$"@
}

/// A text of lowercase ASCII letters and underscores, at least one.
pub open spec fn is_option_name(t: Seq<char>) -> bool {
    t.len() > 0 && forall|i: int| 0 <= i < t.len() ==> ('a' <= #[trigger] t[i] <= 'z' || t[i] == '_')
}

/// A text of ASCII letters, digits and underscores, at least one.
pub open spec fn is_option_value(t: Seq<char>) -> bool {
    t.len() > 0 && forall|i: int|
        0 <= i < t.len() ==> ('a' <= #[trigger] t[i] <= 'z' || 'A' <= t[i] <= 'Z' || '0' <= t[i] <= '9'
            || t[i] == '_')
}

/// `Regex::new` of the regex crate on one of the patterns above, then
/// `Regex::captures` on `text`: the groups of the match, or `None` where the text
/// does not match. For the repository URL pattern the groups are those of
/// `repo_url_groups`; the option patterns match exactly the texts of
/// `is_option_name` and `is_option_value` (their `$` ends the text). What the
/// groups hold for the option patterns is left unsaid; they have none.
#[verifier::external_body]
fn regex_captures(pattern: &str, text: &str) -> (r: Option<Vec<String>>)
    requires
        pattern@ == repo_url_pattern() || pattern@ == option_name_pattern() || pattern@
            == option_value_pattern(),
    ensures
        pattern@ == repo_url_pattern() ==> match r {
            Some(g) => g@.len() == 3 && repo_url_groups(text@) == Some((g@[0]@, g@[1]@, g@[2]@)),
            None => repo_url_groups(text@) is None,
        },
        pattern@ == option_name_pattern() ==> (r is Some <==> is_option_name(text@)),
        pattern@ == option_value_pattern() ==> (r is Some <==> is_option_value(text@)),
{
    let re = regex::Regex::new(pattern).unwrap();
    re.captures(text).map(
        |caps| caps.iter().skip(1).map(|m| m.map_or(String::new(), |m| m.as_str().to_string())).collect(),
    )
}

/// Whether an option name of `rustfmt.toml` gets pages (see `is_option_name`).
pub fn valid_option_name(name: &str) -> (r: bool)
    ensures
        r == is_option_name(name@),
{
    regex_captures("^[a-z_]+$", name).is_some()
}

/// Whether an option value of `rustfmt.toml` gets pages (see `is_option_value`).
pub fn valid_option_value(value: &str) -> (r: bool)
    ensures
        r == is_option_value(value@),
{
    regex_captures("^[0-9A-Za-z_]+$", value).is_some()
}

/// Names what `str::to_lowercase` gives for a text: its lowercase form by the
/// Unicode `Lowercase` property.
pub uninterp spec fn lowercase_of(text: Seq<char>) -> Seq<char>;

/// A character of ASCII, lowered.
pub open spec fn ascii_lower_char(c: char) -> char {
    if 'A' <= c <= 'Z' {
        ((c as u32) + 32) as char
    } else {
        c
    }
}

/// All characters are ASCII.
pub open spec fn is_ascii_text(t: Seq<char>) -> bool {
    forall|i: int| 0 <= i < t.len() ==> (t[i] as u32) < 128
}

/// `str::to_lowercase`: the lowercase form of a text. An ASCII text is lowered
/// letter by letter, from `A`..`Z` to `a`..`z`. Each character lowers to one or
/// more characters, so a text that is not empty stays not empty.
#[verifier::external_body]
pub(crate) fn to_lowercase(text: &str) -> (lowered: String)
    ensures
        lowered@ == lowercase_of(text@),
        is_ascii_text(text@) ==> lowered@ == text@.map_values(|c: char| ascii_lower_char(c)),
        text@.len() > 0 ==> lowered@.len() > 0,
{
    text.to_lowercase()
}

/// The host (`github` or `gitlab`), owner and repository of a repository URL, each
/// in lowercase; three empty texts where the URL does not have that form.
pub open spec fn owner_and_repo(url: Seq<char>) -> (Seq<char>, Seq<char>, Seq<char>) {
    match repo_url_groups(url) {
        Some(g) => (lowercase_of(g.0), lowercase_of(g.1), lowercase_of(g.2)),
        None => (Seq::empty(), Seq::empty(), Seq::empty()),
    }
}

/// Reads the host, owner and repository out of a GitHub or GitLab URL, in lowercase;
/// gives three empty texts for any other URL. The host is `github` or `gitlab` as
/// the URL writes it, and the owner and the repository are empty exactly where the
/// URL does not have that form.
pub fn get_owner_and_repo(repository: &str) -> (r: (String, String, String))
    ensures
        (r.0@, r.1@, r.2@) == owner_and_repo(repository@),
        repo_url_groups(repository@) is Some ==> r.0@ == repo_url_groups(repository@).unwrap().0,
        r.1@.len() > 0 <==> repo_url_groups(repository@) is Some,
        r.2@.len() > 0 <==> repo_url_groups(repository@) is Some,
{
    match regex_captures("^https://(github|gitlab).com/([^/]+)/([^/]+)/?.*$", repository) {
        Some(groups) => {
            proof {
                lemma_owner_and_repo_host(repository@);
                let h = repo_url_groups(repository@).unwrap().0;
                assert forall|i: int| 0 <= i < h.len() implies (h[i] as u32) < 128 && !('A' <= h[i] <= 'Z') by {}
                assert(h.map_values(|c: char| ascii_lower_char(c)) =~= h);
            }
            let host = to_lowercase(groups[0].as_str());
            let owner = to_lowercase(groups[1].as_str());
            let repo = to_lowercase(groups[2].as_str());
            (host, owner, repo)
        },
        None => (String::new(), String::new(), String::new()),
    }
}

/// The host of a URL that the pattern captures is `github` or `gitlab`, already in
/// lowercase, and the owner and the repository are not empty.
pub proof fn lemma_owner_and_repo_host(url: Seq<char>)
    requires
        repo_url_groups(url) is Some,
    ensures
        repo_url_groups(url).unwrap().0 == seq!['g', 'i', 't', 'h', 'u', 'b']
            || repo_url_groups(url).unwrap().0 == seq!['g', 'i', 't', 'l', 'a', 'b'],
        repo_url_groups(url).unwrap().1.len() > 0,
        repo_url_groups(url).unwrap().2.len() > 0,
{
    lemma_run_end_bounds(url, 19);
    let e2 = run_end(url, 19);
    lemma_run_end_bounds(url, e2 + 1);
}

/// `num` in hundredths of a percent of `total`, cut down: the whole share in
/// hundredths.
pub open spec fn share_in_hundredths(num: nat, total: nat) -> nat
    recommends
        total > 0,
{
    10000 * num / total
}

/// The share of `num` in `total` in percent, to hundredths of a percent, written
/// without trailing zeros. The total must be positive and `10000 * num` must fit.
pub fn percentage(num: usize, total: usize) -> (s: String)
    requires
        total > 0,
        10000 * num <= usize::MAX,
    ensures
        s@ == hundredths_text(share_in_hundredths(num as nat, total as nat)),
{
    let t = 10000 * num / total;
    hundredths_string(t as u128)
}

} // verus!
