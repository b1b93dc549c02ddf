//! From a target and a mode to a URL template, and from a template and a
//! word to the request that is made for that word.
//!
//! The marker `{fuzz}` stands in a template wherever the word goes. In
//! `Fuzz` mode the caller writes the marker into the target; the target is
//! then the template, unchanged, whether or not it holds a marker.

use crate::config::ConfigError;
use crate::mode::Mode;
use crate::text::{
    append_chars, chars_of, find_char, has_prefix, replace_chars, replaced, slice_chars, starts_with,
    string_of, up_to,
};
use vstd::prelude::*;

verus! {

/// The marker that a word replaces.
pub open spec fn placeholder() -> Seq<char> {
    "{fuzz}"@
}

/// The target names a scheme that this engine speaks.
pub open spec fn has_scheme(target: Seq<char>) -> bool {
    starts_with(target, "http://"@) || starts_with(target, "https://"@)
}

/// The scheme under which requests are made: `https://` for a target that
/// begins with it, `http://` for every other target.
pub open spec fn scheme_of(target: Seq<char>) -> Seq<char> {
    if starts_with(target, "https://"@) {
        "https://"@
    } else {
        "http://"@
    }
}

/// The target without its leading scheme; a target without scheme is left
/// as it is.
pub open spec fn without_scheme(target: Seq<char>) -> Seq<char> {
    if starts_with(target, "https://"@) {
        target.skip("https://"@.len() as int)
    } else if starts_with(target, "http://"@) {
        target.skip("http://"@.len() as int)
    } else {
        target
    }
}

/// The authority of the target: what stands between the scheme and the
/// first `/` after it.
pub open spec fn bare_host(target: Seq<char>) -> Seq<char> {
    up_to(without_scheme(target), '/')
}

/// The URL template of a target in a mode.
pub open spec fn template_of(target: Seq<char>, mode: Mode) -> Seq<char> {
    match mode {
        Mode::Dir => target + "/"@ + placeholder(),
        Mode::Fuzz => target,
        Mode::Vhost => target,
        Mode::DNS => scheme_of(target) + placeholder() + "."@ + bare_host(target),
    }
}

/// The template with the word in place of every marker.
pub open spec fn filled(template: Seq<char>, word: Seq<char>) -> Seq<char> {
    replaced(template, placeholder(), word)
}

/// The `Host` header that asks the server at `url` for the virtual host
/// named by `word`.
pub open spec fn host_for(url: Seq<char>, word: Seq<char>) -> Seq<char> {
    word + "."@ + bare_host(url)
}

/// What is sent for one word.
#[derive(Clone, Debug, PartialEq, Eq)]
pub struct RequestSpec {
    /// The URL that is fetched.
    pub url: String,
    /// The `User-Agent` header, where one is sent.
    pub user_agent: Option<String>,
    /// The `Host` header that replaces the URL's own, in `Vhost` mode. It is
    /// also the label under which a finding is shown.
    pub host: Option<String>,
}

/// A request as plain values.
pub struct RequestModel {
    pub url: Seq<char>,
    pub user_agent: Option<Seq<char>>,
    pub host: Option<Seq<char>>,
}

impl View for RequestSpec {
    type V = RequestModel;

    open spec fn view(&self) -> RequestModel {
        RequestModel {
            url: self.url@,
            user_agent: self.user_agent.deep_view(),
            host: self.host.deep_view(),
        }
    }
}

/// The request for a word, before a `User-Agent` is chosen.
pub open spec fn request_of(template: Seq<char>, word: Seq<char>, mode: Mode) -> RequestModel {
    let url = filled(template, word);
    RequestModel {
        url,
        user_agent: None,
        host: if mode == Mode::Vhost {
            Some(host_for(url, word))
        } else {
            None
        },
    }
}

/// The length of the scheme that `chars` begins with, or zero.
fn scheme_length(chars: &Vec<char>) -> (n: usize)
    ensures
        n <= chars.len(),
        chars@.skip(n as int) == without_scheme(chars@),
        n > 0 <==> has_scheme(chars@),
{
    let https = chars_of("https://");
    let http = chars_of("http://");
    proof {
        reveal_strlit("https://");
        reveal_strlit("http://");
        assert(chars@.skip(0) =~= chars@);
    }
    if has_prefix(chars, &https) {
        https.len()
    } else if has_prefix(chars, &http) {
        http.len()
    } else {
        0
    }
}

/// Whether the target begins with `http://` or `https://`.
pub fn target_has_scheme(target: &str) -> (yes: bool)
    ensures
        yes == has_scheme(target@),
{
    let chars = chars_of(target);
    scheme_length(&chars) > 0
}

/// The scheme under which the target is requested, with its `://`.
pub fn extract_protocol(url: &str) -> (scheme: String)
    ensures
        scheme@ == scheme_of(url@),
{
    let chars = chars_of(url);
    let https = chars_of("https://");
    if has_prefix(&chars, &https) {
        "https://".to_owned()
    } else {
        "http://".to_owned()
    }
}

/// The host of a URL: the URL without its scheme and without its path.
pub fn clean_url(url: &str) -> (host: String)
    ensures
        host@ == bare_host(url@),
{
    let chars = chars_of(url);
    string_of(&host_chars(&chars))
}

fn host_chars(chars: &Vec<char>) -> (host: Vec<char>)
    ensures
        host@ == bare_host(chars@),
{
    let start = scheme_length(chars);
    let end = find_char(chars, '/', start);
    let host = slice_chars(chars, start, end);
    proof {
        assert(chars@.skip(start as int).take(end - start) =~= chars@.subrange(
            start as int,
            end as int,
        ));
    }
    host
}

/// The URL template for a target: the target with the marker `{fuzz}` where
/// the mode puts the word. A target without scheme is taken as `http://`.
pub fn get_url(target: &str, mode: &Mode) -> (template: String)
    ensures
        template@ == template_of(target@, *mode),
{
    let chars = chars_of(target);
    match mode {
        Mode::Dir => {
            let mut out = chars;
            append_chars(&mut out, &chars_of("/"));
            append_chars(&mut out, &chars_of("{fuzz}"));
            string_of(&out)
        },
        Mode::Fuzz => string_of(&chars),
        Mode::Vhost => string_of(&chars),
        Mode::DNS => {
            let mut out = chars_of(extract_protocol(target).as_str());
            append_chars(&mut out, &chars_of("{fuzz}"));
            append_chars(&mut out, &chars_of("."));
            append_chars(&mut out, &host_chars(&chars));
            string_of(&out)
        },
    }
}

/// The URL template for a target, for a target that names its scheme.
pub fn derive_template(target: &str, mode: &Mode) -> (derived: Result<String, ConfigError>)
    ensures
        has_scheme(target@) ==> derived is Ok && derived->Ok_0@ == template_of(target@, *mode),
        !has_scheme(target@) ==> derived == Err::<String, ConfigError>(ConfigError::InvalidTarget),
{
    if target_has_scheme(target) {
        Ok(get_url(target, mode))
    } else {
        Err(ConfigError::InvalidTarget)
    }
}

/// The URL for a word: the template with the word in place of every marker.
pub fn fill(template: &str, word: &str) -> (url: String)
    ensures
        url@ == filled(template@, word@),
{
    let out = replace_chars(&chars_of(template), &chars_of("{fuzz}"), &chars_of(word));
    string_of(&out)
}

/// The `Host` header for a word: the word, a dot, and the host of the URL.
pub fn host_override(url: &str, word: &str) -> (host: String)
    ensures
        host@ == host_for(url@, word@),
{
    let mut out = chars_of(word);
    append_chars(&mut out, &chars_of("."));
    append_chars(&mut out, &host_chars(&chars_of(url)));
    string_of(&out)
}

/// The request for a word. No `User-Agent` is set; in `Vhost` mode the
/// `Host` header is.
pub fn derive_request_spec(url_template: &str, word: &str, mode: &Mode) -> (request: RequestSpec)
    ensures
        request@ == request_of(url_template@, word@, *mode),
{
    let url = fill(url_template, word);
    let host = match mode {
        Mode::Vhost => Some(host_override(url.as_str(), word)),
        _ => None,
    };
    RequestSpec { url, user_agent: None, host }
}

} // verus!
