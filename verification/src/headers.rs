//! Custom request headers, from `Key: Value` texts.
//!
//! An entry counts if it holds exactly one `:`. Its name and its value are
//! what stands before and after the `:`, without surrounding white space
//! and in lowercase. An entry whose name or value HTTP does not accept is
//! skipped, as is one whose name an earlier entry has: the first one wins.

use crate::text::{
    after, chars_of, find_char, lemma_first_index_exists, lowercased, occurs_once, slice_chars,
    string_of, to_lowercase, trim_chars, trimmed, up_to,
};
use vstd::prelude::*;

verus! {

/// One header of a request.
#[derive(Clone, Debug, PartialEq, Eq)]
pub struct Header {
    /// The name, in lowercase.
    pub name: String,
    /// The value.
    pub value: String,
}

/// A header as plain values.
pub struct HeaderModel {
    pub name: Seq<char>,
    pub value: Seq<char>,
}

impl View for Header {
    type V = HeaderModel;

    open spec fn view(&self) -> HeaderModel {
        HeaderModel { name: self.name@, value: self.value@ }
    }
}

impl DeepView for Header {
    type V = HeaderModel;

    open spec fn deep_view(&self) -> HeaderModel {
        self@
    }
}

/// A character that may stand in a header name: a letter or a digit of
/// ASCII, or one of ``!#$%&'*+-.^_`|~``.
pub open spec fn is_name_char(c: char) -> bool {
    ||| 'a' <= c <= 'z'
    ||| 'A' <= c <= 'Z'
    ||| '0' <= c <= '9'
    ||| c == '!'
    ||| c == '#'
    ||| c == '$'
    ||| c == '%'
    ||| c == '&'
    ||| c == '\''
    ||| c == '*'
    ||| c == '+'
    ||| c == '-'
    ||| c == '.'
    ||| c == '^'
    ||| c == '_'
    ||| c == '`'
    ||| c == '|'
    ||| c == '~'
}

/// A text that is accepted as a header name: one to 65535 characters, each
/// of which may stand in a name.
pub open spec fn valid_name(name: Seq<char>) -> bool {
    &&& 1 <= name.len() <= 65535
    &&& forall|i: int| 0 <= i < name.len() ==> is_name_char(#[trigger] name[i])
}

/// A character that may stand in a header value: a tab, or any character
/// that is neither a control character of ASCII nor DEL.
pub open spec fn is_value_char(c: char) -> bool {
    c == '\t' || (' ' <= c && c != '\x7f')
}

/// A text that is accepted as a header value.
pub open spec fn valid_value(value: Seq<char>) -> bool {
    forall|i: int| 0 <= i < value.len() ==> is_value_char(#[trigger] value[i])
}

/// Parsing a text as a `reqwest::header::HeaderName` succeeds when the text
/// has between 1 and 65535 bytes and each of them is a letter or digit of
/// ASCII or one of ``!#$%&'*+-.^_`|~``, and fails otherwise. Such a text has
/// as many characters as bytes.
#[verifier::external_body]
fn is_header_name(name: &str) -> (ok: bool)
    ensures
        ok == valid_name(name@),
{
    name.parse::<reqwest::header::HeaderName>().is_ok()
}

/// Parsing a text as a `reqwest::header::HeaderValue` succeeds when each of
/// its bytes is a tab or is at least 32 and not 127, and fails otherwise.
/// The bytes of a character outside ASCII are all above 127.
#[verifier::external_body]
fn is_header_value(value: &str) -> (ok: bool)
    ensures
        ok == valid_value(value@),
{
    value.parse::<reqwest::header::HeaderValue>().is_ok()
}

/// The two sides of an entry: what stands before and what stands after
/// its `:`, for an entry that holds exactly one.
pub open spec fn sides(entry: Seq<char>) -> Option<(Seq<char>, Seq<char>)> {
    if occurs_once(entry, ':') {
        Some((up_to(entry, ':'), after(entry, ':')))
    } else {
        None
    }
}

/// One side of an entry without surrounding white space and in lowercase.
pub open spec fn normal(side: Seq<char>) -> Seq<char> {
    lowercased(trimmed(side))
}

/// The header with this name and this value, if HTTP accepts both.
pub open spec fn accepted(name: Seq<char>, value: Seq<char>) -> Option<HeaderModel> {
    if valid_name(name) && valid_value(value) {
        Some(HeaderModel { name, value })
    } else {
        None
    }
}

/// The header that an entry stands for, if it stands for one.
pub open spec fn parsed_entry(entry: Seq<char>) -> Option<HeaderModel> {
    match sides(entry) {
        Some((name, value)) => accepted(normal(name), normal(value)),
        None => None,
    }
}

/// One of the headers has this name.
pub open spec fn has_name(headers: Seq<HeaderModel>, name: Seq<char>) -> bool {
    exists|i: int| 0 <= i < headers.len() && (#[trigger] headers[i]).name == name
}

/// The headers that a list of entries stands for: entry by entry, each
/// header whose name no earlier one has.
pub open spec fn collected(entries: Seq<Seq<char>>) -> Seq<HeaderModel>
    decreases entries.len(),
{
    if entries.len() == 0 {
        Seq::empty()
    } else {
        let before = collected(entries.drop_last());
        match parsed_entry(entries.last()) {
            Some(header) => if has_name(before, header.name) {
                before
            } else {
                before.push(header)
            },
            None => before,
        }
    }
}

/// The headers that an optional list of entries stands for.
pub open spec fn headers_of(list: Option<Seq<Seq<char>>>) -> Seq<HeaderModel> {
    match list {
        Some(entries) => collected(entries),
        None => Seq::empty(),
    }
}

/// No two of the headers have the same name.
pub open spec fn names_distinct(headers: Seq<HeaderModel>) -> bool {
    forall|i: int, j: int|
        0 <= i < j < headers.len() ==> (#[trigger] headers[i]).name != (#[trigger] headers[j]).name
}

/// Among the headers of a list of entries no name occurs twice.
pub proof fn lemma_collected_distinct(entries: Seq<Seq<char>>)
    ensures
        names_distinct(collected(entries)),
    decreases entries.len(),
{
    if entries.len() > 0 {
        lemma_collected_distinct(entries.drop_last());
        let before = collected(entries.drop_last());
        let now = collected(entries);
        assert forall|i: int, j: int| 0 <= i < j < now.len() implies (#[trigger] now[i]).name != (
        #[trigger] now[j]).name by {
            if j < before.len() {
                assert(now[i] == before[i] && now[j] == before[j]);
            } else {
                assert(now[i] == before[i]);
            }
        }
    }
}

/// The two sides of an entry, as they stand: what comes before and what
/// comes after its `:`. An entry without `:` or with more than one has no
/// sides.
pub fn split_entry(entry: &str) -> (parts: Option<(String, String)>)
    ensures
        parts.deep_view() == sides(entry@),
{
    let chars = chars_of(entry);
    let colon = find_char(&chars, ':', 0);
    proof {
        assert(chars@.skip(0) =~= chars@);
        lemma_first_index_exists(chars@, ':');
    }
    if colon == chars.len() {
        return None;
    }
    let second = find_char(&chars, ':', colon + 1);
    proof {
        lemma_first_index_exists(chars@.skip(colon + 1), ':');
    }
    if second < chars.len() {
        return None;
    }
    let name = string_of(&slice_chars(&chars, 0, colon));
    let value = string_of(&slice_chars(&chars, colon + 1, chars.len()));
    Some((name, value))
}

/// One side of an entry without surrounding white space and in lowercase.
pub fn normalize(side: &str) -> (text: String)
    ensures
        text@ == normal(side@),
{
    let bare = string_of(&trim_chars(&chars_of(side)));
    to_lowercase(bare.as_str())
}

/// The header with this name and this value, if HTTP accepts both.
pub fn make_header(name: String, value: String) -> (header: Option<Header>)
    ensures
        header.deep_view() == accepted(name@, value@),
{
    if is_header_name(name.as_str()) && is_header_value(value.as_str()) {
        Some(Header { name, value })
    } else {
        None
    }
}

/// The header that an entry stands for, if it stands for one.
pub fn parse_header(entry: &str) -> (header: Option<Header>)
    ensures
        header.deep_view() == parsed_entry(entry@),
{
    match split_entry(entry) {
        Some((name, value)) => make_header(normalize(name.as_str()), normalize(value.as_str())),
        None => None,
    }
}

/// Whether one of the headers has this name.
fn holds_name(headers: &Vec<Header>, name: &String) -> (found: bool)
    ensures
        found == has_name(headers.deep_view(), name@),
{
    let mut i: usize = 0;
    while i < headers.len()
        invariant
            i <= headers.len(),
            forall|j: int| 0 <= j < i ==> (#[trigger] headers.deep_view()[j]).name != name@,
        decreases headers.len() - i,
    {
        if headers[i].name == *name {
            proof {
                assert(headers.deep_view()[i as int].name == name@);
            }
            return true;
        }
        i = i + 1;
    }
    false
}

/// The headers of a run, from the `Key: Value` texts that were given. No
/// name occurs twice among them, and each name and value is one that HTTP
/// accepts.
pub fn parse_headers(list: Option<Vec<String>>) -> (headers: Vec<Header>)
    ensures
        headers.deep_view() == headers_of(list.deep_view()),
        names_distinct(headers.deep_view()),
        forall|i: int|
            0 <= i < headers.len() ==> valid_name((#[trigger] headers.deep_view()[i]).name)
                && valid_value(headers.deep_view()[i].value),
{
    let mut headers: Vec<Header> = Vec::new();
    let entries = match list {
        Some(entries) => entries,
        None => {
            proof {
                assert(headers.deep_view() =~= Seq::<HeaderModel>::empty());
            }
            return headers;
        },
    };
    let mut i: usize = 0;
    proof {
        assert(entries.deep_view().take(0) =~= Seq::<Seq<char>>::empty());
        assert(headers.deep_view() =~= Seq::<HeaderModel>::empty());
    }
    while i < entries.len()
        invariant
            i <= entries.len(),
            headers.deep_view() == collected(entries.deep_view().take(i as int)),
            forall|k: int|
                0 <= k < headers.len() ==> valid_name((#[trigger] headers.deep_view()[k]).name)
                    && valid_value(headers.deep_view()[k].value),
        decreases entries.len() - i,
    {
        let ghost before = headers.deep_view();
        proof {
            let next = entries.deep_view().take(i + 1);
            assert(next.drop_last() =~= entries.deep_view().take(i as int));
            assert(next.last() == entries[i as int]@);
        }
        if let Some(header) = parse_header(entries[i].as_str()) {
            if !holds_name(&headers, &header.name) {
                let ghost model = header@;
                headers.push(header);
                proof {
                    assert(headers.deep_view() =~= before.push(model));
                }
            }
        }
        i = i + 1;
    }
    proof {
        assert(entries.deep_view().take(i as int) =~= entries.deep_view());
        lemma_collected_distinct(entries.deep_view());
    }
    headers
}

} // verus!
