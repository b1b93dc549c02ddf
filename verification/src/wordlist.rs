//! From the lines of a wordlist, and of a list of extensions, to the words
//! of a run.
//!
//! A line counts if it is not empty and does not begin with `#`. With
//! extensions, every extension is combined with every word, extension by
//! extension: all the words with the first extension come first.

use crate::text::{append_chars, chars_of, replace_chars, replaced, string_of};
use vstd::arithmetic::div_mod::{
    lemma_fundamental_div_mod, lemma_fundamental_div_mod_converse, lemma_mod_bound,
};
use vstd::prelude::*;

verus! {

/// The line counts: it is not empty and is no comment.
pub open spec fn is_entry(line: Seq<char>) -> bool {
    line.len() > 0 && line[0] != '#'
}

/// The test by which lines are kept.
pub open spec fn entry_test() -> spec_fn(Seq<char>) -> bool {
    |line: Seq<char>| is_entry(line)
}

/// The lines that count, in their order.
pub open spec fn entries(lines: Seq<Seq<char>>) -> Seq<Seq<char>> {
    lines.filter(entry_test())
}

/// The word with a dot and the target behind it, where the words are
/// names below the target; else the word as it is.
pub open spec fn suffixed(word: Seq<char>, subdomains: bool, target: Seq<char>) -> Seq<char> {
    if subdomains {
        word + "."@ + target
    } else {
        word
    }
}

/// The extension with the word in place of every `%`.
pub open spec fn combined(
    extension: Seq<char>,
    word: Seq<char>,
    subdomains: bool,
    target: Seq<char>,
) -> Seq<char> {
    suffixed(replaced(extension, "%"@, word), subdomains, target)
}

/// Every extension combined with every word, extension by extension.
pub open spec fn expanded(
    words: Seq<Seq<char>>,
    extensions: Seq<Seq<char>>,
    subdomains: bool,
    target: Seq<char>,
) -> Seq<Seq<char>> {
    Seq::new(
        extensions.len() * words.len(),
        |k: int|
            combined(
                extensions[k / words.len() as int],
                words[k % words.len() as int],
                subdomains,
                target,
            ),
    )
}

/// Every word with its suffix.
pub open spec fn all_suffixed(words: Seq<Seq<char>>, subdomains: bool, target: Seq<char>) -> Seq<
    Seq<char>,
> {
    Seq::new(words.len(), |k: int| suffixed(words[k], subdomains, target))
}

/// The words of a run, from the lines of the wordlist and of the list of
/// extensions, if there is one.
pub open spec fn wordlist_of(
    lines: Seq<Seq<char>>,
    extension_lines: Option<Seq<Seq<char>>>,
    subdomains: bool,
    target: Seq<char>,
) -> Seq<Seq<char>> {
    match extension_lines {
        Some(extension_lines) => expanded(
            entries(lines),
            entries(extension_lines),
            subdomains,
            target,
        ),
        None => all_suffixed(entries(lines), subdomains, target),
    }
}

/// Every word of a run counts as a line does: none is empty and none
/// begins with `#`.
pub open spec fn all_entries(words: Seq<Seq<char>>) -> bool {
    forall|k: int| 0 <= k < words.len() ==> is_entry(#[trigger] words[k])
}

/// The lines that are kept all count.
pub proof fn lemma_entries_count(lines: Seq<Seq<char>>)
    ensures
        all_entries(entries(lines)),
    decreases lines.len(),
{
    reveal(Seq::filter);
    if lines.len() > 0 {
        lemma_entries_count(lines.drop_last());
    }
}

/// An extension that counts, combined with a word that counts, counts.
pub proof fn lemma_combined_counts(
    extension: Seq<char>,
    word: Seq<char>,
    subdomains: bool,
    target: Seq<char>,
)
    requires
        is_entry(extension),
        is_entry(word),
    ensures
        is_entry(combined(extension, word, subdomains, target)),
{
    reveal_strlit("%");
    let marker = "%"@;
    let text = replaced(extension, marker, word);
    if extension[0] == '%' {
        assert(extension.subrange(0, 1) =~= marker);
        assert(text == word + replaced(extension.skip(1), marker, word));
        assert(text[0] == word[0]);
    } else {
        assert(extension.subrange(0, 1)[0] == extension[0]);
        assert(text == seq![extension[0]] + replaced(extension.skip(1), marker, word));
        assert(text[0] == extension[0]);
    }
}

/// Every word of a run is a word that counts: no word is empty and none
/// begins with `#`, with or without extensions.
pub proof fn lemma_wordlist_counts(
    lines: Seq<Seq<char>>,
    extension_lines: Option<Seq<Seq<char>>>,
    subdomains: bool,
    target: Seq<char>,
)
    ensures
        all_entries(wordlist_of(lines, extension_lines, subdomains, target)),
{
    let words = entries(lines);
    lemma_entries_count(lines);
    let out = wordlist_of(lines, extension_lines, subdomains, target);
    match extension_lines {
        Some(extension_lines) => {
            let extensions = entries(extension_lines);
            lemma_entries_count(extension_lines);
            assert forall|k: int| 0 <= k < out.len() implies is_entry(#[trigger] out[k]) by {
                let w = words.len() as int;
                let e = extensions.len() as int;
                assert(w > 0) by (nonlinear_arith)
                    requires
                        0 <= k < e * w,
                        e >= 0,
                        w >= 0,
                ;
                lemma_fundamental_div_mod(k, w);
                lemma_mod_bound(k, w);
                assert(0 <= k / w < e) by (nonlinear_arith)
                    requires
                        0 <= k < e * w,
                        w > 0,
                        k == w * (k / w) + k % w,
                        0 <= k % w < w,
                ;
                lemma_combined_counts(extensions[k / w], words[k % w], subdomains, target);
            }
        },
        None => {
            assert forall|k: int| 0 <= k < out.len() implies is_entry(#[trigger] out[k]) by {
                assert(is_entry(words[k]));
            }
        },
    }
}

/// Whether the line counts.
pub fn keep_line(line: &str) -> (keep: bool)
    ensures
        keep == is_entry(line@),
{
    if line.is_empty() {
        false
    } else {
        line.get_char(0) != '#'
    }
}

/// The lines that count, in their order.
pub fn get_wordlist(lines: &Vec<String>) -> (words: Vec<String>)
    ensures
        words.deep_view() == entries(lines.deep_view()),
        all_entries(words.deep_view()),
{
    proof {
        lemma_entries_count(lines.deep_view());
    }
    let mut words: Vec<String> = Vec::new();
    let mut i: usize = 0;
    proof {
        reveal(Seq::filter);
        assert(lines.deep_view().take(0) =~= Seq::<Seq<char>>::empty());
        assert(words.deep_view() =~= Seq::<Seq<char>>::empty());
    }
    while i < lines.len()
        invariant
            i <= lines.len(),
            words.deep_view() == entries(lines.deep_view().take(i as int)),
        decreases lines.len() - i,
    {
        let ghost before = words.deep_view();
        proof {
            reveal(Seq::filter);
            let next = lines.deep_view().take(i + 1);
            assert(next.drop_last() =~= lines.deep_view().take(i as int));
            assert(next.last() == lines[i as int]@);
        }
        if keep_line(lines[i].as_str()) {
            words.push(lines[i].clone());
            proof {
                assert(words.deep_view() =~= before.push(lines[i as int]@));
            }
        }
        i = i + 1;
    }
    proof {
        assert(lines.deep_view().take(i as int) =~= lines.deep_view());
    }
    words
}

/// The `User-Agent` values of a run: the lines that count, or none where
/// there is no list.
pub fn parse_uas(lines: Option<Vec<String>>) -> (agents: Vec<String>)
    ensures
        agents.deep_view() == match lines {
            Some(lines) => entries(lines.deep_view()),
            None => Seq::<Seq<char>>::empty(),
        },
        all_entries(agents.deep_view()),
{
    match lines {
        Some(lines) => get_wordlist(&lines),
        None => {
            let agents: Vec<String> = Vec::new();
            proof {
                assert(agents.deep_view() =~= Seq::<Seq<char>>::empty());
            }
            agents
        },
    }
}

/// The word with a dot and the target behind it, if `subdomains` is set.
fn with_suffix(word: Vec<char>, subdomains: bool, target: &Vec<char>) -> (out: Vec<char>)
    ensures
        out@ == suffixed(word@, subdomains, target@),
{
    let mut out = word;
    if subdomains {
        append_chars(&mut out, &chars_of("."));
        append_chars(&mut out, target);
    }
    out
}

/// The words of a run: the lines of the wordlist that count, each combined
/// with each line of the list of extensions that counts, if there is such a
/// list. With `subdomains` set, a dot and the target follow every word.
pub fn get_wordlist_with_ext(
    lines: Vec<String>,
    extension_lines: Option<Vec<String>>,
    subdomains: bool,
    target: &str,
) -> (out: Vec<String>)
    ensures
        out.deep_view() == wordlist_of(
            lines.deep_view(),
            extension_lines.deep_view(),
            subdomains,
            target@,
        ),
        all_entries(out.deep_view()),
{
    proof {
        lemma_wordlist_counts(
            lines.deep_view(),
            extension_lines.deep_view(),
            subdomains,
            target@,
        );
    }
    let words = get_wordlist(&lines);
    let target_chars = chars_of(target);
    let marker = chars_of("%");
    let mut out: Vec<String> = Vec::new();
    match extension_lines {
        Some(extension_lines) => {
            let extensions = get_wordlist(&extension_lines);
            let ghost goal = expanded(
                words.deep_view(),
                extensions.deep_view(),
                subdomains,
                target@,
            );
            let mut e: usize = 0;
            proof {
                assert(0 * words.len() == 0);
            }
            while e < extensions.len()
                invariant
                    e <= extensions.len(),
                    target_chars@ == target@,
                    marker@ == "%"@,
                    goal == expanded(
                        words.deep_view(),
                        extensions.deep_view(),
                        subdomains,
                        target@,
                    ),
                    out.len() == e * words.len(),
                    forall|k: int| 0 <= k < out.len() ==> out[k]@ == #[trigger] goal[k],
                decreases extensions.len() - e,
            {
                let extension = chars_of(extensions[e].as_str());
                let mut w: usize = 0;
                while w < words.len()
                    invariant
                        e < extensions.len(),
                        w <= words.len(),
                        extension@ == extensions[e as int]@,
                        target_chars@ == target@,
                        marker@ == "%"@,
                        goal == expanded(
                            words.deep_view(),
                            extensions.deep_view(),
                            subdomains,
                            target@,
                        ),
                        out.len() == e * words.len() + w,
                        forall|k: int| 0 <= k < out.len() ==> out[k]@ == #[trigger] goal[k],
                    decreases words.len() - w,
                {
                    let word = chars_of(words[w].as_str());
                    let text = with_suffix(
                        replace_chars(&extension, &marker, &word),
                        subdomains,
                        &target_chars,
                    );
                    proof {
                        let k = e * words.len() + w;
                        lemma_fundamental_div_mod_converse(
                            k as int,
                            words.len() as int,
                            e as int,
                            w as int,
                        );
                        assert(k < extensions.len() * words.len()) by (nonlinear_arith)
                            requires
                                k == e * words.len() + w,
                                w < words.len(),
                                e < extensions.len(),
                        ;
                        assert(goal[k] == text@);
                    }
                    out.push(string_of(&text));
                    w = w + 1;
                }
                proof {
                    assert(e * words.len() + words.len() == (e + 1) * words.len())
                        by (nonlinear_arith);
                }
                e = e + 1;
            }
            proof {
                assert(out.deep_view() =~= goal);
            }
        },
        None => {
            let mut w: usize = 0;
            while w < words.len()
                invariant
                    w <= words.len(),
                    target_chars@ == target@,
                    out.len() == w,
                    forall|k: int|
                        0 <= k < out.len() ==> #[trigger] out[k]@ == suffixed(
                            words[k]@,
                            subdomains,
                            target@,
                        ),
                decreases words.len() - w,
            {
                let text = with_suffix(chars_of(words[w].as_str()), subdomains, &target_chars);
                out.push(string_of(&text));
                w = w + 1;
            }
            proof {
                assert(out.deep_view() =~= all_suffixed(words.deep_view(), subdomains, target@));
            }
        },
    }
    out
}

} // verus!
