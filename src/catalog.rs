use vstd::prelude::*;
use crate::document::{entries_view, find_key, Doc, Node};
use crate::language::{language_name, Language};
use crate::minimize::language_key;

verus! {

/// The lines of a text, as `str::lines` splits them.
pub uninterp spec fn lines_of(s: Seq<char>) -> Seq<Seq<char>>;

/// The first capture group of the first match of the regular expression
/// `pattern` in `line`; none where it does not compile or does not match.
pub uninterp spec fn first_group(pattern: Seq<char>, line: Seq<char>) -> Option<Seq<char>>;

/// The pieces of `s` between the occurrences of `sep`, as `str::split`
/// cuts them.
pub uninterp spec fn split_of(s: Seq<char>, sep: Seq<char>) -> Seq<Seq<char>>;

/// Lexicographic order of texts by their characters.
pub open spec fn text_le(a: Seq<char>, b: Seq<char>) -> bool
    decreases a.len(),
{
    if a.len() == 0 {
        true
    } else if b.len() == 0 {
        false
    } else if a[0] != b[0] {
        a[0] < b[0]
    } else {
        text_le(a.drop_first(), b.drop_first())
    }
}

/// The texts held by a vector of strings.
pub open spec fn texts_view(v: Seq<String>) -> Seq<Seq<char>> {
    v.map_values(|s: String| s@)
}

/// Relies on `str::lines`: the lines of `s`, a function of `s` alone.
#[verifier::external_body]
fn text_lines(s: &str) -> (r: Vec<String>)
    ensures
        texts_view(r@) == lines_of(s@),
{
    s.lines().map(|l| l.to_owned()).collect()
}

/// Relies on `regex::Regex::new` and `regex::Regex::captures`: the text of
/// the first capture group of the first match of `pattern` in `line`.
#[verifier::external_body]
fn capture_group(pattern: &str, line: &str) -> (r: Option<String>)
    ensures
        match r {
            Some(g) => first_group(pattern@, line@) == Some(g@),
            None => first_group(pattern@, line@) is None,
        },
{
    let re = match regex::Regex::new(pattern) {
        Ok(re) => re,
        Err(_) => return None,
    };
    match re.captures(line) {
        Some(c) => c.get(1).map(|m| m.as_str().to_owned()),
        None => None,
    }
}

/// Relies on `str::split`: the pieces of `s` between the occurrences of
/// `sep`, a function of the two texts alone.
#[verifier::external_body]
fn split_text(s: &str, sep: &str) -> (r: Vec<String>)
    ensures
        texts_view(r@) == split_of(s@, sep@),
{
    s.split(sep).map(|p| p.to_owned()).collect()
}

/// Relies on `slice::sort_unstable` on strings: the same texts, ordered
/// lexicographically.
#[verifier::external_body]
fn sort_texts(v: &mut Vec<String>)
    ensures
        texts_view(final(v)@).to_multiset() == texts_view(old(v)@).to_multiset(),
        forall|i: int, j: int|
            0 <= i < j < final(v)@.len() ==> text_le(#[trigger] final(v)@[i]@, #[trigger] final(v)@[j]@),
{
    v.sort_unstable();
}

/// The line of a formatter's help text that lists the style names: words
/// separated by a comma and a space, ending in a full stop.
pub open spec fn style_list_pattern() -> Seq<char> {
    "^\\s*(\\w+(?:, \\w+)*)\\.$"@
}

/// The style names that the first listing line of `help_text` holds,
/// sorted; none where no line lists them.
pub fn parse_style_names(help_text: &str) -> (r: Option<Vec<String>>)
    ensures
        match r {
            None => forall|i: int|
                0 <= i < lines_of(help_text@).len() ==> #[trigger] first_group(
                    style_list_pattern(),
                    lines_of(help_text@)[i],
                ) is None,
            Some(names) => exists|i: int|
                0 <= i < lines_of(help_text@).len() && (forall|j: int|
                    0 <= j < i ==> #[trigger] first_group(style_list_pattern(), lines_of(help_text@)[j]) is None)
                    && #[trigger] first_group(style_list_pattern(), lines_of(help_text@)[i]) is Some
                    && texts_view(names@).to_multiset() == split_of(
                    first_group(style_list_pattern(), lines_of(help_text@)[i])->Some_0,
                    ", "@,
                ).to_multiset() && forall|a: int, b: int|
                    0 <= a < b < names@.len() ==> text_le(#[trigger] names@[a]@, #[trigger] names@[b]@),
        },
{
    let pattern = "^\\s*(\\w+(?:, \\w+)*)\\.$";
    let lines = text_lines(help_text);
    let ghost ls = lines_of(help_text@);
    assert(lines@.len() == ls.len() && forall|j: int| 0 <= j < ls.len() ==> lines@[j]@ == ls[j]) by {
        assert(texts_view(lines@).len() == lines@.len());
    }
    let mut i: usize = 0;
    while i < lines.len()
        invariant
            0 <= i <= lines.len(),
            pattern@ == style_list_pattern(),
            lines@.len() == ls.len(),
            ls == lines_of(help_text@),
            forall|j: int| 0 <= j < ls.len() ==> lines@[j]@ == ls[j],
            forall|j: int| 0 <= j < i ==> #[trigger] first_group(style_list_pattern(), ls[j]) is None,
        decreases lines.len() - i,
    {
        match capture_group(pattern, lines[i].as_str()) {
            Some(group) => {
                let mut names = split_text(group.as_str(), ", ");
                sort_texts(&mut names);
                let ghost k = i as int;
                assert(first_group(style_list_pattern(), lines_of(help_text@)[k]) == Some(group@));
                assert(0 <= k < lines_of(help_text@).len() && (forall|j: int|
                    0 <= j < k ==> #[trigger] first_group(style_list_pattern(), lines_of(help_text@)[j]) is None));
                return Some(names);
            },
            None => {},
        }
        i = i + 1;
    }
    None
}

/// The language that `config` names under its language key; none where it
/// names no language.
pub fn config_language(config: &Vec<(Node, Node)>) -> (r: Option<Language>)
    ensures
        match r {
            Some(l) => crate::document::lookup(entries_view(config), language_key()) == Some(
                Doc::Str(language_name(l)),
            ),
            None => forall|l: Language|
                crate::document::lookup(entries_view(config), language_key()) != Some(
                    Doc::Str(language_name(l)),
                ),
        },
{
    let key = Node::Str("Language".to_owned());
    match find_key(config, &key) {
        Some(i) => match &config[i].1 {
            Node::Str(s) => match Language::parse(s.as_str()) {
                Ok(l) => Some(l),
                Err(_) => None,
            },
            _ => None,
        },
        None => None,
    }
}

} // verus!
