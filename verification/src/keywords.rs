use vstd::prelude::*;

use crate::config::{FormatterConfig, KeywordCase};
use crate::doc::{Doc, DocV};
use crate::text::{
    char_upper, char_upper_of, chars_of, concat, eq_ignore_ascii_case, eq_ignore_case, join, join_chars,
    lower, lower_of, slice, split_words, string_of, upper, upper_of, words,
};

verus! {

/// A word with its first character upper-cased and the rest lower-cased.
pub open spec fn capitalized(w: Seq<char>) -> Seq<char> {
    if w.len() == 0 {
        Seq::empty()
    } else {
        char_upper_of(w[0]) + lower_of(w.drop_first())
    }
}

/// A keyword rendered in the configured case. `Capitalize` capitalizes each
/// whitespace-separated word and joins the words with single spaces.
pub open spec fn keyword_cased(text: Seq<char>, kc: KeywordCase) -> Seq<char> {
    match kc {
        KeywordCase::Upper => upper_of(text),
        KeywordCase::Lower => lower_of(text),
        KeywordCase::Capitalize => join(words(text).map_values(|w: Seq<char>| capitalized(w)), seq![' ']),
    }
}

/// The text document of a keyword in the configured case.
pub open spec fn kw(cfg: FormatterConfig, label: Seq<char>) -> DocV {
    DocV::Text(keyword_cased(label, cfg.keyword_case))
}

fn capitalize_word(w: &[char]) -> (r: Vec<char>)
    ensures
        r@ == capitalized(w@),
{
    if w.len() == 0 {
        return Vec::new();
    }
    let first = char_upper(w[0]);
    let rest = slice(w, 1, w.len());
    let low = lower(rest.as_slice());
    assert(rest@ =~= w@.drop_first());
    concat(first.as_slice(), low.as_slice())
}

/// A text in the configured keyword case.
pub fn case_chars(text: &[char], kc: KeywordCase) -> (r: Vec<char>)
    ensures
        r@ == keyword_cased(text@, kc),
{
    match kc {
        KeywordCase::Upper => upper(text),
        KeywordCase::Lower => lower(text),
        KeywordCase::Capitalize => {
            let ws = split_words(text);
            let mut caps: Vec<Vec<char>> = Vec::new();
            let mut i: usize = 0;
            while i < ws.len()
                invariant
                    i <= ws@.len(),
                    ws@.len() == words(text@).len(),
                    forall|k: int| 0 <= k < ws@.len() ==> #[trigger] ws@[k]@ == words(text@)[k],
                    caps@.len() == i,
                    forall|k: int| 0 <= k < i ==> #[trigger] caps@[k]@ == capitalized(words(text@)[k]),
                decreases ws.len() - i,
            {
                let c = capitalize_word(ws[i].as_slice());
                caps.push(c);
                i = i + 1;
            }
            let sep = vec![' '];
            let r = join_chars(&caps, sep.as_slice());
            assert(caps@.map_values(|w: Vec<char>| w@) =~= words(text@).map_values(
                |w: Seq<char>| capitalized(w),
            ));
            assert(sep@ =~= seq![' ']);
            r
        },
    }
}

/// Renders a keyword in the configured case.
pub fn apply_keyword_case(text: &str, cfg: &FormatterConfig) -> (r: String)
    ensures
        r@ == keyword_cased(text@, cfg.keyword_case),
{
    let t = chars_of(text);
    let c = case_chars(t.as_slice(), cfg.keyword_case);
    string_of(c.as_slice())
}

/// Renders a keyword given as characters in the configured case.
pub fn apply_keyword_case_chars(text: &[char], cfg: &FormatterConfig) -> (r: String)
    ensures
        r@ == keyword_cased(text@, cfg.keyword_case),
{
    let c = case_chars(text, cfg.keyword_case);
    string_of(c.as_slice())
}

/// A keyword as a text document.
pub fn keyword_doc(cfg: &FormatterConfig, text: &str) -> (d: Doc)
    ensures
        d@ == kw(*cfg, text@),
{
    Doc::Text(apply_keyword_case(text, cfg))
}

/// The aggregate and window functions whose names are cased like keywords.
pub open spec fn builtin_function_names() -> Seq<Seq<char>> {
    seq![
        "avg"@,
        "count"@,
        "dense_rank"@,
        "first_value"@,
        "lag"@,
        "last_value"@,
        "lead"@,
        "max"@,
        "min"@,
        "nth_value"@,
        "rank"@,
        "row_number"@,
        "sum"@,
    ]
}

/// Whether a function name is one of the built-ins, ignoring ASCII case.
pub fn is_builtin_function_name(name: &[char]) -> (r: bool)
    ensures
        r == exists|i: int|
            0 <= i < builtin_function_names().len() && eq_ignore_ascii_case(
                name@,
                #[trigger] builtin_function_names()[i],
            ),
{
    let names: [&str; 13] = [
        "avg",
        "count",
        "dense_rank",
        "first_value",
        "lag",
        "last_value",
        "lead",
        "max",
        "min",
        "nth_value",
        "rank",
        "row_number",
        "sum",
    ];
    proof {
        assert(names@.map_values(|s: &str| s@) =~= builtin_function_names());
    }
    let mut i: usize = 0;
    while i < 13
        invariant
            i <= 13,
            names@.map_values(|s: &str| s@) == builtin_function_names(),
            forall|j: int| 0 <= j < i ==> !eq_ignore_ascii_case(name@, builtin_function_names()[j]),
        decreases 13 - i,
    {
        if eq_ignore_case(name, names[i]) {
            assert(names@.map_values(|s: &str| s@)[i as int] == names@[i as int]@);
            return true;
        }
        assert(names@.map_values(|s: &str| s@)[i as int] == names@[i as int]@);
        i = i + 1;
    }
    false
}

} // verus!
