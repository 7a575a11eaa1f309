//! Pulling the JSON payload out of a model reply, which may wrap it in a
//! fenced code block or surround it with prose.

use vstd::prelude::*;

use crate::text::{
    chars_to_string, find_from, lemma_find_first, matches_at, rfind_in, spec_find, spec_rfind,
    spec_trim, str_to_chars, trim,
};

verus! {

/// The payload of a ```json fenced block, when the reply holds one: the text
/// between the opening fence and the closing fence (first "```\n", else the
/// last "```"), trimmed.
pub open spec fn spec_json_fence(t: Seq<char>) -> Option<Seq<char>> {
    match spec_find(t, "```json"@, 0) {
        None => None,
        Some(start) => {
            let suffix = t.subrange(start, t.len() as int);
            let end_opt = match spec_find(suffix, "```\n"@, 0) {
                Some(e) => Some(e),
                None => spec_rfind(suffix, "```"@, suffix.len() as int),
            };
            match end_opt {
                None => None,
                Some(end) => if start + end > start + 7 {
                    Some(spec_trim(t.subrange(start + 7, start + end)))
                } else {
                    None
                },
            }
        },
    }
}

/// The payload of a plain ``` fenced block, when the reply holds one; a
/// language tag on the opening line is dropped.
pub open spec fn spec_plain_fence(t: Seq<char>) -> Option<Seq<char>> {
    match spec_find(t, "```"@, 0) {
        None => None,
        Some(start) => {
            let after = t.subrange(start + 3, t.len() as int);
            match spec_find(after, "```"@, 0) {
                None => None,
                Some(end) => {
                    let content = after.subrange(0, end);
                    if content.len() > 0 && content[0] == '\n' {
                        Some(spec_trim(content))
                    } else {
                        match spec_find(content, "\n"@, 0) {
                            Some(k) => Some(spec_trim(content.subrange(k, content.len() as int))),
                            None => Some(spec_trim(content)),
                        }
                    }
                },
            }
        },
    }
}

/// The span from the first `open` to the last `close`, ends included, when
/// the last `close` comes after the first `open`.
pub open spec fn spec_bracket_span(t: Seq<char>, open: Seq<char>, close: Seq<char>) -> Option<
    Seq<char>,
> {
    match spec_find(t, open, 0) {
        None => None,
        Some(s) => match spec_rfind(t, close, t.len() as int) {
            None => None,
            Some(e) => if e > s {
                Some(t.subrange(s, e + 1))
            } else {
                None
            },
        },
    }
}

/// What `extract_json` returns: the trimmed reply, narrowed to a ```json
/// block, else a plain ``` block, else the outermost {...} span, else the
/// outermost [...] span, else left whole.
pub open spec fn spec_extract_json(s: Seq<char>) -> Seq<char> {
    let t = spec_trim(s);
    match spec_json_fence(t) {
        Some(r) => r,
        None => match spec_plain_fence(t) {
            Some(r) => r,
            None => match spec_bracket_span(t, "{"@, "}"@) {
                Some(r) => r,
                None => match spec_bracket_span(t, "["@, "]"@) {
                    Some(r) => r,
                    None => t,
                },
            },
        },
    }
}

fn json_fence(t: &[char]) -> (r: Option<Vec<char>>)
    ensures
        match r {
            Some(v) => spec_json_fence(t@) == Some(v@),
            None => spec_json_fence(t@) is None,
        },
{
    let fence_json = str_to_chars("```json");
    let fence_nl = str_to_chars("```\n");
    let fence = str_to_chars("```");
    let tl: usize = t.len();
    match find_from(t, fence_json.as_slice(), 0) {
        None => None,
        Some(start) => {
            proof {
                lemma_find_first(t@, "```json"@, 0, start as int);
                reveal_strlit("```json");
            }
            let suffix = &t[start..tl];
            let end_opt = match find_from(suffix, fence_nl.as_slice(), 0) {
                Some(e) => Some(e),
                None => rfind_in(suffix, fence.as_slice()),
            };
            match end_opt {
                None => None,
                Some(end) => {
                    proof {
                        match spec_find(suffix@, "```\n"@, 0) {
                            Some(e) => lemma_find_first(suffix@, "```\n"@, 0, e),
                            None => lemma_rfind_bounds(suffix@, "```"@, suffix@.len() as int),
                        }
                    }
                    if end > 7 {
                        Some(trim(&t[start + 7..start + end]))
                    } else {
                        None
                    }
                },
            }
        },
    }
}

/// When the backward search succeeds, the hit lies inside the text.
pub proof fn lemma_rfind_bounds(h: Seq<char>, n: Seq<char>, from: int)
    requires
        from <= h.len(),
        spec_rfind(h, n, from) is Some,
    ensures
        0 <= spec_rfind(h, n, from).unwrap(),
        spec_rfind(h, n, from).unwrap() + n.len() <= h.len(),
        matches_at(h, n, spec_rfind(h, n, from).unwrap()),
    decreases from + 1,
{
    if from < 0 {
    } else if matches_at(h, n, from) {
    } else {
        lemma_rfind_bounds(h, n, from - 1);
    }
}

fn plain_fence(t: &[char]) -> (r: Option<Vec<char>>)
    ensures
        match r {
            Some(v) => spec_plain_fence(t@) == Some(v@),
            None => spec_plain_fence(t@) is None,
        },
{
    let fence = str_to_chars("```");
    let nl = str_to_chars("\n");
    let tl: usize = t.len();
    match find_from(t, fence.as_slice(), 0) {
        None => None,
        Some(start) => {
            proof {
                lemma_find_first(t@, "```"@, 0, start as int);
                reveal_strlit("```");
            }
            let after = &t[start + 3..tl];
            match find_from(after, fence.as_slice(), 0) {
                None => None,
                Some(end) => {
                    proof {
                        lemma_find_first(after@, "```"@, 0, end as int);
                    }
                    let content = &after[0..end];
                    proof {
                        reveal_strlit("\n");
                    }
                    if content.len() > 0 && content[0] == '\n' {
                        Some(trim(content))
                    } else {
                        match find_from(content, nl.as_slice(), 0) {
                            Some(k) => {
                                proof {
                                    lemma_find_first(content@, "\n"@, 0, k as int);
                                }
                                Some(trim(&content[k..end]))
                            },
                            None => Some(trim(content)),
                        }
                    }
                },
            }
        },
    }
}

fn bracket_span(t: &[char], open: &str, close: &str) -> (r: Option<Vec<char>>)
    requires
        close@.len() == 1,
    ensures
        match r {
            Some(v) => spec_bracket_span(t@, open@, close@) == Some(v@),
            None => spec_bracket_span(t@, open@, close@) is None,
        },
{
    let o = str_to_chars(open);
    let c = str_to_chars(close);
    let tl: usize = t.len();
    match find_from(t, o.as_slice(), 0) {
        None => None,
        Some(s) => match rfind_in(t, c.as_slice()) {
            None => None,
            Some(e) => {
                proof {
                    lemma_rfind_bounds(t@, close@, t@.len() as int);
                }
                if e > s {
                    Some(slice_to_vec_chars(&t[s..e + 1]))
                } else {
                    None
                }
            },
        },
    }
}

fn slice_to_vec_chars(s: &[char]) -> (r: Vec<char>)
    ensures
        r@ == s@,
{
    vstd::slice::slice_to_vec(s)
}

fn bracket_span_braces(t: &[char]) -> (r: Option<Vec<char>>)
    ensures
        match r {
            Some(v) => spec_bracket_span(t@, "{"@, "}"@) == Some(v@),
            None => spec_bracket_span(t@, "{"@, "}"@) is None,
        },
{
    proof {
        reveal_strlit("}");
    }
    bracket_span(t, "{", "}")
}

fn bracket_span_brackets(t: &[char]) -> (r: Option<Vec<char>>)
    ensures
        match r {
            Some(v) => spec_bracket_span(t@, "["@, "]"@) == Some(v@),
            None => spec_bracket_span(t@, "["@, "]"@) is None,
        },
{
    proof {
        reveal_strlit("]");
    }
    bracket_span(t, "[", "]")
}

/// Narrows a model reply to the JSON it carries: a ```json fenced block, else
/// a plain fenced block, else the outermost {...} span, else the outermost
/// [...] span, else the whole reply; the reply and any fenced payload are
/// trimmed of ASCII whitespace.
pub fn extract_json(text: &str) -> (r: String)
    ensures
        r@ == spec_extract_json(text@),
{
    let chars = str_to_chars(text);
    let t = trim(chars.as_slice());
    let out: Vec<char> = match json_fence(t.as_slice()) {
        Some(v) => v,
        None => match plain_fence(t.as_slice()) {
            Some(v) => v,
            None => match bracket_span_braces(t.as_slice()) {
                Some(v) => v,
                None => match bracket_span_brackets(t.as_slice()) {
                    Some(v) => v,
                    None => t,
                },
            },
        },
    };
    chars_to_string(out.as_slice())
}

} // verus!
