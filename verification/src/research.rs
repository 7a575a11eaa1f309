//! The decisions inside the research pipeline: cleaning search-result
//! markup, splitting a search budget, collapsing duplicate hits, and picking
//! the sources a report cites. The searches and page fetches themselves are
//! plain HTTP the shell performs.

use vstd::prelude::*;

use crate::text::{
    chars_to_string, find_from, lemma_find_first, matches_at, replace_all, spec_find,
    spec_replace_all, str_to_chars,
};

verus! {

/// One search hit.
#[derive(Debug)]
pub struct SearchItem {
    pub title: String,
    pub link: String,
    pub description: String,
    pub source: String,
}

impl Clone for SearchItem {
    /// A copy equal to the original.
    fn clone(&self) -> (res: Self)
        ensures
            res == *self,
    {
        SearchItem {
            title: self.title.clone(),
            link: self.link.clone(),
            description: self.description.clone(),
            source: self.source.clone(),
        }
    }
}

/// One source's stand-alone summary, for the report's appendix.
#[derive(Debug, Clone)]
pub struct SourceSummary {
    pub title: String,
    pub url: String,
    pub source: String,
    pub summary: String,
}

/// A progress notice the research loop pushes to the screen.
#[derive(Debug, Clone)]
pub struct ResearchProgress {
    pub step: usize,
    pub total_steps: usize,
    pub task_type: String,
    pub description: String,
    pub status: String,
    pub tasks: Vec<ResearchTaskInfo>,
}

/// One entry of the research loop's internal task list.
#[derive(Debug, Clone)]
pub struct ResearchTaskInfo {
    pub id: usize,
    pub task_type: String,
    pub description: String,
    pub status: String,
}

/// What a finished research run reports; the cost is exact, in
/// pico-dollars.
#[derive(Debug)]
pub struct ResearchResult {
    pub query: String,
    pub summary: String,
    pub key_points: Vec<String>,
    pub sources: Vec<SearchItem>,
    pub source_summaries: Vec<SourceSummary>,
    pub full_report: String,
    pub input_tokens: i64,
    pub output_tokens: i64,
    pub cost_pico_usd: u128,
    pub search_engines_used: Vec<String>,
    pub memo_id: Option<i64>,
}

/// A text with every `<...>` tag replaced by `rep`, as the tag pattern
/// matches them: from each `<` through the first later `>` with at least
/// one character between, scanning left to right.
pub open spec fn spec_strip_tags(s: Seq<char>, rep: Seq<char>) -> Seq<char>
    decreases s.len(),
    via spec_strip_tags_decreases
{
    if s.len() == 0 {
        s
    } else if s[0] == '<' {
        match spec_find(s, ">"@, 1) {
            Some(j) => if j >= 2 {
                rep + spec_strip_tags(s.subrange(j + 1, s.len() as int), rep)
            } else {
                seq!['<'] + spec_strip_tags(s.drop_first(), rep)
            },
            None => s,
        }
    } else {
        seq![s[0]] + spec_strip_tags(s.drop_first(), rep)
    }
}

#[via_fn]
proof fn spec_strip_tags_decreases(s: Seq<char>, rep: Seq<char>) {
    reveal_strlit(">");
    if s.len() > 0 && s[0] == '<' {
        match spec_find(s, ">"@, 1) {
            Some(j) => {
                lemma_find_first(s, ">"@, 1, j);
                assert(matches_at(s, ">"@, j));
            },
            None => {},
        }
    }
}

/// Replaces every `<...>` tag by the given text.
pub fn strip_tags(s: &[char], rep: &[char]) -> (r: Vec<char>)
    ensures
        r@ == spec_strip_tags(s@, rep@),
    decreases s@.len(),
{
    let sl: usize = s.len();
    if sl == 0 {
        return Vec::new();
    }
    let gt = str_to_chars(">");
    if s[0] == '<' {
        proof {
            reveal_strlit(">");
        }
        match find_from(s, gt.as_slice(), 1) {
            Some(j) => {
                proof {
                    lemma_find_first(s@, ">"@, 1, j as int);
                }
                if j >= 2 {
                    let mut out: Vec<char> = Vec::new();
                    out.extend_from_slice(rep);
                    let mut rest = strip_tags(&s[j + 1..sl], rep);
                    out.append(&mut rest);
                    proof {
                        assert(out@ =~= rep@ + spec_strip_tags(
                            s@.subrange(j + 1, s@.len() as int),
                            rep@,
                        ));
                    }
                    out
                } else {
                    let mut out: Vec<char> = Vec::new();
                    out.push('<');
                    let mut rest = strip_tags(&s[1..sl], rep);
                    proof {
                        assert(s@.subrange(1, s@.len() as int) =~= s@.drop_first());
                    }
                    out.append(&mut rest);
                    proof {
                        assert(out@ =~= seq!['<'] + spec_strip_tags(s@.drop_first(), rep@));
                    }
                    out
                }
            },
            None => vstd::slice::slice_to_vec(s),
        }
    } else {
        let mut out: Vec<char> = Vec::new();
        out.push(s[0]);
        let mut rest = strip_tags(&s[1..sl], rep);
        proof {
            assert(s@.subrange(1, s@.len() as int) =~= s@.drop_first());
        }
        out.append(&mut rest);
        proof {
            assert(out@ =~= seq![s@[0]] + spec_strip_tags(s@.drop_first(), rep@));
        }
        out
    }
}

/// A stripped text with the common HTML entities decoded, in the order the
/// cleaner applies them.
pub open spec fn spec_decode_entities(s: Seq<char>) -> Seq<char> {
    let s1 = spec_replace_all(s, "&nbsp;"@, " "@);
    let s2 = spec_replace_all(s1, "&lt;"@, "<"@);
    let s3 = spec_replace_all(s2, "&gt;"@, ">"@);
    let s4 = spec_replace_all(s3, "&amp;"@, "&"@);
    let s5 = spec_replace_all(s4, "&quot;"@, "\""@);
    spec_replace_all(s5, "&#39;"@, "'"@)
}

/// What cleaning a search hit's markup returns: tags stripped, then the
/// common entities decoded.
pub open spec fn spec_clean_html(s: Seq<char>) -> Seq<char> {
    spec_decode_entities(spec_strip_tags(s, Seq::<char>::empty()))
}

/// Cleans a search hit's markup: every tag removed and the common entities
/// decoded.
pub fn clean_html(text: &str) -> (r: String)
    ensures
        r@ == spec_clean_html(text@),
{
    let tc = str_to_chars(text);
    let empty: Vec<char> = Vec::new();
    let stripped = strip_tags(tc.as_slice(), empty.as_slice());
    let s1 = replace_one_entity(stripped, "&nbsp;", " ");
    let s2 = replace_one_entity(s1, "&lt;", "<");
    let s3 = replace_one_entity(s2, "&gt;", ">");
    let s4 = replace_one_entity(s3, "&amp;", "&");
    let s5 = replace_one_entity(s4, "&quot;", "\"");
    let s6 = replace_one_entity(s5, "&#39;", "'");
    chars_to_string(s6.as_slice())
}

fn replace_one_entity(s: Vec<char>, from: &str, to: &str) -> (r: Vec<char>)
    ensures
        r@ == spec_replace_all(s@, from@, to@),
{
    let f = str_to_chars(from);
    let t = str_to_chars(to);
    replace_all(s.as_slice(), f.as_slice(), t.as_slice())
}


/// A text with every case-folded `opener...>...closer` block removed,
/// scanning left to right: from each opener through its tag's first `>`
/// and on to the first closer after it. A block that never closes stays.
pub open spec fn spec_remove_blocks(s: Seq<char>, opener: Seq<char>, closer: Seq<char>) -> Seq<
    char,
>
    decreases s.len(),
    via spec_remove_blocks_decreases
{
    let low = crate::text::spec_lower(s);
    match spec_find(low, opener, 0) {
        None => s,
        Some(i) => match spec_find(low, ">"@, i + opener.len()) {
            None => s,
            Some(j) => match spec_find(low, closer, j + 1) {
                None => s,
                Some(k) => s.subrange(0, i) + spec_remove_blocks(
                    s.subrange(k + closer.len(), s.len() as int),
                    opener,
                    closer,
                ),
            },
        },
    }
}

#[via_fn]
proof fn spec_remove_blocks_decreases(s: Seq<char>, opener: Seq<char>, closer: Seq<char>) {
    let low = crate::text::spec_lower(s);
    match spec_find(low, opener, 0) {
        None => {},
        Some(i) => {
            lemma_find_first(low, opener, 0, i);
            match spec_find(low, ">"@, i + opener.len()) {
                None => {},
                Some(j) => {
                    lemma_find_first(low, ">"@, i + opener.len(), j);
                    match spec_find(low, closer, j + 1) {
                        None => {},
                        Some(k) => {
                            lemma_find_first(low, closer, j + 1, k);
                        },
                    }
                },
            }
        },
    }
}

/// Removes every case-folded `opener...>...closer` block; the markers are
/// given already lowered.
pub fn remove_blocks(s: &[char], opener: &[char], closer: &[char]) -> (r: Vec<char>)
    requires
        opener@ == crate::text::spec_lower(opener@),
        closer@ == crate::text::spec_lower(closer@),
    ensures
        r@ == spec_remove_blocks(s@, opener@, closer@),
    decreases s@.len(),
{
    let sl: usize = s.len();
    let low = crate::text::lower_chars(s);
    let gt = str_to_chars(">");
    proof {
        reveal_strlit(">");
    }
    match find_from(low.as_slice(), opener, 0) {
        None => vstd::slice::slice_to_vec(s),
        Some(i) => {
            proof {
                lemma_find_first(low@, opener@, 0, i as int);
            }
            match find_from(low.as_slice(), gt.as_slice(), i + opener.len()) {
                None => vstd::slice::slice_to_vec(s),
                Some(j) => {
                    proof {
                        lemma_find_first(low@, ">"@, i as int + opener@.len(), j as int);
                    }
                    match find_from(low.as_slice(), closer, j + 1) {
                        None => vstd::slice::slice_to_vec(s),
                        Some(k) => {
                            proof {
                                lemma_find_first(low@, closer@, j as int + 1, k as int);
                            }
                            let mut out: Vec<char> = Vec::new();
                            out.extend_from_slice(&s[0..i]);
                            let mut rest = remove_blocks(&s[k + closer.len()..sl], opener, closer);
                            out.append(&mut rest);
                            proof {
                                assert(out@ =~= s@.subrange(0, i as int) + spec_remove_blocks(
                                    s@.subrange(k + closer@.len(), s@.len() as int),
                                    opener@,
                                    closer@,
                                ));
                            }
                            out
                        },
                    }
                },
            }
        },
    }
}

/// A text with every whitespace run shrunk to one space.
pub open spec fn spec_collapse_ws(s: Seq<char>) -> Seq<char>
    decreases s.len(),
{
    if s.len() == 0 {
        s
    } else if crate::text::is_ws(s[0]) && s.len() >= 2 && crate::text::is_ws(s[1]) {
        spec_collapse_ws(s.drop_first())
    } else if crate::text::is_ws(s[0]) {
        seq![' '] + spec_collapse_ws(s.drop_first())
    } else {
        seq![s[0]] + spec_collapse_ws(s.drop_first())
    }
}

/// Shrinks every whitespace run to one space.
pub fn collapse_ws(s: &[char]) -> (r: Vec<char>)
    ensures
        r@ == spec_collapse_ws(s@),
{
    let ghost orig = s@;
    let mut out: Vec<char> = Vec::new();
    let mut i: usize = 0;
    proof {
        assert(orig.skip(0) =~= orig);
        assert(Seq::<char>::empty() + spec_collapse_ws(orig) =~= spec_collapse_ws(orig));
    }
    while i < s.len()
        invariant
            i <= orig.len(),
            orig == s@,
            spec_collapse_ws(orig) == out@ + spec_collapse_ws(orig.skip(i as int)),
        decreases orig.len() - i,
    {
        let ghost suffix = orig.skip(i as int);
        proof {
            assert(suffix[0] == orig[i as int]);
            assert(suffix.drop_first() =~= orig.skip(i as int + 1));
        }
        let c = s[i];
        let c_ws = c == ' ' || c == '\t' || c == '\n' || c == '\r';
        let next_ws = i + 1 < s.len() && {
            let n = s[i + 1];
            n == ' ' || n == '\t' || n == '\n' || n == '\r'
        };
        if c_ws && next_ws {
            // one more of the same run: drop it
        } else if c_ws {
            out.push(' ');
        } else {
            out.push(c);
        }
        proof {
            assert(out@ + spec_collapse_ws(orig.skip(i as int + 1)) =~= spec_collapse_ws(orig));
        }
        i += 1;
    }
    proof {
        assert(orig.skip(orig.len() as int) =~= Seq::<char>::empty());
        assert(out@ + Seq::<char>::empty() =~= out@);
    }
    out
}

/// What reducing a fetched page to text returns: script and style blocks
/// removed, every other tag turned into a space, whitespace runs shrunk to
/// one space, the common entities decoded, and the ends trimmed.
pub open spec fn spec_extract_text(s: Seq<char>) -> Seq<char> {
    let a = spec_remove_blocks(s, "<script"@, "</script>"@);
    let b = spec_remove_blocks(a, "<style"@, "</style>"@);
    let c = spec_strip_tags(b, " "@);
    let d = spec_collapse_ws(c);
    crate::text::spec_trim(spec_decode_entities(d))
}

/// Reduces a fetched page to its readable text.
pub fn extract_text_from_html(html: &str) -> (r: String)
    ensures
        r@ == spec_extract_text(html@),
{
    let hc = str_to_chars(html);
    let script_open = str_to_chars("<script");
    let script_close = str_to_chars("</script>");
    let style_open = str_to_chars("<style");
    let style_close = str_to_chars("</style>");
    proof {
        reveal_strlit("<script");
        reveal_strlit("</script>");
        reveal_strlit("<style");
        reveal_strlit("</style>");
        lemma_marker_lowered("<script");
        lemma_marker_lowered("</script>");
        lemma_marker_lowered("<style");
        lemma_marker_lowered("</style>");
    }
    let a = remove_blocks(hc.as_slice(), script_open.as_slice(), script_close.as_slice());
    let b = remove_blocks(a.as_slice(), style_open.as_slice(), style_close.as_slice());
    let space = str_to_chars(" ");
    let c = strip_tags(b.as_slice(), space.as_slice());
    let d = collapse_ws(c.as_slice());
    let e1 = replace_one_entity(d, "&nbsp;", " ");
    let e2 = replace_one_entity(e1, "&lt;", "<");
    let e3 = replace_one_entity(e2, "&gt;", ">");
    let e4 = replace_one_entity(e3, "&amp;", "&");
    let e5 = replace_one_entity(e4, "&quot;", "\"");
    let e6 = replace_one_entity(e5, "&#39;", "'");
    let trimmed = crate::text::trim(e6.as_slice());
    chars_to_string(trimmed.as_slice())
}

proof fn lemma_marker_lowered(m: &str)
    requires
        forall|i: int|
            0 <= i < m@.len() ==> #[trigger] crate::text::spec_lower_char(m@[i]) == m@[i],
    ensures
        m@ == crate::text::spec_lower(m@),
{
    assert(crate::text::spec_lower(m@) =~= m@);
}

/// The host part of a URL: what stands between the second and third slash,
/// or from the second slash to the end.
pub open spec fn spec_domain_of(url: Seq<char>) -> Option<Seq<char>> {
    match spec_find(url, "/"@, 0) {
        None => None,
        Some(a) => match spec_find(url, "/"@, a + 1) {
            None => None,
            Some(b) => match spec_find(url, "/"@, b + 1) {
                None => Some(url.subrange(b + 1, url.len() as int)),
                Some(c) => Some(url.subrange(b + 1, c)),
            },
        },
    }
}

/// The host part of a URL, as splitting on slashes finds it.
pub fn domain_of(url: &str) -> (r: Option<String>)
    ensures
        match spec_domain_of(url@) {
            None => r is None,
            Some(d) => r is Some && r.unwrap()@ == d,
        },
{
    let uc = str_to_chars(url);
    let slash = str_to_chars("/");
    let ul: usize = uc.len();
    match find_from(uc.as_slice(), slash.as_slice(), 0) {
        None => None,
        Some(a) => {
            proof {
                lemma_find_first(uc@, "/"@, 0, a as int);
                reveal_strlit("/");
            }
            match find_from(uc.as_slice(), slash.as_slice(), a + 1) {
                None => None,
                Some(b) => {
                    proof {
                        lemma_find_first(uc@, "/"@, a as int + 1, b as int);
                    }
                    match find_from(uc.as_slice(), slash.as_slice(), b + 1) {
                        None => Some(chars_to_string(&uc.as_slice()[b + 1..ul])),
                        Some(c) => {
                            proof {
                                lemma_find_first(uc@, "/"@, b as int + 1, c as int);
                            }
                            Some(chars_to_string(&uc.as_slice()[b + 1..c]))
                        },
                    }
                },
            }
        },
    }
}

/// The hits with every repeated link dropped, first occurrence kept.
pub open spec fn spec_dedup_by_link(s: Seq<SearchItem>) -> Seq<SearchItem>
    decreases s.len(),
{
    if s.len() == 0 {
        s
    } else {
        let rest = spec_dedup_by_link(s.drop_last());
        if exists|j: int| 0 <= j < s.len() - 1 && (#[trigger] s[j]).link@ == s.last().link@ {
            rest
        } else {
            rest.push(s.last())
        }
    }
}

/// Drops every hit whose link a hit before it already carries, as the
/// research loop deduplicates its search results.
pub fn dedup_by_link(items: Vec<SearchItem>) -> (r: Vec<SearchItem>)
    ensures
        r@ == spec_dedup_by_link(items@),
{
    let mut out: Vec<SearchItem> = Vec::new();
    let mut i: usize = 0;
    while i < items.len()
        invariant
            i <= items@.len(),
            out@ == spec_dedup_by_link(items@.subrange(0, i as int)),
            forall|l: int|
                0 <= l < i ==> ((exists|m: int|
                    0 <= m < out@.len() && (#[trigger] out@[m]).link@ == (
                    #[trigger] items@[l]).link@)),
        decreases items@.len() - i,
    {
        let ghost prefix = items@.subrange(0, i as int);
        let mut seen = false;
        let mut m: usize = 0;
        while m < out.len()
            invariant
                m <= out@.len(),
                !seen ==> forall|k: int| 0 <= k < m ==> (#[trigger] out@[k]).link@
                    != items@[i as int].link@,
                seen ==> exists|k: int| 0 <= k < out@.len() && (#[trigger] out@[k]).link@
                    == items@[i as int].link@,
                i < items@.len(),
            decreases out@.len() - m,
        {
            if crate::text::str_eq(out[m].link.as_str(), items[i].link.as_str()) {
                proof {
                    assert(out@[m as int].link@ == items@[i as int].link@);
                }
                seen = true;
            }
            m += 1;
        }
        proof {
            let next = items@.subrange(0, i as int + 1);
            assert(next.drop_last() =~= prefix);
            assert(next.last() == items@[i as int]);
            if seen {
                let k = choose|k: int|
                    0 <= k < out@.len() && (#[trigger] out@[k]).link@ == items@[i as int].link@;
                // the matching earlier output hit came from an earlier input hit
                assert(exists|j: int|
                    0 <= j < next.len() - 1 && (#[trigger] next[j]).link@ == next.last().link@) by {
                    lemma_dedup_sources(prefix);
                    let j = choose|j: int|
                        0 <= j < prefix.len() && (#[trigger] prefix[j]).link@
                            == spec_dedup_by_link(prefix)[k].link@;
                    assert(next[j].link@ == next.last().link@);
                }
            } else {
                assert(!(exists|j: int|
                    0 <= j < next.len() - 1 && (#[trigger] next[j]).link@
                        == next.last().link@)) by {
                    if exists|j: int|
                        0 <= j < next.len() - 1 && (#[trigger] next[j]).link@
                            == next.last().link@ {
                        let j = choose|j: int|
                            0 <= j < next.len() - 1 && (#[trigger] next[j]).link@
                                == next.last().link@;
                        assert(exists|mm: int|
                            0 <= mm < out@.len() && (#[trigger] out@[mm]).link@
                                == items@[j].link@);
                    }
                }
            }
        }
        let ghost pre_out = out@;
        if !seen {
            out.push(items[i].clone());
        }
        proof {
            assert forall|l: int| 0 <= l < i + 1 implies exists|m: int|
                0 <= m < out@.len() && (#[trigger] out@[m]).link@ == (
                #[trigger] items@[l]).link@ by {
                if l < i {
                    let m = choose|m: int|
                        0 <= m < pre_out.len() && (#[trigger] pre_out[m]).link@
                            == items@[l].link@;
                    assert(out@[m].link@ == items@[l].link@);
                } else {
                    if seen {
                        let m = choose|m: int|
                            0 <= m < pre_out.len() && (#[trigger] pre_out[m]).link@
                                == items@[i as int].link@;
                        assert(out@[m].link@ == items@[l].link@);
                    } else {
                        assert(out@[out@.len() - 1].link@ == items@[l].link@);
                    }
                }
            }
        }
        i += 1;
    }
    proof {
        assert(items@.subrange(0, items@.len() as int) =~= items@);
    }
    out
}

/// Every deduplicated hit carries the link of some original hit.
proof fn lemma_dedup_sources(s: Seq<SearchItem>)
    ensures
        forall|k: int|
            0 <= k < spec_dedup_by_link(s).len() ==> exists|j: int|
                0 <= j < s.len() && (#[trigger] s[j]).link@ == (#[trigger] spec_dedup_by_link(
                    s,
                )[k]).link@,
    decreases s.len(),
{
    if s.len() > 0 {
        lemma_dedup_sources(s.drop_last());
        let d = spec_dedup_by_link(s);
        let rest = spec_dedup_by_link(s.drop_last());
        assert forall|k: int| 0 <= k < d.len() implies exists|j: int|
            0 <= j < s.len() && (#[trigger] s[j]).link@ == (#[trigger] d[k]).link@ by {
            if k < rest.len() {
                let j = choose|j: int|
                    0 <= j < s.drop_last().len() && (#[trigger] s.drop_last()[j]).link@
                        == rest[k].link@;
                assert(s[j].link@ == d[k].link@);
            } else {
                assert(d[k] == s.last());
                assert(s[s.len() - 1].link@ == d[k].link@);
            }
        }
    }
}

/// The hits whose link one of the chosen URLs names, in order: the sources
/// a report cites.
pub open spec fn spec_used_sources(s: Seq<SearchItem>, urls: Seq<Seq<char>>) -> Seq<SearchItem>
    decreases s.len(),
{
    if s.len() == 0 {
        s
    } else {
        let rest = spec_used_sources(s.drop_last(), urls);
        if urls.contains(s.last().link@) {
            rest.push(s.last())
        } else {
            rest
        }
    }
}

/// Keeps the hits whose link was chosen for crawling.
pub fn select_used_sources(items: &Vec<SearchItem>, selected_urls: &Vec<String>) -> (r: Vec<
    SearchItem,
>)
    ensures
        r@ == spec_used_sources(items@, selected_urls@.map_values(|s: String| s@)),
{
    let ghost urls = selected_urls@.map_values(|s: String| s@);
    let mut out: Vec<SearchItem> = Vec::new();
    let mut i: usize = 0;
    while i < items.len()
        invariant
            i <= items@.len(),
            urls == selected_urls@.map_values(|s: String| s@),
            out@ == spec_used_sources(items@.subrange(0, i as int), urls),
        decreases items@.len() - i,
    {
        let ghost prefix = items@.subrange(0, i as int);
        if contains_string_of(selected_urls, items[i].link.as_str()) {
            out.push(items[i].clone());
        }
        proof {
            let next = items@.subrange(0, i as int + 1);
            assert(next.drop_last() =~= prefix);
            assert(next.last() == items@[i as int]);
        }
        i += 1;
    }
    proof {
        assert(items@.subrange(0, items@.len() as int) =~= items@);
    }
    out
}

fn contains_string_of(v: &Vec<String>, s: &str) -> (r: bool)
    ensures
        r == v@.map_values(|t: String| t@).contains(s@),
{
    let ghost views = v@.map_values(|t: String| t@);
    let mut i: usize = 0;
    while i < v.len()
        invariant
            i <= v@.len(),
            views == v@.map_values(|t: String| t@),
            forall|k: int| 0 <= k < i ==> views[k] != s@,
        decreases v@.len() - i,
    {
        if crate::text::str_eq(v[i].as_str(), s) {
            assert(views[i as int] == s@);
            return true;
        }
        i += 1;
    }
    false
}

/// The per-kind request counts one portal search fans out to: news gets
/// double the asked count capped at one hundred, the others half of it with
/// a floor of five.
pub fn naver_display_counts(display: u32) -> (r: (u32, u32))
    ensures
        r.0 == if 2 * display <= 100 {
            2 * (display as int)
        } else {
            100int
        },
        r.1 == if display / 2 >= 5 {
            display as int / 2
        } else {
            5int
        },
{
    let doubled: u64 = display as u64 * 2;
    let news: u32 = if doubled <= 100 {
        doubled as u32
    } else {
        100
    };
    let half = display / 2;
    let other: u32 = if half >= 5 {
        half
    } else {
        5
    };
    (news, other)
}

} // verus!
