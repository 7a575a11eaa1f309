//! Masking of sensitive values before text is sent to the hosted model, and
//! the restoration of the original values in what comes back.
//!
//! Each recognised value is replaced by a numbered token such as
//! `[이메일_3]`; the mapping from token to original value is returned so the
//! reply can be unmasked.

use vstd::prelude::*;

use crate::text::{
    chars_to_string, replace_all, replace_first, spec_replace_all, spec_replace_first,
    str_to_chars,
};

verus! {

/// The non-overlapping matches of a regular expression in a text, left to
/// right, as regex's `find_iter` yields them; a function of the pattern and
/// the text alone. A pattern that does not compile has no matches.
pub uninterp spec fn re_found(pattern: Seq<char>, text: Seq<char>) -> Seq<Seq<char>>;

/// Relies on regex's Regex::new and Regex::find_iter: the successive
/// non-overlapping matches of the pattern, in order; the iterator never
/// yields two matches from one position, so there are at most `len + 1`.
#[verifier::external_body]
fn regex_find_all(pattern: &str, text: &str) -> (r: Vec<String>)
    ensures
        r@.len() == re_found(pattern@, text@).len(),
        forall|i: int| 0 <= i < r@.len() ==> r@[i]@ == re_found(pattern@, text@)[i],
        r@.len() <= text@.len() + 1,
{
    match regex::Regex::new(pattern) {
        Ok(re) => re.find_iter(text).map(|m| m.as_str().to_string()).collect(),
        Err(_) => Vec::new(),
    }
}

/// The character views of a list of string pairs.
pub open spec fn map_views(v: Seq<(String, String)>) -> Seq<(Seq<char>, Seq<char>)> {
    v.map_values(|p: (String, String)| (p.0@, p.1@))
}

/// The decimal digits of `n`.
pub open spec fn spec_digits(n: nat) -> Seq<char>
    decreases n,
{
    if n < 10 {
        seq![spec_digit_char(n)]
    } else {
        spec_digits(n / 10) + seq![spec_digit_char(n % 10)]
    }
}

/// The character for one decimal digit.
pub open spec fn spec_digit_char(d: nat) -> char {
    if d == 0 {
        '0'
    } else if d == 1 {
        '1'
    } else if d == 2 {
        '2'
    } else if d == 3 {
        '3'
    } else if d == 4 {
        '4'
    } else if d == 5 {
        '5'
    } else if d == 6 {
        '6'
    } else if d == 7 {
        '7'
    } else if d == 8 {
        '8'
    } else {
        '9'
    }
}

fn digit_char(d: u128) -> (c: char)
    requires
        d < 10,
    ensures
        c == spec_digit_char(d as nat),
{
    if d == 0 {
        '0'
    } else if d == 1 {
        '1'
    } else if d == 2 {
        '2'
    } else if d == 3 {
        '3'
    } else if d == 4 {
        '4'
    } else if d == 5 {
        '5'
    } else if d == 6 {
        '6'
    } else if d == 7 {
        '7'
    } else if d == 8 {
        '8'
    } else {
        '9'
    }
}

/// The decimal representation of `n`.
pub fn u128_digits(n: u128) -> (r: Vec<char>)
    ensures
        r@ == spec_digits(n as nat),
    decreases n,
{
    if n < 10 {
        let mut v: Vec<char> = Vec::new();
        v.push(digit_char(n));
        assert(v@ =~= spec_digits(n as nat));
        v
    } else {
        let mut v = u128_digits(n / 10);
        v.push(digit_char(n % 10));
        assert(v@ =~= spec_digits(n as nat));
        v
    }
}

/// The masking token for the `num`-th recognised value under a label.
pub open spec fn spec_token(label: Seq<char>, num: nat) -> Seq<char> {
    "["@ + label + "_"@ + spec_digits(num) + "]"@
}

fn make_token(label: &[char], num: u128) -> (r: Vec<char>)
    ensures
        r@ == spec_token(label@, num as nat),
{
    let digits = u128_digits(num);
    let mut out = str_to_chars("[");
    out.extend_from_slice(label);
    let under = str_to_chars("_");
    out.extend_from_slice(under.as_slice());
    out.extend_from_slice(digits.as_slice());
    let close = str_to_chars("]");
    out.extend_from_slice(close.as_slice());
    assert(out@ =~= spec_token(label@, num as nat));
    out
}

/// One masking step per match: the first literal occurrence of the matched
/// text is replaced by the next numbered token, and the pair is recorded.
pub open spec fn spec_apply_matches(
    masked: Seq<char>,
    maps: Seq<(Seq<char>, Seq<char>)>,
    label: Seq<char>,
    ms: Seq<Seq<char>>,
) -> (Seq<char>, Seq<(Seq<char>, Seq<char>)>)
    decreases ms.len(),
{
    if ms.len() == 0 {
        (masked, maps)
    } else {
        let tok = spec_token(label, (maps.len() + 1) as nat);
        spec_apply_matches(
            spec_replace_first(masked, ms[0], tok),
            maps.push((tok, ms[0])),
            label,
            ms.drop_first(),
        )
    }
}

/// Masks every match of one pattern in the current text.
pub open spec fn spec_apply_pattern(
    masked: Seq<char>,
    maps: Seq<(Seq<char>, Seq<char>)>,
    pattern: Seq<char>,
    label: Seq<char>,
) -> (Seq<char>, Seq<(Seq<char>, Seq<char>)>) {
    spec_apply_matches(masked, maps, label, re_found(pattern, masked))
}

fn mask_pattern(
    masked: &mut Vec<char>,
    mappings: &mut Vec<(String, String)>,
    pattern: &str,
    label: &str,
)
    ensures
        (final(masked)@, map_views(final(mappings)@)) == spec_apply_pattern(
            old(masked)@,
            map_views(old(mappings)@),
            pattern@,
            label@,
        ),
{
    let text_str = chars_to_string(masked.as_slice());
    let ms = regex_find_all(pattern, text_str.as_str());
    let ghost ms_views = ms@.map_values(|s: String| s@);
    proof {
        assert(ms_views =~= re_found(pattern@, masked@));
    }
    let label_chars = str_to_chars(label);
    let ghost target = spec_apply_matches(masked@, map_views(mappings@), label@, ms_views);
    proof {
        assert(ms_views.skip(0) =~= ms_views);
    }
    let mut k: usize = 0;
    while k < ms.len()
        invariant
            k <= ms@.len(),
            label_chars@ == label@,
            ms_views.len() == ms@.len(),
            forall|i: int| 0 <= i < ms@.len() ==> ms_views[i] == ms@[i]@,
            target == spec_apply_matches(
                masked@,
                map_views(mappings@),
                label@,
                ms_views.skip(k as int),
            ),
        decreases ms@.len() - k,
    {
        let m = str_to_chars(ms[k].as_str());
        let num: u128 = mappings.len() as u128 + 1;
        let tok = make_token(label_chars.as_slice(), num);
        let new_masked = replace_first(masked.as_slice(), m.as_slice(), tok.as_slice());
        let tok_s = chars_to_string(tok.as_slice());
        let orig_s = chars_to_string(m.as_slice());
        let ghost pre_masked = masked@;
        let ghost pre_maps = map_views(mappings@);
        *masked = new_masked;
        mappings.push((tok_s, orig_s));
        proof {
            assert(map_views(mappings@) =~= pre_maps.push((tok@, ms_views[k as int])));
            assert(ms_views.skip(k as int).drop_first() =~= ms_views.skip(k as int + 1));
            assert(ms_views.skip(k as int)[0] == ms_views[k as int]);
        }
        k += 1;
    }
    proof {
        assert(ms_views.skip(ms@.len() as int) =~= Seq::<Seq<char>>::empty());
    }
}

/// A masked text together with the token-to-original mapping that restores
/// it.
pub struct MaskResult {
    pub masked: String,
    pub mappings: Vec<(String, String)>,
}

/// The masked form of a text and the recorded mapping: API keys, resident
/// registration numbers, phone numbers, email addresses, card numbers,
/// account numbers, street addresses and spelled-out passwords are replaced
/// by numbered tokens, pattern by pattern in a fixed order.
pub open spec fn spec_mask(text: Seq<char>) -> (Seq<char>, Seq<(Seq<char>, Seq<char>)>) {
    let maps0 = Seq::<(Seq<char>, Seq<char>)>::empty();
    let s1 = spec_apply_pattern(text, maps0, "AIza[0-9A-Za-z_-]{35}"@, "API키"@);
    let s2 = spec_apply_pattern(s1.0, s1.1, "sk-[0-9A-Za-z]{48}"@, "API키"@);
    let s3 = spec_apply_pattern(s2.0, s2.1, "sk-proj-[0-9A-Za-z_-]{100,}"@, "API키"@);
    let s4 = spec_apply_pattern(s3.0, s3.1, "AKIA[0-9A-Z]{16}"@, "API키"@);
    let s5 = spec_apply_pattern(s4.0, s4.1, "ghp_[0-9A-Za-z]{36}"@, "API키"@);
    let s6 = spec_apply_pattern(s5.0, s5.1, "glpat-[0-9A-Za-z_-]{20}"@, "API키"@);
    let s7 = spec_apply_pattern(s6.0, s6.1, "\\d{6}[-\\s]?\\d{7}"@, "주민번호"@);
    let s8 = spec_apply_pattern(
        s7.0,
        s7.1,
        "0\\d{1,2}[-\\s.]?\\d{3,4}[-\\s.]?\\d{4}"@,
        "전화번호"@,
    );
    let s9 = spec_apply_pattern(
        s8.0,
        s8.1,
        "[a-zA-Z0-9._%+-]+@[a-zA-Z0-9.-]+\\.[a-zA-Z]{2,}"@,
        "이메일"@,
    );
    let s10 = spec_apply_pattern(
        s9.0,
        s9.1,
        "\\d{4}[-\\s]?\\d{4}[-\\s]?\\d{4}[-\\s]?\\d{4}"@,
        "카드번호"@,
    );
    let s11 = spec_apply_pattern(
        s10.0,
        s10.1,
        "(?:국민|신한|우리|하나|농협|기업|SC|씨티|케이뱅크|카카오|토스).{0,5}\\d{10,14}"@,
        "계좌번호"@,
    );
    let s12 = spec_apply_pattern(
        s11.0,
        s11.1,
        "(?:서울|부산|대구|인천|광주|대전|울산|세종|경기|강원|충북|충남|전북|전남|경북|경남|제주)(?:특별시|광역시|특별자치시|도|특별자치도)?\\s*[가-힣]+(?:시|군|구)\\s*[가-힣0-9]+(?:로|길|동|읍|면)\\s*[\\d\\-가-힣\\s]*"@,
        "주소"@,
    );
    let s13 = spec_apply_pattern(
        s12.0,
        s12.1,
        "(?i)(?:password|비밀번호|비번|pw|암호)\\s*[:=]\\s*\\S+"@,
        "비밀번호"@,
    );
    s13
}

/// Masks the sensitive values in a text before it is sent to the model,
/// returning the masked text and the token-to-original mapping.
pub fn mask_sensitive_info(text: &str) -> (r: MaskResult)
    ensures
        (r.masked@, map_views(r.mappings@)) == spec_mask(text@),
{
    let mut masked = str_to_chars(text);
    let mut mappings: Vec<(String, String)> = Vec::new();
    proof {
        assert(map_views(mappings@) =~= Seq::<(Seq<char>, Seq<char>)>::empty());
    }
    mask_pattern(&mut masked, &mut mappings, "AIza[0-9A-Za-z_-]{35}", "API키");
    mask_pattern(&mut masked, &mut mappings, "sk-[0-9A-Za-z]{48}", "API키");
    mask_pattern(&mut masked, &mut mappings, "sk-proj-[0-9A-Za-z_-]{100,}", "API키");
    mask_pattern(&mut masked, &mut mappings, "AKIA[0-9A-Z]{16}", "API키");
    mask_pattern(&mut masked, &mut mappings, "ghp_[0-9A-Za-z]{36}", "API키");
    mask_pattern(&mut masked, &mut mappings, "glpat-[0-9A-Za-z_-]{20}", "API키");
    mask_pattern(&mut masked, &mut mappings, "\\d{6}[-\\s]?\\d{7}", "주민번호");
    mask_pattern(&mut masked, &mut mappings, "0\\d{1,2}[-\\s.]?\\d{3,4}[-\\s.]?\\d{4}", "전화번호");
    mask_pattern(
        &mut masked,
        &mut mappings,
        "[a-zA-Z0-9._%+-]+@[a-zA-Z0-9.-]+\\.[a-zA-Z]{2,}",
        "이메일",
    );
    mask_pattern(
        &mut masked,
        &mut mappings,
        "\\d{4}[-\\s]?\\d{4}[-\\s]?\\d{4}[-\\s]?\\d{4}",
        "카드번호",
    );
    mask_pattern(
        &mut masked,
        &mut mappings,
        "(?:국민|신한|우리|하나|농협|기업|SC|씨티|케이뱅크|카카오|토스).{0,5}\\d{10,14}",
        "계좌번호",
    );
    mask_pattern(
        &mut masked,
        &mut mappings,
        "(?:서울|부산|대구|인천|광주|대전|울산|세종|경기|강원|충북|충남|전북|전남|경북|경남|제주)(?:특별시|광역시|특별자치시|도|특별자치도)?\\s*[가-힣]+(?:시|군|구)\\s*[가-힣0-9]+(?:로|길|동|읍|면)\\s*[\\d\\-가-힣\\s]*",
        "주소",
    );
    mask_pattern(
        &mut masked,
        &mut mappings,
        "(?i)(?:password|비밀번호|비번|pw|암호)\\s*[:=]\\s*\\S+",
        "비밀번호",
    );
    MaskResult { masked: chars_to_string(masked.as_slice()), mappings }
}

/// What unmasking returns: each mapping's token replaced by its original
/// value, applied in recorded order.
pub open spec fn spec_unmask(text: Seq<char>, maps: Seq<(Seq<char>, Seq<char>)>) -> Seq<char>
    decreases maps.len(),
{
    if maps.len() == 0 {
        text
    } else {
        spec_unmask(spec_replace_all(text, maps[0].0, maps[0].1), maps.drop_first())
    }
}

/// Restores a masked text: every token is replaced by the original value it
/// stands for, mapping by mapping in recorded order.
pub fn unmask_text(masked_text: &str, mappings: &[(String, String)]) -> (r: String)
    ensures
        r@ == spec_unmask(masked_text@, map_views(mappings@)),
{
    let mut cur = str_to_chars(masked_text);
    let ghost mviews = map_views(mappings@);
    let ghost target = spec_unmask(masked_text@, mviews);
    proof {
        assert(mviews.skip(0) =~= mviews);
    }
    let mut k: usize = 0;
    while k < mappings.len()
        invariant
            k <= mappings@.len(),
            mviews == map_views(mappings@),
            target == spec_unmask(cur@, mviews.skip(k as int)),
        decreases mappings@.len() - k,
    {
        let token = str_to_chars(mappings[k].0.as_str());
        let original = str_to_chars(mappings[k].1.as_str());
        cur = replace_all(cur.as_slice(), token.as_slice(), original.as_slice());
        proof {
            assert(mviews.skip(k as int).drop_first() =~= mviews.skip(k as int + 1));
            assert(mviews.skip(k as int)[0] == mviews[k as int]);
        }
        k += 1;
    }
    proof {
        assert(mviews.skip(mappings@.len() as int) =~= Seq::<(Seq<char>, Seq<char>)>::empty());
    }
    chars_to_string(cur.as_slice())
}

} // verus!
