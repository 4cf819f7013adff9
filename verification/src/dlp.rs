//! Content inspection of the data-leak-prevention engine: signature rules
//! (regular expressions, with a Luhn check for card numbers) and dictionary
//! rules (case-insensitive keywords), scored against a blocking threshold.
use vstd::prelude::*;
use vstd::utf8::*;
use vstd::string::StringSliceAdditionalSpecFns;
use regex::Regex;
use crate::luhn::{luhn_valid, validate_luhn};
use crate::text::{ascii_lower, ascii_lower_char, lemma_ascii_boundaries};

verus! {

/// Kinds of sensitive data the engine recognises.
#[derive(Debug, Clone, Copy, PartialEq, Eq, Hash)]
pub enum LeakType {
    Passport,
    CreditCard,
    ConfidentialKeyword,
    SourceCode,
}

/// Criticality of an analysed document.
#[derive(Debug, Clone, Copy, PartialEq, Eq, PartialOrd, Ord)]
pub enum Severity {
    Low,
    Medium,
    High,
    Critical,
}

/// One match found in a document.
#[derive(Debug, Clone)]
pub struct Detection {
    pub leak_type: LeakType,
    pub matched_text: String,
    pub score_impact: u32,
}

/// Outcome of analysing one document.
#[derive(Debug, Clone)]
pub struct AnalysisResult {
    pub is_violation: bool,
    pub total_score: u32,
    pub severity: Severity,
    pub detections: Vec<Detection>,
}

/// Content analysis rules.
pub enum Rule {
    /// A regular expression (its source text), the kind of data it finds,
    /// and the weight of each match.
    Signature(String, LeakType, u32),
    /// Keywords with their weights, matched without regard to case, in
    /// the order given, and the kind of data they indicate.
    Dictionary(Vec<(String, u32)>, LeakType),
}

/// The analysis engine: its rules, in the order added, and the score at
/// which a document counts as a violation.
pub struct DlpEngine {
    rules: Vec<Rule>,
    threshold: u32,
}

pub struct DetectionView {
    pub leak_type: LeakType,
    pub matched_text: Seq<char>,
    pub score_impact: u32,
}

impl View for Detection {
    type V = DetectionView;

    open spec fn view(&self) -> DetectionView {
        DetectionView { leak_type: self.leak_type, matched_text: self.matched_text@, score_impact: self.score_impact }
    }
}

pub struct AnalysisView {
    pub is_violation: bool,
    pub total_score: u32,
    pub severity: Severity,
    pub detections: Seq<DetectionView>,
}

impl View for AnalysisResult {
    type V = AnalysisView;

    open spec fn view(&self) -> AnalysisView {
        AnalysisView {
            is_violation: self.is_violation,
            total_score: self.total_score,
            severity: self.severity,
            detections: self.detections@.map_values(|d: Detection| d@),
        }
    }
}

pub enum RuleView {
    Signature { pattern: Seq<char>, leak: LeakType, score: u32 },
    Dictionary { entries: Seq<(Seq<char>, u32)>, leak: LeakType },
}

impl View for Rule {
    type V = RuleView;

    open spec fn view(&self) -> RuleView {
        match self {
            Rule::Signature(p, leak, score) => RuleView::Signature { pattern: p@, leak: *leak, score: *score },
            Rule::Dictionary(entries, leak) => RuleView::Dictionary {
                entries: entries@.map_values(|e: (String, u32)| (e.0@, e.1)),
                leak: *leak,
            },
        }
    }
}

/// Whether a dictionary rule holds each keyword once (a signature rule
/// always does): the rule maps keywords to weights, one weight per keyword.
pub open spec fn keywords_distinct(rule: RuleView) -> bool {
    match rule {
        RuleView::Signature { .. } => true,
        RuleView::Dictionary { entries, .. } => entries.map_values(|e: (Seq<char>, u32)| e.0).no_duplicates(),
    }
}

/// Whether a pattern compiles as a regular expression.
pub uninterp spec fn regex_valid(pattern: Seq<char>) -> bool;

/// The texts of the successive non-overlapping leftmost matches of a
/// regular expression in a haystack.
pub uninterp spec fn regex_match_texts(pattern: Seq<char>, text: Seq<char>) -> Seq<Seq<char>>;

/// The lower-case form of a text, as `str::to_lowercase` makes it.
pub uninterp spec fn lowercase(s: Seq<char>) -> Seq<char>;

/// `Regex::new` from `regex`: whether the pattern compiles.
#[verifier::external_body]
pub(crate) fn regex_compiles(pattern: &str) -> (r: bool)
    ensures
        r == regex_valid(pattern@),
{
    Regex::new(pattern).is_ok()
}

/// `Regex::find_iter` from `regex` on the expression compiled from
/// `pattern` (which the precondition says compiles): the text of each match.
#[verifier::external_body]
pub(crate) fn regex_find_all(pattern: &str, text: &str) -> (r: Vec<String>)
    requires
        regex_valid(pattern@),
    ensures
        r@.map_values(|s: String| s@) == regex_match_texts(pattern@, text@),
{
    match Regex::new(pattern) {
        Ok(re) => re.find_iter(text).map(|m| m.as_str().to_string()).collect(),
        Err(_) => Vec::new(),
    }
}

/// `str::to_lowercase` from std. Its result is the one `lowercase` names;
/// for a text of ASCII characters that is the text with `A`-`Z` lowered and
/// every other character kept (the Unicode lowercase mapping of each ASCII
/// character, which std applies character by character).
#[verifier::external_body]
fn to_lowercase(s: &str) -> (r: String)
    ensures
        r@ == lowercase(s@),
        is_ascii_chars(s@) ==> r@ == ascii_lower(s@),
{
    s.to_lowercase()
}

/// Whether `needle` occurs in `hay` at byte offset `k`.
pub open spec fn occurs_at(hay: Seq<u8>, k: int, needle: Seq<u8>) -> bool {
    0 <= k && k + needle.len() <= hay.len() && hay.subrange(k, k + needle.len()) == needle
}

/// The first byte offset at or after `from` where `needle` occurs.
pub open spec fn first_occurrence(hay: Seq<u8>, from: int, needle: Seq<u8>) -> Option<int>
    decreases hay.len() - from,
{
    if from < 0 || from + needle.len() > hay.len() {
        None
    } else if occurs_at(hay, from, needle) {
        Some(from)
    } else if from >= hay.len() {
        None
    } else {
        first_occurrence(hay, from + 1, needle)
    }
}

pub proof fn lemma_first_occurrence(hay: Seq<u8>, from: int, needle: Seq<u8>)
    requires
        0 <= from,
    ensures
        first_occurrence(hay, from, needle) matches Some(j) ==> from <= j && occurs_at(hay, j, needle),
        first_occurrence(hay, from, needle) is None ==> forall|k: int| from <= k ==> !#[trigger] occurs_at(hay, k, needle),
        first_occurrence(hay, from, needle) matches Some(j) ==> forall|k: int| from <= k < j ==> !#[trigger] occurs_at(hay, k, needle),
    decreases hay.len() - from,
{
    if from < 0 || from + needle.len() > hay.len() {
    } else if occurs_at(hay, from, needle) {
    } else if from >= hay.len() {
    } else {
        lemma_first_occurrence(hay, from + 1, needle);
    }
}

/// The texts a keyword scan collects, starting at byte `pos` of the
/// lower-cased text `lower`: each occurrence of the lower-cased keyword `lw`
/// is copied out of the original text `text` with the keyword's own byte
/// length `wlen`, and the scan resumes just past that copy. `None` when the
/// scan cannot go on: the keyword is empty (the scan would not advance), or a
/// resume offset or copy bound does not fall on a character boundary of its text.
pub open spec fn keyword_scan(text: Seq<u8>, lower: Seq<u8>, wlen: nat, lw: Seq<u8>, pos: int) -> Option<Seq<Seq<char>>>
    decreases lower.len() - pos,
{
    if wlen == 0 || pos < 0 || pos > lower.len() || !is_char_boundary(lower, pos) {
        None
    } else {
        match first_occurrence(lower, pos, lw) {
            None => Some(Seq::empty()),
            Some(j) => {
                proof { lemma_first_occurrence(lower, pos, lw); }
                let end = j + wlen;
                if end > text.len() || !is_char_boundary(text, j) || !is_char_boundary(text, end) || end > lower.len() {
                    None
                } else {
                    match keyword_scan(text, lower, wlen, lw, end) {
                        Some(rest) => Some(seq![decode_utf8(text.subrange(j, end))] + rest),
                        None => None,
                    }
                }
            },
        }
    }
}


proof fn lemma_ascii_lower_ascii(s: Seq<char>)
    requires
        is_ascii_chars(s),
    ensures
        is_ascii_chars(ascii_lower(s)),
        ascii_lower(s).len() == s.len(),
{
    assert forall|i: int| 0 <= i < ascii_lower(s).len() implies '\0' <= #[trigger] ascii_lower(s)[i] <= '\u{7f}' by {
        assert(ascii_lower(s)[i] == ascii_lower_char(s[i]));
        assert('\0' <= s[i] <= '\u{7f}');
    }
}

proof fn lemma_ascii_piece(t: Seq<char>, j: int, end: int)
    requires
        is_ascii_chars(t),
        0 <= j <= end <= t.len(),
    ensures
        decode_utf8(encode_utf8(t).subrange(j, end)) == t.subrange(j, end),
{
    broadcast use vstd::utf8::group_utf8_lib;
    let p = t.subrange(j, end);
    assert(is_ascii_chars(p)) by {
        assert forall|i: int| 0 <= i < p.len() implies '\0' <= #[trigger] p[i] <= '\u{7f}' by {
            assert(p[i] == t[j + i]);
        }
    }
    is_ascii_chars_encode_utf8(t);
    is_ascii_chars_encode_utf8(p);
    assert(encode_utf8(t).subrange(j, end) =~= encode_utf8(p)) by {
        assert forall|k: int| 0 <= k < p.len() implies #[trigger] encode_utf8(t).subrange(j, end)[k] == encode_utf8(p)[k] by {
            assert(encode_utf8(t)[j + k] == t[j + k] as u8);
            assert(encode_utf8(p)[k] == p[k] as u8);
        }
    }
    encode_utf8_decode_utf8(p);
}

/// On ASCII text and an ASCII keyword that is not empty, the keyword scan
/// goes through to the end of the text, and every text it collects lowers
/// (ASCII `A`-`Z` to `a`-`z`) to the lowered keyword.
pub proof fn law_ascii_keyword_scan(t: Seq<char>, w: Seq<char>, pos: int)
    requires
        is_ascii_chars(t),
        is_ascii_chars(w),
        w.len() > 0,
        0 <= pos <= t.len(),
    ensures
        keyword_scan(encode_utf8(t), encode_utf8(ascii_lower(t)), encode_utf8(w).len(), encode_utf8(ascii_lower(w)), pos)
            matches Some(found) && forall|i: int| 0 <= i < found.len() ==> ascii_lower(#[trigger] found[i]) == ascii_lower(w),
    decreases t.len() - pos,
{
    let tb = encode_utf8(t);
    let lt = ascii_lower(t);
    let lwc = ascii_lower(w);
    let l = encode_utf8(lt);
    let lw = encode_utf8(lwc);
    lemma_ascii_lower_ascii(t);
    lemma_ascii_lower_ascii(w);
    lemma_ascii_boundaries(t);
    lemma_ascii_boundaries(lt);
    lemma_ascii_boundaries(w);
    lemma_ascii_boundaries(lwc);
    is_ascii_chars_encode_utf8(lt);
    is_ascii_chars_encode_utf8(lwc);
    let wlen = encode_utf8(w).len();
    assert(is_char_boundary(l, pos));
    lemma_first_occurrence(l, pos, lw);
    match first_occurrence(l, pos, lw) {
        None => {},
        Some(j) => {
            let end = j + wlen;
            assert(occurs_at(l, j, lw));
            assert(is_char_boundary(tb, j));
            assert(is_char_boundary(tb, end));
            law_ascii_keyword_scan(t, w, end);
            let rest = keyword_scan(tb, l, wlen, lw, end)->Some_0;
            let m = decode_utf8(tb.subrange(j, end));
            lemma_ascii_piece(t, j, end);
            assert(ascii_lower(m) =~= lwc) by {
                assert forall|k: int| 0 <= k < w.len() implies #[trigger] ascii_lower(m)[k] == lwc[k] by {
                    assert(m[k] == t[j + k]);
                    assert(l.subrange(j, end)[k] == lw[k]);
                    assert(l[j + k] == lt[j + k] as u8);
                    assert(lw[k] == lwc[k] as u8);
                    assert(lt[j + k] == ascii_lower_char(t[j + k]));
                    assert('\0' <= lt[j + k] <= '\u{7f}');
                    assert('\0' <= lwc[k] <= '\u{7f}');
                }
            }
            let found = seq![m] + rest;
            assert forall|i: int| 0 <= i < found.len() implies ascii_lower(#[trigger] found[i]) == lwc by {
                if i > 0 {
                    assert(found[i] == rest[i - 1]);
                }
            }
        },
    }
}

/// Whether a dictionary entry's keyword is ASCII and not empty.
pub open spec fn ascii_keyword(e: (Seq<char>, u32)) -> bool {
    is_ascii_chars(e.0) && e.0.len() > 0
}

/// Whether a rule's keywords are ASCII and not empty (a signature rule has none).
pub open spec fn ascii_keywords(rule: RuleView) -> bool {
    rule is Dictionary ==> forall|i: int| 0 <= i < rule->entries.len() ==> #[trigger] ascii_keyword(rule->entries[i])
}

proof fn lemma_ascii_entry(entries: Seq<(Seq<char>, u32)>, leak: LeakType, i: int)
    requires
        ascii_keywords(RuleView::Dictionary { entries, leak }),
        0 <= i < entries.len(),
    ensures
        ascii_keyword(entries[i]),
{
    let r = RuleView::Dictionary { entries, leak };
    assert(r is Dictionary);
    assert(r->entries == entries);
    assert(ascii_keyword(r->entries[i]));
}

/// Whether a text is ASCII and every keyword of the rules is ASCII and not empty.
pub open spec fn ascii_inputs(rules: Seq<RuleView>, text: Seq<char>) -> bool {
    &&& is_ascii_chars(text)
    &&& forall|i: int| 0 <= i < rules.len() ==> ascii_keywords(#[trigger] rules[i])
}

/// The detections of a keyword's matched texts.
pub open spec fn keyword_detections(texts: Seq<Seq<char>>, leak: LeakType, score: u32) -> Seq<DetectionView> {
    texts.map_values(|t: Seq<char>| DetectionView { leak_type: leak, matched_text: t, score_impact: score })
}

/// The detections of a signature rule's matched texts: every match, except
/// that a card-number match must pass the Luhn check.
pub open spec fn signature_detections(texts: Seq<Seq<char>>, leak: LeakType, score: u32) -> Seq<DetectionView>
    decreases texts.len(),
{
    if texts.len() == 0 {
        Seq::empty()
    } else {
        let prev = signature_detections(texts.drop_last(), leak, score);
        if leak == LeakType::CreditCard && !luhn_valid(texts.last()) {
            prev
        } else {
            prev.push(DetectionView { leak_type: leak, matched_text: texts.last(), score_impact: score })
        }
    }
}

/// The detections of a dictionary rule, keyword by keyword; `None` when a
/// keyword scan cannot go on.
pub open spec fn dictionary_detections(text: Seq<char>, entries: Seq<(Seq<char>, u32)>, leak: LeakType) -> Option<Seq<DetectionView>>
    decreases entries.len(),
{
    if entries.len() == 0 {
        Some(Seq::empty())
    } else {
        match dictionary_detections(text, entries.drop_last(), leak) {
            None => None,
            Some(prev) => {
                let e = entries.last();
                match keyword_scan(
                    encode_utf8(text),
                    encode_utf8(lowercase(text)),
                    encode_utf8(e.0).len(),
                    encode_utf8(lowercase(e.0)),
                    0,
                ) {
                    None => None,
                    Some(found) => Some(prev + keyword_detections(found, leak, e.1)),
                }
            },
        }
    }
}

/// The detections of one rule. A signature whose pattern does not compile finds nothing.
pub open spec fn rule_detections(rule: RuleView, text: Seq<char>) -> Option<Seq<DetectionView>> {
    match rule {
        RuleView::Signature { pattern, leak, score } => Some(
            if regex_valid(pattern) {
                signature_detections(regex_match_texts(pattern, text), leak, score)
            } else {
                Seq::empty()
            },
        ),
        RuleView::Dictionary { entries, leak } => dictionary_detections(text, entries, leak),
    }
}

/// The detections of all rules, rule by rule.
pub open spec fn rules_detections(rules: Seq<RuleView>, text: Seq<char>) -> Option<Seq<DetectionView>>
    decreases rules.len(),
{
    if rules.len() == 0 {
        Some(Seq::empty())
    } else {
        match rules_detections(rules.drop_last(), text) {
            None => None,
            Some(prev) => match rule_detections(rules.last(), text) {
                None => None,
                Some(more) => Some(prev + more),
            },
        }
    }
}

/// Sum of the detections' weights.
pub open spec fn score_total(ds: Seq<DetectionView>) -> nat
    decreases ds.len(),
{
    if ds.len() == 0 {
        0
    } else {
        score_total(ds.drop_last()) + ds.last().score_impact as nat
    }
}

/// Severity band of a total score.
pub open spec fn severity_for(score: nat) -> Severity {
    if score == 0 {
        Severity::Low
    } else if score <= 10 {
        Severity::Medium
    } else if score <= 30 {
        Severity::High
    } else {
        Severity::Critical
    }
}

/// The analysis of a text: all detections, their total weight, whether it
/// reaches the threshold and its severity band. `None` when a keyword scan
/// cannot go on or the total does not fit in 32 bits.
pub open spec fn analysis_of(rules: Seq<RuleView>, threshold: u32, text: Seq<char>) -> Option<AnalysisView> {
    match rules_detections(rules, text) {
        None => None,
        Some(ds) => if score_total(ds) > u32::MAX {
            None
        } else {
            Some(AnalysisView {
                is_violation: score_total(ds) >= threshold,
                total_score: score_total(ds) as u32,
                severity: severity_for(score_total(ds)),
                detections: ds,
            })
        },
    }
}

/// Every card number a signature rule reports passes the Luhn check.
pub proof fn law_reported_cards_pass_luhn(texts: Seq<Seq<char>>, score: u32)
    ensures
        forall|i: int| 0 <= i < signature_detections(texts, LeakType::CreditCard, score).len()
            ==> luhn_valid(#[trigger] signature_detections(texts, LeakType::CreditCard, score)[i].matched_text),
    decreases texts.len(),
{
    if texts.len() > 0 {
        law_reported_cards_pass_luhn(texts.drop_last(), score);
        let prev = signature_detections(texts.drop_last(), LeakType::CreditCard, score);
        let all = signature_detections(texts, LeakType::CreditCard, score);
        assert forall|i: int| 0 <= i < all.len() implies luhn_valid(#[trigger] all[i].matched_text) by {
            if i < prev.len() {
                assert(all[i] == prev[i]);
            }
        }
    }
}

/// Rank of a severity, from `Low` (0) to `Critical` (3).
pub open spec fn severity_rank(s: Severity) -> nat {
    match s {
        Severity::Low => 0,
        Severity::Medium => 1,
        Severity::High => 2,
        Severity::Critical => 3,
    }
}

/// A higher total never gives a lower severity.
pub proof fn law_severity_monotone(a: nat, b: nat)
    requires
        a <= b,
    ensures
        severity_rank(severity_for(a)) <= severity_rank(severity_for(b)),
{
}

/// The total is the sum of the reported weights, and a document is a
/// violation exactly when that total reaches the threshold.
pub proof fn law_violation_iff_threshold(rules: Seq<RuleView>, threshold: u32, text: Seq<char>)
    requires
        analysis_of(rules, threshold, text) is Some,
    ensures
        ({
            let a = analysis_of(rules, threshold, text)->0;
            &&& a.total_score == score_total(a.detections)
            &&& a.is_violation <==> a.total_score >= threshold
            &&& a.severity == severity_for(a.total_score as nat)
        }),
{
}

/// Views of a sequence of detections.
pub open spec fn detections_view(ds: Seq<Detection>) -> Seq<DetectionView> {
    ds.map_values(|d: Detection| d@)
}

proof fn lemma_detections_view_push(s: Seq<Detection>, d: Detection)
    ensures
        detections_view(s.push(d)) == detections_view(s).push(d@),
{
    assert(detections_view(s.push(d)) =~= detections_view(s).push(d@));
}

/// The first offset at or after `from` where `needle` occurs in `hay`.
pub fn find_from(hay: &[u8], from: usize, needle: &[u8]) -> (r: Option<usize>)
    ensures
        match r {
            Some(j) => first_occurrence(hay@, from as int, needle@) == Some(j as int),
            None => first_occurrence(hay@, from as int, needle@) is None,
        },
{
    let n = needle.len();
    let h = hay.len();
    if n > h {
        proof { reveal_with_fuel(first_occurrence, 1); }
        return None;
    }
    let mut k: usize = from;
    while k <= h - n
        invariant
            n == needle@.len(),
            h == hay@.len(),
            n <= h,
            from <= k,
            first_occurrence(hay@, from as int, needle@) == first_occurrence(hay@, k as int, needle@),
        decreases h - k,
    {
        let mut i: usize = 0;
        let mut same = true;
        while i < n
            invariant
                n == needle@.len(),
                h == hay@.len(),
                k + n <= h,
                i <= n,
                same == (forall|t: int| 0 <= t < i ==> hay@[k + t] == needle@[t]),
            decreases n - i,
        {
            if hay[k + i] != needle[i] {
                same = false;
            }
            i = i + 1;
        }
        if same {
            assert(hay@.subrange(k as int, k + n) =~= needle@);
            return Some(k);
        }
        assert(!occurs_at(hay@, k as int, needle@)) by {
            if occurs_at(hay@, k as int, needle@) {
                let t = choose|t: int| 0 <= t < n && hay@[k + t] != needle@[t];
                assert(hay@.subrange(k as int, k + n)[t] == hay@[k + t]);
            }
        }
        if k == h - n {
            assert(first_occurrence(hay@, k + 1, needle@) is None);
            return None;
        }
        k = k + 1;
    }
    None
}

/// Appends the detections of one keyword; `false` when the scan cannot go on.
fn scan_keyword(text: &str, lower: &str, word: &str, lword: &str, leak: LeakType, score: u32, out: &mut Vec<Detection>) -> (r: bool)
    ensures
        r == keyword_scan(text.spec_bytes(), lower.spec_bytes(), word.spec_bytes().len(), lword.spec_bytes(), 0) is Some,
        keyword_scan(text.spec_bytes(), lower.spec_bytes(), word.spec_bytes().len(), lword.spec_bytes(), 0) matches Some(found)
            ==> detections_view(final(out)@) == detections_view(old(out)@) + keyword_detections(found, leak, score),
{
    broadcast use vstd::utf8::group_utf8_lib;
    let tb = text.as_bytes();
    let lb = lower.as_bytes();
    let lwb = lword.as_bytes();
    let wlen = word.as_bytes().len();
    let ghost t = text.spec_bytes();
    let ghost l = lower.spec_bytes();
    let ghost lw = lword.spec_bytes();
    let ghost whole = keyword_scan(t, l, wlen as nat, lw, 0);
    let ghost start = detections_view(out@);
    let ghost mut found: Seq<Seq<char>> = Seq::empty();
    let mut pos: usize = 0;
    loop
        invariant
            tb@ == t,
            lb@ == l,
            lwb@ == lw,
            t == text.spec_bytes(),
            l == lower.spec_bytes(),
            lw == lword.spec_bytes(),
            wlen == word.spec_bytes().len(),
            whole == keyword_scan(t, l, wlen as nat, lw, 0),
            valid_utf8(t),
            valid_utf8(l),
            pos <= l.len() + wlen,
            whole == match keyword_scan(t, l, wlen as nat, lw, pos as int) {
                Some(rest) => Some(found + rest),
                None => None::<Seq<Seq<char>>>,
            },
            detections_view(out@) == start + keyword_detections(found, leak, score),
            start == detections_view(old(out)@),
        decreases l.len() + wlen - pos,
    {
        if wlen == 0 || pos > lb.len() || !lower.is_char_boundary(pos) {
            return false;
        }
        let j = match find_from(lb, pos, lwb) {
            None => {
                proof {
                    assert(found + Seq::<Seq<char>>::empty() =~= found);
                }
                return true;
            },
            Some(j) => j,
        };
        proof { lemma_first_occurrence(l, pos as int, lw); }
        if wlen > tb.len() || j > tb.len() - wlen {
            return false;
        }
        let end = j + wlen;
        if !text.is_char_boundary(j) || !text.is_char_boundary(end) || end > lb.len() {
            return false;
        }
        let (_, after) = text.split_at(j);
        proof {
            valid_utf8_split(t, j as int);
            let a = t.subrange(j as int, t.len() as int);
            if end < t.len() {
                is_char_boundary_iff_not_is_continuation_byte(t, end as int);
                is_char_boundary_iff_not_is_continuation_byte(a, wlen as int);
            } else {
                is_char_boundary_start_end_of_seq(a);
            }
            assert(after.spec_bytes() =~= a);
        }
        let (piece, _) = after.split_at(wlen);
        let matched = piece.to_owned();
        proof {
            assert(piece.spec_bytes() =~= t.subrange(j as int, end as int));
            encode_utf8_decode_utf8(piece@);
        }
        let ghost prev_out = out@;
        out.push(Detection { leak_type: leak, matched_text: matched, score_impact: score });
        proof {
            lemma_detections_view_push(prev_out, out@.last());
            let m = decode_utf8(t.subrange(j as int, end as int));
            assert(m == matched@);
            let next_found = found.push(m);
            match keyword_scan(t, l, wlen as nat, lw, end as int) {
                Some(rest) => {
                    assert(found + (seq![m] + rest) =~= next_found + rest);
                },
                None => {},
            }
            assert(keyword_detections(next_found, leak, score) =~= keyword_detections(found, leak, score).push(
                DetectionView { leak_type: leak, matched_text: m, score_impact: score }));
            found = next_found;
        }
        pos = end;
    }
}


/// Appends the detections of a signature rule.
fn scan_signature(pattern: &str, text: &str, leak: LeakType, score: u32, out: &mut Vec<Detection>)
    ensures
        detections_view(final(out)@) == detections_view(old(out)@) + (if regex_valid(pattern@) {
            signature_detections(regex_match_texts(pattern@, text@), leak, score)
        } else {
            Seq::empty()
        }),
{
    if !regex_compiles(pattern) {
        assert(detections_view(out@) + Seq::<DetectionView>::empty() =~= detections_view(out@));
        return;
    }
    let texts = regex_find_all(pattern, text);
    let ghost m = regex_match_texts(pattern@, text@);
    let ghost start = detections_view(out@);
    let mut i: usize = 0;
    assert(m.take(0) =~= Seq::<Seq<char>>::empty());
    while i < texts.len()
        invariant
            texts@.map_values(|s: String| s@) == m,
            i <= texts@.len(),
            start == detections_view(old(out)@),
            detections_view(out@) == start + signature_detections(m.take(i as int), leak, score),
        decreases texts@.len() - i,
    {
        proof {
            assert(m.take(i + 1).drop_last() =~= m.take(i as int));
            assert(m[i as int] == texts@[i as int]@);
        }
        let skip = match leak {
            LeakType::CreditCard => !validate_luhn(texts[i].as_str()),
            _ => false,
        };
        if !skip {
            let ghost prev = out@;
            out.push(Detection { leak_type: leak, matched_text: texts[i].clone(), score_impact: score });
            proof {
                lemma_detections_view_push(prev, out@.last());
                assert(detections_view(out@) =~= start + signature_detections(m.take(i + 1), leak, score));
            }
        }
        i = i + 1;
    }
    assert(m.take(i as int) =~= m);
}

/// Views of dictionary entries.
pub open spec fn entries_view(es: Seq<(String, u32)>) -> Seq<(Seq<char>, u32)> {
    es.map_values(|e: (String, u32)| (e.0@, e.1))
}

/// Appends the detections of a dictionary rule; `false` when a keyword scan cannot go on.
fn scan_dictionary(entries: &Vec<(String, u32)>, text: &str, leak: LeakType, out: &mut Vec<Detection>) -> (r: bool)
    ensures
        r == dictionary_detections(text@, entries_view(entries@), leak) is Some,
        is_ascii_chars(text@) && ascii_keywords(RuleView::Dictionary { entries: entries_view(entries@), leak }) ==> r,
        dictionary_detections(text@, entries_view(entries@), leak) matches Some(ds)
            ==> detections_view(final(out)@) == detections_view(old(out)@) + ds,
{
    let lower = to_lowercase(text);
    let ghost es = entries_view(entries@);
    let ghost start = detections_view(out@);
    let mut i: usize = 0;
    assert(es.take(0) =~= Seq::<(Seq<char>, u32)>::empty());
    while i < entries.len()
        invariant
            es == entries_view(entries@),
            i <= entries@.len(),
            lower@ == lowercase(text@),
            is_ascii_chars(text@) ==> lower@ == ascii_lower(text@),
            start == detections_view(old(out)@),
            dictionary_detections(text@, es.take(i as int), leak) matches Some(ds)
                && detections_view(out@) == start + ds,
        decreases entries@.len() - i,
    {
        let entry = &entries[i];
        let lword = to_lowercase(entry.0.as_str());
        let ghost before = detections_view(out@);
        let ok = scan_keyword(text, lower.as_str(), entry.0.as_str(), lword.as_str(), leak, entry.1, out);
        proof {
            assert(es.take(i + 1).drop_last() =~= es.take(i as int));
            assert(es.take(i + 1).last() == (entry.0@, entry.1));
        }
        if !ok {
            proof {
                if is_ascii_chars(text@) && ascii_keywords(RuleView::Dictionary { entries: es, leak }) {
                    assert(es[i as int].0 == entry.0@);
                    assert(0 <= i < es.len());
                    assert(ascii_keywords(RuleView::Dictionary { entries: es, leak }));
                    lemma_ascii_entry(es, leak, i as int);
                    law_ascii_keyword_scan(text@, entry.0@, 0);
                    assert(false);
                }
                assert(dictionary_detections(text@, es.take(i + 1), leak) is None);
                lemma_dictionary_prefix_none(text@, es, leak, i + 1);
                assert(es.take(es.len() as int) =~= es);
            }
            return false;
        }
        proof {
            let prev = dictionary_detections(text@, es.take(i as int), leak)->Some_0;
            let found = keyword_scan(
                encode_utf8(text@), encode_utf8(lowercase(text@)), encode_utf8(entry.0@).len(),
                encode_utf8(lowercase(entry.0@)), 0)->Some_0;
            assert(detections_view(out@) =~= start + (prev + keyword_detections(found, leak, entry.1)));
        }
        i = i + 1;
    }
    assert(es.take(i as int) =~= es);
    true
}

/// Once a dictionary scan fails on a prefix of the keywords, it fails on the whole list.
proof fn lemma_dictionary_prefix_none(text: Seq<char>, es: Seq<(Seq<char>, u32)>, leak: LeakType, k: int)
    requires
        0 <= k <= es.len(),
        dictionary_detections(text, es.take(k), leak) is None,
    ensures
        dictionary_detections(text, es, leak) is None,
    decreases es.len() - k,
{
    if k < es.len() {
        assert(es.take(k + 1).drop_last() =~= es.take(k));
        lemma_dictionary_prefix_none(text, es, leak, k + 1);
    } else {
        assert(es.take(k) =~= es);
    }
}

/// Once the rule scan fails on a prefix of the rules, it fails on the whole list.
proof fn lemma_rules_prefix_none(text: Seq<char>, rs: Seq<RuleView>, k: int)
    requires
        0 <= k <= rs.len(),
        rules_detections(rs.take(k), text) is None,
    ensures
        rules_detections(rs, text) is None,
    decreases rs.len() - k,
{
    if k < rs.len() {
        assert(rs.take(k + 1).drop_last() =~= rs.take(k));
        lemma_rules_prefix_none(text, rs, k + 1);
    } else {
        assert(rs.take(k) =~= rs);
    }
}

proof fn lemma_score_prefix(ds: Seq<DetectionView>, k: int)
    requires
        0 <= k <= ds.len(),
    ensures
        score_total(ds.take(k)) <= score_total(ds),
    decreases ds.len() - k,
{
    if k < ds.len() {
        assert(ds.take(k + 1).drop_last() =~= ds.take(k));
        lemma_score_prefix(ds, k + 1);
    } else {
        assert(ds.take(k) =~= ds);
    }
}

/// Views of a sequence of rules.
pub open spec fn rules_view(rs: Seq<Rule>) -> Seq<RuleView> {
    rs.map_values(|r: Rule| r@)
}

impl DlpEngine {
    /// Every dictionary rule of the engine holds each keyword once.
    pub open spec fn wf(&self) -> bool {
        forall|i: int| 0 <= i < self.rules().len() ==> keywords_distinct(#[trigger] self.rules()[i])
    }

    /// An engine with no rules and the given blocking threshold.
    pub fn new(threshold: u32) -> (r: DlpEngine)
        ensures
            r.wf(),
            r.rules().len() == 0,
            r.threshold() == threshold,
    {
        DlpEngine { rules: Vec::new(), threshold }
    }

    /// The rules, in the order added.
    pub closed spec fn rules(&self) -> Seq<RuleView> {
        rules_view(self.rules@)
    }

    /// The blocking threshold.
    pub closed spec fn threshold(&self) -> u32 {
        self.threshold
    }

    /// Adds a rule after the existing ones. A dictionary maps each keyword
    /// to one weight, so its keywords are distinct.
    pub fn add_rule(&mut self, rule: Rule)
        requires
            old(self).wf(),
            keywords_distinct(rule@),
        ensures
            final(self).wf(),
            final(self).rules() == old(self).rules().push(rule@),
            final(self).threshold() == old(self).threshold(),
    {
        let ghost rv = rule@;
        self.rules.push(rule);
        assert(rules_view(self.rules@) =~= rules_view(old(self).rules@).push(rv));
        assert forall|i: int| 0 <= i < self.rules().len() implies keywords_distinct(#[trigger] self.rules()[i]) by {
            if i < old(self).rules().len() {
                assert(self.rules()[i] == old(self).rules()[i]);
            }
        }
    }

    /// All detections of all rules, or `None` when a keyword scan cannot go on.
    fn collect_detections(&self, text: &str) -> (r: Option<Vec<Detection>>)
        ensures
            ascii_inputs(self.rules(), text@) ==> r is Some,
            match r {
                Some(v) => rules_detections(self.rules(), text@) == Some(detections_view(v@)),
                None => rules_detections(self.rules(), text@) is None,
            },
    {
        let mut out: Vec<Detection> = Vec::new();
        let ghost rs = self.rules();
        let mut i: usize = 0;
        assert(rs.take(0) =~= Seq::<RuleView>::empty());
        assert(detections_view(out@) =~= Seq::<DetectionView>::empty());
        while i < self.rules.len()
            invariant
                rs == self.rules(),
                rs == rules_view(self.rules@),
                i <= self.rules@.len(),
                rules_detections(rs.take(i as int), text@) == Some(detections_view(out@)),
            decreases self.rules@.len() - i,
        {
            proof {
                assert(rs.take(i + 1).drop_last() =~= rs.take(i as int));
                assert(rs.take(i + 1).last() == self.rules@[i as int]@);
            }
            let ghost before = detections_view(out@);
            match &self.rules[i] {
                Rule::Signature(pattern, leak, score) => {
                    scan_signature(pattern.as_str(), text, *leak, *score, &mut out);
                },
                Rule::Dictionary(entries, leak) => {
                    let ok = scan_dictionary(entries, text, *leak, &mut out);
                    if !ok {
                        proof {
                            if ascii_inputs(rs, text@) {
                                assert(ascii_keywords(rs[i as int]));
                                assert(false);
                            }
                            lemma_rules_prefix_none(text@, rs, i + 1);
                        }
                        return None;
                    }
                },
            }
            i = i + 1;
        }
        assert(rs.take(i as int) =~= rs);
        Some(out)
    }

    /// Analysis of a text, or `None` when a keyword scan cannot go on or the
    /// total weight does not fit in 32 bits.
    pub fn analyze_checked(&self, text: &str) -> (r: Option<AnalysisResult>)
        ensures
            ascii_inputs(self.rules(), text@) ==> rules_detections(self.rules(), text@) is Some,
            match r {
                Some(res) => analysis_of(self.rules(), self.threshold(), text@) == Some(res@),
                None => analysis_of(self.rules(), self.threshold(), text@) is None,
            },
    {
        if self.analysis(text).is_some() {
            Some(self.analyze(text))
        } else {
            None
        }
    }

    fn analysis(&self, text: &str) -> (r: Option<AnalysisResult>)
        ensures
            ascii_inputs(self.rules(), text@) ==> rules_detections(self.rules(), text@) is Some,
            match r {
                Some(res) => analysis_of(self.rules(), self.threshold(), text@) == Some(res@),
                None => analysis_of(self.rules(), self.threshold(), text@) is None,
            },
    {
        let detections = match self.collect_detections(text) {
            Some(d) => d,
            None => return None,
        };
        let ghost ds = detections_view(detections@);
        let mut total: u32 = 0;
        let mut i: usize = 0;
        assert(ds.take(0) =~= Seq::<DetectionView>::empty());
        while i < detections.len()
            invariant
                ds == detections_view(detections@),
                rules_detections(self.rules(), text@) == Some(ds),
                i <= detections@.len(),
                total as nat == score_total(ds.take(i as int)),
            decreases detections@.len() - i,
        {
            proof {
                assert(ds.take(i + 1).drop_last() =~= ds.take(i as int));
                assert(ds.take(i + 1).last() == detections@[i as int]@);
            }
            match total.checked_add(detections[i].score_impact) {
                Some(t) => total = t,
                None => {
                    proof {
                        lemma_score_prefix(ds, i + 1);
                    }
                    return None;
                },
            }
            i = i + 1;
        }
        assert(ds.take(i as int) =~= ds);
        let severity = if total == 0 {
            Severity::Low
        } else if total <= 10 {
            Severity::Medium
        } else if total <= 30 {
            Severity::High
        } else {
            Severity::Critical
        };
        Some(AnalysisResult {
            is_violation: total >= self.threshold,
            total_score: total,
            severity,
            detections,
        })
    }

    /// Analysis of a text: every detection of every rule in order, the total
    /// weight, whether it reaches the threshold, and the severity band.
    pub fn analyze(&self, text: &str) -> (r: AnalysisResult)
        requires
            analysis_of(self.rules(), self.threshold(), text@) is Some,
        ensures
            analysis_of(self.rules(), self.threshold(), text@) == Some(r@),
    {
        match self.analysis(text) {
            Some(r) => r,
            None => {
                assert(false);
                AnalysisResult { is_violation: false, total_score: 0, severity: Severity::Low, detections: Vec::new() }
            },
        }
    }
}

} // verus!
