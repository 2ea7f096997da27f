//! Merchant-name normalization and matching against the starter taxonomy
//! (category rules loaded from an external config).
use vstd::prelude::*;

use crate::schema::{CategorySuggestion, Decimal};
use crate::text::{
    lemma_words_join,
    lemma_join_ascii, lemma_trim_ascii, proper_words,
    all_ascii_words, lemma_words_proper,
    ascii_lower_char, ascii_upper_char, is_ascii_char, has_no_white_space,
    all_ascii, ascii_lowercase,
    all_digits, all_white_space, append_chars, char_to_uppercase, char_uppercase, chars_of, contains,
    contains_chars, is_all_digits, is_digit, is_white_space, join, join_words,
    lemma_words_leading_white, lemma_words_of_word, lemma_words_split, lemma_words_trailing_white,
    lemma_words_trim, lowercase_chars, occurs_at, split_whitespace, str_lowercase, string_of,
    to_lowercase, trim, trim_chars, views, words,
};

verus! {

// ---------------------------------------------------------------------------
// Title case and merchant normalization
// ---------------------------------------------------------------------------

/// A word with its first character upper-cased and the rest lower-cased.
pub open spec fn title_word(w: Seq<char>) -> Seq<char> {
    if w.len() == 0 {
        Seq::empty()
    } else {
        char_uppercase(w[0]) + str_lowercase(w.drop_first())
    }
}

pub open spec fn space() -> Seq<char> {
    seq![' ']
}

/// The words of `s`, each in title case, joined by single spaces.
pub open spec fn title_case_of(s: Seq<char>) -> Seq<char> {
    join(words(s).map_values(|w: Seq<char>| title_word(w)), space())
}

/// One step of reading the tokens of a raw merchant string: the words kept
/// so far, and whether the name has ended. Digit-only tokens (store numbers,
/// reference codes) before the first kept word are skipped; the first one
/// after a kept word ends the name, and nothing after it is kept.
pub open spec fn merchant_step(st: (Seq<Seq<char>>, bool), w: Seq<char>) -> (Seq<Seq<char>>, bool) {
    if st.1 {
        st
    } else if all_digits(w) {
        if st.0.len() > 0 {
            (st.0, true)
        } else {
            st
        }
    } else {
        (st.0.push(w), false)
    }
}

pub open spec fn merchant_scan_from(st: (Seq<Seq<char>>, bool), ws: Seq<Seq<char>>) -> (
    Seq<Seq<char>>,
    bool,
)
    decreases ws.len(),
{
    if ws.len() == 0 {
        st
    } else {
        merchant_step(merchant_scan_from(st, ws.drop_last()), ws.last())
    }
}

/// Tokens of a raw merchant string that make up the name: those before the
/// first digit-only token that follows a word, leading digit-only tokens
/// left out.
pub open spec fn merchant_words(ws: Seq<Seq<char>>) -> Seq<Seq<char>> {
    merchant_scan_from((Seq::empty(), false), ws).0
}

proof fn lemma_merchant_scan_concat(st: (Seq<Seq<char>>, bool), a: Seq<Seq<char>>, b: Seq<Seq<char>>)
    ensures
        merchant_scan_from(st, a + b) == merchant_scan_from(merchant_scan_from(st, a), b),
    decreases b.len(),
{
    if b.len() == 0 {
        assert(a + b =~= a);
    } else {
        lemma_merchant_scan_concat(st, a, b.drop_last());
        assert((a + b).drop_last() =~= a + b.drop_last());
    }
}

proof fn lemma_merchant_scan_ended(k: Seq<Seq<char>>, b: Seq<Seq<char>>)
    ensures
        merchant_scan_from((k, true), b) == (k, true),
    decreases b.len(),
{
    if b.len() > 0 {
        lemma_merchant_scan_ended(k, b.drop_last());
    }
}

/// The normalized merchant name for `raw`, or `None` when nothing but white
/// space and digit runs is left of it.
pub open spec fn normalized_merchant(raw: Seq<char>) -> Option<Seq<char>> {
    let t = trim(raw);
    if t.len() == 0 {
        None
    } else {
        let kept = merchant_words(words(t));
        if kept.len() == 0 {
            None
        } else {
            Some(title_case_of(join(kept, space())))
        }
    }
}

/// The normalized merchant name made from the words of a text.
pub open spec fn normalized_from_words(ws: Seq<Seq<char>>) -> Option<Seq<char>> {
    let kept = merchant_words(ws);
    if kept.len() == 0 {
        None
    } else {
        Some(title_case_of(join(kept, space())))
    }
}

/// Normalization depends on nothing but the white-space separated words of
/// the raw text.
pub proof fn lemma_normalized_by_words(raw: Seq<char>)
    ensures
        normalized_merchant(raw) == normalized_from_words(words(raw)),
{
    lemma_words_trim(raw);
    if trim(raw).len() == 0 {
        let ws = words(raw);
        assert(ws =~= Seq::<Seq<char>>::empty());
        assert(merchant_words(ws).len() == 0);
    }
}

/// White space around a merchant string does not change its normalized name.
pub proof fn lemma_normalize_ignores_surrounding_space(pre: Seq<char>, raw: Seq<char>, post: Seq<char>)
    requires
        all_white_space(pre),
        all_white_space(post),
    ensures
        normalized_merchant(pre + raw + post) == normalized_merchant(raw),
{
    lemma_normalized_by_words(pre + raw + post);
    lemma_normalized_by_words(raw);
    lemma_words_trailing_white(pre + raw, post);
    lemma_words_leading_white(pre, raw);
}

/// However much white space separates two parts of a merchant string, the
/// normalized name is the same as with a single space.
pub proof fn lemma_normalize_collapses_space(a: Seq<char>, gap: Seq<char>, b: Seq<char>)
    requires
        gap.len() > 0,
        all_white_space(gap),
    ensures
        normalized_merchant(a + gap + b) == normalized_merchant(a + space() + b),
{
    lemma_normalized_by_words(a + gap + b);
    lemma_normalized_by_words(a + space() + b);
    lemma_words_split(a, gap, b);
    assert(is_white_space(space()[0]));
    lemma_words_split(a, space(), b);
}

/// A trailing store number or reference code (a run of digits after a
/// space) does not change the normalized merchant name.
pub proof fn lemma_normalize_drops_reference_number(raw: Seq<char>, digits: Seq<char>)
    requires
        digits.len() > 0,
        all_digits(digits),
    ensures
        normalized_merchant(raw + space() + digits) == normalized_merchant(raw),
{
    lemma_normalized_by_words(raw + space() + digits);
    lemma_normalized_by_words(raw);
    assert(is_white_space(space()[0]));
    lemma_words_split(raw, space(), digits);
    assert forall|i: int| 0 <= i < digits.len() implies !is_white_space(#[trigger] digits[i]) by {
        assert(is_digit(digits[i]));
    }
    lemma_words_of_word(digits);
    assert(words(raw) + seq![digits] =~= words(raw).push(digits));
    assert(words(raw).push(digits).drop_last() =~= words(raw));
    assert(words(raw).push(digits).last() == digits);
}

/// A trailing run of ASCII digits `0`-`9` (all ten of them count) after a
/// space, a store number say, is dropped from the merchant name.
pub proof fn lemma_trailing_ascii_digits_dropped(raw: Seq<char>, digits: Seq<char>)
    requires
        digits.len() > 0,
        forall|i: int| 0 <= i < digits.len() ==> '0' <= #[trigger] digits[i] && digits[i] <= '9',
    ensures
        normalized_merchant(raw + space() + digits) == normalized_merchant(raw),
{
    assert forall|i: int| 0 <= i < digits.len() implies is_digit(#[trigger] digits[i]) by {
        assert('0' <= digits[i] && digits[i] <= '9');
    }
    lemma_normalize_drops_reference_number(raw, digits);
}

/// A store number or reference code after the first word ends the merchant
/// name: whatever follows it (a location, say) is left out.
pub proof fn lemma_normalize_stops_at_reference_number(raw: Seq<char>, digits: Seq<char>, rest: Seq<char>)
    requires
        digits.len() > 0,
        all_digits(digits),
        normalized_merchant(raw) is Some,
    ensures
        normalized_merchant(raw + space() + digits + space() + rest) == normalized_merchant(raw),
{
    let all = raw + space() + digits + space() + rest;
    lemma_normalized_by_words(all);
    lemma_normalized_by_words(raw);
    assert(is_white_space(space()[0]));
    lemma_words_split(raw + space() + digits, space(), rest);
    lemma_words_split(raw, space(), digits);
    assert forall|i: int| 0 <= i < digits.len() implies !is_white_space(#[trigger] digits[i]) by {
        assert(is_digit(digits[i]));
    }
    lemma_words_of_word(digits);
    let ws = words(raw);
    assert(words(all) =~= ws.push(digits) + words(rest));
    lemma_merchant_scan_concat((Seq::empty(), false), ws.push(digits), words(rest));
    let st = merchant_scan_from((Seq::empty(), false), ws);
    assert(ws.push(digits).drop_last() =~= ws);
    assert(st.0.len() > 0 || st.1) by {
        if st.0.len() == 0 {
            lemma_merchant_scan_empty_kept(ws);
        }
    }
    lemma_merchant_scan_ended(st.0, words(rest));
}

/// While no word has been kept, the name has not ended.
proof fn lemma_merchant_scan_empty_kept(ws: Seq<Seq<char>>)
    ensures
        merchant_scan_from((Seq::empty(), false), ws).0.len() == 0 ==> !merchant_scan_from(
            (Seq::empty(), false),
            ws,
        ).1,
    decreases ws.len(),
{
    if ws.len() > 0 {
        lemma_merchant_scan_empty_kept(ws.drop_last());
    }
}

/// A word with its first character upper-cased and the rest lower-cased,
/// by the ASCII case mappings.
pub open spec fn ascii_title_word(w: Seq<char>) -> Seq<char> {
    if w.len() == 0 {
        Seq::empty()
    } else {
        seq![ascii_upper_char(w[0])] + ascii_lowercase(w.drop_first())
    }
}

/// What `title_case_of` is for ASCII text.
pub open spec fn ascii_title_case_of(s: Seq<char>) -> Seq<char> {
    join(words(s).map_values(|w: Seq<char>| ascii_title_word(w)), space())
}

/// What `normalized_merchant` is for ASCII text.
pub open spec fn ascii_normalized_merchant(raw: Seq<char>) -> Option<Seq<char>> {
    let t = trim(raw);
    if t.len() == 0 {
        None
    } else {
        let kept = merchant_words(words(t));
        if kept.len() == 0 {
            None
        } else {
            Some(ascii_title_case_of(join(kept, space())))
        }
    }
}

/// A word of a normalized name: non-empty, without white space, ASCII, and
/// not made only of digits.
pub open spec fn name_word(w: Seq<char>) -> bool {
    &&& w.len() > 0
    &&& has_no_white_space(w)
    &&& all_ascii(w)
    &&& !all_digits(w)
}

proof fn lemma_ascii_case_char(c: char)
    requires
        is_ascii_char(c),
    ensures
        is_ascii_char(ascii_upper_char(c)),
        is_ascii_char(ascii_lower_char(c)),
        is_white_space(ascii_upper_char(c)) == is_white_space(c),
        is_white_space(ascii_lower_char(c)) == is_white_space(c),
        is_digit(ascii_upper_char(c)) == is_digit(c),
        is_digit(ascii_lower_char(c)) == is_digit(c),
        ascii_upper_char(ascii_upper_char(c)) == ascii_upper_char(c),
        ascii_lower_char(ascii_lower_char(c)) == ascii_lower_char(c),
{
}

proof fn lemma_merchant_scan_name_words(st: (Seq<Seq<char>>, bool), ws: Seq<Seq<char>>)
    requires
        forall|k: int| 0 <= k < st.0.len() ==> name_word(#[trigger] st.0[k]),
        proper_words(ws),
        all_ascii_words(ws),
    ensures
        forall|k: int|
            0 <= k < merchant_scan_from(st, ws).0.len() ==> name_word(
                #[trigger] merchant_scan_from(st, ws).0[k],
            ),
    decreases ws.len(),
{
    if ws.len() > 0 {
        let dl = ws.drop_last();
        assert forall|i: int| 0 <= i < dl.len() implies (#[trigger] dl[i]).len() > 0 && has_no_white_space(dl[i]) && all_ascii(dl[i]) by {
            assert(dl[i] == ws[i]);
        }
        lemma_merchant_scan_name_words(st, dl);
        let l = ws[ws.len() - 1];
        assert(l.len() > 0 && has_no_white_space(l) && all_ascii(l));
        let prev = merchant_scan_from(st, dl);
        assert forall|k: int| 0 <= k < merchant_scan_from(st, ws).0.len() implies name_word(
            #[trigger] merchant_scan_from(st, ws).0[k],
        ) by {
            if k < prev.0.len() {
                assert(merchant_scan_from(st, ws).0[k] == prev.0[k]);
            }
        }
    }
}

proof fn lemma_ascii_title_word_facts(w: Seq<char>)
    requires
        name_word(w),
    ensures
        name_word(ascii_title_word(w)),
        ascii_title_word(ascii_title_word(w)) == ascii_title_word(w),
{
    let t = ascii_title_word(w);
    lemma_ascii_case_char(w[0]);
    assert forall|k: int| 0 <= k < t.len() implies !is_white_space(#[trigger] t[k]) && is_ascii_char(t[k]) by {
        if k > 0 {
            assert(t[k] == ascii_lower_char(w[k]));
            assert(is_ascii_char(w[k]));
            assert(!is_white_space(w[k]));
            lemma_ascii_case_char(w[k]);
        }
    }
    let i = choose|i: int| 0 <= i < w.len() && !is_digit(#[trigger] w[i]);
    lemma_ascii_case_char(w[i]);
    if i > 0 {
        assert(t[i] == ascii_lower_char(w[i]));
    }
    assert(!is_digit(t[i]));
    let u = ascii_title_word(t);
    assert(t[0] == ascii_upper_char(w[0]));
    assert(t.drop_first() =~= ascii_lowercase(w.drop_first()));
    assert forall|k: int| 0 <= k < w.drop_first().len() implies ascii_lower_char(ascii_lower_char(
        #[trigger] w.drop_first()[k],
    )) == ascii_lower_char(w.drop_first()[k]) by {
        assert(is_ascii_char(w[k + 1]));
        lemma_ascii_case_char(w[k + 1]);
    }
    assert(ascii_lowercase(t.drop_first()) =~= t.drop_first());
    assert(u =~= t);
}

proof fn lemma_merchant_scan_keeps_names(ws: Seq<Seq<char>>)
    requires
        forall|k: int| 0 <= k < ws.len() ==> name_word(#[trigger] ws[k]),
    ensures
        merchant_scan_from((Seq::empty(), false), ws) == (ws, false),
    decreases ws.len(),
{
    if ws.len() > 0 {
        let dl = ws.drop_last();
        assert forall|k: int| 0 <= k < dl.len() implies name_word(#[trigger] dl[k]) by {
            assert(dl[k] == ws[k]);
        }
        lemma_merchant_scan_keeps_names(dl);
        assert(name_word(ws[ws.len() - 1]));
        assert(dl.push(ws.last()) =~= ws);
    }
}

/// On ASCII text the normalized merchant name is well formed: its words,
/// joined by single spaces, none made only of digits, each with its first
/// character upper-cased and the rest lower-cased. Normalizing it again gives
/// it back.
pub proof fn lemma_ascii_normalized_idempotent(raw: Seq<char>, s: Seq<char>)
    requires
        all_ascii(raw),
        ascii_normalized_merchant(raw) == Some(s),
    ensures
        all_ascii(s),
        words(s).len() > 0,
        s == join(words(s), space()),
        forall|i: int|
            0 <= i < words(s).len() ==> name_word(#[trigger] words(s)[i]) && ascii_title_word(words(s)[i])
                == words(s)[i],
        ascii_normalized_merchant(s) == Some(s),
{
    let t = trim(raw);
    lemma_trim_ascii(raw);
    lemma_words_proper(t);
    let k = merchant_words(words(t));
    lemma_merchant_scan_name_words((Seq::empty(), false), words(t));
    assert(proper_words(k)) by {
        assert forall|i: int| 0 <= i < k.len() implies (#[trigger] k[i]).len() > 0 && has_no_white_space(k[i]) by {
            assert(name_word(k[i]));
        }
    }
    lemma_words_join(k);
    assert(space() == seq![' ']);
    let tw = |w: Seq<char>| ascii_title_word(w);
    let tt = k.map_values(tw);
    assert(s == join(tt, space()));
    assert forall|i: int| 0 <= i < tt.len() implies name_word(#[trigger] tt[i]) && ascii_title_word(tt[i]) == tt[i] by {
        assert(name_word(k[i]));
        lemma_ascii_title_word_facts(k[i]);
    }
    assert(proper_words(tt)) by {
        assert forall|i: int| 0 <= i < tt.len() implies (#[trigger] tt[i]).len() > 0 && has_no_white_space(tt[i]) by {
            assert(name_word(tt[i]));
        }
    }
    lemma_words_join(tt);
    assert(all_ascii_words(tt)) by {
        assert forall|i: int| 0 <= i < tt.len() implies all_ascii(#[trigger] tt[i]) by {
            assert(name_word(tt[i]));
        }
    }
    assert(all_ascii(space())) by {
        assert(is_ascii_char(space()[0]));
    }
    lemma_join_ascii(tt, space());
    lemma_words_trim(s);
    lemma_merchant_scan_keeps_names(tt);
    assert(tt.map_values(tw) =~= tt);
}

fn title_word_chars(w: &[char]) -> (r: Vec<char>)
    ensures
        r@ == title_word(w@),
        all_ascii(w@) ==> r@ == ascii_title_word(w@),
{
    if w.len() == 0 {
        return Vec::new();
    }
    let first = char_to_uppercase(w[0]);
    let mut r = chars_of(first.as_str());
    let mut rest: Vec<char> = Vec::new();
    for i in 1..w.len()
        invariant
            1 <= w@.len(),
            rest@ == w@.subrange(1, i as int),
    {
        rest.push(w[i]);
        assert(w@.subrange(1, i + 1) =~= w@.subrange(1, i as int).push(w@[i as int]));
    }
    assert(rest@ =~= w@.drop_first());
    assert(all_ascii(w@) ==> all_ascii(rest@)) by {
        if all_ascii(w@) {
            assert forall|k: int| 0 <= k < rest@.len() implies is_ascii_char(#[trigger] rest@[k]) by {
                assert(rest@[k] == w@[k + 1]);
            }
        }
    }
    assert(all_ascii(w@) ==> is_ascii_char(w@[0]));
    let lowered = lowercase_chars(rest.as_slice());
    append_chars(&mut r, lowered.as_slice());
    r
}

fn space_chars() -> (r: Vec<char>)
    ensures
        r@ == space(),
{
    let mut r: Vec<char> = Vec::new();
    r.push(' ');
    assert(r@ =~= space());
    r
}

/// Title-cases every white-space separated word of `s` and joins them with
/// single spaces.
pub fn title_case(s: &[char]) -> (r: Vec<char>)
    ensures
        r@ == title_case_of(s@),
        all_ascii(s@) ==> r@ == ascii_title_case_of(s@),
{
    let ws = split_whitespace(s);
    proof {
        lemma_words_proper(s@);
    }
    let mut titled: Vec<Vec<char>> = Vec::new();
    for i in 0..ws.len()
        invariant
            views(ws@) == words(s@),
            all_ascii(s@) ==> all_ascii_words(words(s@)),
            views(titled@) == views(ws@).take(i as int).map_values(|w: Seq<char>| title_word(w)),
            all_ascii(s@) ==> views(titled@) == views(ws@).take(i as int).map_values(
                |w: Seq<char>| ascii_title_word(w),
            ),
    {
        assert(views(ws@)[i as int] == ws@[i as int]@);
        let t = title_word_chars(ws[i].as_slice());
        let ghost before = views(titled@);
        titled.push(t);
        assert(views(titled@) =~= before.push(t@));
        assert(views(ws@).take(i + 1).map_values(|w: Seq<char>| title_word(w)) =~= views(ws@).take(
            i as int,
        ).map_values(|w: Seq<char>| title_word(w)).push(title_word(ws@[i as int]@)));
        assert(views(ws@).take(i + 1).map_values(|w: Seq<char>| ascii_title_word(w)) =~= views(ws@).take(
            i as int,
        ).map_values(|w: Seq<char>| ascii_title_word(w)).push(ascii_title_word(ws@[i as int]@)));
    }
    assert(views(ws@).take(ws@.len() as int) =~= views(ws@));
    let sep = space_chars();
    join_words(&titled, sep.as_slice())
}

/// Keeps the words of the raw string up to the first store number or
/// reference code (a digit-only token) after a word, collapses white space
/// and title-cases what is kept: `TESCO STORES 2211 LONDON GB` becomes
/// `Tesco Stores`. A simple heuristic, not a claim of precision.
pub fn normalize_merchant(raw: &str) -> (r: Option<String>)
    ensures
        r matches Some(s) ==> normalized_merchant(raw@) == Some(s@),
        r is None ==> normalized_merchant(raw@) is None,
        all_ascii(raw@) ==> match r {
            Some(s) => ascii_normalized_merchant(raw@) == Some(s@),
            None => ascii_normalized_merchant(raw@) is None,
        },
{
    let chars = chars_of(raw);
    let trimmed = trim_chars(chars.as_slice());
    if trimmed.len() == 0 {
        return None;
    }
    let ws = split_whitespace(trimmed.as_slice());
    let mut kept: Vec<Vec<char>> = Vec::new();
    let mut ended = false;
    for i in 0..ws.len()
        invariant
            views(ws@) == words(trimmed@),
            views(kept@) == merchant_scan_from((Seq::empty(), false), views(ws@).take(i as int)).0,
            ended == merchant_scan_from((Seq::empty(), false), views(ws@).take(i as int)).1,
    {
        let ghost before = views(kept@);
        assert(views(ws@).take(i + 1).drop_last() =~= views(ws@).take(i as int));
        assert(views(ws@).take(i + 1).last() == ws@[i as int]@);
        if !ended {
            if is_all_digits(ws[i].as_slice()) {
                if kept.len() > 0 {
                    ended = true;
                }
            } else {
                let w = ws[i].clone();
                proof {
                    assert(w@ == ws@[i as int]@);
                }
                kept.push(w);
                assert(views(kept@) =~= before.push(ws@[i as int]@));
            }
        }
    }
    assert(views(ws@).take(ws@.len() as int) =~= views(ws@));
    if kept.len() == 0 {
        return None;
    }
    let sep = space_chars();
    let joined = join_words(&kept, sep.as_slice());
    proof {
        if all_ascii(raw@) {
            lemma_trim_ascii(raw@);
            lemma_words_proper(trimmed@);
            lemma_merchant_scan_name_words((Seq::empty(), false), words(trimmed@));
            let k = views(kept@);
            assert(all_ascii_words(k)) by {
                assert forall|i: int| 0 <= i < k.len() implies all_ascii(#[trigger] k[i]) by {
                    assert(name_word(k[i]));
                }
            }
            assert(all_ascii(space())) by {
                assert(is_ascii_char(space()[0]));
            }
            lemma_join_ascii(k, space());
        }
    }
    let titled = title_case(joined.as_slice());
    Some(string_of(titled.as_slice()))
}

// ---------------------------------------------------------------------------
// Taxonomy matching
// ---------------------------------------------------------------------------

/// One category of the starter taxonomy and the merchant/item patterns that
/// point to it.
#[derive(Debug)]
pub struct TaxonomyRule {
    pub category: String,
    pub patterns: Vec<String>,
}

pub open spec fn rule_view(r: TaxonomyRule) -> (Seq<char>, Seq<Seq<char>>) {
    (r.category@, r.patterns@.map_values(|p: String| p@))
}

/// Category rules in the order they were loaded.
pub struct Taxonomy {
    rules: Vec<TaxonomyRule>,
}

impl View for Taxonomy {
    /// Each rule as its category name and its patterns, in order.
    type V = Seq<(Seq<char>, Seq<Seq<char>>)>;

    closed spec fn view(&self) -> Self::V {
        self.rules@.map_values(|r: TaxonomyRule| rule_view(r))
    }
}

/// Patterns, rule by rule, as the matcher compares them: each passed through
/// the lower-case mapping.
pub open spec fn lowered_patterns(tax: Seq<(Seq<char>, Seq<Seq<char>>)>) -> Seq<Seq<Seq<char>>> {
    tax.map_values(|r: (Seq<char>, Seq<Seq<char>>)| r.1.map_values(|p: Seq<char>| str_lowercase(p)))
}

/// Every pattern of the taxonomy is ASCII text.
pub open spec fn patterns_ascii(tax: Seq<(Seq<char>, Seq<Seq<char>>)>) -> bool {
    forall|i: int, j: int| 0 <= i < tax.len() && 0 <= j < tax[i].1.len() ==> all_ascii(#[trigger] tax[i].1[j])
}

/// The patterns lower-cased by the ASCII mapping.
pub open spec fn ascii_lowered_patterns(tax: Seq<(Seq<char>, Seq<Seq<char>>)>) -> Seq<Seq<Seq<char>>> {
    tax.map_values(|r: (Seq<char>, Seq<Seq<char>>)| r.1.map_values(|p: Seq<char>| ascii_lowercase(p)))
}

pub open spec fn string_views(v: Seq<String>) -> Seq<Seq<char>> {
    v.map_values(|s: String| s@)
}

pub open spec fn nested_views(v: Seq<Vec<String>>) -> Seq<Seq<Seq<char>>> {
    v.map_values(|r: Vec<String>| string_views(r@))
}

/// `lp` has one pattern list per rule of `tax`, each as long as the rule's.
pub open spec fn same_shape(tax: Seq<(Seq<char>, Seq<Seq<char>>)>, lp: Seq<Seq<Seq<char>>>) -> bool {
    &&& lp.len() == tax.len()
    &&& forall|i: int| 0 <= i < lp.len() ==> (#[trigger] lp[i]).len() == tax[i].1.len()
}

/// Pattern `j` of rule `i` matches the text: it equals the text (`exact`) or
/// occurs in it (not `exact`).
pub open spec fn hit(lower: Seq<char>, lp: Seq<Seq<Seq<char>>>, exact: bool, i: int, j: int) -> bool {
    &&& 0 <= i < lp.len()
    &&& 0 <= j < lp[i].len()
    &&& if exact {
        lp[i][j] == lower
    } else {
        contains(lower, lp[i][j])
    }
}

/// Position `(a, b)` comes before `(i, j)` in rule-then-pattern order.
pub open spec fn earlier(a: int, b: int, i: int, j: int) -> bool {
    a < i || (a == i && b < j)
}

/// `(i, j)` is the first position, in rule-then-pattern order, that hits.
pub open spec fn first_hit(lower: Seq<char>, lp: Seq<Seq<Seq<char>>>, exact: bool, i: int, j: int) -> bool {
    &&& hit(lower, lp, exact, i, j)
    &&& forall|a: int, b: int| #[trigger] hit(lower, lp, exact, a, b) ==> !earlier(a, b, i, j)
}

pub open spec fn any_hit(lower: Seq<char>, lp: Seq<Seq<Seq<char>>>, exact: bool) -> bool {
    exists|i: int, j: int| #[trigger] hit(lower, lp, exact, i, j)
}

/// Confidence of an exact match: 0.9.
pub open spec fn exact_match_confidence() -> Decimal {
    Decimal { units: 9, scale: 1 }
}

/// Confidence of a substring match: 0.6.
pub open spec fn substring_match_confidence() -> Decimal {
    Decimal { units: 6, scale: 1 }
}

/// `s` names rule `i`'s category and its pattern `j`, with the confidence of
/// the kind of match.
pub open spec fn suggests(
    tax: Seq<(Seq<char>, Seq<Seq<char>>)>,
    s: CategorySuggestion,
    i: int,
    j: int,
    exact: bool,
) -> bool {
    &&& s.name@ == tax[i].0
    &&& s.matched_pattern@ == tax[i].1[j]
    &&& s.match_confidence == if exact {
        exact_match_confidence()
    } else {
        substring_match_confidence()
    }
}

/// The suggestion for a lower-cased text: the first rule pattern (in
/// rule-then-pattern order) equal to the text, else the first one that occurs
/// in it, else none.
pub open spec fn is_suggestion(
    tax: Seq<(Seq<char>, Seq<Seq<char>>)>,
    lower: Seq<char>,
    lp: Seq<Seq<Seq<char>>>,
    r: Option<CategorySuggestion>,
) -> bool {
    match r {
        Some(s) => exists|i: int, j: int|
            {
                ||| first_hit(lower, lp, true, i, j) && suggests(tax, s, i, j, true)
                ||| !any_hit(lower, lp, true) && first_hit(lower, lp, false, i, j) && suggests(
                    tax,
                    s,
                    i,
                    j,
                    false,
                )
            },
        None => !any_hit(lower, lp, true) && !any_hit(lower, lp, false),
    }
}

impl Taxonomy {
    pub fn new(rules: Vec<TaxonomyRule>) -> (t: Self)
        ensures
            t@ == rules@.map_values(|r: TaxonomyRule| rule_view(r)),
    {
        Taxonomy { rules }
    }

    /// A taxonomy with no rules: it suggests nothing.
    pub fn empty() -> (t: Self)
        ensures
            t@ == Seq::<(Seq<char>, Seq<Seq<char>>)>::empty(),
    {
        let t = Taxonomy { rules: Vec::new() };
        assert(t@ =~= Seq::<(Seq<char>, Seq<Seq<char>>)>::empty());
        t
    }

    /// The taxonomy to work with: the one loaded from the config, or an empty
    /// one (no suggestions) when no config was named or loading it failed.
    pub fn loaded_or_empty<E>(loaded: Option<Result<Taxonomy, E>>) -> (t: Self)
        ensures
            t@ == match loaded {
                Some(Ok(x)) => x@,
                _ => Seq::<(Seq<char>, Seq<Seq<char>>)>::empty(),
            },
    {
        match loaded {
            Some(Ok(x)) => x,
            _ => Taxonomy::empty(),
        }
    }

    proof fn lemma_view_index(&self, i: int)
        requires
            0 <= i < self.rules@.len(),
        ensures
            self@.len() == self.rules@.len(),
            self@[i] == rule_view(self.rules@[i]),
    {
    }

    /// First position where a pattern of `lowered` hits `lower`, in
    /// rule-then-pattern order.
    fn first_match(&self, lower: &String, lower_chars: &[char], lowered: &Vec<Vec<String>>, exact: bool) -> (r: Option<(usize, usize)>)
        requires
            lower_chars@ == lower@,
            same_shape(self@, nested_views(lowered@)),
        ensures
            match r {
                Some((i, j)) => first_hit(lower@, nested_views(lowered@), exact, i as int, j as int),
                None => !any_hit(lower@, nested_views(lowered@), exact),
            },
    {
        let ghost lp = nested_views(lowered@);
        for i in 0..lowered.len()
            invariant
                lp == nested_views(lowered@),
                lower_chars@ == lower@,
                forall|a: int, b: int| #[trigger] hit(lower@, lp, exact, a, b) ==> a >= i,
        {
            let row = &lowered[i];
            assert(lp[i as int] == string_views(row@));
            for j in 0..row.len()
                invariant
                    lp == nested_views(lowered@),
                    lower_chars@ == lower@,
                    0 <= i < lp.len(),
                    lp[i as int] == string_views(row@),
                    forall|a: int, b: int| #[trigger] hit(lower@, lp, exact, a, b) ==> a > i || (a
                        == i && b >= j),
            {
                let p = &row[j];
                assert(lp[i as int][j as int] == p@);
                let is_hit = if exact {
                    *lower == *p
                } else {
                    let pc = chars_of(p.as_str());
                    contains_chars(lower_chars, pc.as_slice())
                };
                if is_hit {
                    assert(hit(lower@, lp, exact, i as int, j as int));
                    return Some((i, j));
                }
                assert(!hit(lower@, lp, exact, i as int, j as int));
            }
        }
        None
    }

    fn suggestion_at(&self, i: usize, j: usize, exact: bool) -> (s: CategorySuggestion)
        requires
            0 <= i < self@.len(),
            0 <= j < self@[i as int].1.len(),
        ensures
            suggests(self@, s, i as int, j as int, exact),
    {
        proof {
            self.lemma_view_index(i as int);
        }
        let rule = &self.rules[i];
        let match_confidence = if exact {
            Decimal { units: 9, scale: 1 }
        } else {
            Decimal { units: 6, scale: 1 }
        };
        CategorySuggestion {
            name: rule.category.clone(),
            match_confidence,
            matched_pattern: rule.patterns[j].clone(),
        }
    }

    /// The suggestion for text already lower-cased to `lower`, given each
    /// pattern already lower-cased (`lowered[i][j]` for pattern `j` of rule
    /// `i`): exact matches take priority over substring matches, and earlier
    /// rules and patterns over later ones.
    pub fn suggest_lowered(&self, lower: &String, lowered: &Vec<Vec<String>>) -> (r: Option<CategorySuggestion>)
        requires
            same_shape(self@, nested_views(lowered@)),
        ensures
            is_suggestion(self@, lower@, nested_views(lowered@), r),
    {
        let lower_chars = chars_of(lower.as_str());
        let ghost lp = nested_views(lowered@);
        match self.first_match(lower, lower_chars.as_slice(), lowered, true) {
            Some((i, j)) => {
                assert(hit(lower@, lp, true, i as int, j as int));
                let s = self.suggestion_at(i, j, true);
                assert(first_hit(lower@, lp, true, i as int, j as int) && suggests(self@, s, i as int, j as int, true));
                Some(s)
            },
            None => match self.first_match(lower, lower_chars.as_slice(), lowered, false) {
                Some((i, j)) => {
                    assert(hit(lower@, lp, false, i as int, j as int));
                    let s = self.suggestion_at(i, j, false);
                    assert(first_hit(lower@, lp, false, i as int, j as int) && suggests(self@, s, i as int, j as int, false));
                    Some(s)
                },
                None => None,
            },
        }
    }

    /// Matches merchant/item text against the taxonomy, ignoring case.
    /// Advisory only: yields a suggestion, never a category.
    pub fn suggest(&self, text: &str) -> (r: Option<CategorySuggestion>)
        ensures
            is_suggestion(self@, str_lowercase(text@), lowered_patterns(self@), r),
            all_ascii(text@) ==> is_suggestion(self@, ascii_lowercase(text@), lowered_patterns(self@), r),
            all_ascii(text@) && patterns_ascii(self@) ==> is_suggestion(
                self@,
                ascii_lowercase(text@),
                ascii_lowered_patterns(self@),
                r,
            ),
    {
        let lower = to_lowercase(text);
        let mut lowered: Vec<Vec<String>> = Vec::new();
        for i in 0..self.rules.len()
            invariant
                nested_views(lowered@) == lowered_patterns(self@).take(i as int),
                self@.len() == self.rules@.len(),
                forall|k: int, m: int|
                    0 <= k < i && 0 <= m < self@[k].1.len() && all_ascii(self@[k].1[m]) ==> #[trigger] str_lowercase(
                        self@[k].1[m],
                    ) == ascii_lowercase(self@[k].1[m]),
        {
            proof {
                self.lemma_view_index(i as int);
            }
            let rule = &self.rules[i];
            let mut row: Vec<String> = Vec::new();
            for j in 0..rule.patterns.len()
                invariant
                    0 <= i < self@.len(),
                    self@[i as int] == rule_view(*rule),
                    string_views(row@) == self@[i as int].1.take(j as int).map_values(
                        |p: Seq<char>| str_lowercase(p),
                    ),
                    forall|k: int, m: int|
                        (0 <= k < i && 0 <= m < self@[k].1.len() || k == i && 0 <= m < j) && all_ascii(
                            self@[k].1[m],
                        ) ==> #[trigger] str_lowercase(self@[k].1[m]) == ascii_lowercase(self@[k].1[m]),
            {
                let l = to_lowercase(rule.patterns[j].as_str());
                let ghost before = string_views(row@);
                row.push(l);
                assert(string_views(row@) =~= before.push(l@));
                assert(self@[i as int].1.take(j + 1).map_values(|p: Seq<char>| str_lowercase(p))
                    =~= self@[i as int].1.take(j as int).map_values(|p: Seq<char>| str_lowercase(p)).push(
                    str_lowercase(rule.patterns@[j as int]@),
                ));
            }
            assert(self@[i as int].1.take(rule.patterns@.len() as int) =~= self@[i as int].1);
            let ghost before = nested_views(lowered@);
            lowered.push(row);
            assert(nested_views(lowered@) =~= before.push(string_views(row@)));
            assert(lowered_patterns(self@).take(i + 1) =~= lowered_patterns(self@).take(i as int).push(
                string_views(row@),
            ));
        }
        assert(lowered_patterns(self@).take(self@.len() as int) =~= lowered_patterns(self@));
        proof {
            if all_ascii(text@) && patterns_ascii(self@) {
                assert forall|k: int| 0 <= k < self@.len() implies lowered_patterns(self@)[k]
                    =~= ascii_lowered_patterns(self@)[k] by {
                    assert forall|m: int| 0 <= m < self@[k].1.len() implies lowered_patterns(self@)[k][m]
                        == ascii_lowered_patterns(self@)[k][m] by {
                        assert(all_ascii(self@[k].1[m]));
                        assert(str_lowercase(self@[k].1[m]) == ascii_lowercase(self@[k].1[m]));
                    }
                }
                assert(lowered_patterns(self@) =~= ascii_lowered_patterns(self@));
            }
        }
        self.suggest_lowered(&lower, &lowered)
    }
}


/// An exact match anywhere in the taxonomy takes priority over every
/// substring match: the suggestion is then an exact one.
pub proof fn lemma_exact_match_wins(
    tax: Seq<(Seq<char>, Seq<Seq<char>>)>,
    lower: Seq<char>,
    lp: Seq<Seq<Seq<char>>>,
    r: Option<CategorySuggestion>,
)
    requires
        is_suggestion(tax, lower, lp, r),
        any_hit(lower, lp, true),
    ensures
        r matches Some(s) && s.match_confidence == exact_match_confidence(),
{
    if r is None {
        let (i, j) = choose|i: int, j: int| #[trigger] hit(lower, lp, true, i, j);
        assert(lp[i][j] == lower);
        assert(occurs_at(lower, lp[i][j], 0)) by {
            assert(lower.subrange(0, lower.len() as int) =~= lower);
        }
        assert(hit(lower, lp, false, i, j));
    }
}

/// A suggestion is made exactly when some pattern occurs in the text, and
/// it always names a category and a pattern of the taxonomy.
pub proof fn lemma_suggestion_comes_from_taxonomy(
    tax: Seq<(Seq<char>, Seq<Seq<char>>)>,
    lower: Seq<char>,
    lp: Seq<Seq<Seq<char>>>,
    r: Option<CategorySuggestion>,
)
    requires
        same_shape(tax, lp),
        is_suggestion(tax, lower, lp, r),
    ensures
        r is Some <==> any_hit(lower, lp, false),
        r matches Some(s) ==> exists|i: int, j: int|
            0 <= i < tax.len() && 0 <= j < tax[i].1.len() && s.name@ == tax[i].0 && s.matched_pattern@
                == #[trigger] tax[i].1[j],
{
    if let Some(s) = r {
        let (i, j) = choose|i: int, j: int|
            {
                ||| first_hit(lower, lp, true, i, j) && suggests(tax, s, i, j, true)
                ||| !any_hit(lower, lp, true) && first_hit(lower, lp, false, i, j) && suggests(tax, s, i, j, false)
            };
        if first_hit(lower, lp, true, i, j) {
            assert(occurs_at(lower, lp[i][j], 0)) by {
                assert(lower.subrange(0, lower.len() as int) =~= lower);
            }
            assert(hit(lower, lp, false, i, j));
        } else {
            assert(hit(lower, lp, false, i, j));
        }
        assert(s.matched_pattern@ == tax[i].1[j]);
    }
}

/// A pattern that occurs anywhere in the text, as a run of consecutive
/// characters (at the start, in the middle, at the end, followed by anything),
/// always yields a suggestion. When no pattern equals the whole text, that
/// suggestion is a substring match of a pattern that occurs in the text and
/// comes no later, in rule-then-pattern order, than the one given.
pub proof fn lemma_occurring_pattern_suggests(
    tax: Seq<(Seq<char>, Seq<Seq<char>>)>,
    lower: Seq<char>,
    lp: Seq<Seq<Seq<char>>>,
    r: Option<CategorySuggestion>,
    i: int,
    j: int,
    k: int,
)
    requires
        same_shape(tax, lp),
        is_suggestion(tax, lower, lp, r),
        0 <= i < lp.len(),
        0 <= j < lp[i].len(),
        0 <= k,
        k + lp[i][j].len() <= lower.len(),
        lower.subrange(k, k + lp[i][j].len()) == lp[i][j],
    ensures
        r is Some,
        (forall|a: int, b: int| 0 <= a < lp.len() && 0 <= b < lp[a].len() ==> #[trigger] lp[a][b] != lower)
            ==> (r matches Some(s) && s.match_confidence == substring_match_confidence() && exists|a: int, b: int|
            {
                &&& 0 <= a < tax.len()
                &&& 0 <= b < tax[a].1.len()
                &&& (a < i || (a == i && b <= j))
                &&& s.name@ == tax[a].0
                &&& s.matched_pattern@ == #[trigger] tax[a].1[b]
                &&& exists|p: int| 0 <= p && p + lp[a][b].len() <= lower.len() && #[trigger] lower.subrange(
                    p,
                    p + lp[a][b].len(),
                ) == lp[a][b]
            }),
{
    assert(occurs_at(lower, lp[i][j], k));
    assert(hit(lower, lp, false, i, j));
    if (forall|a: int, b: int| 0 <= a < lp.len() && 0 <= b < lp[a].len() ==> #[trigger] lp[a][b] != lower) {
        assert(!any_hit(lower, lp, true)) by {
            if any_hit(lower, lp, true) {
                let (a, b) = choose|a: int, b: int| #[trigger] hit(lower, lp, true, a, b);
                assert(lp[a][b] == lower);
            }
        }
        let s = r.unwrap();
        let (a, b) = choose|a: int, b: int|
            {
                ||| first_hit(lower, lp, true, a, b) && suggests(tax, s, a, b, true)
                ||| !any_hit(lower, lp, true) && first_hit(lower, lp, false, a, b) && suggests(tax, s, a, b, false)
            };
        assert(!first_hit(lower, lp, true, a, b));
        assert(first_hit(lower, lp, false, a, b));
        assert(!earlier(i, j, a, b));
        let p = choose|p: int| occurs_at(lower, lp[a][b], p);
        assert(lower.subrange(p, p + lp[a][b].len()) == lp[a][b]);
    }
}

/// A taxonomy with no rules suggests nothing.
pub proof fn lemma_empty_taxonomy_suggests_nothing(lower: Seq<char>, r: Option<CategorySuggestion>)
    requires
        is_suggestion(Seq::empty(), lower, Seq::empty(), r),
    ensures
        r is None,
{
    if let Some(s) = r {
        let (i, j) = choose|i: int, j: int|
            {
                ||| first_hit(lower, Seq::empty(), true, i, j) && suggests(Seq::empty(), s, i, j, true)
                ||| !any_hit(lower, Seq::empty(), true) && first_hit(lower, Seq::empty(), false, i, j)
                    && suggests(Seq::empty(), s, i, j, false)
            };
        assert(false);
    }
}


/// Two suggestions that read the same: both none, or both naming the same
/// category and pattern with the same confidence.
pub open spec fn same_suggestion(a: Option<CategorySuggestion>, b: Option<CategorySuggestion>) -> bool {
    match (a, b) {
        (None, None) => true,
        (Some(x), Some(y)) => x.name@ == y.name@ && x.matched_pattern@ == y.matched_pattern@
            && x.match_confidence == y.match_confidence,
        _ => false,
    }
}

proof fn lemma_first_hit_unique(
    lower: Seq<char>,
    lp: Seq<Seq<Seq<char>>>,
    exact: bool,
    i: int,
    j: int,
    a: int,
    b: int,
)
    requires
        first_hit(lower, lp, exact, i, j),
        first_hit(lower, lp, exact, a, b),
    ensures
        i == a && j == b,
{
    assert(hit(lower, lp, exact, a, b));
    assert(hit(lower, lp, exact, i, j));
}

/// The suggestion for a lower-cased text is determined by the text and the
/// taxonomy.
pub proof fn lemma_suggestion_determined(
    tax: Seq<(Seq<char>, Seq<Seq<char>>)>,
    lower: Seq<char>,
    lp: Seq<Seq<Seq<char>>>,
    r1: Option<CategorySuggestion>,
    r2: Option<CategorySuggestion>,
)
    requires
        is_suggestion(tax, lower, lp, r1),
        is_suggestion(tax, lower, lp, r2),
    ensures
        same_suggestion(r1, r2),
{
    if let (Some(s1), Some(s2)) = (r1, r2) {
        let (i1, j1) = choose|i: int, j: int|
            {
                ||| first_hit(lower, lp, true, i, j) && suggests(tax, s1, i, j, true)
                ||| !any_hit(lower, lp, true) && first_hit(lower, lp, false, i, j) && suggests(tax, s1, i, j, false)
            };
        let (i2, j2) = choose|i: int, j: int|
            {
                ||| first_hit(lower, lp, true, i, j) && suggests(tax, s2, i, j, true)
                ||| !any_hit(lower, lp, true) && first_hit(lower, lp, false, i, j) && suggests(tax, s2, i, j, false)
            };
        if first_hit(lower, lp, true, i1, j1) && suggests(tax, s1, i1, j1, true) {
            assert(hit(lower, lp, true, i1, j1));
            assert(first_hit(lower, lp, true, i2, j2) && suggests(tax, s2, i2, j2, true));
            lemma_first_hit_unique(lower, lp, true, i1, j1, i2, j2);
        } else {
            if first_hit(lower, lp, true, i2, j2) && suggests(tax, s2, i2, j2, true) {
                assert(hit(lower, lp, true, i2, j2));
            }
            lemma_first_hit_unique(lower, lp, false, i1, j1, i2, j2);
        }
    } else if let (Some(s1), None) = (r1, r2) {
        let (i1, j1) = choose|i: int, j: int|
            {
                ||| first_hit(lower, lp, true, i, j) && suggests(tax, s1, i, j, true)
                ||| !any_hit(lower, lp, true) && first_hit(lower, lp, false, i, j) && suggests(tax, s1, i, j, false)
            };
        assert(hit(lower, lp, true, i1, j1) || hit(lower, lp, false, i1, j1));
    } else if let (None, Some(s2)) = (r1, r2) {
        let (i2, j2) = choose|i: int, j: int|
            {
                ||| first_hit(lower, lp, true, i, j) && suggests(tax, s2, i, j, true)
                ||| !any_hit(lower, lp, true) && first_hit(lower, lp, false, i, j) && suggests(tax, s2, i, j, false)
            };
        assert(hit(lower, lp, true, i2, j2) || hit(lower, lp, false, i2, j2));
    }
}

/// On ASCII text the taxonomy match ignores case: two texts that differ only
/// in the case of their letters get the same suggestion.
pub proof fn lemma_suggest_ignores_ascii_case(
    tax: Seq<(Seq<char>, Seq<Seq<char>>)>,
    lp: Seq<Seq<Seq<char>>>,
    t1: Seq<char>,
    t2: Seq<char>,
    r1: Option<CategorySuggestion>,
    r2: Option<CategorySuggestion>,
)
    requires
        all_ascii(t1),
        all_ascii(t2),
        ascii_lowercase(t1) == ascii_lowercase(t2),
        is_suggestion(tax, ascii_lowercase(t1), lp, r1),
        is_suggestion(tax, ascii_lowercase(t2), lp, r2),
    ensures
        same_suggestion(r1, r2),
{
    lemma_suggestion_determined(tax, ascii_lowercase(t1), lp, r1, r2);
}

} // verus!
