//! Character-level text primitives shared by the classifier, the taxonomy
//! matcher and the merchant normalizer. Text is handled as `Seq<char>` in
//! specifications and as `Vec<char>` in executable code.
use vstd::prelude::*;

verus! {

/// `String::push` appends one character.
pub assume_specification[ String::push ](s: &mut String, ch: char)
    ensures
        final(s)@ == old(s)@.push(ch),
;

/// `String::push_str` appends a string slice.
pub assume_specification[ String::push_str ](s: &mut String, string: &str)
    ensures
        final(s)@ == old(s)@ + string@,
;

// ---------------------------------------------------------------------------
// Character classes
// ---------------------------------------------------------------------------

/// The Unicode `White_Space` property, which is what `char::is_whitespace`,
/// `str::trim` and `str::split_whitespace` go by.
pub open spec fn is_white_space(c: char) -> bool {
    let u = c as u32;
    ||| 0x09 <= u <= 0x0d
    ||| u == 0x20
    ||| u == 0x85
    ||| u == 0xa0
    ||| u == 0x1680
    ||| 0x2000 <= u <= 0x200a
    ||| u == 0x2028
    ||| u == 0x2029
    ||| u == 0x202f
    ||| u == 0x205f
    ||| u == 0x3000
}

pub open spec fn is_digit(c: char) -> bool {
    '0' <= c <= '9'
}

pub fn is_whitespace(c: char) -> (b: bool)
    ensures
        b == is_white_space(c),
{
    let u = c as u32;
    (0x09 <= u && u <= 0x0d) || u == 0x20 || u == 0x85 || u == 0xa0 || u == 0x1680 || (0x2000 <= u
        && u <= 0x200a) || u == 0x2028 || u == 0x2029 || u == 0x202f || u == 0x205f || u == 0x3000
}

pub fn is_ascii_digit(c: char) -> (b: bool)
    ensures
        b == is_digit(c),
{
    '0' <= c && c <= '9'
}

/// Every character of `s` is an ASCII digit (true of the empty sequence).
pub open spec fn all_digits(s: Seq<char>) -> bool {
    forall|i: int| 0 <= i < s.len() ==> is_digit(#[trigger] s[i])
}

pub open spec fn has_no_white_space(s: Seq<char>) -> bool {
    forall|i: int| 0 <= i < s.len() ==> !is_white_space(#[trigger] s[i])
}

pub fn is_all_digits(s: &[char]) -> (b: bool)
    ensures
        b == all_digits(s@),
{
    for i in 0..s.len()
        invariant
            forall|k: int| 0 <= k < i ==> is_digit(#[trigger] s@[k]),
    {
        if !is_ascii_digit(s[i]) {
            return false;
        }
    }
    true
}

/// How many characters of `s` are not white space.
pub open spec fn non_white_count(s: Seq<char>) -> nat
    decreases s.len(),
{
    if s.len() == 0 {
        0
    } else {
        non_white_count(s.drop_last()) + if is_white_space(s.last()) {
            0nat
        } else {
            1nat
        }
    }
}

/// The count covers the whole text: the count of two texts one after the
/// other is the sum of their counts, and a single character counts 1 exactly
/// when it is not white space. So adding text never lowers the count, and
/// every line of a multi-line text counts.
pub proof fn lemma_non_white_count_adds_up(a: Seq<char>, b: Seq<char>, c: char)
    ensures
        non_white_count(a + b) == non_white_count(a) + non_white_count(b),
        non_white_count(seq![c]) == if is_white_space(c) {
            0nat
        } else {
            1nat
        },
    decreases b.len(),
{
    if b.len() == 0 {
        assert(a + b =~= a);
    } else {
        lemma_non_white_count_adds_up(a, b.drop_last(), c);
        assert((a + b).drop_last() =~= a + b.drop_last());
    }
    assert(seq![c].drop_last() =~= Seq::<char>::empty());
    assert(non_white_count(Seq::<char>::empty()) == 0);
}

pub fn count_non_white(s: &[char]) -> (n: usize)
    ensures
        n == non_white_count(s@),
{
    let mut n: usize = 0;
    for i in 0..s.len()
        invariant
            n == non_white_count(s@.take(i as int)),
            n <= i,
    {
        assert(s@.take(i + 1).drop_last() =~= s@.take(i as int));
        if !is_whitespace(s[i]) {
            n = n + 1;
        }
    }
    assert(s@.take(s@.len() as int) =~= s@);
    n
}

// ---------------------------------------------------------------------------
// Conversions between `str`, `String` and `Vec<char>`
// ---------------------------------------------------------------------------

pub fn chars_of(s: &str) -> (v: Vec<char>)
    ensures
        v@ == s@,
{
    let mut v: Vec<char> = Vec::new();
    for c in it: s.chars()
        invariant
            v@ == it.seq().take(it.index() as int),
    {
        v.push(c);
    }
    v
}

pub fn string_of(v: &[char]) -> (s: String)
    ensures
        s@ == v@,
{
    let mut s = String::new();
    for i in 0..v.len()
        invariant
            s@ == v@.take(i as int),
    {
        s.push(v[i]);
        assert(v@.take(i + 1) == v@.take(i as int).push(v@[i as int]));
    }
    assert(v@.take(v@.len() as int) == v@);
    s
}

// ---------------------------------------------------------------------------
// Trimming
// ---------------------------------------------------------------------------

pub open spec fn trim_start(s: Seq<char>) -> Seq<char>
    decreases s.len(),
{
    if s.len() > 0 && is_white_space(s[0]) {
        trim_start(s.drop_first())
    } else {
        s
    }
}

pub open spec fn trim_end(s: Seq<char>) -> Seq<char>
    decreases s.len(),
{
    if s.len() > 0 && is_white_space(s.last()) {
        trim_end(s.drop_last())
    } else {
        s
    }
}

/// What `str::trim` leaves: `s` without its leading and trailing white space.
pub open spec fn trim(s: Seq<char>) -> Seq<char> {
    trim_end(trim_start(s))
}

proof fn lemma_trim_start_skip(s: Seq<char>, i: int)
    requires
        0 <= i <= s.len(),
        forall|k: int| 0 <= k < i ==> is_white_space(#[trigger] s[k]),
    ensures
        trim_start(s) == trim_start(s.skip(i)),
    decreases i,
{
    if i > 0 {
        assert(is_white_space(s[0]));
        lemma_trim_start_skip(s.drop_first(), i - 1);
        assert(s.drop_first().skip(i - 1) =~= s.skip(i));
    } else {
        assert(s.skip(0) =~= s);
    }
}

proof fn lemma_trim_end_take(s: Seq<char>, j: int)
    requires
        0 <= j <= s.len(),
        forall|k: int| j <= k < s.len() ==> is_white_space(#[trigger] s[k]),
    ensures
        trim_end(s) == trim_end(s.take(j)),
    decreases s.len() - j,
{
    if j < s.len() {
        assert(is_white_space(s[s.len() - 1]));
        lemma_trim_end_take(s.drop_last(), j);
        assert(s.drop_last().take(j) =~= s.take(j));
    } else {
        assert(s.take(j) =~= s);
    }
}

pub fn trim_chars(s: &[char]) -> (t: Vec<char>)
    ensures
        t@ == trim(s@),
{
    let n = s.len();
    let mut start: usize = 0;
    while start < n && is_whitespace(s[start])
        invariant
            start <= n == s@.len(),
            forall|k: int| 0 <= k < start ==> is_white_space(#[trigger] s@[k]),
        decreases n - start,
    {
        start = start + 1;
    }
    proof {
        lemma_trim_start_skip(s@, start as int);
    }
    let ghost rest = s@.skip(start as int);
    assert(trim_start(rest) == rest);
    let mut end: usize = n;
    while end > start && is_whitespace(s[end - 1])
        invariant
            start <= end <= n == s@.len(),
            forall|k: int| end <= k < n ==> is_white_space(#[trigger] s@[k]),
        decreases end - start,
    {
        end = end - 1;
    }
    proof {
        lemma_trim_end_take(rest, end - start);
        assert(rest.take(end - start) =~= s@.subrange(start as int, end as int));
    }
    let mut t: Vec<char> = Vec::new();
    for i in start..end
        invariant
            start <= end <= s@.len(),
            t@ == s@.subrange(start as int, i as int),
    {
        t.push(s[i]);
        assert(s@.subrange(start as int, i + 1) =~= s@.subrange(start as int, i as int).push(s@[i as int]));
    }
    t
}

// ---------------------------------------------------------------------------
// Splitting on white space and joining
// ---------------------------------------------------------------------------

/// The views of a vector of character vectors.
pub open spec fn views(v: Seq<Vec<char>>) -> Seq<Seq<char>> {
    v.map_values(|w: Vec<char>| w@)
}

/// One step of a left-to-right scan that splits text on white space: the
/// words finished so far, and the word being read.
pub open spec fn scan_step(st: (Seq<Seq<char>>, Seq<char>), c: char) -> (Seq<Seq<char>>, Seq<char>) {
    if is_white_space(c) {
        if st.1.len() > 0 {
            (st.0.push(st.1), Seq::empty())
        } else {
            (st.0, Seq::empty())
        }
    } else {
        (st.0, st.1.push(c))
    }
}

pub open spec fn scan(s: Seq<char>) -> (Seq<Seq<char>>, Seq<char>)
    decreases s.len(),
{
    if s.len() == 0 {
        (Seq::empty(), Seq::empty())
    } else {
        scan_step(scan(s.drop_last()), s.last())
    }
}

/// What `str::split_whitespace` yields: the maximal runs of characters that
/// are not white space, in order.
pub open spec fn words(s: Seq<char>) -> Seq<Seq<char>> {
    let st = scan(s);
    if st.1.len() > 0 {
        st.0.push(st.1)
    } else {
        st.0
    }
}

/// The scan continued from state `st` over the characters of `b`.
pub open spec fn scan_from(st: (Seq<Seq<char>>, Seq<char>), b: Seq<char>) -> (Seq<Seq<char>>, Seq<char>)
    decreases b.len(),
{
    if b.len() == 0 {
        st
    } else {
        scan_step(scan_from(st, b.drop_last()), b.last())
    }
}

pub open spec fn all_white_space(s: Seq<char>) -> bool {
    forall|i: int| 0 <= i < s.len() ==> is_white_space(#[trigger] s[i])
}

proof fn lemma_scan_concat(a: Seq<char>, b: Seq<char>)
    ensures
        scan(a + b) == scan_from(scan(a), b),
    decreases b.len(),
{
    if b.len() == 0 {
        assert(a + b =~= a);
    } else {
        lemma_scan_concat(a, b.drop_last());
        assert((a + b).drop_last() =~= a + b.drop_last());
        assert((a + b).last() == b.last());
    }
}

proof fn lemma_scan_from_prefix(w: Seq<Seq<char>>, c: Seq<char>, b: Seq<char>)
    ensures
        scan_from((w, c), b).0 == w + scan_from((Seq::empty(), c), b).0,
        scan_from((w, c), b).1 == scan_from((Seq::empty(), c), b).1,
    decreases b.len(),
{
    if b.len() == 0 {
        assert(w + Seq::<Seq<char>>::empty() =~= w);
    } else {
        lemma_scan_from_prefix(w, c, b.drop_last());
        let x = scan_from((Seq::empty(), c), b.drop_last());
        assert((w + x.0).push(x.1) =~= w + x.0.push(x.1));
    }
}

proof fn lemma_scan_all_white(a: Seq<char>)
    requires
        all_white_space(a),
    ensures
        scan(a) == (Seq::<Seq<char>>::empty(), Seq::<char>::empty()),
    decreases a.len(),
{
    if a.len() > 0 {
        lemma_scan_all_white(a.drop_last());
    }
}

proof fn lemma_scan_from_white(w: Seq<Seq<char>>, c: Seq<char>, t: Seq<char>)
    requires
        t.len() > 0,
        all_white_space(t),
    ensures
        scan_from((w, c), t) == (
            if c.len() > 0 {
                w.push(c)
            } else {
                w
            },
            Seq::<char>::empty(),
        ),
    decreases t.len(),
{
    assert(is_white_space(t[t.len() - 1]));
    if t.len() > 1 {
        lemma_scan_from_white(w, c, t.drop_last());
        assert forall|i: int| 0 <= i < t.drop_last().len() implies is_white_space(#[trigger] t.drop_last()[i]) by {
            assert(t.drop_last()[i] == t[i]);
        }
    } else {
        assert(scan_from((w, c), t.drop_last()) == (w, c));
    }
}

proof fn lemma_scan_word(d: Seq<char>)
    requires
        has_no_white_space(d),
    ensures
        scan(d) == (Seq::<Seq<char>>::empty(), d),
    decreases d.len(),
{
    if d.len() == 0 {
        assert(d =~= Seq::<char>::empty());
    } else {
        lemma_scan_word(d.drop_last());
        assert(d.drop_last().push(d.last()) =~= d);
    }
}

/// A word without white space splits into itself alone.
pub proof fn lemma_words_of_word(d: Seq<char>)
    requires
        d.len() > 0,
        has_no_white_space(d),
    ensures
        words(d) == seq![d],
{
    lemma_scan_word(d);
    assert(Seq::<Seq<char>>::empty().push(d) =~= seq![d]);
}

/// White space after the text adds no word.
pub proof fn lemma_words_trailing_white(s: Seq<char>, t: Seq<char>)
    requires
        all_white_space(t),
    ensures
        words(s + t) == words(s),
{
    if t.len() == 0 {
        assert(s + t =~= s);
    } else {
        lemma_scan_concat(s, t);
        lemma_scan_from_white(scan(s).0, scan(s).1, t);
    }
}

/// White space before the text adds no word.
pub proof fn lemma_words_leading_white(a: Seq<char>, s: Seq<char>)
    requires
        all_white_space(a),
    ensures
        words(a + s) == words(s),
{
    lemma_scan_concat(a, s);
    lemma_scan_all_white(a);
    lemma_scan_concat(Seq::empty(), s);
    assert(Seq::<char>::empty() + s =~= s);
}

/// A run of white space separates the words on either side of it.
pub proof fn lemma_words_split(a: Seq<char>, gap: Seq<char>, b: Seq<char>)
    requires
        gap.len() > 0,
        all_white_space(gap),
    ensures
        words(a + gap + b) == words(a) + words(b),
{
    lemma_scan_concat(a + gap, b);
    lemma_scan_concat(a, gap);
    lemma_scan_from_white(scan(a).0, scan(a).1, gap);
    let w = words(a);
    assert(scan(a + gap) == (w, Seq::<char>::empty()));
    lemma_scan_from_prefix(w, Seq::empty(), b);
    lemma_scan_concat(Seq::empty(), b);
    assert(Seq::<char>::empty() + b =~= b);
    let x = scan(b);
    assert(scan(a + gap + b) == (w + x.0, x.1));
    if x.1.len() > 0 {
        assert((w + x.0).push(x.1) =~= w + x.0.push(x.1));
    }
}

/// Text whose split yields no word is all white space.
pub proof fn lemma_no_words_all_white(s: Seq<char>)
    requires
        words(s).len() == 0,
    ensures
        all_white_space(s),
    decreases s.len(),
{
    if s.len() > 0 {
        let st = scan(s.drop_last());
        assert(is_white_space(s.last()));
        assert(st.1.len() == 0 && st.0.len() == 0);
        lemma_no_words_all_white(s.drop_last());
        assert forall|i: int| 0 <= i < s.len() implies is_white_space(#[trigger] s[i]) by {
            if i < s.len() - 1 {
                assert(s[i] == s.drop_last()[i]);
            }
        }
    }
}

proof fn lemma_trim_start_shape(s: Seq<char>) -> (k: int)
    ensures
        0 <= k <= s.len(),
        trim_start(s) == s.skip(k),
        all_white_space(s.take(k)),
        trim_start(s).len() > 0 ==> !is_white_space(trim_start(s)[0]),
    decreases s.len(),
{
    if s.len() > 0 && is_white_space(s[0]) {
        let k = lemma_trim_start_shape(s.drop_first());
        assert(s.drop_first().skip(k) =~= s.skip(k + 1));
        assert forall|i: int| 0 <= i < k + 1 implies is_white_space(#[trigger] s.take(k + 1)[i]) by {
            if i > 0 {
                assert(s.take(k + 1)[i] == s.drop_first().take(k)[i - 1]);
            }
        }
        k + 1
    } else {
        assert(s.skip(0) =~= s);
        0
    }
}

proof fn lemma_trim_end_shape(s: Seq<char>) -> (j: int)
    ensures
        0 <= j <= s.len(),
        trim_end(s) == s.take(j),
        all_white_space(s.skip(j)),
        trim_end(s).len() > 0 ==> !is_white_space(trim_end(s).last()),
    decreases s.len(),
{
    if s.len() > 0 && is_white_space(s.last()) {
        let j = lemma_trim_end_shape(s.drop_last());
        assert(s.drop_last().take(j) =~= s.take(j));
        assert forall|i: int| 0 <= i < s.len() - j implies is_white_space(#[trigger] s.skip(j)[i]) by {
            if j + i < s.len() - 1 {
                assert(s.skip(j)[i] == s.drop_last().skip(j)[i]);
            }
        }
        j
    } else {
        assert(s.take(s.len() as int) =~= s);
        s.len() as int
    }
}

/// Trimming does not change the words of a text; it leaves nothing exactly
/// when the text has no word.
pub proof fn lemma_words_trim(s: Seq<char>)
    ensures
        words(trim(s)) == words(s),
        trim(s).len() == 0 <==> words(s).len() == 0,
{
    let k = lemma_trim_start_shape(s);
    let u = trim_start(s);
    let j = lemma_trim_end_shape(u);
    assert(s =~= s.take(k) + (u.take(j) + u.skip(j)));
    assert(s.take(k) + (u.take(j) + u.skip(j)) =~= (s.take(k) + u.take(j)) + u.skip(j));
    lemma_words_trailing_white(s.take(k) + u.take(j), u.skip(j));
    lemma_words_leading_white(s.take(k), u.take(j));
    if trim(s).len() > 0 {
        if words(trim(s)).len() == 0 {
            lemma_no_words_all_white(trim(s));
            assert(is_white_space(trim(s)[trim(s).len() - 1]));
        }
    }
}

/// Words as a split on white space yields them: none empty, none holding
/// white space.
pub open spec fn proper_words(ws: Seq<Seq<char>>) -> bool {
    forall|i: int| 0 <= i < ws.len() ==> (#[trigger] ws[i]).len() > 0 && has_no_white_space(ws[i])
}

pub open spec fn all_ascii_words(ws: Seq<Seq<char>>) -> bool {
    forall|i: int| 0 <= i < ws.len() ==> all_ascii(#[trigger] ws[i])
}

proof fn lemma_scan_props(s: Seq<char>)
    ensures
        proper_words(scan(s).0),
        has_no_white_space(scan(s).1),
        all_ascii(s) ==> all_ascii_words(scan(s).0) && all_ascii(scan(s).1),
    decreases s.len(),
{
    if s.len() > 0 {
        lemma_scan_props(s.drop_last());
        if all_ascii(s) {
            assert forall|i: int| 0 <= i < s.drop_last().len() implies is_ascii_char(#[trigger] s.drop_last()[i]) by {
                assert(s.drop_last()[i] == s[i]);
            }
            assert(is_ascii_char(s[s.len() - 1]));
        }
    }
}

/// The words of a text are non-empty and hold no white space; those of ASCII
/// text are ASCII.
pub proof fn lemma_words_proper(s: Seq<char>)
    ensures
        proper_words(words(s)),
        all_ascii(s) ==> all_ascii_words(words(s)),
{
    lemma_scan_props(s);
}

/// Trimming ASCII text leaves ASCII text.
pub proof fn lemma_trim_ascii(s: Seq<char>)
    requires
        all_ascii(s),
    ensures
        all_ascii(trim(s)),
{
    let k = lemma_trim_start_shape(s);
    let u = trim_start(s);
    let j = lemma_trim_end_shape(u);
    assert forall|i: int| 0 <= i < trim(s).len() implies is_ascii_char(#[trigger] trim(s)[i]) by {
        assert(trim(s)[i] == s[k + i]);
    }
}

/// Joining ASCII words with an ASCII separator gives ASCII text.
pub proof fn lemma_join_ascii(ws: Seq<Seq<char>>, sep: Seq<char>)
    requires
        all_ascii_words(ws),
        all_ascii(sep),
    ensures
        all_ascii(join(ws, sep)),
    decreases ws.len(),
{
    if ws.len() == 1 {
        assert(all_ascii(ws[0]));
    } else if ws.len() > 1 {
        lemma_join_ascii(ws.drop_last(), sep);
        let a = join(ws.drop_last(), sep);
        let l = ws.last();
        assert(all_ascii(l));
        assert forall|i: int| 0 <= i < (a + sep + l).len() implies is_ascii_char(#[trigger] (a + sep + l)[i]) by {
            if i < a.len() {
                assert((a + sep + l)[i] == a[i]);
            } else if i < a.len() + sep.len() {
                assert((a + sep + l)[i] == sep[i - a.len()]);
            } else {
                assert((a + sep + l)[i] == l[i - a.len() - sep.len()]);
            }
        }
    }
}

/// Splitting words joined by single spaces gives the words back.
pub proof fn lemma_words_join(ws: Seq<Seq<char>>)
    requires
        proper_words(ws),
    ensures
        words(join(ws, seq![' '])) == ws,
    decreases ws.len(),
{
    if ws.len() == 0 {
        assert(words(Seq::<char>::empty()) =~= ws);
    } else if ws.len() == 1 {
        assert(ws[0].len() > 0);
        lemma_words_of_word(ws[0]);
        assert(seq![ws[0]] =~= ws);
    } else {
        let dl = ws.drop_last();
        assert forall|i: int| 0 <= i < dl.len() implies (#[trigger] dl[i]).len() > 0 && has_no_white_space(dl[i]) by {
            assert(dl[i] == ws[i]);
        }
        lemma_words_join(dl);
        assert(ws[ws.len() - 1].len() > 0);
        lemma_words_of_word(ws.last());
        assert(is_white_space(seq![' '][0]));
        lemma_words_split(join(dl, seq![' ']), seq![' '], ws.last());
        assert(dl + seq![ws.last()] =~= ws);
    }
}

pub fn split_whitespace(s: &[char]) -> (ws: Vec<Vec<char>>)
    ensures
        views(ws@) == words(s@),
{
    let mut done: Vec<Vec<char>> = Vec::new();
    let mut cur: Vec<char> = Vec::new();
    for i in 0..s.len()
        invariant
            views(done@) == scan(s@.take(i as int)).0,
            cur@ == scan(s@.take(i as int)).1,
    {
        let c = s[i];
        assert(s@.take(i + 1).drop_last() =~= s@.take(i as int));
        if is_whitespace(c) {
            if cur.len() > 0 {
                let ghost before = views(done@);
                done.push(cur);
                assert(views(done@) =~= before.push(scan(s@.take(i as int)).1));
            }
            cur = Vec::new();
        } else {
            cur.push(c);
        }
    }
    assert(s@.take(s@.len() as int) =~= s@);
    if cur.len() > 0 {
        let ghost before = views(done@);
        done.push(cur);
        assert(views(done@) =~= before.push(scan(s@).1));
    }
    done
}

/// Words joined with a separator between consecutive ones.
pub open spec fn join(ws: Seq<Seq<char>>, sep: Seq<char>) -> Seq<char>
    decreases ws.len(),
{
    if ws.len() == 0 {
        Seq::empty()
    } else if ws.len() == 1 {
        ws[0]
    } else {
        join(ws.drop_last(), sep) + sep + ws.last()
    }
}

pub fn join_words(ws: &Vec<Vec<char>>, sep: &[char]) -> (r: Vec<char>)
    ensures
        r@ == join(views(ws@), sep@),
{
    let mut r: Vec<char> = Vec::new();
    for i in 0..ws.len()
        invariant
            r@ == join(views(ws@).take(i as int), sep@),
    {
        assert(views(ws@).take(i + 1).drop_last() =~= views(ws@).take(i as int));
        if i > 0 {
            append_chars(&mut r, sep);
        }
        append_chars(&mut r, ws[i].as_slice());
        assert(views(ws@).take(i + 1).last() == ws@[i as int]@);
        assert(i == 0 ==> r@ =~= join(views(ws@).take(i + 1), sep@));
    }
    assert(views(ws@).take(ws@.len() as int) =~= views(ws@));
    r
}

pub fn append_chars(r: &mut Vec<char>, s: &[char])
    ensures
        final(r)@ == old(r)@ + s@,
{
    for i in 0..s.len()
        invariant
            r@ == old(r)@ + s@.take(i as int),
    {
        r.push(s[i]);
        assert(s@.take(i + 1) =~= s@.take(i as int).push(s@[i as int]));
        assert(old(r)@ + s@.take(i + 1) =~= (old(r)@ + s@.take(i as int)).push(s@[i as int]));
    }
    assert(s@.take(s@.len() as int) =~= s@);
}

// ---------------------------------------------------------------------------
// Substring search
// ---------------------------------------------------------------------------

/// `needle` occurs in `s` starting at position `i`.
pub open spec fn occurs_at(s: Seq<char>, needle: Seq<char>, i: int) -> bool {
    0 <= i && i + needle.len() <= s.len() && s.subrange(i, i + needle.len()) == needle
}

/// What `str::contains` with a string pattern answers.
pub open spec fn contains(s: Seq<char>, needle: Seq<char>) -> bool {
    exists|i: int| occurs_at(s, needle, i)
}

fn matches_at(s: &[char], needle: &[char], i: usize) -> (b: bool)
    requires
        i + needle@.len() <= s@.len(),
    ensures
        b == occurs_at(s@, needle@, i as int),
{
    let n = s.len();
    for k in 0..needle.len()
        invariant
            n == s@.len(),
            i + needle@.len() <= s@.len(),
            forall|m: int| 0 <= m < k ==> s@[i + m] == #[trigger] needle@[m],
    {
        assert(k < needle@.len());
        if s[i + k] != needle[k] {
            assert(s@.subrange(i as int, i + needle@.len())[k as int] != needle@[k as int]);
            return false;
        }
    }
    assert(s@.subrange(i as int, i + needle@.len()) =~= needle@);
    true
}

pub fn contains_chars(s: &[char], needle: &[char]) -> (b: bool)
    ensures
        b == contains(s@, needle@),
{
    if needle.len() > s.len() {
        return false;
    }
    let last = s.len() - needle.len();
    let mut i: usize = 0;
    loop
        invariant
            i <= last,
            last + needle@.len() == s@.len(),
            forall|k: int| 0 <= k < i ==> !#[trigger] occurs_at(s@, needle@, k),
        decreases last - i,
    {
        if matches_at(s, needle, i) {
            return true;
        }
        if i == last {
            assert forall|k: int| !#[trigger] occurs_at(s@, needle@, k) by {
                if 0 <= k < i {
                }
            }
            return false;
        }
        i = i + 1;
    }
}

// ---------------------------------------------------------------------------
// Quoting by doubling a character
// ---------------------------------------------------------------------------

/// `s` with every occurrence of `q` written twice, as SQL does for `'` inside a
/// literal and CSV does for `"` inside a quoted field.
pub open spec fn double_char(s: Seq<char>, q: char) -> Seq<char>
    decreases s.len(),
{
    if s.len() == 0 {
        Seq::empty()
    } else {
        double_char(s.drop_last(), q) + if s.last() == q {
            seq![q, q]
        } else {
            seq![s.last()]
        }
    }
}

/// Doubling works character by character: the doubled form of two texts one
/// after the other is their doubled forms one after the other, and a single
/// character is doubled exactly when it is `q`, every other one kept as it is.
pub proof fn lemma_double_char_by_chars(a: Seq<char>, b: Seq<char>, q: char, c: char)
    ensures
        double_char(a + b, q) == double_char(a, q) + double_char(b, q),
        double_char(seq![c], q) == if c == q {
            seq![q, q]
        } else {
            seq![c]
        },
    decreases b.len(),
{
    if b.len() == 0 {
        assert(a + b =~= a);
        assert(double_char(a, q) + double_char(b, q) =~= double_char(a, q));
    } else {
        lemma_double_char_by_chars(a, b.drop_last(), q, c);
        assert((a + b).drop_last() =~= a + b.drop_last());
        assert((a + b).last() == b.last());
        let tail = if b.last() == q {
            seq![q, q]
        } else {
            seq![b.last()]
        };
        assert(double_char(a, q) + double_char(b.drop_last(), q) + tail =~= double_char(a, q) + (double_char(
            b.drop_last(),
            q,
        ) + tail));
    }
    assert(seq![c].drop_last() =~= Seq::<char>::empty());
    assert(double_char(Seq::<char>::empty(), q) =~= Seq::<char>::empty());
    assert(Seq::<char>::empty() + seq![q, q] =~= seq![q, q]);
    assert(Seq::<char>::empty() + seq![c] =~= seq![c]);
}

pub fn double_char_in(s: &[char], q: char) -> (r: Vec<char>)
    ensures
        r@ == double_char(s@, q),
{
    let mut r: Vec<char> = Vec::new();
    for i in 0..s.len()
        invariant
            r@ == double_char(s@.take(i as int), q),
    {
        assert(s@.take(i + 1).drop_last() =~= s@.take(i as int));
        let c = s[i];
        if c == q {
            r.push(q);
            r.push(q);
        } else {
            r.push(c);
        }
        assert(r@ =~= double_char(s@.take(i + 1), q));
    }
    assert(s@.take(s@.len() as int) =~= s@);
    r
}

// ---------------------------------------------------------------------------
// Numbers as text
// ---------------------------------------------------------------------------

pub open spec fn digit_char(d: nat) -> char {
    ((d + 48) as u32) as char
}

/// The decimal numeral of `n`, as `Display` writes an unsigned integer.
pub open spec fn decimal(n: nat) -> Seq<char>
    decreases n,
{
    if n < 10 {
        seq![digit_char(n)]
    } else {
        decimal(n / 10).push(digit_char(n % 10))
    }
}

fn digit(d: u64) -> (c: char)
    requires
        d < 10,
    ensures
        c == digit_char(d as nat),
{
    if d == 0 { '0' }
    else if d == 1 { '1' }
    else if d == 2 { '2' }
    else if d == 3 { '3' }
    else if d == 4 { '4' }
    else if d == 5 { '5' }
    else if d == 6 { '6' }
    else if d == 7 { '7' }
    else if d == 8 { '8' }
    else { '9' }
}

/// The number that a numeral of ASCII digits reads as.
pub open spec fn numeral_value(s: Seq<char>) -> int
    decreases s.len(),
{
    if s.len() == 0 {
        0
    } else {
        numeral_value(s.drop_last()) * 10 + ((s.last() as u32) as int - 48)
    }
}

/// The decimal numeral of `n` reads back as `n`: it is made of the digits
/// `0`-`9` only, and has no leading zero unless it is `0` itself.
pub proof fn lemma_decimal_reads_back(n: nat)
    ensures
        numeral_value(decimal(n)) == n,
        decimal(n).len() > 0,
        forall|i: int| 0 <= i < decimal(n).len() ==> '0' <= #[trigger] decimal(n)[i] && decimal(n)[i] <= '9',
        n > 0 ==> decimal(n)[0] != '0',
    decreases n,
{
    if n < 10 {
        assert(decimal(n) =~= seq![digit_char(n)]);
        assert(seq![digit_char(n)].drop_last() =~= Seq::<char>::empty());
        assert(numeral_value(Seq::<char>::empty()) == 0);
        assert(digit_char(n) as u32 == n + 48);
    } else {
        lemma_decimal_reads_back(n / 10);
        let d = decimal(n);
        assert(d.drop_last() =~= decimal(n / 10));
        assert(d.last() == digit_char(n % 10));
        assert(digit_char(n % 10) as u32 == n % 10 + 48);
        assert(numeral_value(d) == (n / 10) * 10 + n % 10);
        assert forall|i: int| 0 <= i < d.len() implies '0' <= #[trigger] d[i] && d[i] <= '9' by {
            if i < d.len() - 1 {
                assert(d[i] == decimal(n / 10)[i]);
            }
        }
        assert(d[0] == decimal(n / 10)[0]);
    }
}

pub fn decimal_chars(n: u64) -> (r: Vec<char>)
    ensures
        r@ == decimal(n as nat),
    decreases n,
{
    if n < 10 {
        let mut r: Vec<char> = Vec::new();
        r.push(digit(n));
        assert(r@ =~= decimal(n as nat));
        r
    } else {
        let mut r = decimal_chars(n / 10);
        r.push(digit(n % 10));
        r
    }
}

/// Lower-case hexadecimal digit for a nibble.
pub open spec fn hex_char(d: nat) -> char {
    if d < 10 {
        digit_char(d)
    } else {
        ((d + 87) as u32) as char
    }
}

/// Two lower-case hexadecimal digits per byte, as `{:x}` writes a digest.
pub open spec fn hex_lower(bytes: Seq<u8>) -> Seq<char>
    decreases bytes.len(),
{
    if bytes.len() == 0 {
        Seq::empty()
    } else {
        hex_lower(bytes.drop_last()) + seq![
            hex_char((bytes.last() / 16) as nat),
            hex_char((bytes.last() % 16) as nat),
        ]
    }
}

/// The value of a lower-case hexadecimal digit.
pub open spec fn hex_digit_value(c: char) -> int {
    if (c as u32) <= 57 {
        (c as u32) as int - 48
    } else {
        (c as u32) as int - 87
    }
}

/// The hex text reads back as the bytes: two digits per byte, the first for
/// its high four bits and the second for its low four.
pub proof fn lemma_hex_lower_reads_back(bytes: Seq<u8>)
    ensures
        hex_lower(bytes).len() == 2 * bytes.len(),
        forall|i: int|
            0 <= i < bytes.len() ==> hex_digit_value(hex_lower(bytes)[2 * i]) * 16 + hex_digit_value(
                hex_lower(bytes)[2 * i + 1],
            ) == #[trigger] bytes[i] as int,
    decreases bytes.len(),
{
    if bytes.len() > 0 {
        let prev = bytes.drop_last();
        lemma_hex_lower_reads_back(prev);
        let h = hex_lower(bytes);
        let x = bytes.last();
        let hi = (x / 16) as nat;
        let lo = (x % 16) as nat;
        assert(hex_digit_value(hex_char(hi)) == hi);
        assert(hex_digit_value(hex_char(lo)) == lo);
        assert forall|i: int| 0 <= i < bytes.len() implies hex_digit_value(h[2 * i]) * 16 + hex_digit_value(
            h[2 * i + 1],
        ) == #[trigger] bytes[i] as int by {
            if i < prev.len() {
                assert(h[2 * i] == hex_lower(prev)[2 * i]);
                assert(h[2 * i + 1] == hex_lower(prev)[2 * i + 1]);
                assert(bytes[i] == prev[i]);
            } else {
                assert(h[2 * i] == hex_char(hi));
                assert(h[2 * i + 1] == hex_char(lo));
                assert(hi * 16 + lo == x as int);
            }
        }
    }
}

/// A lower-case hexadecimal digit: `0`-`9` or `a`-`f`.
pub open spec fn is_lower_hex_digit(c: char) -> bool {
    (48 <= (c as u32) && (c as u32) <= 57) || (97 <= (c as u32) && (c as u32) <= 102)
}

/// Every character of `hex_lower(bytes)` is a lower-case hexadecimal digit.
pub proof fn lemma_hex_lower_digits(bytes: Seq<u8>)
    ensures
        forall|i: int| 0 <= i < hex_lower(bytes).len() ==> is_lower_hex_digit(#[trigger] hex_lower(bytes)[i]),
    decreases bytes.len(),
{
    if bytes.len() > 0 {
        lemma_hex_lower_digits(bytes.drop_last());
        let hi = (bytes.last() / 16) as nat;
        let lo = (bytes.last() % 16) as nat;
        assert(is_lower_hex_digit(hex_char(hi)));
        assert(is_lower_hex_digit(hex_char(lo)));
        let h = hex_lower(bytes);
        assert forall|i: int| 0 <= i < h.len() implies is_lower_hex_digit(#[trigger] h[i]) by {
            if i < hex_lower(bytes.drop_last()).len() {
                assert(h[i] == hex_lower(bytes.drop_last())[i]);
            }
        }
    }
}

fn hex_digit(d: u8) -> (c: char)
    requires
        d < 16,
    ensures
        c == hex_char(d as nat),
{
    if d < 10 {
        digit(d as u64)
    } else if d == 10 { 'a' }
    else if d == 11 { 'b' }
    else if d == 12 { 'c' }
    else if d == 13 { 'd' }
    else if d == 14 { 'e' }
    else { 'f' }
}

pub fn hex_lower_chars(bytes: &[u8]) -> (r: Vec<char>)
    ensures
        r@ == hex_lower(bytes@),
        r@.len() == 2 * bytes@.len(),
{
    let mut r: Vec<char> = Vec::new();
    for i in 0..bytes.len()
        invariant
            r@ == hex_lower(bytes@.take(i as int)),
            r@.len() == 2 * i,
    {
        assert(bytes@.take(i + 1).drop_last() =~= bytes@.take(i as int));
        let b = bytes[i];
        r.push(hex_digit(b / 16));
        r.push(hex_digit(b % 16));
        assert(r@ =~= hex_lower(bytes@.take(i + 1)));
    }
    assert(bytes@.take(bytes@.len() as int) =~= bytes@);
    r
}

// ---------------------------------------------------------------------------
// Unicode case mapping (std)
// ---------------------------------------------------------------------------

/// Name for what `str::to_lowercase` returns for a string with these
/// characters: the full Unicode lower-case mapping, including the context
/// rule for a final capital sigma. Fixed by the Unicode tables built into std.
pub uninterp spec fn str_lowercase(s: Seq<char>) -> Seq<char>;

/// Name for the characters that `char::to_uppercase` yields for `c`: its full
/// Unicode upper-case mapping (one to three characters).
pub uninterp spec fn char_uppercase(c: char) -> Seq<char>;

/// ASCII text: every character below U+0080.
pub open spec fn is_ascii_char(c: char) -> bool {
    (c as u32) < 128
}

pub open spec fn all_ascii(s: Seq<char>) -> bool {
    forall|i: int| 0 <= i < s.len() ==> is_ascii_char(#[trigger] s[i])
}

pub open spec fn ascii_lower_char(c: char) -> char {
    if 'A' <= c <= 'Z' {
        ((c as u32) + 32) as char
    } else {
        c
    }
}

pub open spec fn ascii_upper_char(c: char) -> char {
    if 'a' <= c <= 'z' {
        ((c as u32) - 32) as char
    } else {
        c
    }
}

/// `s` with `A`..`Z` mapped to `a`..`z` and every other character kept.
pub open spec fn ascii_lowercase(s: Seq<char>) -> Seq<char> {
    s.map_values(|c: char| ascii_lower_char(c))
}

/// Calls `str::to_lowercase`. Claims that the result is what the name
/// `str_lowercase` gives for the characters of `s`, and, for ASCII text,
/// that it maps `A`..`Z` to `a`..`z` and keeps every other character: the
/// Unicode lower-case mapping of an ASCII character is its ASCII one (std's
/// implementation maps an ASCII run with `u8::to_ascii_lowercase`).
#[verifier::external_body]
pub(crate) fn to_lowercase(s: &str) -> (r: String)
    ensures
        r@ == str_lowercase(s@),
        all_ascii(s@) ==> r@ == ascii_lowercase(s@),
{
    s.to_lowercase()
}

/// Calls `char::to_uppercase` and collects the characters it yields into a
/// `String`. Claims that they are what the name `char_uppercase` gives, and,
/// for an ASCII character, that they are the single character its ASCII
/// upper-case mapping gives (`a`..`z` to `A`..`Z`, any other kept): the
/// Unicode upper-case mapping of an ASCII character is its ASCII one.
#[verifier::external_body]
pub(crate) fn char_to_uppercase(c: char) -> (r: String)
    ensures
        r@ == char_uppercase(c),
        is_ascii_char(c) ==> r@ == seq![ascii_upper_char(c)],
{
    c.to_uppercase().collect::<String>()
}

pub fn lowercase_chars(s: &[char]) -> (r: Vec<char>)
    ensures
        r@ == str_lowercase(s@),
        all_ascii(s@) ==> r@ == ascii_lowercase(s@),
{
    let st = string_of(s);
    let lowered = to_lowercase(st.as_str());
    chars_of(lowered.as_str())
}

} // verus!
