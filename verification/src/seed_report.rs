//! Seed report: aggregating the merchants found across many converted
//! documents into a ranked list for human review, and rendering it as CSV or
//! as SQL seed rows.
use vstd::multiset::Multiset;
use vstd::prelude::*;

use crate::schema::{CategorySuggestion, DocumentData, GroceryItem, Transaction};
use crate::text::{append_chars, chars_of, decimal, decimal_chars, double_char, double_char_in, string_of};

verus! {

/// One merchant of the report.
#[derive(Debug)]
pub struct MerchantEntry {
    pub merchant: String,
    pub occurrences: u32,
    pub example_raw_text: Vec<String>,
    pub suggested_category: Option<CategorySuggestion>,
}

/// A merchant entry as a value: name, occurrences, example raw lines, and
/// the suggestion seen with its first occurrence.
pub type EntryView = (Seq<char>, nat, Seq<Seq<char>>, Option<CategorySuggestion>);

/// One sighting of a merchant: its name, the raw line it came from, and the
/// line's category suggestion.
pub type Sighting = (Seq<char>, Seq<char>, Option<CategorySuggestion>);

/// At most this many example lines are kept per merchant.
pub const MAX_EXAMPLES: usize = 3;

pub open spec fn entry_view(e: MerchantEntry) -> EntryView {
    (e.merchant@, e.occurrences as nat, e.example_raw_text@.map_values(|s: String| s@), e.suggested_category)
}

pub open spec fn entry_views(v: Seq<MerchantEntry>) -> Seq<EntryView> {
    v.map_values(|e: MerchantEntry| entry_view(e))
}

pub open spec fn has_merchant(t: Seq<EntryView>, m: Seq<char>) -> bool {
    exists|i: int| 0 <= i < t.len() && #[trigger] t[i].0 == m
}

pub open spec fn merchant_index(t: Seq<EntryView>, m: Seq<char>) -> int {
    choose|i: int| 0 <= i < t.len() && #[trigger] t[i].0 == m
}

/// How often `m` has been seen so far.
pub open spec fn occurrences_of(t: Seq<EntryView>, m: Seq<char>) -> nat {
    if has_merchant(t, m) {
        t[merchant_index(t, m)].1
    } else {
        0
    }
}

pub open spec fn distinct_merchants(t: Seq<EntryView>) -> bool {
    forall|i: int, j: int| 0 <= i < t.len() && 0 <= j < t.len() && i != j ==> #[trigger] t[i].0 != #[trigger] t[j].0
}

pub open spec fn bumped(e: EntryView, raw: Seq<char>) -> EntryView {
    (
        e.0,
        e.1 + 1,
        if e.2.len() < MAX_EXAMPLES {
            e.2.push(raw)
        } else {
            e.2
        },
        e.3,
    )
}

/// The tally after one more sighting: the merchant's entry counts it and
/// keeps its raw line while fewer than three are kept; a merchant not seen
/// before gets a new entry, at the end, with this sighting's suggestion.
pub open spec fn recorded(t: Seq<EntryView>, s: Sighting) -> Seq<EntryView> {
    if has_merchant(t, s.0) {
        t.update(merchant_index(t, s.0), bumped(t[merchant_index(t, s.0)], s.1))
    } else {
        t.push((s.0, 1, seq![s.1], s.2))
    }
}

/// The tally after the sightings, in order.
pub open spec fn recorded_all(t: Seq<EntryView>, sightings: Seq<Sighting>) -> Seq<EntryView>
    decreases sightings.len(),
{
    if sightings.len() == 0 {
        t
    } else {
        recorded(recorded_all(t, sightings.drop_last()), sightings.last())
    }
}

/// Every entry has been seen at least once and keeps the raw lines of its
/// first sightings, up to three.
pub open spec fn entries_well_formed(t: Seq<EntryView>) -> bool {
    forall|i: int| 0 <= i < t.len() ==> (#[trigger] t[i]).1 >= 1 && t[i].2.len() == min_examples(t[i].1)
}

/// Recording a sighting keeps every entry seen at least once with
/// min(count, 3) examples, and counts the sighting on its merchant's entry.
pub proof fn lemma_recorded_entries_well_formed(t: Seq<EntryView>, s: Sighting)
    requires
        distinct_merchants(t),
        entries_well_formed(t),
    ensures
        distinct_merchants(recorded(t, s)),
        entries_well_formed(recorded(t, s)),
        occurrences_of(recorded(t, s), s.0) == occurrences_of(t, s.0) + 1,
{
    lemma_recorded_distinct(t, s);
    lemma_occurrences_recorded(t, s, s.0);
}

/// Merchants seen so far, each once, in order of first sighting.
pub struct MerchantTally {
    entries: Vec<MerchantEntry>,
}

impl View for MerchantTally {
    type V = Seq<EntryView>;

    closed spec fn view(&self) -> Seq<EntryView> {
        entry_views(self.entries@)
    }
}

impl MerchantTally {
    /// No merchant appears twice, each has been seen at least once, and
    /// each keeps as many examples as it was seen, up to three.
    pub open spec fn wf(&self) -> bool {
        &&& distinct_merchants(self@)
        &&& entries_well_formed(self@)
    }

    pub fn new() -> (t: Self)
        ensures
            t.wf(),
            t@ == Seq::<EntryView>::empty(),
    {
        let t = MerchantTally { entries: Vec::new() };
        assert(t@ =~= Seq::<EntryView>::empty());
        t
    }

    fn find(&self, merchant: &str) -> (r: Option<usize>)
        ensures
            match r {
                Some(i) => 0 <= i < self@.len() && self@[i as int].0 == merchant@,
                None => !has_merchant(self@, merchant@),
            },
    {
        let wanted = merchant.to_string();
        for i in 0..self.entries.len()
            invariant
                wanted@ == merchant@,
                self@.len() == self.entries@.len(),
                forall|k: int| 0 <= k < i ==> #[trigger] self@[k].0 != merchant@,
        {
            assert(self@[i as int] == entry_view(self.entries@[i as int]));
            if self.entries[i].merchant == wanted {
                return Some(i);
            }
        }
        None
    }

    /// Counts one sighting of `merchant`, found on the line `raw_text`.
    pub fn record(&mut self, merchant: &str, raw_text: &str, suggestion: &Option<CategorySuggestion>)
        requires
            old(self).wf(),
            occurrences_of(old(self)@, merchant@) < u32::MAX,
        ensures
            final(self).wf(),
            final(self)@ == recorded(old(self)@, (merchant@, raw_text@, *suggestion)),
    {
        let ghost t = self@;
        match self.find(merchant) {
            Some(i) => {
                assert(merchant_index(t, merchant@) == i) by {
                    let k = merchant_index(t, merchant@);
                    assert(t[k].0 == merchant@);
                }
                assert(self@[i as int] == entry_view(self.entries@[i as int]));
                let mut entry = self.entries.remove(i);
                entry.occurrences = entry.occurrences + 1;
                if entry.example_raw_text.len() < MAX_EXAMPLES {
                    let ghost before = entry.example_raw_text@.map_values(|s: String| s@);
                    entry.example_raw_text.push(raw_text.to_string());
                    assert(entry.example_raw_text@.map_values(|s: String| s@) =~= before.push(raw_text@));
                }
                self.entries.insert(i, entry);
                assert(self@ =~= recorded(t, (merchant@, raw_text@, *suggestion)));
            },
            None => {
                let mut examples: Vec<String> = Vec::new();
                examples.push(raw_text.to_string());
                let entry = MerchantEntry {
                    merchant: merchant.to_string(),
                    occurrences: 1,
                    example_raw_text: examples,
                    suggested_category: suggestion.clone(),
                };
                assert(entry.example_raw_text@.map_values(|s: String| s@) =~= seq![raw_text@]);
                self.entries.push(entry);
                assert(self@ =~= recorded(t, (merchant@, raw_text@, *suggestion)));
            },
        }
    }
}

// ---------------------------------------------------------------------------
// What a tally holds
// ---------------------------------------------------------------------------

/// The sightings of merchant `m`, in order.
pub open spec fn sightings_of(ss: Seq<Sighting>, m: Seq<char>) -> Seq<Sighting> {
    ss.filter(sighting_of(m))
}

pub open spec fn sighting_of(m: Seq<char>) -> spec_fn(Sighting) -> bool {
    |s: Sighting| s.0 == m
}

pub open spec fn raw_lines(ss: Seq<Sighting>) -> Seq<Seq<char>> {
    ss.map_values(|s: Sighting| s.1)
}

pub open spec fn min_examples(n: nat) -> int {
    if n < MAX_EXAMPLES {
        n as int
    } else {
        MAX_EXAMPLES as int
    }
}

/// The entry that the sightings `ss` make for merchant `m`: one count per
/// sighting, the raw lines of the first three, and the suggestion that came
/// with the first.
pub open spec fn entry_for(ss: Seq<Sighting>, m: Seq<char>) -> EntryView {
    let mine = sightings_of(ss, m);
    (m, mine.len(), raw_lines(mine).take(min_examples(mine.len())), mine[0].2)
}

proof fn lemma_recorded_distinct(t: Seq<EntryView>, s: Sighting)
    requires
        distinct_merchants(t),
    ensures
        distinct_merchants(recorded(t, s)),
        forall|m: Seq<char>| m != s.0 ==> (has_merchant(recorded(t, s), m) <==> has_merchant(t, m)),
        forall|m: Seq<char>|
            m != s.0 && has_merchant(t, m) ==> recorded(t, s)[merchant_index(recorded(t, s), m)]
                == t[merchant_index(t, m)],
        has_merchant(recorded(t, s), s.0),
{
    let r = recorded(t, s);
    if has_merchant(t, s.0) {
        let i = merchant_index(t, s.0);
        assert forall|a: int, b: int| 0 <= a < r.len() && 0 <= b < r.len() && a != b implies #[trigger] r[a].0
            != #[trigger] r[b].0 by {
            assert(r[a].0 == t[a].0);
            assert(r[b].0 == t[b].0);
        }
        assert(r[i].0 == s.0);
    } else {
        assert forall|a: int, b: int| 0 <= a < r.len() && 0 <= b < r.len() && a != b implies #[trigger] r[a].0
            != #[trigger] r[b].0 by {
            if a < t.len() && b < t.len() {
                assert(r[a] == t[a] && r[b] == t[b]);
            } else if a < t.len() {
                assert(r[a] == t[a]);
                assert(t[a].0 != s.0);
            } else {
                assert(r[b] == t[b]);
                assert(t[b].0 != s.0);
            }
        }
        assert(r[t.len() as int].0 == s.0);
    }
    assert forall|m: Seq<char>| m != s.0 implies (has_merchant(r, m) <==> has_merchant(t, m)) by {
        if has_merchant(t, m) {
            let k = merchant_index(t, m);
            assert(r[k].0 == m);
        }
        if has_merchant(r, m) {
            let k = merchant_index(r, m);
            assert(t[k].0 == m);
        }
    }
    assert forall|m: Seq<char>| m != s.0 && has_merchant(t, m) implies r[merchant_index(r, m)] == t[merchant_index(
        t,
        m,
    )] by {
        let k = merchant_index(t, m);
        assert(r[k].0 == m);
        let k2 = merchant_index(r, m);
        assert(k2 == k);
    }
}

/// What the tally holds after a run of sightings: each merchant that was
/// sighted appears exactly once, with as many occurrences as sightings, the
/// raw lines of its first three sightings in order, and the suggestion of
/// its first sighting; no other merchant appears.
pub proof fn lemma_tally_of_sightings(ss: Seq<Sighting>, m: Seq<char>)
    ensures
        distinct_merchants(recorded_all(Seq::empty(), ss)),
        has_merchant(recorded_all(Seq::empty(), ss), m) <==> sightings_of(ss, m).len() > 0,
        has_merchant(recorded_all(Seq::empty(), ss), m) ==> recorded_all(Seq::empty(), ss)[merchant_index(
            recorded_all(Seq::empty(), ss),
            m,
        )] == entry_for(ss, m),
    decreases ss.len(),
{
    let t = recorded_all(Seq::empty(), ss);
    if ss.len() == 0 {
        reveal(Seq::filter);
        assert(sightings_of(ss, m).len() == 0);
    } else {
        let prev = ss.drop_last();
        let last = ss.last();
        let t0 = recorded_all(Seq::empty(), prev);
        lemma_tally_of_sightings(prev, m);
        lemma_recorded_distinct(t0, last);
        assert(prev.push(last) =~= ss);
        prev.lemma_filter_push(last, sighting_of(m));
        let before = sightings_of(prev, m);
        if last.0 == m {
            assert(sightings_of(ss, m) == before.push(last));
            assert(raw_lines(before.push(last)) =~= raw_lines(before).push(last.1));
            if has_merchant(t0, m) {
                let i = merchant_index(t0, m);
                let k = merchant_index(t, m);
                assert(t[i].0 == m);
                assert(k == i);
                assert(before.push(last)[0] == before[0]);
                if before.len() < MAX_EXAMPLES {
                    assert(raw_lines(before).take(min_examples(before.len())) =~= raw_lines(before));
                    assert(raw_lines(before).push(last.1).take(min_examples(before.len() + 1)) =~= raw_lines(before).push(last.1));
                } else {
                    assert(raw_lines(before).push(last.1).take(MAX_EXAMPLES as int) =~= raw_lines(before).take(MAX_EXAMPLES as int));
                }
            } else {
                assert(before.len() == 0);
                let k = merchant_index(t, m);
                assert(t[t0.len() as int].0 == m);
                assert(k == t0.len());
                assert(before =~= Seq::<Sighting>::empty());
                assert(raw_lines(before.push(last)).take(1) =~= seq![last.1]);
            }
        } else {
            assert(sightings_of(ss, m) == before);
        }
    }
}

// ---------------------------------------------------------------------------
// Collecting merchants from a converted document
// ---------------------------------------------------------------------------

pub open spec fn transaction_sightings(ts: Seq<Transaction>) -> Seq<Sighting>
    decreases ts.len(),
{
    if ts.len() == 0 {
        Seq::empty()
    } else {
        transaction_sightings(ts.drop_last()) + match ts.last().merchant {
            Some(m) => seq![(m@, ts.last().raw_text@, ts.last().category_suggestion)],
            None => Seq::empty(),
        }
    }
}

pub open spec fn item_sighting(merchant: Seq<char>, item: GroceryItem) -> Sighting {
    (merchant, item.raw_text@, item.category_suggestion)
}

/// The merchant sightings in a document: each bank transaction with a
/// merchant, or each item of a grocery bill under the bill's merchant (none
/// when the bill names no merchant).
pub open spec fn sightings(data: DocumentData) -> Seq<Sighting> {
    match data {
        DocumentData::BankStatement(bank) => transaction_sightings(bank.transactions@),
        DocumentData::GroceryBill(bill) => match bill.merchant.name {
            Some(name) => bill.items@.map_values(|item: GroceryItem| item_sighting(name@, item)),
            None => Seq::empty(),
        },
    }
}

/// How many of the sightings are of merchant `m`.
pub open spec fn count_for(ss: Seq<Sighting>, m: Seq<char>) -> nat
    decreases ss.len(),
{
    if ss.len() == 0 {
        0
    } else {
        count_for(ss.drop_last(), m) + if ss.last().0 == m {
            1nat
        } else {
            0nat
        }
    }
}

/// Recording the sightings `ss` keeps every merchant's count within `u32`.
pub open spec fn fits(t: Seq<EntryView>, ss: Seq<Sighting>) -> bool {
    forall|m: Seq<char>| #![trigger count_for(ss, m)] occurrences_of(t, m) + count_for(ss, m) <= u32::MAX
}

proof fn lemma_count_concat(a: Seq<Sighting>, b: Seq<Sighting>, m: Seq<char>)
    ensures
        count_for(a + b, m) == count_for(a, m) + count_for(b, m),
    decreases b.len(),
{
    if b.len() == 0 {
        assert(a + b =~= a);
    } else {
        lemma_count_concat(a, b.drop_last(), m);
        assert((a + b).drop_last() =~= a + b.drop_last());
    }
}

proof fn lemma_occurrences_recorded(t: Seq<EntryView>, s: Sighting, m: Seq<char>)
    requires
        distinct_merchants(t),
    ensures
        occurrences_of(recorded(t, s), m) == occurrences_of(t, m) + if m == s.0 {
            1nat
        } else {
            0nat
        },
{
    lemma_recorded_distinct(t, s);
    let r = recorded(t, s);
    if m == s.0 {
        let k = merchant_index(r, m);
        if has_merchant(t, m) {
            let i = merchant_index(t, m);
            assert(r[i].0 == m);
            assert(k == i);
        } else {
            assert(r[t.len() as int].0 == m);
            assert(k == t.len());
        }
    }
}

proof fn lemma_recorded_fits(t: Seq<EntryView>, s: Sighting, rest: Seq<Sighting>)
    requires
        distinct_merchants(t),
        fits(t, seq![s] + rest),
    ensures
        fits(recorded(t, s), rest),
        occurrences_of(t, s.0) < u32::MAX,
{
    let one = seq![s];
    assert(one.drop_last() =~= Seq::<Sighting>::empty());
    assert(count_for(one.drop_last(), s.0) == 0);
    assert(one.last() == s);
    assert(count_for(one, s.0) == 1);
    lemma_count_concat(seq![s], rest, s.0);
    assert(occurrences_of(t, s.0) + count_for(seq![s] + rest, s.0) <= u32::MAX);
    assert forall|m: Seq<char>| #![trigger count_for(rest, m)]
        occurrences_of(recorded(t, s), m) + count_for(rest, m) <= u32::MAX by {
        lemma_occurrences_recorded(t, s, m);
        lemma_count_concat(seq![s], rest, m);
        assert(seq![s].drop_last() =~= Seq::<Sighting>::empty());
        assert(seq![s].last() == s);
        assert(occurrences_of(t, m) + count_for(seq![s] + rest, m) <= u32::MAX);
    }
}

proof fn lemma_transaction_sightings_concat(a: Seq<Transaction>, b: Seq<Transaction>)
    ensures
        transaction_sightings(a + b) == transaction_sightings(a) + transaction_sightings(b),
    decreases b.len(),
{
    if b.len() == 0 {
        assert(a + b =~= a);
        assert(transaction_sightings(a) + Seq::<Sighting>::empty() =~= transaction_sightings(a));
    } else {
        lemma_transaction_sightings_concat(a, b.drop_last());
        assert((a + b).drop_last() =~= a + b.drop_last());
        assert((a + b).last() == b.last());
        let tail = match b.last().merchant {
            Some(m) => seq![(m@, b.last().raw_text@, b.last().category_suggestion)],
            None => Seq::<Sighting>::empty(),
        };
        assert(transaction_sightings(a) + transaction_sightings(b.drop_last()) + tail
            =~= transaction_sightings(a) + (transaction_sightings(b.drop_last()) + tail));
    }
}

/// Whether a transaction names merchant `m`.
pub open spec fn names_merchant(m: Seq<char>) -> spec_fn(Transaction) -> bool {
    |tx: Transaction| tx.merchant is Some && tx.merchant.unwrap()@ == m
}

proof fn lemma_recorded_all_counts(t: Seq<EntryView>, ss: Seq<Sighting>, m: Seq<char>)
    requires
        distinct_merchants(t),
    ensures
        distinct_merchants(recorded_all(t, ss)),
        occurrences_of(recorded_all(t, ss), m) == occurrences_of(t, m) + count_for(ss, m),
    decreases ss.len(),
{
    if ss.len() > 0 {
        lemma_recorded_all_counts(t, ss.drop_last(), m);
        let prev = recorded_all(t, ss.drop_last());
        lemma_recorded_distinct(prev, ss.last());
        lemma_occurrences_recorded(prev, ss.last(), m);
    }
}

proof fn lemma_transaction_count(ts: Seq<Transaction>, m: Seq<char>)
    ensures
        count_for(transaction_sightings(ts), m) == ts.filter(names_merchant(m)).len(),
    decreases ts.len(),
{
    reveal(Seq::filter);
    if ts.len() > 0 {
        lemma_transaction_count(ts.drop_last(), m);
        let tx = ts.last();
        let tail = match tx.merchant {
            Some(x) => seq![(x@, tx.raw_text@, tx.category_suggestion)],
            None => Seq::<Sighting>::empty(),
        };
        lemma_count_concat(transaction_sightings(ts.drop_last()), tail, m);
        assert(tail.len() > 0 ==> tail.drop_last() =~= Seq::<Sighting>::empty());
        assert(count_for(Seq::<Sighting>::empty(), m) == 0);
    }
}

proof fn lemma_count_one_merchant(ss: Seq<Sighting>, n: Seq<char>, m: Seq<char>)
    requires
        forall|i: int| 0 <= i < ss.len() ==> (#[trigger] ss[i]).0 == n,
    ensures
        count_for(ss, m) == if n == m {
            ss.len()
        } else {
            0
        },
    decreases ss.len(),
{
    if ss.len() > 0 {
        lemma_count_one_merchant(ss.drop_last(), n, m);
        assert(ss.last() == ss[ss.len() - 1]);
    }
}

/// Collecting a document counts every sighting of a merchant, whatever
/// category suggestion came with it: a bank statement adds one occurrence of
/// `m` for each transaction that names `m`; a grocery bill adds one for each
/// of its items when the bill's merchant is `m`, and none otherwise.
pub proof fn lemma_collect_counts_every_sighting(t: Seq<EntryView>, data: DocumentData, m: Seq<char>)
    requires
        distinct_merchants(t),
    ensures
        occurrences_of(recorded_all(t, sightings(data)), m) == occurrences_of(t, m) + match data {
            DocumentData::BankStatement(bank) => bank.transactions@.filter(names_merchant(m)).len(),
            DocumentData::GroceryBill(bill) => if bill.merchant.name is Some && bill.merchant.name.unwrap()@
                == m {
                bill.items@.len()
            } else {
                0
            },
        },
{
    lemma_recorded_all_counts(t, sightings(data), m);
    match data {
        DocumentData::BankStatement(bank) => {
            lemma_transaction_count(bank.transactions@, m);
        },
        DocumentData::GroceryBill(bill) => {
            if let Some(name) = bill.merchant.name {
                lemma_count_one_merchant(sightings(data), name@, m);
            } else {
                assert(count_for(Seq::<Sighting>::empty(), m) == 0);
            }
        },
    }
}

impl MerchantTally {
    /// Records every merchant sighting of a converted document.
    pub fn collect(&mut self, data: &DocumentData)
        requires
            old(self).wf(),
            fits(old(self)@, sightings(*data)),
        ensures
            final(self).wf(),
            final(self)@ == recorded_all(old(self)@, sightings(*data)),
    {
        let ghost all = sightings(*data);
        match data {
            DocumentData::BankStatement(bank) => {
                let ts = &bank.transactions;
                assert(ts@.skip(0) =~= ts@);
                for i in 0..ts.len()
                    invariant
                        all == transaction_sightings(ts@),
                        self.wf(),
                        self@ == recorded_all(old(self)@, transaction_sightings(ts@.take(i as int))),
                        fits(self@, transaction_sightings(ts@.skip(i as int))),
                {
                    assert(ts@.take(i + 1).drop_last() =~= ts@.take(i as int));
                    assert(ts@.skip(i as int) =~= ts@.subrange(i as int, i + 1) + ts@.skip(i + 1));
                    proof {
                        lemma_transaction_sightings_concat(ts@.subrange(i as int, i + 1), ts@.skip(i + 1));
                        let one = ts@.subrange(i as int, i + 1);
                        assert(one.drop_last() =~= Seq::<Transaction>::empty());
                        assert(one.last() == ts@[i as int]);
                        assert(transaction_sightings(one.drop_last()) == Seq::<Sighting>::empty());
                    }
                    let t = &ts[i];
                    match &t.merchant {
                        Some(merchant) => {
                            let ghost s = (merchant@, t.raw_text@, t.category_suggestion);
                            assert(transaction_sightings(ts@.subrange(i as int, i + 1)) =~= seq![s]);
                            assert(transaction_sightings(ts@.take(i + 1)) =~= transaction_sightings(ts@.take(i as int)).push(s));
                            proof {
                                lemma_recorded_fits(self@, s, transaction_sightings(ts@.skip(i + 1)));
                            }
                            self.record(merchant.as_str(), t.raw_text.as_str(), &t.category_suggestion);
                            assert(transaction_sightings(ts@.take(i + 1)).drop_last() =~= transaction_sightings(ts@.take(i as int)));
                        },
                        None => {
                            assert(transaction_sightings(ts@.subrange(i as int, i + 1)) =~= Seq::<Sighting>::empty());
                            assert(transaction_sightings(ts@.skip(i as int)) =~= transaction_sightings(ts@.skip(i + 1)));
                            assert(transaction_sightings(ts@.take(i + 1)) =~= transaction_sightings(ts@.take(i as int)));
                        },
                    }
                }
                assert(ts@.take(ts@.len() as int) =~= ts@);
            },
            DocumentData::GroceryBill(bill) => {
                match &bill.merchant.name {
                    None => {
                        assert(all =~= Seq::<Sighting>::empty());
                    },
                    Some(name) => {
                        let items = &bill.items;
                        let ghost f = |item: GroceryItem| item_sighting(name@, item);
                        assert(items@.map_values(f).skip(0) =~= items@.map_values(f));
                        for i in 0..items.len()
                            invariant
                                all == items@.map_values(f),
                                f == (|item: GroceryItem| item_sighting(name@, item)),
                                self.wf(),
                                self@ == recorded_all(old(self)@, items@.take(i as int).map_values(f)),
                                fits(self@, items@.map_values(f).skip(i as int)),
                        {
                            let item = &items[i];
                            let ghost s = item_sighting(name@, *item);
                            assert(items@.take(i + 1).map_values(f) =~= items@.take(i as int).map_values(f).push(s));
                            assert(items@.take(i + 1).map_values(f).drop_last() =~= items@.take(i as int).map_values(f));
                            assert(items@.map_values(f).skip(i as int) =~= seq![s] + items@.map_values(f).skip(i + 1));
                            proof {
                                lemma_recorded_fits(self@, s, items@.map_values(f).skip(i + 1));
                            }
                            self.record(name.as_str(), item.raw_text.as_str(), &item.category_suggestion);
                        }
                        assert(items@.take(items@.len() as int) =~= items@);
                    },
                }
            },
        }
    }
}

/// The merchant name of every sighting, in order.
pub open spec fn sighting_merchants(ss: Seq<Sighting>) -> Seq<Seq<char>> {
    ss.map_values(|s: Sighting| s.0)
}

pub open spec fn count_name(names: Seq<Seq<char>>, m: Seq<char>) -> nat
    decreases names.len(),
{
    if names.len() == 0 {
        0
    } else {
        count_name(names.drop_last(), m) + if names.last() == m {
            1nat
        } else {
            0nat
        }
    }
}

proof fn lemma_count_by_name(ss: Seq<Sighting>, m: Seq<char>)
    ensures
        count_for(ss, m) == count_name(sighting_merchants(ss), m),
    decreases ss.len(),
{
    if ss.len() > 0 {
        lemma_count_by_name(ss.drop_last(), m);
        assert(sighting_merchants(ss).drop_last() =~= sighting_merchants(ss.drop_last()));
    }
}

proof fn lemma_count_name_positive(names: Seq<Seq<char>>, m: Seq<char>)
    requires
        count_name(names, m) > 0,
    ensures
        exists|k: int| 0 <= k < names.len() && names[k] == m,
    decreases names.len(),
{
    if names.last() != m {
        lemma_count_name_positive(names.drop_last(), m);
        let k = choose|k: int| 0 <= k < names.drop_last().len() && names.drop_last()[k] == m;
        assert(names[k] == m);
    } else {
        assert(names[names.len() - 1] == m);
    }
}

fn transaction_merchants(ts: &Vec<Transaction>) -> (names: Vec<String>)
    ensures
        names@.map_values(|n: String| n@) == sighting_merchants(transaction_sightings(ts@)),
{
    let mut names: Vec<String> = Vec::new();
    for i in 0..ts.len()
        invariant
            names@.map_values(|n: String| n@) == sighting_merchants(transaction_sightings(ts@.take(i as int))),
    {
        assert(ts@.take(i + 1).drop_last() =~= ts@.take(i as int));
        let ghost before = names@.map_values(|n: String| n@);
        match &ts[i].merchant {
            Some(m) => {
                names.push(m.clone());
                assert(names@.map_values(|n: String| n@) =~= before.push(m@));
                assert(sighting_merchants(transaction_sightings(ts@.take(i + 1))) =~= before.push(m@));
            },
            None => {
                assert(sighting_merchants(transaction_sightings(ts@.take(i + 1))) =~= before);
            },
        }
    }
    assert(ts@.take(ts@.len() as int) =~= ts@);
    names
}

fn merchants_of(data: &DocumentData) -> (names: Vec<String>)
    ensures
        names@.map_values(|n: String| n@) == sighting_merchants(sightings(*data)),
{
    match data {
        DocumentData::BankStatement(bank) => transaction_merchants(&bank.transactions),
        DocumentData::GroceryBill(bill) => match &bill.merchant.name {
            Some(name) => {
                let mut names: Vec<String> = Vec::new();
                let ghost f = |item: GroceryItem| item_sighting(name@, item);
                for i in 0..bill.items.len()
                    invariant
                        f == (|item: GroceryItem| item_sighting(name@, item)),
                        names@.map_values(|n: String| n@) == sighting_merchants(bill.items@.take(i as int).map_values(f)),
                {
                    let ghost before = names@.map_values(|n: String| n@);
                    names.push(name.clone());
                    assert(names@.map_values(|n: String| n@) =~= before.push(name@));
                    assert(sighting_merchants(bill.items@.take(i + 1).map_values(f)) =~= before.push(name@));
                }
                assert(bill.items@.take(bill.items@.len() as int) =~= bill.items@);
                names
            },
            None => {
                let names: Vec<String> = Vec::new();
                assert(names@.map_values(|n: String| n@) =~= sighting_merchants(sightings(*data)));
                names
            },
        },
    }
}

fn count_in(names: &Vec<String>, m: &String) -> (n: usize)
    ensures
        n == count_name(names@.map_values(|x: String| x@), m@),
{
    let ghost views = names@.map_values(|x: String| x@);
    let mut n: usize = 0;
    for i in 0..names.len()
        invariant
            views == names@.map_values(|x: String| x@),
            n == count_name(views.take(i as int), m@),
            n <= i,
    {
        assert(views.take(i + 1).drop_last() =~= views.take(i as int));
        if names[i] == *m {
            n = n + 1;
        }
    }
    assert(views.take(views.len() as int) =~= views);
    n
}

impl MerchantTally {
    fn occurrences(&self, merchant: &str) -> (n: u32)
        requires
            self.wf(),
        ensures
            n == occurrences_of(self@, merchant@),
    {
        match self.find(merchant) {
            Some(i) => {
                assert(self@[i as int] == entry_view(self.entries@[i as int]));
                assert(merchant_index(self@, merchant@) == i) by {
                    let k = merchant_index(self@, merchant@);
                    assert(self@[k].0 == merchant@);
                }
                self.entries[i].occurrences
            },
            None => 0,
        }
    }

    /// Whether collecting the document's sightings keeps every merchant's
    /// count within `u32`.
    pub fn has_room_for(&self, data: &DocumentData) -> (b: bool)
        requires
            self.wf(),
        ensures
            b == fits(self@, sightings(*data)),
    {
        let names = merchants_of(data);
        let ghost ss = sightings(*data);
        let ghost views = names@.map_values(|x: String| x@);
        for k in 0..names.len()
            invariant
                self.wf(),
                views == names@.map_values(|x: String| x@),
                views == sighting_merchants(ss),
                ss == sightings(*data),
                forall|j: int| 0 <= j < k ==> #[trigger] occurrences_of(self@, views[j]) + count_name(views, views[j])
                    <= u32::MAX,
        {
            let count = count_in(&names, &names[k]);
            let occ = self.occurrences(names[k].as_str());
            if count as u64 > u32::MAX as u64 || occ as u64 + count as u64 > u32::MAX as u64 {
                proof {
                    lemma_count_by_name(ss, views[k as int]);
                }
                assert(occurrences_of(self@, views[k as int]) + count_for(ss, views[k as int]) > u32::MAX);
                return false;
            }
        }
        assert forall|m: Seq<char>| #![trigger count_for(ss, m)] occurrences_of(self@, m) + count_for(ss, m)
            <= u32::MAX by {
            lemma_count_by_name(ss, m);
            if count_name(views, m) > 0 {
                lemma_count_name_positive(views, m);
                let k = choose|k: int| 0 <= k < views.len() && views[k] == m;
                assert(occurrences_of(self@, views[k]) + count_name(views, views[k]) <= u32::MAX);
            } else {
                if has_merchant(self@, m) {
                    let i = merchant_index(self@, m);
                    assert(self@[i] == entry_view(self.entries@[i]));
                }
            }
        }
        true
    }
}

// ---------------------------------------------------------------------------
// Ranking
// ---------------------------------------------------------------------------

/// Entries in order of non-increasing occurrences.
pub open spec fn ranked_by_occurrences(v: Seq<EntryView>) -> bool {
    forall|i: int, j: int| 0 <= i < j < v.len() ==> #[trigger] v[i].1 >= #[trigger] v[j].1
}

impl MerchantTally {
    /// All entries, most frequent first. (How equally frequent merchants are
    /// ordered is left open: the selection takes the first most frequent
    /// entry left, but no clause states it.)
    pub fn into_ranked(self) -> (r: Vec<MerchantEntry>)
        ensures
            ranked_by_occurrences(entry_views(r@)),
            entry_views(r@).to_multiset() == self@.to_multiset(),
    {
        broadcast use vstd::seq_lib::group_to_multiset_ensures;

        let ghost all_entries = self@;
        let mut rest = self.entries;
        let mut ranked: Vec<MerchantEntry> = Vec::new();
        assert(entry_views(ranked@).to_multiset() =~= Multiset::<EntryView>::empty());
        while rest.len() > 0
            invariant
                ranked_by_occurrences(entry_views(ranked@)),
                forall|a: int, b: int|
                    0 <= a < ranked@.len() && 0 <= b < rest@.len() ==> #[trigger] ranked@[a].occurrences
                        >= #[trigger] rest@[b].occurrences,
                entry_views(ranked@).to_multiset().add(entry_views(rest@).to_multiset())
                    == all_entries.to_multiset(),
            decreases rest.len(),
        {
            let mut best: usize = 0;
            for i in 1..rest.len()
                invariant
                    0 <= best < rest@.len(),
                    forall|k: int| 0 <= k < i ==> #[trigger] rest@[k].occurrences <= rest@[best as int].occurrences,
            {
                if rest[i].occurrences > rest[best].occurrences {
                    best = i;
                }
            }
            let ghost before_rest = entry_views(rest@);
            let ghost before_ranked = entry_views(ranked@);
            let ghost x = before_rest[best as int];
            let e = rest.remove(best);
            assert(entry_views(rest@) =~= before_rest.remove(best as int));
            ranked.push(e);
            assert(entry_views(ranked@) =~= before_ranked.push(x));
            proof {
                vstd::seq_lib::to_multiset_build(before_ranked, x);
                vstd::seq_lib::to_multiset_remove(before_rest, best as int);
            }
            assert(entry_views(ranked@).to_multiset() == before_ranked.to_multiset().insert(x));
            assert(entry_views(rest@).to_multiset() == before_rest.to_multiset().remove(x));
            assert(before_rest.to_multiset().count(x) > 0) by {
                before_rest.to_multiset_ensures();
                assert(before_rest[best as int] == x);
                assert(before_rest.contains(x));
            }
            assert(entry_views(ranked@).to_multiset().add(entry_views(rest@).to_multiset())
                =~= before_ranked.to_multiset().add(before_rest.to_multiset()));
            assert forall|a: int, b: int| 0 <= a < b < ranked@.len() implies #[trigger] entry_views(ranked@)[a].1
                >= #[trigger] entry_views(ranked@)[b].1 by {
                if b < ranked@.len() - 1 {
                    assert(entry_views(ranked@)[a] == before_ranked[a]);
                    assert(entry_views(ranked@)[b] == before_ranked[b]);
                } else {
                    assert(ranked@[a].occurrences >= before_rest[best as int].1 || a >= ranked@.len() - 1);
                }
            }
        }
        assert(entry_views(rest@) =~= Seq::<EntryView>::empty());
        assert(entry_views(ranked@).to_multiset() =~= all_entries.to_multiset());
        ranked
    }
}

// ---------------------------------------------------------------------------
// CSV rendering
// ---------------------------------------------------------------------------

/// The field holds a comma, a double quote or a line feed.
pub open spec fn needs_quoting(s: Seq<char>) -> bool {
    exists|i: int| 0 <= i < s.len() && (s[i] == ',' || s[i] == '"' || s[i] == '\n')
}

/// A CSV field: quoted, with inner quotes doubled, when it needs quoting;
/// as it is otherwise.
pub open spec fn csv_escaped(s: Seq<char>) -> Seq<char> {
    if needs_quoting(s) {
        seq!['"'] + double_char(s, '"') + seq!['"']
    } else {
        s
    }
}

/// A field with a comma, a double quote or a line break in it is written
/// between double quotes, with each of its double quotes doubled; any other
/// field is written as it is.
pub proof fn lemma_csv_field_quoting(s: Seq<char>, i: int)
    ensures
        0 <= i < s.len() && (s[i] == ',' || s[i] == '"' || s[i] == '\n') ==> csv_escaped(s) == seq!['"']
            + double_char(s, '"') + seq!['"'],
        (forall|k: int| 0 <= k < s.len() ==> #[trigger] s[k] != ',' && s[k] != '"' && s[k] != '\n')
            ==> csv_escaped(s) == s,
{
}

fn needs_quoting_chars(s: &[char]) -> (b: bool)
    ensures
        b == needs_quoting(s@),
{
    for i in 0..s.len()
        invariant
            forall|k: int| 0 <= k < i ==> !(s@[k] == ',' || s@[k] == '"' || s@[k] == '\n'),
    {
        let c = s[i];
        if c == ',' || c == '"' || c == '\n' {
            return true;
        }
    }
    false
}

fn csv_escape_chars(s: &[char]) -> (r: Vec<char>)
    ensures
        r@ == csv_escaped(s@),
{
    if needs_quoting_chars(s) {
        let mut r: Vec<char> = Vec::new();
        r.push('"');
        let inner = double_char_in(s, '"');
        append_chars(&mut r, inner.as_slice());
        r.push('"');
        assert(r@ =~= seq!['"'] + double_char(s@, '"') + seq!['"']);
        r
    } else {
        let mut r: Vec<char> = Vec::new();
        append_chars(&mut r, s);
        assert(r@ =~= s@);
        r
    }
}

/// Escapes one CSV field.
pub fn csv_escape(field: &str) -> (r: String)
    ensures
        r@ == csv_escaped(field@),
{
    let chars = chars_of(field);
    let escaped = csv_escape_chars(chars.as_slice());
    string_of(escaped.as_slice())
}

pub open spec fn csv_header_line() -> Seq<char> {
    "merchant,occurrences,suggested_category,example_raw_text"@
}

/// The CSV line for an entry: merchant, occurrences, suggested category
/// name (empty if none) and first example line (empty if none).
pub open spec fn csv_row_of(e: EntryView) -> Seq<char> {
    csv_escaped(e.0) + seq![','] + decimal(e.1) + seq![','] + csv_escaped(
        match e.3 {
            Some(s) => s.name@,
            None => Seq::empty(),
        },
    ) + seq![','] + csv_escaped(
        if e.2.len() > 0 {
            e.2[0]
        } else {
            Seq::empty()
        },
    )
}

pub fn csv_row(entry: &MerchantEntry) -> (r: String)
    ensures
        r@ == csv_row_of(entry_view(*entry)),
{
    let mut line: Vec<char> = csv_escape_chars(chars_of(entry.merchant.as_str()).as_slice());
    line.push(',');
    let count = decimal_chars(entry.occurrences as u64);
    append_chars(&mut line, count.as_slice());
    line.push(',');
    let category: Vec<char> = match &entry.suggested_category {
        Some(s) => chars_of(s.name.as_str()),
        None => Vec::new(),
    };
    let escaped_category = csv_escape_chars(category.as_slice());
    append_chars(&mut line, escaped_category.as_slice());
    line.push(',');
    let example: Vec<char> = if entry.example_raw_text.len() > 0 {
        chars_of(entry.example_raw_text[0].as_str())
    } else {
        Vec::new()
    };
    let escaped_example = csv_escape_chars(example.as_slice());
    append_chars(&mut line, escaped_example.as_slice());
    let ghost e = entry_view(*entry);
    assert(category@ == match e.3 {
        Some(s) => s.name@,
        None => Seq::<char>::empty(),
    });
    assert(line@ =~= csv_row_of(e));
    string_of(line.as_slice())
}

/// The report as CSV lines: the header, then one line per entry in order.
pub fn csv_lines(ranked: &Vec<MerchantEntry>) -> (lines: Vec<String>)
    ensures
        lines@.len() == ranked@.len() + 1,
        lines@[0]@ == csv_header_line(),
        forall|i: int| 0 <= i < ranked@.len() ==> #[trigger] lines@[i + 1]@ == csv_row_of(entry_view(ranked@[i])),
{
    let mut lines: Vec<String> = Vec::new();
    lines.push("merchant,occurrences,suggested_category,example_raw_text".to_string());
    for i in 0..ranked.len()
        invariant
            lines@.len() == i + 1,
            lines@[0]@ == csv_header_line(),
            forall|k: int| 0 <= k < i ==> #[trigger] lines@[k + 1]@ == csv_row_of(entry_view(ranked@[k])),
    {
        lines.push(csv_row(&ranked[i]));
        assert(lines@[i + 1]@ == csv_row_of(entry_view(ranked@[i as int])));
    }
    lines
}

// ---------------------------------------------------------------------------
// SQL seed rows
// ---------------------------------------------------------------------------

/// The `merchant_category_rules` insert for a reviewed merchant: an exact
/// match rule, priority 100, from the system seed, with single quotes in the
/// merchant and category id doubled.
pub open spec fn rule_insert_statement(merchant: Seq<char>, category_id: Seq<char>) -> Seq<char> {
    "INSERT INTO merchant_category_rules (tenant_id, match_type, pattern, category_id, priority, source) VALUES (NULL, 'exact', '"@
        + double_char(merchant, '\'') + "', '"@ + double_char(category_id, '\'')
        + "', 100, 'system_seed');"@
}

pub fn merchant_rule_insert(merchant: &str, category_id: &str) -> (r: String)
    ensures
        r@ == rule_insert_statement(merchant@, category_id@),
{
    let m = double_char_in(chars_of(merchant).as_slice(), '\'');
    let c = double_char_in(chars_of(category_id).as_slice(), '\'');
    let mut r = String::new();
    r.push_str("INSERT INTO merchant_category_rules (tenant_id, match_type, pattern, category_id, priority, source) VALUES (NULL, 'exact', '");
    r.push_str(string_of(m.as_slice()).as_str());
    r.push_str("', '");
    r.push_str(string_of(c.as_slice()).as_str());
    r.push_str("', 100, 'system_seed');");
    r
}

} // verus!
