//! Keyword classifier: is a document's text a bank statement or a grocery bill?
use vstd::prelude::*;

use crate::error::EngineError;
use crate::schema::DocumentType;
use crate::text::{
    all_ascii, ascii_lowercase, chars_of, contains, contains_chars, occurs_at, str_lowercase, to_lowercase,
    views,
};

verus! {

pub open spec fn bank_statement_keywords() -> Seq<Seq<char>> {
    seq![
        "statement period"@,
        "opening balance"@,
        "closing balance"@,
        "account holder"@,
        "sort code"@,
        "iban"@,
    ]
}

pub open spec fn grocery_bill_keywords() -> Seq<Seq<char>> {
    seq!["subtotal"@, "total due"@, "receipt"@, "cashier"@, "qty"@, "item price"@]
}

/// How many of `keywords` occur in `text`.
pub open spec fn keyword_score(text: Seq<char>, keywords: Seq<Seq<char>>) -> nat
    decreases keywords.len(),
{
    if keywords.len() == 0 {
        0
    } else {
        keyword_score(text, keywords.drop_last()) + if contains(text, keywords.last()) {
            1nat
        } else {
            0nat
        }
    }
}

/// The document type for lower-cased text: the side with more keywords
/// present wins; a tie goes to bank statement unless no keyword is present at
/// all, in which case there is no answer.
pub open spec fn classification(lower: Seq<char>) -> Option<DocumentType> {
    let bank = keyword_score(lower, bank_statement_keywords());
    let grocery = keyword_score(lower, grocery_bill_keywords());
    if bank > grocery {
        Some(DocumentType::BankStatement)
    } else if bank < grocery {
        Some(DocumentType::GroceryBill)
    } else if bank > 0 {
        Some(DocumentType::BankStatement)
    } else {
        None
    }
}

/// The error for text that matches neither document type.
pub open spec fn is_inconclusive_error(e: EngineError) -> bool {
    e matches EngineError::Classification { code, message } && code@ == "CLASSIFICATION_INCONCLUSIVE"@
        && message@ == "could not determine whether this is a bank statement or grocery bill"@
}

/// What classifying lower-cased text gives.
pub open spec fn classify_result(lower: Seq<char>, r: Result<DocumentType, EngineError>) -> bool {
    match classification(lower) {
        Some(t) => r == Ok::<DocumentType, EngineError>(t),
        None => r matches Err(e) && is_inconclusive_error(e),
    }
}

fn bank_keywords() -> (v: Vec<Vec<char>>)
    ensures
        views(v@) == bank_statement_keywords(),
{
    let mut v: Vec<Vec<char>> = Vec::new();
    v.push(chars_of("statement period"));
    v.push(chars_of("opening balance"));
    v.push(chars_of("closing balance"));
    v.push(chars_of("account holder"));
    v.push(chars_of("sort code"));
    v.push(chars_of("iban"));
    assert(views(v@) =~= bank_statement_keywords());
    v
}

fn grocery_keywords() -> (v: Vec<Vec<char>>)
    ensures
        views(v@) == grocery_bill_keywords(),
{
    let mut v: Vec<Vec<char>> = Vec::new();
    v.push(chars_of("subtotal"));
    v.push(chars_of("total due"));
    v.push(chars_of("receipt"));
    v.push(chars_of("cashier"));
    v.push(chars_of("qty"));
    v.push(chars_of("item price"));
    assert(views(v@) =~= grocery_bill_keywords());
    v
}

fn score(text: &[char], keywords: &Vec<Vec<char>>) -> (n: usize)
    ensures
        n == keyword_score(text@, views(keywords@)),
{
    let mut n: usize = 0;
    for i in 0..keywords.len()
        invariant
            n == keyword_score(text@, views(keywords@).take(i as int)),
            n <= i,
    {
        assert(views(keywords@).take(i + 1).drop_last() =~= views(keywords@).take(i as int));
        if contains_chars(text, keywords[i].as_slice()) {
            n = n + 1;
        }
    }
    assert(views(keywords@).take(keywords@.len() as int) =~= views(keywords@));
    n
}

/// Classifies text that is already lower-cased.
pub fn classify_lowercased(lower: &str) -> (r: Result<DocumentType, EngineError>)
    ensures
        classify_result(lower@, r),
{
    let text = chars_of(lower);
    let bank_score = score(text.as_slice(), &bank_keywords());
    let grocery_score = score(text.as_slice(), &grocery_keywords());
    if bank_score > grocery_score {
        Ok(DocumentType::BankStatement)
    } else if bank_score < grocery_score {
        Ok(DocumentType::GroceryBill)
    } else if bank_score > 0 {
        Ok(DocumentType::BankStatement)
    } else {
        Err(
            EngineError::Classification {
                code: "CLASSIFICATION_INCONCLUSIVE",
                message: "could not determine whether this is a bank statement or grocery bill".to_string(),
            },
        )
    }
}

/// Keyword/heuristic classifier: counts bank-statement and grocery-bill
/// keywords in the text, ignoring case.
pub fn classify(text: &str) -> (r: Result<DocumentType, EngineError>)
    ensures
        classify_result(str_lowercase(text@), r),
        all_ascii(text@) ==> classify_result(ascii_lowercase(text@), r),
{
    let lower = to_lowercase(text);
    classify_lowercased(lower.as_str())
}


/// A document is classified exactly when at least one keyword of either
/// type occurs in it; a tie between the two types goes to bank statement.
pub proof fn lemma_classified_iff_keyword(lower: Seq<char>)
    ensures
        classification(lower) is Some <==> keyword_score(lower, bank_statement_keywords()) > 0
            || keyword_score(lower, grocery_bill_keywords()) > 0,
        keyword_score(lower, bank_statement_keywords()) == keyword_score(lower, grocery_bill_keywords())
            && keyword_score(lower, bank_statement_keywords()) > 0 ==> classification(lower) == Some(
            DocumentType::BankStatement,
        ),
{
}

/// The side with more keywords present wins: more grocery-bill keywords than
/// bank-statement keywords make a grocery bill, more bank-statement keywords
/// a bank statement; a tie with some keyword present is a bank statement, and
/// text with no keyword of either kind is not classified.
pub proof fn lemma_more_keywords_win(lower: Seq<char>)
    ensures
        keyword_score(lower, grocery_bill_keywords()) > keyword_score(lower, bank_statement_keywords())
            ==> classification(lower) == Some(DocumentType::GroceryBill),
        keyword_score(lower, bank_statement_keywords()) > keyword_score(lower, grocery_bill_keywords())
            ==> classification(lower) == Some(DocumentType::BankStatement),
        keyword_score(lower, bank_statement_keywords()) == keyword_score(lower, grocery_bill_keywords())
            && keyword_score(lower, bank_statement_keywords()) > 0 ==> classification(lower) == Some(
            DocumentType::BankStatement,
        ),
        keyword_score(lower, bank_statement_keywords()) == 0 && keyword_score(lower, grocery_bill_keywords())
            == 0 ==> classification(lower) is None,
{
}

/// The score counts each keyword that occurs in the text once: the score of
/// two keyword lists together is the sum of their scores, and a single
/// keyword scores 1 exactly when it occurs somewhere in the text as a run of
/// consecutive characters.
pub proof fn lemma_keyword_score_counts_occurring(text: Seq<char>, a: Seq<Seq<char>>, b: Seq<Seq<char>>, k: Seq<char>)
    ensures
        keyword_score(text, a + b) == keyword_score(text, a) + keyword_score(text, b),
        keyword_score(text, seq![k]) == 1 <==> exists|p: int|
            0 <= p && p + k.len() <= text.len() && #[trigger] text.subrange(p, p + k.len()) == k,
        keyword_score(text, seq![k]) <= 1,
    decreases b.len(),
{
    if b.len() == 0 {
        assert(a + b =~= a);
    } else {
        lemma_keyword_score_counts_occurring(text, a, b.drop_last(), k);
        assert((a + b).drop_last() =~= a + b.drop_last());
    }
    assert(seq![k].drop_last() =~= Seq::<Seq<char>>::empty());
    assert(keyword_score(text, Seq::<Seq<char>>::empty()) == 0);
    assert(seq![k].last() == k);
    assert(keyword_score(text, seq![k]) == if contains(text, k) {
        1nat
    } else {
        0nat
    });
    if keyword_score(text, seq![k]) == 1 {
        let p = choose|p: int| occurs_at(text, k, p);
        assert(text.subrange(p, p + k.len()) == k);
    }
    assert forall|p: int| 0 <= p && p + k.len() <= text.len() && #[trigger] text.subrange(p, p + k.len()) == k
        implies keyword_score(text, seq![k]) == 1 by {
        assert(occurs_at(text, k, p));
    }
}

} // verus!
