use doc_scanner_core::schema::{
    Account, AccountType, BankStatementData, CategorySuggestion, Decimal, DocumentData, GroceryBillData,
    GroceryItem, GroceryMerchant, Receipt, Totals, Transaction,
};
use doc_scanner_core::seed_report::{csv_escape, csv_lines, csv_row, merchant_rule_insert, MerchantEntry, MerchantTally};

fn suggestion(name: &str) -> Option<CategorySuggestion> {
    Some(CategorySuggestion {
        name: name.to_string(),
        match_confidence: Decimal { units: 9, scale: 1 },
        matched_pattern: name.to_lowercase(),
    })
}

fn txn(merchant: Option<&str>, raw: &str) -> Transaction {
    Transaction {
        date: None,
        raw_text: raw.to_string(),
        description: None,
        merchant: merchant.map(|m| m.to_string()),
        debit: Some(Decimal { units: 5432, scale: 2 }),
        credit: None,
        balance: None,
        category: None,
        category_suggestion: suggestion(raw),
    }
}

fn item(raw: &str) -> GroceryItem {
    GroceryItem {
        name: raw.to_string(),
        raw_text: raw.to_string(),
        quantity: None,
        unit_price: None,
        total_price: None,
        category: None,
        category_suggestion: None,
    }
}

fn bank(ts: Vec<Transaction>) -> DocumentData {
    DocumentData::BankStatement(BankStatementData {
        account: Account {
            bank_name: None,
            account_holder_name: None,
            account_type: AccountType::Checking,
            currency: None,
            statement_period: None,
            opening_balance: None,
            closing_balance: None,
        },
        transactions: ts,
    })
}

fn bill(name: Option<&str>, items: Vec<GroceryItem>) -> DocumentData {
    DocumentData::GroceryBill(GroceryBillData {
        merchant: GroceryMerchant { name: name.map(|n| n.to_string()), address: None, phone: None },
        receipt: Receipt { date: None, receipt_number: None, payment_method: None },
        items,
        totals: Totals { subtotal: None, tax: None, discount: None, total: None },
        currency: None,
    })
}

#[test]
fn record_counts_and_keeps_three_examples() {
    let mut t = MerchantTally::new();
    for i in 0..5 {
        t.record("Tesco", &format!("line {i}"), &suggestion(&format!("S{i}")));
    }
    t.record("Aldi", "aldi line", &None);
    let ranked = t.into_ranked();
    assert_eq!(ranked.len(), 2);
    assert_eq!(ranked[0].merchant, "Tesco");
    assert_eq!(ranked[0].occurrences, 5);
    assert_eq!(ranked[0].example_raw_text, vec!["line 0", "line 1", "line 2"]);
    assert_eq!(ranked[0].suggested_category.as_ref().unwrap().name, "S0");
    assert_eq!(ranked[1].merchant, "Aldi");
    assert_eq!(ranked[1].occurrences, 1);
    assert!(ranked[1].suggested_category.is_none());
}

#[test]
fn ranking_is_by_occurrences_then_first_seen() {
    let mut t = MerchantTally::new();
    for m in ["A", "B", "C", "B", "C", "C", "D", "D"] {
        t.record(m, "x", &None);
    }
    let ranked: Vec<(String, u32)> = t.into_ranked().into_iter().map(|e| (e.merchant, e.occurrences)).collect();
    assert_eq!(
        ranked,
        vec![("C".to_string(), 3), ("B".to_string(), 2), ("D".to_string(), 2), ("A".to_string(), 1)]
    );
}

#[test]
fn collect_from_bank_statement_skips_lines_without_merchant() {
    let data = bank(vec![txn(Some("Tesco"), "TESCO 1"), txn(None, "TRANSFER"), txn(Some("Tesco"), "TESCO 2")]);
    let mut t = MerchantTally::new();
    assert!(t.has_room_for(&data));
    t.collect(&data);
    let ranked = t.into_ranked();
    assert_eq!(ranked.len(), 1);
    assert_eq!(ranked[0].occurrences, 2);
    assert_eq!(ranked[0].example_raw_text, vec!["TESCO 1", "TESCO 2"]);
    assert_eq!(ranked[0].suggested_category.as_ref().unwrap().name, "TESCO 1");
}

#[test]
fn collect_from_grocery_bill_uses_bill_merchant() {
    let mut t = MerchantTally::new();
    t.collect(&bill(Some("Example Grocery"), vec![item("MILK"), item("BREAD")]));
    t.collect(&bill(None, vec![item("EGGS")]));
    let ranked = t.into_ranked();
    assert_eq!(ranked.len(), 1);
    assert_eq!(ranked[0].merchant, "Example Grocery");
    assert_eq!(ranked[0].occurrences, 2);
    assert_eq!(ranked[0].example_raw_text, vec!["MILK", "BREAD"]);
}

#[test]
fn csv_escaping() {
    assert_eq!(csv_escape("plain"), "plain");
    assert_eq!(csv_escape("a,b"), "\"a,b\"");
    assert_eq!(csv_escape("say \"hi\""), "\"say \"\"hi\"\"\"");
    assert_eq!(csv_escape("two\nlines"), "\"two\nlines\"");
    assert_eq!(csv_escape(""), "");
}

#[test]
fn csv_report_lines() {
    let entries = vec![
        MerchantEntry {
            merchant: "Tesco, Ltd".to_string(),
            occurrences: 12,
            example_raw_text: vec!["TESCO 22".to_string(), "TESCO 23".to_string()],
            suggested_category: suggestion("Groceries"),
        },
        MerchantEntry { merchant: "Aldi".to_string(), occurrences: 1, example_raw_text: vec![], suggested_category: None },
    ];
    let lines = csv_lines(&entries);
    assert_eq!(
        lines,
        vec![
            "merchant,occurrences,suggested_category,example_raw_text".to_string(),
            "\"Tesco, Ltd\",12,Groceries,TESCO 22".to_string(),
            "Aldi,1,,".to_string(),
        ]
    );
    assert_eq!(csv_row(&entries[1]), "Aldi,1,,");
}

#[test]
fn sql_insert_doubles_quotes() {
    assert_eq!(
        merchant_rule_insert("Sainsbury's", "cat-1"),
        "INSERT INTO merchant_category_rules (tenant_id, match_type, pattern, category_id, priority, source) VALUES (NULL, 'exact', 'Sainsbury''s', 'cat-1', 100, 'system_seed');"
    );
}
