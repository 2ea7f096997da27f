use doc_scanner_core::error::{EngineError, Stage};

fn all_errors() -> Vec<EngineError> {
    vec![
        EngineError::InvalidInput { code: "A", message: "a".to_string() },
        EngineError::UnsupportedFormat { code: "B", message: "b".to_string() },
        EngineError::Extraction { code: "C", message: "c".to_string() },
        EngineError::Classification { code: "D", message: "d".to_string() },
        EngineError::Structuring { code: "E", message: "e".to_string() },
        EngineError::Validation { code: "F", message: "f".to_string() },
    ]
}

#[test]
fn stages_of_errors() {
    let stages: Vec<Stage> = all_errors().iter().map(|e| e.stage()).collect();
    assert_eq!(
        stages,
        vec![
            Stage::Input,
            Stage::Input,
            Stage::Extraction,
            Stage::Classification,
            Stage::Structuring,
            Stage::Validation
        ]
    );
}

#[test]
fn exit_codes_of_errors() {
    let codes: Vec<i32> = all_errors().iter().map(|e| e.exit_code()).collect();
    assert_eq!(codes, vec![2, 3, 4, 5, 5, 5]);
}

#[test]
fn codes_and_messages_of_errors() {
    let errors = all_errors();
    let codes: Vec<&str> = errors.iter().map(|e| e.code()).collect();
    assert_eq!(codes, vec!["A", "B", "C", "D", "E", "F"]);
    let messages: Vec<String> = errors.iter().map(|e| e.message()).collect();
    assert_eq!(messages, vec!["a", "b", "c", "d", "e", "f"]);
}

#[test]
fn stage_names_are_lower_case_debug_names() {
    for stage in [
        Stage::Input,
        Stage::Extraction,
        Stage::Classification,
        Stage::Structuring,
        Stage::Validation,
        Stage::Output,
    ] {
        assert_eq!(stage.name(), format!("{:?}", stage).to_lowercase());
    }
}
