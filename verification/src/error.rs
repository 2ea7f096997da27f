//! The engine's typed errors, each tied to the pipeline stage that raised it.
use vstd::prelude::*;

verus! {

/// Pipeline stage at which an error occurred.
#[derive(Clone, Copy, Debug, PartialEq, Eq, Structural)]
pub enum Stage {
    Input,
    Extraction,
    Classification,
    Structuring,
    Validation,
    Output,
}

impl Stage {
    /// The stage's name as log records carry it.
    pub open spec fn spec_name(self) -> Seq<char> {
        match self {
            Stage::Input => seq!['i', 'n', 'p', 'u', 't'],
            Stage::Extraction => seq!['e', 'x', 't', 'r', 'a', 'c', 't', 'i', 'o', 'n'],
            Stage::Classification => seq![
                'c', 'l', 'a', 's', 's', 'i', 'f', 'i', 'c', 'a', 't', 'i', 'o', 'n',
            ],
            Stage::Structuring => seq!['s', 't', 'r', 'u', 'c', 't', 'u', 'r', 'i', 'n', 'g'],
            Stage::Validation => seq!['v', 'a', 'l', 'i', 'd', 'a', 't', 'i', 'o', 'n'],
            Stage::Output => seq!['o', 'u', 't', 'p', 'u', 't'],
        }
    }

    /// The variant's name in lower case.
    pub fn name(&self) -> (r: &'static str)
        ensures
            r@ == self.spec_name(),
    {
        match self {
            Stage::Input => {
                let r = "input";
                proof {
                    reveal_strlit("input");
                }
                r
            },
            Stage::Extraction => {
                let r = "extraction";
                proof {
                    reveal_strlit("extraction");
                }
                r
            },
            Stage::Classification => {
                let r = "classification";
                proof {
                    reveal_strlit("classification");
                }
                r
            },
            Stage::Structuring => {
                let r = "structuring";
                proof {
                    reveal_strlit("structuring");
                }
                r
            },
            Stage::Validation => {
                let r = "validation";
                proof {
                    reveal_strlit("validation");
                }
                r
            },
            Stage::Output => {
                let r = "output";
                proof {
                    reveal_strlit("output");
                }
                r
            },
        }
    }
}

#[derive(Debug)]
pub enum EngineError {
    InvalidInput { code: &'static str, message: String },
    UnsupportedFormat { code: &'static str, message: String },
    Extraction { code: &'static str, message: String },
    Classification { code: &'static str, message: String },
    Structuring { code: &'static str, message: String },
    Validation { code: &'static str, message: String },
}

impl EngineError {
    pub open spec fn spec_stage(self) -> Stage {
        match self {
            EngineError::InvalidInput { .. } => Stage::Input,
            EngineError::UnsupportedFormat { .. } => Stage::Input,
            EngineError::Extraction { .. } => Stage::Extraction,
            EngineError::Classification { .. } => Stage::Classification,
            EngineError::Structuring { .. } => Stage::Structuring,
            EngineError::Validation { .. } => Stage::Validation,
        }
    }

    pub open spec fn spec_code(self) -> &'static str {
        match self {
            EngineError::InvalidInput { code, .. } => code,
            EngineError::UnsupportedFormat { code, .. } => code,
            EngineError::Extraction { code, .. } => code,
            EngineError::Classification { code, .. } => code,
            EngineError::Structuring { code, .. } => code,
            EngineError::Validation { code, .. } => code,
        }
    }

    pub open spec fn spec_message(self) -> String {
        match self {
            EngineError::InvalidInput { message, .. } => message,
            EngineError::UnsupportedFormat { message, .. } => message,
            EngineError::Extraction { message, .. } => message,
            EngineError::Classification { message, .. } => message,
            EngineError::Structuring { message, .. } => message,
            EngineError::Validation { message, .. } => message,
        }
    }

    /// The coarse process exit code for the error.
    pub open spec fn spec_exit_code(self) -> i32 {
        match self {
            EngineError::InvalidInput { .. } => 2,
            EngineError::UnsupportedFormat { .. } => 3,
            EngineError::Extraction { .. } => 4,
            EngineError::Classification { .. } => 5,
            EngineError::Structuring { .. } => 5,
            EngineError::Validation { .. } => 5,
        }
    }

    pub fn stage(&self) -> (r: Stage)
        ensures
            r == self.spec_stage(),
    {
        match self {
            EngineError::InvalidInput { .. } => Stage::Input,
            EngineError::UnsupportedFormat { .. } => Stage::Input,
            EngineError::Extraction { .. } => Stage::Extraction,
            EngineError::Classification { .. } => Stage::Classification,
            EngineError::Structuring { .. } => Stage::Structuring,
            EngineError::Validation { .. } => Stage::Validation,
        }
    }

    pub fn code(&self) -> (r: &'static str)
        ensures
            r == self.spec_code(),
    {
        match self {
            EngineError::InvalidInput { code, .. } => code,
            EngineError::UnsupportedFormat { code, .. } => code,
            EngineError::Extraction { code, .. } => code,
            EngineError::Classification { code, .. } => code,
            EngineError::Structuring { code, .. } => code,
            EngineError::Validation { code, .. } => code,
        }
    }

    pub fn message(&self) -> (r: String)
        ensures
            r == self.spec_message(),
    {
        match self {
            EngineError::InvalidInput { message, .. } => message.clone(),
            EngineError::UnsupportedFormat { message, .. } => message.clone(),
            EngineError::Extraction { message, .. } => message.clone(),
            EngineError::Classification { message, .. } => message.clone(),
            EngineError::Structuring { message, .. } => message.clone(),
            EngineError::Validation { message, .. } => message.clone(),
        }
    }

    /// Coarse-grained process exit code.
    pub fn exit_code(&self) -> (r: i32)
        ensures
            r == self.spec_exit_code(),
    {
        match self {
            EngineError::InvalidInput { .. } => 2,
            EngineError::UnsupportedFormat { .. } => 3,
            EngineError::Extraction { .. } => 4,
            EngineError::Classification { .. } => 5,
            EngineError::Structuring { .. } => 5,
            EngineError::Validation { .. } => 5,
        }
    }
}

} // verus!
