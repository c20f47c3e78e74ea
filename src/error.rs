use vstd::prelude::*;

verus! {

/// The ways an expression can fail to evaluate.
#[derive(Debug, Clone, Copy, PartialEq, Eq, Structural)]
pub enum CalcError {
    /// A token is neither an operator nor a number.
    InvalidOperator,
    /// An operator found the stack empty.
    InvalidRightSide,
    /// An operator found a single value on the stack.
    InvalidLeftSide,
    /// The stack did not end with exactly one value, or an operation had no
    /// 64-bit result (overflow, division by zero).
    EvaluationError,
}

/// The word naming the part of the expression that failed.
pub open spec fn side_text(e: CalcError) -> Seq<char> {
    match e {
        CalcError::InvalidOperator => "operator"@,
        CalcError::InvalidRightSide => "right side"@,
        CalcError::InvalidLeftSide => "left side"@,
        CalcError::EvaluationError => "evaluation error"@,
    }
}

/// The full human-readable message of an error.
pub open spec fn message_text(e: CalcError) -> Seq<char> {
    "Failed to parse "@ + side_text(e) + " value"@
}

impl CalcError {
    /// The message shown to a user: `Failed to parse <side> value`.
    pub fn message(&self) -> (r: String)
        ensures
            r@ == message_text(*self),
    {
        proof {
            reveal_strlit("Failed to parse ");
            reveal_strlit(" value");
        }
        let text: &str = match self {
            CalcError::InvalidOperator => {
                proof {
                    reveal_strlit("operator");
                    reveal_strlit("Failed to parse operator value");
                }
                "Failed to parse operator value"
            },
            CalcError::InvalidRightSide => {
                proof {
                    reveal_strlit("right side");
                    reveal_strlit("Failed to parse right side value");
                }
                "Failed to parse right side value"
            },
            CalcError::InvalidLeftSide => {
                proof {
                    reveal_strlit("left side");
                    reveal_strlit("Failed to parse left side value");
                }
                "Failed to parse left side value"
            },
            CalcError::EvaluationError => {
                proof {
                    reveal_strlit("evaluation error");
                    reveal_strlit("Failed to parse evaluation error value");
                }
                "Failed to parse evaluation error value"
            },
        };
        assert(text@ =~= message_text(*self));
        text.to_owned()
    }
}

} // verus!
