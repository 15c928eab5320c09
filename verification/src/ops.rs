//! Operators of the flat dialect and their symbol table.

use vstd::prelude::*;

verus! {

/// Error returned when an operator symbol is not in the symbol table.
#[derive(Debug, Clone, Copy, PartialEq, Eq, Structural)]
pub enum OperationError {
    UnknownOperation,
}

/// A calculation operation of the flat dialect, for example `Add`,
/// which adds two numbers.
#[derive(Debug, Clone, Copy, PartialEq, Eq, Structural)]
pub enum Operation {
    Add,
    Sub,
    Mul,
    And,
    Or,
    Xor,
    Shl,
    Shr,
    Rol,
    Ror,
    Neg,
    Not,
    /// Register view: renders the bits of its operand.
    Reg,
    /// Endian swap: reverses the byte order of its operand.
    End,
}

/// The operation a symbol stands for, or `None` for an unknown symbol.
pub open spec fn spec_operation_of(s: Seq<char>) -> Option<Operation> {
    if s == seq!['+'] {
        Some(Operation::Add)
    } else if s == seq!['-'] {
        Some(Operation::Sub)
    } else if s == seq!['*'] {
        Some(Operation::Mul)
    } else if s == seq!['&'] {
        Some(Operation::And)
    } else if s == seq!['|'] {
        Some(Operation::Or)
    } else if s == seq!['^'] {
        Some(Operation::Xor)
    } else if s == seq!['<', '<'] {
        Some(Operation::Shl)
    } else if s == seq!['>', '>'] {
        Some(Operation::Shr)
    } else if s == seq!['<', '<', '<'] {
        Some(Operation::Rol)
    } else if s == seq!['>', '>', '>'] {
        Some(Operation::Ror)
    } else if s == seq!['~'] {
        Some(Operation::Neg)
    } else if s == seq!['!'] {
        Some(Operation::Not)
    } else if s == seq!['r'] {
        Some(Operation::Reg)
    } else if s == seq!['e'] {
        Some(Operation::End)
    } else {
        None
    }
}

impl Operation {
    /// Create an `Operation` from its symbol; unknown symbols are rejected.
    pub fn new_from_str(s: &str) -> (r: Result<Operation, OperationError>)
        ensures
            match r {
                Ok(op) => spec_operation_of(s@) == Some(op),
                Err(_) => spec_operation_of(s@) is None,
            },
    {
        Operation::new_from_chars(&crate::text::chars_of(s))
    }

    /// Create an `Operation` from its symbol, given as characters.
    pub fn new_from_chars(s: &Vec<char>) -> (r: Result<Operation, OperationError>)
        ensures
            match r {
                Ok(op) => spec_operation_of(s@) == Some(op),
                Err(_) => spec_operation_of(s@) is None,
            },
    {
        let n = s.len();
        if n == 1 {
            let c = s[0];
            let r = match c {
                '+' => Ok(Operation::Add),
                '-' => Ok(Operation::Sub),
                '*' => Ok(Operation::Mul),
                '&' => Ok(Operation::And),
                '|' => Ok(Operation::Or),
                '^' => Ok(Operation::Xor),
                '~' => Ok(Operation::Neg),
                '!' => Ok(Operation::Not),
                'r' => Ok(Operation::Reg),
                'e' => Ok(Operation::End),
                _ => Err(OperationError::UnknownOperation),
            };
            proof {
                assert(s@ =~= seq![s@[0]]);
            }
            r
        } else if n == 2 {
            let c0 = s[0];
            let c1 = s[1];
            proof {
                assert(s@ =~= seq![s@[0], s@[1]]);
            }
            if c0 == '<' && c1 == '<' {
                Ok(Operation::Shl)
            } else if c0 == '>' && c1 == '>' {
                Ok(Operation::Shr)
            } else {
                Err(OperationError::UnknownOperation)
            }
        } else if n == 3 {
            let c0 = s[0];
            let c1 = s[1];
            let c2 = s[2];
            proof {
                assert(s@ =~= seq![s@[0], s@[1], s@[2]]);
            }
            if c0 == '<' && c1 == '<' && c2 == '<' {
                Ok(Operation::Rol)
            } else if c0 == '>' && c1 == '>' && c2 == '>' {
                Ok(Operation::Ror)
            } else {
                Err(OperationError::UnknownOperation)
            }
        } else {
            proof {
                assert(s@.len() != 1 && s@.len() != 2 && s@.len() != 3);
            }
            Err(OperationError::UnknownOperation)
        }
    }

    /// Whether the operation takes a single operand.
    pub open spec fn spec_is_unary(self) -> bool {
        match self {
            Operation::Neg | Operation::Not | Operation::Reg | Operation::End => true,
            _ => false,
        }
    }

    /// Check if an operation is unary or not.
    pub fn is_unary(&self) -> (r: bool)
        ensures
            r == self.spec_is_unary(),
    {
        matches!(self, Operation::Neg | Operation::Not | Operation::Reg | Operation::End)
    }
}

} // verus!
