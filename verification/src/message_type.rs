//! The four kinds of D-Bus message.

use vstd::prelude::*;

verus! {

/// Kind of a D-Bus message, as its fixed header gives it.
#[derive(Debug, Clone, Copy, PartialEq, Eq, Hash, Structural)]
pub enum MessageType {
    MethodCall,
    MethodReturn,
    Error,
    Signal,
}

impl MessageType {
    /// Whether this is a reply: a method return or an error.
    pub fn is_method_return(self) -> (r: bool)
        ensures
            r == (self is MethodReturn || self is Error),
    {
        match self {
            MessageType::MethodReturn | MessageType::Error => true,
            _ => false,
        }
    }

    pub fn is_error(self) -> (r: bool)
        ensures
            r == (self is Error),
    {
        match self {
            MessageType::Error => true,
            _ => false,
        }
    }

    pub fn is_signal(self) -> (r: bool)
        ensures
            r == (self is Signal),
    {
        match self {
            MessageType::Signal => true,
            _ => false,
        }
    }

    pub fn is_method_call(self) -> (r: bool)
        ensures
            r == (self is MethodCall),
    {
        match self {
            MessageType::MethodCall => true,
            _ => false,
        }
    }
}

impl Default for MessageType {
    /// A message whose kind was never set counts as an error.
    fn default() -> (r: Self)
        ensures
            r is Error,
    {
        MessageType::Error
    }
}

} // verus!
