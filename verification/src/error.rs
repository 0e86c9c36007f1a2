//! The one error type of the compiler: a message for the user.
use vstd::prelude::*;

verus! {

/// A diagnostic. Its view is the text shown to the user.
#[derive(Debug)]
pub struct Error {
    pub message: String,
}

/// What a compiler phase means to return: a value, or the text of a diagnostic.
pub type Outcome<T> = Result<T, Seq<char>>;

impl View for Error {
    type V = Seq<char>;

    open spec fn view(&self) -> Seq<char> {
        self.message@
    }
}

impl Clone for Error {
    fn clone(&self) -> (copy: Self)
        ensures
            copy == *self,
    {
        Error { message: self.message.clone() }
    }
}

impl Error {
    pub fn new(message: String) -> (error: Self)
        ensures
            error@ == message@,
    {
        Error { message }
    }

    /// The text of the diagnostic.
    pub fn to_string(&self) -> (text: String)
        ensures
            text@ == self@,
    {
        self.message.clone()
    }
}

/// `result` is a success exactly when `outcome` is one, with the same value; else both carry
/// the same diagnostic.
pub open spec fn agrees<T: View>(result: Result<T, Error>, outcome: Outcome<T::V>) -> bool {
    match (result, outcome) {
        (Ok(value), Ok(model)) => value@ == model,
        (Err(error), Err(message)) => error@ == message,
        _ => false,
    }
}

/// The list that `rest` stands for, with more in front.
pub open spec fn prepended<T>(front: Seq<T>, rest: Outcome<Seq<T>>) -> Outcome<Seq<T>> {
    match rest {
        Ok(rest) => Ok(front + rest),
        Err(message) => Err(message),
    }
}

} // verus!
