use vstd::prelude::*;
use vstd::string::*;

verus! {

/// The error of every fallible operation of the application: a message.
#[derive(Debug)]
pub struct TsugiError {
    message: String,
}

impl View for TsugiError {
    type V = Seq<char>;

    /// The message.
    closed spec fn view(&self) -> Seq<char> {
        self.message@
    }
}

impl TsugiError {
    /// The error that carries `message`.
    pub fn new(message: String) -> (e: TsugiError)
        ensures
            e@ == message@,
    {
        TsugiError { message }
    }

    /// The message.
    pub fn message(&self) -> (r: &str)
        ensures
            r@ == self@,
    {
        self.message.as_str()
    }

    /// The text the error shows: `TsugiError: ` and the message.
    pub fn to_string(&self) -> (r: String)
        ensures
            r@ == "TsugiError: "@ + self@,
    {
        broadcast use vstd::string::group_string_axioms;
        let mut r: String = "TsugiError: ".to_string();
        r.append(self.message.as_str());
        r
    }
}

} // verus!
