use vstd::prelude::*;

verus! {

/// The error of turning serialized values into rows.
#[derive(Debug)]
pub enum Error {
    Generic(String),
}

impl Error {
    /// A generic error with the message `msg`.
    pub fn generic(msg: &str) -> (e: Self)
        ensures
            e matches Error::Generic(m) && m@ == msg@,
    {
        Error::Generic(msg.to_owned())
    }

    /// "sql ser error: " followed by the message.
    pub fn display_text(&self) -> (r: String)
        ensures
            self matches Error::Generic(m) && r@ == "sql ser error: "@ + m@,
    {
        match self {
            Error::Generic(msg) => {
                let mut r = String::new();
                r.append("sql ser error: ");
                r.append(msg.as_str());
                r
            },
        }
    }
}

} // verus!
