//! What a refused request is answered.
use vstd::prelude::*;

verus! {

/// Why a discovery fails.
#[derive(Debug, Clone, Copy, PartialEq, Eq, Structural)]
pub enum DiscoveryFailure {
    /// The request has no meaning.
    InvalidRequest,
    /// The context that the request names cannot be had.
    UnavailableContext,
    /// Lean could not be asked.
    Infrastructure,
}

/// A refusal, with the message that the user reads, and its class where it has one.
#[derive(Debug)]
pub struct Failure {
    pub message: String,
    pub class: Option<DiscoveryFailure>,
}

impl View for Failure {
    type V = Seq<char>;

    open spec fn view(&self) -> Seq<char> {
        self.message@
    }
}

impl Failure {
    /// The message, as its own text.
    pub fn to_text(&self) -> (r: String)
        ensures
            r@ == self@,
    {
        self.message.clone()
    }

    /// The same refusal under a class.
    pub fn classed(self, class: DiscoveryFailure) -> (r: Self)
        ensures
            r@ == self@,
            r.class == Some(class),
    {
        Failure { message: self.message, class: Some(class) }
    }
}

/// A refusal with the given message.
pub fn refuse<T>(message: &str) -> (r: Result<T, Failure>)
    ensures
        r matches Err(e) && e@ == message@ && e.class is None,
{
    Err(Failure { message: message.to_owned(), class: None })
}

/// A refusal of a class with the given message.
pub fn refuse_as<T>(message: &str, class: DiscoveryFailure) -> (r: Result<T, Failure>)
    ensures
        r matches Err(e) && e@ == message@ && e.class == Some(class),
{
    Err(Failure { message: message.to_owned(), class: Some(class) })
}

/// The view of an answer without a value.
pub open spec fn unit_view(r: Result<(), Failure>) -> Result<(), Seq<char>> {
    match r {
        Ok(_) => Ok(()),
        Err(e) => Err(e@),
    }
}

/// The view of an answer in text.
pub open spec fn text_view(r: Result<String, Failure>) -> Result<Seq<char>, Seq<char>> {
    match r {
        Ok(t) => Ok(t@),
        Err(e) => Err(e@),
    }
}

} // verus!
