//! Error type of the core. It crosses the UI boundary as its readable message.
use vstd::prelude::*;

verus! {

#[derive(Debug, Clone, PartialEq)]
pub enum Error {
    /// The mechanism behind a provider cannot be reached (or no such provider is registered).
    Unavailable(String),
    /// No job with that id.
    NotFound(String),
    /// A global id without the `provider:local_id` shape.
    InvalidId(String),
    /// The provider cannot carry out that operation.
    Unsupported(String),
    /// A D-Bus call failed; holds the bus error's text.
    Dbus(String),
    /// Any other failure, already worded.
    Other(String),
}

impl Error {
    /// The readable message the UI shows for this error.
    pub open spec fn spec_message(&self) -> Seq<char> {
        match self {
            Error::Unavailable(s) => "provider indisponível: "@ + s@,
            Error::NotFound(s) => "job não encontrado: "@ + s@,
            Error::InvalidId(s) => "id de job inválido (esperado 'provider:local_id'): "@ + s@,
            Error::Unsupported(s) => "operação não suportada: "@ + s@,
            Error::Dbus(s) => "erro de D-Bus: "@ + s@,
            Error::Other(s) => s@,
        }
    }

    /// Renders the readable message.
    pub fn message(&self) -> (m: String)
        ensures
            m@ == self.spec_message(),
    {
        match self {
            Error::Unavailable(s) => String::from_str("provider indisponível: ").concat(s.as_str()),
            Error::NotFound(s) => String::from_str("job não encontrado: ").concat(s.as_str()),
            Error::InvalidId(s) => String::from_str(
                "id de job inválido (esperado 'provider:local_id'): ",
            ).concat(s.as_str()),
            Error::Unsupported(s) => String::from_str("operação não suportada: ").concat(
                s.as_str(),
            ),
            Error::Dbus(s) => String::from_str("erro de D-Bus: ").concat(s.as_str()),
            Error::Other(s) => s.clone(),
        }
    }
}

} // verus!
