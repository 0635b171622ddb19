use vstd::prelude::*;

verus! {

/// General categories of error the tracer can report.
#[derive(Clone, Copy, Debug, PartialEq, Eq, Structural)]
pub enum ErrorEnum {
    /// The matrix is not inversible.
    NotInversible,
}

#[derive(Debug, Clone)]
enum Repr {
    Simple(ErrorEnum),
    // &str is a fat pointer, but &&str is a thin pointer.
    SimpleMessage(ErrorEnum, &'static &'static str),
}

/// An error surfaced by the rendering core, carrying its category and
/// optionally a constant message.
#[derive(Debug, Clone)]
pub struct RayTracerError {
    repr: Repr,
}

impl ErrorEnum {
    /// The constant description of this error category.
    pub fn as_str(&self) -> (r: &'static str)
        ensures
            r@ == "Not Inversible"@,
    {
        match *self {
            ErrorEnum::NotInversible => "Not Inversible",
        }
    }
}

impl RayTracerError {
    /// The category this error was built with.
    pub closed spec fn kind_spec(&self) -> ErrorEnum {
        match self.repr {
            Repr::Simple(kind) => kind,
            Repr::SimpleMessage(kind, _) => kind,
        }
    }

    /// The constant message this error was built with, if any.
    pub closed spec fn message_spec(&self) -> Option<Seq<char>> {
        match self.repr {
            Repr::Simple(_) => Option::None,
            Repr::SimpleMessage(_, message) => Option::Some(message@),
        }
    }

    /// Creates a new error from a known kind of error as well as a
    /// constant message.
    ///
    /// This function does not allocate.
    #[inline]
    pub fn new(kind: ErrorEnum, message: &'static &'static str) -> (r: RayTracerError)
        ensures
            r.kind_spec() == kind,
            r.message_spec() == Option::Some(message@),
    {
        Self { repr: Repr::SimpleMessage(kind, message) }
    }

    /// Creates a new error from a known kind of error.
    ///
    /// This function does not allocate.
    #[inline]
    pub fn new_simple(kind: ErrorEnum) -> (r: RayTracerError)
        ensures
            r.kind_spec() == kind,
            r.message_spec() is None,
    {
        Self { repr: Repr::Simple(kind) }
    }

    /// Returns the corresponding [`ErrorEnum`] for this error.
    #[inline]
    pub fn kind(&self) -> (k: ErrorEnum)
        ensures
            k == self.kind_spec(),
    {
        match self.repr {
            Repr::Simple(kind) => kind,
            Repr::SimpleMessage(kind, _) => kind,
        }
    }

    /// The single human-readable line describing this error: its message
    /// where it carries one, the description of its category otherwise.
    pub fn message(&self) -> (r: &'static str)
        ensures
            r@ == match self.message_spec() {
                Option::Some(message) => message,
                Option::None => "Not Inversible"@,
            },
    {
        match self.repr {
            Repr::Simple(kind) => kind.as_str(),
            Repr::SimpleMessage(_, message) => *message,
        }
    }
}

} // verus!
