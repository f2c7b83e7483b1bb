//! Validated request extraction: a decode-then-validate gate in front of
//! every handler that accepts untrusted input. Schema decoding happens at
//! the transport edge; this module decides, and the two failure axes stay
//! distinguishable.
use vstd::prelude::*;

use crate::error::{ClientError, Error, ValidationErrors, FieldError};

verus! {

/// `(field, code)` pairs of a violation list.
pub open spec fn violations_view(s: Seq<FieldError>) -> Seq<(Seq<char>, Seq<char>)> {
    s.map_values(|f: FieldError| (f.field@, f.code@))
}

/// Semantic validation of a decoded payload: `valid` says whether every
/// domain rule holds, `spec_violations` lists the violated rules in field
/// order, and `validate` reports exactly those.
pub trait Validate: Sized {
    spec fn valid(&self) -> bool;

    spec fn spec_violations(&self) -> Seq<(Seq<char>, Seq<char>)>;

    fn validate(&self) -> (r: Result<(), ValidationErrors>)
        ensures
            r is Ok <==> self.valid(),
            match r {
                Ok(()) => true,
                Err(e) => violations_view(e.errors@) == self.spec_violations() && e.errors@.len()
                    > 0,
            },
    ;
}

/// A JSON body that passed both gates.
pub struct ValidJson<T>(pub T);

/// A query string that passed both gates.
pub struct ValidQuery<T>(pub T);

/// A form body that passed both gates.
pub struct ValidForm<T>(pub T);

impl<T: Validate> ValidJson<T> {
    /// Gates a decoded body: a schema failure and a semantic failure map to
    /// distinct client errors, and a handler sees the value only when both
    /// gates passed.
    pub fn from_decoded(d: Result<T, String>) -> (r: Result<ValidJson<T>, Error>)
        ensures
            match d {
                Err(msg) => r == Err::<ValidJson<T>, Error>(
                    Error::ClientError(ClientError::InvalidBodySchema(msg)),
                ),
                Ok(v) => if v.valid() {
                    r == Ok::<ValidJson<T>, Error>(ValidJson(v))
                } else {
                    match r {
                        Err(Error::ClientError(ClientError::InvalidBody(ve))) => violations_view(
                            ve.errors@,
                        ) == v.spec_violations(),
                        _ => false,
                    }
                },
            },
    {
        match d {
            Err(msg) => Err(Error::ClientError(ClientError::InvalidBodySchema(msg))),
            Ok(v) => match v.validate() {
                Ok(()) => Ok(ValidJson(v)),
                Err(e) => Err(Error::ClientError(ClientError::InvalidBody(e))),
            },
        }
    }
}

impl<T: Validate> ValidQuery<T> {
    /// Gates a decoded query string, as `ValidJson::from_decoded` does a
    /// body, with the query-flavoured error variants.
    pub fn from_decoded(d: Result<T, String>) -> (r: Result<ValidQuery<T>, Error>)
        ensures
            match d {
                Err(msg) => r == Err::<ValidQuery<T>, Error>(
                    Error::ClientError(ClientError::InvalidQuerySchema(msg)),
                ),
                Ok(v) => if v.valid() {
                    r == Ok::<ValidQuery<T>, Error>(ValidQuery(v))
                } else {
                    match r {
                        Err(Error::ClientError(ClientError::InvalidQuery(ve))) => violations_view(
                            ve.errors@,
                        ) == v.spec_violations(),
                        _ => false,
                    }
                },
            },
    {
        match d {
            Err(msg) => Err(Error::ClientError(ClientError::InvalidQuerySchema(msg))),
            Ok(v) => match v.validate() {
                Ok(()) => Ok(ValidQuery(v)),
                Err(e) => Err(Error::ClientError(ClientError::InvalidQuery(e))),
            },
        }
    }
}

impl<T: Validate> ValidForm<T> {
    /// Gates a decoded form body; forms are request bodies, so failures use
    /// the body-flavoured error variants.
    pub fn from_decoded(d: Result<T, String>) -> (r: Result<ValidForm<T>, Error>)
        ensures
            match d {
                Err(msg) => r == Err::<ValidForm<T>, Error>(
                    Error::ClientError(ClientError::InvalidBodySchema(msg)),
                ),
                Ok(v) => if v.valid() {
                    r == Ok::<ValidForm<T>, Error>(ValidForm(v))
                } else {
                    match r {
                        Err(Error::ClientError(ClientError::InvalidBody(ve))) => violations_view(
                            ve.errors@,
                        ) == v.spec_violations(),
                        _ => false,
                    }
                },
            },
    {
        match d {
            Err(msg) => Err(Error::ClientError(ClientError::InvalidBodySchema(msg))),
            Ok(v) => match v.validate() {
                Ok(()) => Ok(ValidForm(v)),
                Err(e) => Err(Error::ClientError(ClientError::InvalidBody(e))),
            },
        }
    }
}

} // verus!
