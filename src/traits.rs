//! Conversions of single arguments, as extension traits on raw tokens
//! (`Vec<u8>`) and on tokens that may be absent (`Option<Vec<u8>>`).
use crate::error::{CliError, ErrorView};
use crate::types::{ArgType, IntWidth};
use crate::value::{convert, convert_spec, result_view, to_text, token_text, Value, ValueView};
use vstd::prelude::*;

verus! {

/// What a text conversion of an argument yields.
pub open spec fn text_result(arg: Option<Seq<u8>>, name: Seq<char>) -> Result<Seq<char>, ErrorView> {
    match arg {
        None => Err(ErrorView::MissingValue(name)),
        Some(t) => match token_text(t) {
            Some(s) => Ok(s),
            None => Err(ErrorView::ParseStrError(name, t)),
        },
    }
}

/// What a conversion of an argument to kind `ty` yields.
pub open spec fn value_result(arg: Option<Seq<u8>>, ty: ArgType, name: Seq<char>) -> Result<ValueView, ErrorView> {
    match arg {
        None => Err(ErrorView::MissingValue(name)),
        Some(t) => convert_spec(t, ty, name),
    }
}

pub open spec fn string_result_view(r: Result<String, CliError>) -> Result<Seq<char>, ErrorView> {
    match r {
        Ok(s) => Ok(s@),
        Err(e) => Err(e@),
    }
}

pub open spec fn bytes_result_view(r: Result<Vec<u8>, CliError>) -> Result<Seq<u8>, ErrorView> {
    match r {
        Ok(b) => Ok(b@),
        Err(e) => Err(e@),
    }
}

/// Parsers for one argument. `name` is the argument's spelling, for errors.
pub trait ArgExt: Sized {
    /// The token, if there is one.
    spec fn arg(&self) -> Option<Seq<u8>>;

    /// The argument as UTF-8 text.
    fn parse_str(self, name: &String) -> (r: Result<String, CliError>)
        ensures
            string_result_view(r) == text_result(self.arg(), name@),
    ;

    /// The argument as a path.
    fn parse_path(self, name: &String) -> (r: Result<Vec<u8>, CliError>)
        ensures
            bytes_result_view(r) == match self.arg() {
                Some(t) => Ok(t),
                None => Err::<Seq<u8>, ErrorView>(ErrorView::MissingValue(name@)),
            },
    ;

    /// The argument as platform text.
    fn parse_osstr(self, name: &String) -> (r: Result<Vec<u8>, CliError>)
        ensures
            bytes_result_view(r) == match self.arg() {
                Some(t) => Ok(t),
                None => Err::<Seq<u8>, ErrorView>(ErrorView::MissingValue(name@)),
            },
    ;

    /// The argument as an integer of width `w`.
    fn parse_int(self, name: &String, w: IntWidth) -> (r: Result<Value, CliError>)
        ensures
            result_view(r) == value_result(self.arg(), ArgType::Integer(w), name@),
    ;

    /// The argument as the text of a floating-point number.
    fn parse_float(self, name: &String) -> (r: Result<Value, CliError>)
        ensures
            result_view(r) == value_result(self.arg(), ArgType::Float, name@),
    ;
}

impl ArgExt for Vec<u8> {
    open spec fn arg(&self) -> Option<Seq<u8>> {
        Some(self@)
    }

    fn parse_str(self, name: &String) -> (r: Result<String, CliError>) {
        match to_text(&self) {
            Some(s) => Ok(s),
            None => Err(CliError::ParseStrError(name.clone(), self)),
        }
    }

    fn parse_path(self, name: &String) -> (r: Result<Vec<u8>, CliError>) {
        Ok(self)
    }

    fn parse_osstr(self, name: &String) -> (r: Result<Vec<u8>, CliError>) {
        Ok(self)
    }

    fn parse_int(self, name: &String, w: IntWidth) -> (r: Result<Value, CliError>) {
        convert(&self, ArgType::Integer(w), name)
    }

    fn parse_float(self, name: &String) -> (r: Result<Value, CliError>) {
        convert(&self, ArgType::Float, name)
    }
}

impl ArgExt for Option<Vec<u8>> {
    open spec fn arg(&self) -> Option<Seq<u8>> {
        match self {
            Some(t) => Some(t@),
            None => None,
        }
    }

    fn parse_str(self, name: &String) -> (r: Result<String, CliError>) {
        match self {
            Some(t) => t.parse_str(name),
            None => Err(CliError::MissingValue(name.clone())),
        }
    }

    fn parse_path(self, name: &String) -> (r: Result<Vec<u8>, CliError>) {
        match self {
            Some(t) => Ok(t),
            None => Err(CliError::MissingValue(name.clone())),
        }
    }

    fn parse_osstr(self, name: &String) -> (r: Result<Vec<u8>, CliError>) {
        match self {
            Some(t) => Ok(t),
            None => Err(CliError::MissingValue(name.clone())),
        }
    }

    fn parse_int(self, name: &String, w: IntWidth) -> (r: Result<Value, CliError>) {
        match self {
            Some(t) => t.parse_int(name, w),
            None => Err(CliError::MissingValue(name.clone())),
        }
    }

    fn parse_float(self, name: &String) -> (r: Result<Value, CliError>) {
        match self {
            Some(t) => t.parse_float(name),
            None => Err(CliError::MissingValue(name.clone())),
        }
    }
}

/// Unwraps an argument that the command line must give.
pub trait RequiredArgExt: Sized {
    type Inner;

    /// Whether the argument was given (a value, or a non-empty collection).
    spec fn given(&self) -> bool;

    /// The argument itself, once given.
    spec fn inner(&self) -> Self::Inner;

    fn required(self, name: &String) -> (r: Result<Self::Inner, CliError>)
        ensures
            self.given() ==> r == Ok::<Self::Inner, CliError>(self.inner()),
            !self.given() ==> r is Err && r->Err_0@ == ErrorView::MissingRequired(name@),
    ;
}

impl<T> RequiredArgExt for Option<T> {
    type Inner = T;

    open spec fn given(&self) -> bool {
        self is Some
    }

    open spec fn inner(&self) -> T {
        self->0
    }

    fn required(self, name: &String) -> (r: Result<T, CliError>) {
        match self {
            Some(v) => Ok(v),
            None => Err(CliError::MissingRequired(name.clone())),
        }
    }
}

impl<T> RequiredArgExt for Vec<T> {
    type Inner = Vec<T>;

    open spec fn given(&self) -> bool {
        self@.len() > 0
    }

    open spec fn inner(&self) -> Vec<T> {
        *self
    }

    fn required(self, name: &String) -> (r: Result<Vec<T>, CliError>) {
        if self.len() == 0 {
            Err(CliError::MissingRequired(name.clone()))
        } else {
            Ok(self)
        }
    }
}

} // verus!
