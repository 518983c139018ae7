//! Argument-count checking for value functions, and casts from values to
//! plain argument types.

use vstd::prelude::*;
use crate::ctx::Context;
use crate::err::{Error, SpecError};
use crate::value::Value;

verus! {

/// A cast from a computed value to an argument type.
pub trait ArgCast: Sized {
    /// The value, coerced to this type.
    fn from_value(value: Value) -> Result<Self, Error>;
}

impl ArgCast for Value {
    fn from_value(value: Value) -> Result<Self, Error> {
        Ok(value)
    }
}

impl ArgCast for String {
    fn from_value(value: Value) -> Result<Self, Error> {
        Ok(value.as_string())
    }
}

impl ArgCast for usize {
    fn from_value(value: Value) -> Result<Self, Error> {
        match value {
            Value::Int(i) => Ok(
                #[verifier::truncate]
                (i as usize),
            ),
            Value::True => Ok(1),
            _ => Ok(0),
        }
    }
}

/// How many arguments a function accepts.
#[derive(Debug, Clone, Copy)]
pub enum Args {
    /// No arguments.
    Zero,
    /// Any number of arguments.
    Any,
    /// Exactly one.
    One,
    /// Exactly two.
    Two,
    /// Exactly three.
    Three,
    /// Zero or one.
    ZeroOne,
    /// Zero or two.
    ZeroTwo,
    /// Zero, one or two.
    ZeroOneTwo,
    /// One or two.
    OneTwo,
}

/// Whether an argument count fits the accepted arity.
pub open spec fn spec_arity_ok(size: Args, n: int) -> bool {
    match size {
        Args::Zero => n == 0,
        Args::Any => true,
        Args::One => n == 1,
        Args::Two => n == 2,
        Args::Three => n == 3,
        Args::ZeroOne => n == 0 || n == 1,
        Args::ZeroTwo => n == 0 || n == 2,
        Args::ZeroOneTwo => n == 0 || n == 1 || n == 2,
        Args::OneTwo => n == 1 || n == 2,
    }
}

/// The message reported for each arity.
pub open spec fn spec_arity_msg(size: Args) -> Seq<char> {
    match size {
        Args::Zero => "The function does not expect any arguments."@,
        Args::Any => Seq::empty(),
        Args::One => "The function expects 1 argument."@,
        Args::Two => "The function expects 2 arguments."@,
        Args::Three => "The function expects 3 arguments."@,
        Args::ZeroOne => "The function expects 0 or 1 arguments."@,
        Args::ZeroTwo => "The function expects 0 or 2 arguments."@,
        Args::ZeroOneTwo => "The function expects 0, 1, or 2 arguments."@,
        Args::OneTwo => "The function expects 1 or 2 arguments."@,
    }
}

/// Calls `func` when the argument count fits the accepted arity, and
/// reports `InvalidArguments` under the function's name when it does not.
pub fn check<F: Fn(&Context, Vec<Value>) -> Result<Value, Error>>(
    ctx: &Context,
    name: &str,
    args: Vec<Value>,
    size: Args,
    func: F,
) -> (r: Result<Value, Error>)
    requires
        call_requires(func, (ctx, args)),
    ensures
        !spec_arity_ok(size, args.deep_view().len() as int) ==> r is Err
            && r->Err_0.deep_view() == (SpecError::InvalidArguments {
            name: name@,
            message: spec_arity_msg(size),
        }),
        spec_arity_ok(size, args.deep_view().len() as int) ==> call_ensures(
            func,
            (ctx, args),
            r,
        ),
{
    let n = args.len();
    proof {
        assert(args.deep_view().len() == n);
    }
    let ok = match size {
        Args::Zero => n == 0,
        Args::Any => true,
        Args::One => n == 1,
        Args::Two => n == 2,
        Args::Three => n == 3,
        Args::ZeroOne => n == 0 || n == 1,
        Args::ZeroTwo => n == 0 || n == 2,
        Args::ZeroOneTwo => n == 0 || n == 1 || n == 2,
        Args::OneTwo => n == 1 || n == 2,
    };
    if ok {
        func(ctx, args)
    } else {
        let message = match size {
            Args::Zero => String::from_str("The function does not expect any arguments."),
            Args::Any => String::new(),
            Args::One => String::from_str("The function expects 1 argument."),
            Args::Two => String::from_str("The function expects 2 arguments."),
            Args::Three => String::from_str("The function expects 3 arguments."),
            Args::ZeroOne => String::from_str("The function expects 0 or 1 arguments."),
            Args::ZeroTwo => String::from_str("The function expects 0 or 2 arguments."),
            Args::ZeroOneTwo => String::from_str("The function expects 0, 1, or 2 arguments."),
            Args::OneTwo => String::from_str("The function expects 1 or 2 arguments."),
        };
        Err(Error::InvalidArguments { name: String::from_str(name), message })
    }
}

} // verus!
