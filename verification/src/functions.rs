use vstd::prelude::*;
use crate::error::{kind_of, CompileTimeError, Error, ErrorKind};
use crate::expression_analyser::ExpressionType;

verus! {

/// Lower-case version of a string, as computed by the standard library.
pub uninterp spec fn lowercase(s: Seq<char>) -> Seq<char>;

/// Characters that the lower-case mapping leaves unchanged: ASCII lower-case letters, digits and `_`.
pub open spec fn is_lower_identifier(s: Seq<char>) -> bool {
    forall|i: int| 0 <= i < s.len() ==> ('a' <= #[trigger] s[i] && s[i] <= 'z') || ('0' <= s[i] && s[i] <= '9') || s[i] == '_'
}

/// The character is ASCII.
pub open spec fn is_ascii_text(s: Seq<char>) -> bool {
    forall|i: int| 0 <= i < s.len() ==> (#[trigger] s[i] as u32) < 128
}

/// ASCII lower-case mapping: `A` to `Z` become `a` to `z`, every other character stays.
pub open spec fn ascii_lowercase(s: Seq<char>) -> Seq<char> {
    s.map_values(|c: char| if 'A' <= c && c <= 'Z' { ((c as u32) + 32) as char } else { c })
}

/// Lower-case version of `s`.
///
/// Calls `str::to_lowercase`; the contract claims that the result only depends on the text of `s`,
/// and names it `lowercase`, and that an ASCII string gets the ASCII mapping (`A` to `Z` become `a`
/// to `z`, the rest stays), as the Unicode lower-case mapping does for ASCII characters; what it
/// gives for other characters is not stated.
#[verifier::external_body]
pub fn to_lowercase(s: &String) -> (r: String)
    ensures
        r@ == lowercase(s@),
        is_lower_identifier(s@) ==> r@ == s@,
        is_ascii_text(s@) ==> r@ == ascii_lowercase(s@),
{
    s.to_lowercase()
}

/// `a` holds the text of the literal `b`.
pub fn eq_str(a: &String, b: &str) -> (r: bool)
    ensures
        r == (a@ == b@),
{
    let lit = String::from_str(b);
    *a == lit
}

/// How a function checks the types of its arguments at compile time.
pub enum ArgumentsCheck {
    /// No check: the function always has the given result type.
    Unchecked,
    /// Exactly one argument, whose type must be one of the given types, or a variant.
    OneOf(Seq<ExpressionType>),
}

/// Compile-time signature of a registered (non-aggregate) function.
pub struct FunctionSignature {
    pub name: Seq<char>,
    pub result: ExpressionType,
    pub check: ArgumentsCheck,
}

/// The registered functions, by lower-case name.
pub open spec fn function_signature(name: Seq<char>) -> Option<FunctionSignature> {
    if name == "head"@ {
        Some(FunctionSignature { name, result: ExpressionType::Variant, check: ArgumentsCheck::Unchecked })
    } else if name == "keys"@ {
        Some(FunctionSignature { name, result: ExpressionType::Array, check: ArgumentsCheck::OneOf(
            seq![ExpressionType::Mapping, ExpressionType::Node, ExpressionType::Edge, ExpressionType::Null]) })
    } else if name == "range"@ {
        Some(FunctionSignature { name, result: ExpressionType::Array, check: ArgumentsCheck::Unchecked })
    } else if name == "size"@ {
        Some(FunctionSignature { name, result: ExpressionType::Variant, check: ArgumentsCheck::Unchecked })
    } else if name == "type"@ {
        Some(FunctionSignature { name, result: ExpressionType::String, check: ArgumentsCheck::Unchecked })
    } else if name == "ceil"@ {
        Some(FunctionSignature { name, result: ExpressionType::Float, check: ArgumentsCheck::Unchecked })
    } else if name == "floor"@ {
        Some(FunctionSignature { name, result: ExpressionType::Float, check: ArgumentsCheck::Unchecked })
    } else if name == "rand"@ {
        Some(FunctionSignature { name, result: ExpressionType::Array, check: ArgumentsCheck::Unchecked })
    } else if name == "labels"@ {
        Some(FunctionSignature { name, result: ExpressionType::Array, check: ArgumentsCheck::Unchecked })
    } else if name == "length"@ {
        Some(FunctionSignature { name, result: ExpressionType::Variant, check: ArgumentsCheck::Unchecked })
    } else if name == "nodes"@ {
        Some(FunctionSignature { name, result: ExpressionType::Array, check: ArgumentsCheck::Unchecked })
    } else if name == "edges"@ {
        Some(FunctionSignature { name, result: ExpressionType::Array, check: ArgumentsCheck::Unchecked })
    } else if name == "coalesce"@ {
        Some(FunctionSignature { name, result: ExpressionType::Variant, check: ArgumentsCheck::Unchecked })
    } else if name == "properties"@ {
        Some(FunctionSignature { name, result: ExpressionType::Mapping, check: ArgumentsCheck::OneOf(
            seq![ExpressionType::Mapping, ExpressionType::Node, ExpressionType::Edge, ExpressionType::Null]) })
    } else if name == "tointeger"@ {
        Some(FunctionSignature { name, result: ExpressionType::Integer, check: ArgumentsCheck::Unchecked })
    } else if name == "tostring"@ {
        Some(FunctionSignature { name, result: ExpressionType::String, check: ArgumentsCheck::OneOf(
            seq![ExpressionType::Boolean, ExpressionType::Integer, ExpressionType::Float, ExpressionType::String, ExpressionType::Null]) })
    } else if name == "has_label"@ {
        Some(FunctionSignature { name, result: ExpressionType::Boolean, check: ArgumentsCheck::Unchecked })
    } else if name == "has_labels"@ {
        Some(FunctionSignature { name, result: ExpressionType::Boolean, check: ArgumentsCheck::Unchecked })
    } else {
        None
    }
}

/// Result type of the registered aggregators, by lower-case name.
pub open spec fn aggregator_result(name: Seq<char>) -> Option<ExpressionType> {
    if name == "count"@ {
        Some(ExpressionType::Integer)
    } else if name == "sum"@ {
        Some(ExpressionType::Integer)
    } else if name == "collect"@ {
        Some(ExpressionType::Integer)
    } else if name == "avg"@ {
        Some(ExpressionType::Variant)
    } else if name == "min"@ {
        Some(ExpressionType::Integer)
    } else if name == "max"@ {
        Some(ExpressionType::Integer)
    } else {
        None
    }
}

/// Outcome of checking argument types, without the error payloads.
pub enum CheckOutcome {
    Type(ExpressionType),
    UnknownFunction,
    InvalidNumberOfArguments,
    InvalidArgumentType,
}

/// Result type of a call of `name` with arguments of the given types.
pub open spec fn validate_arguments_spec(name: Seq<char>, arguments: Seq<ExpressionType>) -> CheckOutcome {
    let lower = lowercase(name);
    match function_signature(lower) {
        Some(sig) => match sig.check {
            ArgumentsCheck::Unchecked => CheckOutcome::Type(sig.result),
            ArgumentsCheck::OneOf(accepted) => if arguments.len() != 1 {
                CheckOutcome::InvalidNumberOfArguments
            } else if accepted.contains(arguments[0]) || arguments[0] == ExpressionType::Variant {
                CheckOutcome::Type(sig.result)
            } else {
                CheckOutcome::InvalidArgumentType
            },
        },
        None => match aggregator_result(lower) {
            Some(t) => CheckOutcome::Type(t),
            None => CheckOutcome::UnknownFunction,
        },
    }
}

/// The error corresponds to the outcome.
pub open spec fn check_error_matches(outcome: CheckOutcome, e: Error) -> bool {
    match outcome {
        CheckOutcome::Type(_) => false,
        CheckOutcome::UnknownFunction => e matches Error::CompileTime(CompileTimeError::UnknownFunction { .. }),
        CheckOutcome::InvalidNumberOfArguments => e matches Error::CompileTime(CompileTimeError::InvalidNumberOfArguments { .. }),
        CheckOutcome::InvalidArgumentType => e matches Error::CompileTime(CompileTimeError::InvalidArgumentType),
    }
}

/// Registry of the functions and aggregators available in queries. Names are looked up in lower case.
#[derive(Debug, Clone, Copy)]
pub struct Manager {}

/// Signature of the function named `lower`, in lower case.
fn lookup_function(lower: &String) -> (r: Option<(ExpressionType, Option<Vec<ExpressionType>>)>)
    ensures
        match function_signature(lower@) {
            Some(sig) => r matches Some((t, c)) && t == sig.result && match sig.check {
                ArgumentsCheck::Unchecked => c is None,
                ArgumentsCheck::OneOf(accepted) => c matches Some(v) && v@ == accepted,
            },
            None => r is None,
        },
{
    if eq_str(lower, "head") {
        Some((ExpressionType::Variant, None))
    } else if eq_str(lower, "keys") {
        let v = vec![ExpressionType::Mapping, ExpressionType::Node, ExpressionType::Edge, ExpressionType::Null];
        assert(v@ =~= seq![ExpressionType::Mapping, ExpressionType::Node, ExpressionType::Edge, ExpressionType::Null]);
        Some((ExpressionType::Array, Some(v)))
    } else if eq_str(lower, "range") {
        Some((ExpressionType::Array, None))
    } else if eq_str(lower, "size") {
        Some((ExpressionType::Variant, None))
    } else if eq_str(lower, "type") {
        Some((ExpressionType::String, None))
    } else if eq_str(lower, "ceil") {
        Some((ExpressionType::Float, None))
    } else if eq_str(lower, "floor") {
        Some((ExpressionType::Float, None))
    } else if eq_str(lower, "rand") {
        Some((ExpressionType::Array, None))
    } else if eq_str(lower, "labels") {
        Some((ExpressionType::Array, None))
    } else if eq_str(lower, "length") {
        Some((ExpressionType::Variant, None))
    } else if eq_str(lower, "nodes") {
        Some((ExpressionType::Array, None))
    } else if eq_str(lower, "edges") {
        Some((ExpressionType::Array, None))
    } else if eq_str(lower, "coalesce") {
        Some((ExpressionType::Variant, None))
    } else if eq_str(lower, "properties") {
        let v = vec![ExpressionType::Mapping, ExpressionType::Node, ExpressionType::Edge, ExpressionType::Null];
        assert(v@ =~= seq![ExpressionType::Mapping, ExpressionType::Node, ExpressionType::Edge, ExpressionType::Null]);
        Some((ExpressionType::Mapping, Some(v)))
    } else if eq_str(lower, "tointeger") {
        Some((ExpressionType::Integer, None))
    } else if eq_str(lower, "tostring") {
        let v = vec![ExpressionType::Boolean, ExpressionType::Integer, ExpressionType::Float, ExpressionType::String, ExpressionType::Null];
        assert(v@ =~= seq![ExpressionType::Boolean, ExpressionType::Integer, ExpressionType::Float, ExpressionType::String, ExpressionType::Null]);
        Some((ExpressionType::String, Some(v)))
    } else if eq_str(lower, "has_label") {
        Some((ExpressionType::Boolean, None))
    } else if eq_str(lower, "has_labels") {
        Some((ExpressionType::Boolean, None))
    } else {
        None
    }
}

/// Result type of the aggregator named `lower`, in lower case.
fn lookup_aggregator(lower: &String) -> (r: Option<ExpressionType>)
    ensures
        r == aggregator_result(lower@),
{
    if eq_str(lower, "count") {
        Some(ExpressionType::Integer)
    } else if eq_str(lower, "sum") {
        Some(ExpressionType::Integer)
    } else if eq_str(lower, "collect") {
        Some(ExpressionType::Integer)
    } else if eq_str(lower, "avg") {
        Some(ExpressionType::Variant)
    } else if eq_str(lower, "min") {
        Some(ExpressionType::Integer)
    } else if eq_str(lower, "max") {
        Some(ExpressionType::Integer)
    } else {
        None
    }
}

fn contains_type(v: &Vec<ExpressionType>, t: ExpressionType) -> (r: bool)
    ensures
        r == v@.contains(t),
{
    for i in 0..v.len()
        invariant
            forall|j: int| 0 <= j < i ==> v@[j] != t,
    {
        if v[i] == t {
            return true;
        }
    }
    false
}

/// Static name used in messages about the function `lower`: `keys`, `properties`, or else
/// `tostring`.
fn static_name(lower: &String) -> (r: &'static str)
    ensures
        r@ == (if lower@ == "keys"@ { "keys"@ } else if lower@ == "properties"@ { "properties"@ } else { "tostring"@ }),
{
    if eq_str(lower, "keys") {
        "keys"
    } else if eq_str(lower, "properties") {
        "properties"
    } else {
        "tostring"
    }
}

impl Manager {
    /// The registry of the built-in functions and aggregators.
    pub fn new() -> (r: Manager) {
        Manager {}
    }

    /// Whether `name` is a registered function (and not an aggregator).
    pub fn is_function(&self, name: &String) -> (r: bool)
        ensures
            r == function_signature(lowercase(name@)) is Some,
    {
        let lower = to_lowercase(name);
        lookup_function(&lower).is_some()
    }

    /// Whether `name`, taken as it is written, is a registered aggregator.
    pub fn is_aggregate(&self, name: &String) -> (r: bool)
        ensures
            r == aggregator_result(name@) is Some,
    {
        lookup_aggregator(name).is_some()
    }

    /// Whether `name`, in lower case, is a registered aggregator.
    pub fn has_aggregator(&self, name: &String) -> (r: bool)
        ensures
            r == aggregator_result(lowercase(name@)) is Some,
    {
        let lower = to_lowercase(name);
        lookup_aggregator(&lower).is_some()
    }

    /// Whether calls of the function give the same result for the same arguments:
    /// true for functions, false for aggregators.
    pub fn is_deterministic(&self, name: &String) -> (r: Result<bool, Error>)
        ensures
            function_signature(lowercase(name@)) is Some ==> r == Ok::<bool, Error>(true),
            function_signature(lowercase(name@)) is None && aggregator_result(lowercase(name@)) is Some
                ==> r == Ok::<bool, Error>(false),
            function_signature(lowercase(name@)) is None && aggregator_result(lowercase(name@)) is None
                ==> (r matches Err(Error::CompileTime(CompileTimeError::UnknownFunction { .. }))),
    {
        let lower = to_lowercase(name);
        if lookup_function(&lower).is_some() {
            Ok(true)
        } else if lookup_aggregator(&lower).is_some() {
            Ok(false)
        } else {
            Err(Error::CompileTime(CompileTimeError::UnknownFunction { name: name.clone() }))
        }
    }

    /// Checks the argument types of a call of `name`, and gives the type of its result.
    pub fn validate_arguments(&self, name: &String, arguments: &Vec<ExpressionType>) -> (r: Result<ExpressionType, Error>)
        ensures
            match validate_arguments_spec(name@, arguments@) {
                CheckOutcome::Type(t) => r == Ok::<ExpressionType, Error>(t),
                outcome => r matches Err(e) && check_error_matches(outcome, e),
            },
    {
        let lower = to_lowercase(name);
        match lookup_function(&lower) {
            Some((result, check)) => match check {
                None => Ok(result),
                Some(accepted) => {
                    if arguments.len() != 1 {
                        Err(Error::CompileTime(CompileTimeError::InvalidNumberOfArguments {
                            function_name: static_name(&lower),
                            got: arguments.len(),
                            expected: 1,
                        }))
                    } else if contains_type(&accepted, arguments[0]) || arguments[0] == ExpressionType::Variant {
                        Ok(result)
                    } else {
                        Err(Error::CompileTime(CompileTimeError::InvalidArgumentType))
                    }
                },
            },
            None => match lookup_aggregator(&lower) {
                Some(t) => Ok(t),
                None => Err(Error::CompileTime(CompileTimeError::UnknownFunction { name: name.clone() })),
            },
        }
    }

    /// The function registered under `name`, in lower case: its registry name.
    pub fn get_function(&self, name: &String) -> (r: Result<String, Error>)
        ensures
            match r {
                Ok(f) => function_signature(lowercase(name@)) is Some && f@ == lowercase(name@),
                Err(e) => function_signature(lowercase(name@)) is None && kind_of(e) == ErrorKind::UnknownFunction,
            },
            r matches Err(Error::CompileTime(CompileTimeError::UnknownFunction { name: n })) ==> n@ == name@,
            r is Err ==> r matches Err(Error::CompileTime(CompileTimeError::UnknownFunction { .. })),
            is_lower_identifier(name@) ==> lowercase(name@) == name@,
    {
        let lower = to_lowercase(name);
        if lookup_function(&lower).is_some() {
            Ok(lower)
        } else {
            Err(Error::CompileTime(CompileTimeError::UnknownFunction { name: name.clone() }))
        }
    }
}

} // verus!
