use vstd::prelude::*;
use graphcore::Error as GraphError;
use graphcore::Value as GraphValue;

verus! {

/// graphcore's value type, which its operators take and give.
#[verifier::external_type_specification]
#[verifier::external_body]
pub struct ExGraphValue(GraphValue);

/// graphcore's error type, which its operators report.
#[verifier::external_type_specification]
#[verifier::external_body]
pub struct ExGraphError(GraphError);

} // verus!
