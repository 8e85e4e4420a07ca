//! The admission review a webhook receives and the answer it gives: what it
//! reads of the request, and the refusal it writes.
use vstd::prelude::*;

use crate::json::{JsonValue, JsonView};
use crate::pointer::{resolve_spec, JsonPointer};

verus! {

/// Why an admission review could not be read.
#[derive(Debug, PartialEq, Eq, Structural, Clone, Copy)]
pub enum ReviewError {
    /// The review has no `request`.
    MissingRequest,
    /// The request names no kind (`kind.kind`, a string).
    MissingKind,
    /// The request carries no `object`.
    MissingObject,
}

/// What a review says: the kind of the object under review and the object
/// itself, read from `request.kind.kind` and `request.object`.
pub open spec fn review_parts_spec(review: JsonView) -> Result<(Seq<char>, JsonView), ReviewError> {
    match resolve_spec(review, seq!["request"@]) {
        None => Err(ReviewError::MissingRequest),
        Some(request) => match resolve_spec(request, seq!["kind"@, "kind"@]) {
            Some(JsonView::Str(kind)) => match resolve_spec(request, seq!["object"@]) {
                Some(object) => Ok((kind, object)),
                None => Err(ReviewError::MissingObject),
            },
            _ => Err(ReviewError::MissingKind),
        },
    }
}

fn pointer_of(tokens: Vec<String>) -> (r: JsonPointer)
    ensures
        r@ == tokens@.map_values(|t: String| t@),
{
    JsonPointer { tokens }
}

/// Reads the kind and the object of the request under review.
pub fn review_parts(review: &JsonValue) -> (r: Result<(String, JsonValue), ReviewError>)
    ensures
        match review_parts_spec(review@) {
            Ok((kind, object)) => r matches Ok((k, o)) && k@ == kind && o@ == object,
            Err(e) => r == Err::<(String, JsonValue), ReviewError>(e),
        },
{
    let request_path = pointer_of(vec![String::from_str("request")]);
    assert(request_path@ =~= seq!["request"@]);
    let request = match request_path.resolve(review) {
        Some(x) => x,
        None => {
            return Err(ReviewError::MissingRequest);
        },
    };
    let kind_path = pointer_of(vec![String::from_str("kind"), String::from_str("kind")]);
    assert(kind_path@ =~= seq!["kind"@, "kind"@]);
    let kind = match kind_path.resolve(request) {
        Some(JsonValue::String(k)) => k.clone(),
        _ => {
            return Err(ReviewError::MissingKind);
        },
    };
    let object_path = pointer_of(vec![String::from_str("object")]);
    assert(object_path@ =~= seq!["object"@]);
    match object_path.resolve(request) {
        Some(o) => Ok((kind, o.duplicate())),
        None => Err(ReviewError::MissingObject),
    }
}

/// The refusal a webhook named `name` writes when the checks do not admit.
pub open spec fn refusal_message(name: Seq<char>) -> Seq<char> {
    "fail json path validation/mutation on "@ + name
}

/// The answer to a review: admitted (`None`) exactly when the verdict is
/// true, else refused with a message naming the webhook.
pub fn admission(name: &str, verdict: bool) -> (r: Option<String>)
    ensures
        r is None <==> verdict,
        r matches Some(m) ==> m@ == refusal_message(name@),
{
    if verdict {
        None
    } else {
        let mut m = String::from_str("fail json path validation/mutation on ");
        m.append(name);
        Some(m)
    }
}

} // verus!
