//! Reading the three JSON reply shapes the vision model returns, and
//! building the image payload of a request.
//!
//! The model's reply text may wrap its JSON in Markdown code fences;
//! those are stripped by verified code. The JSON reading itself is done
//! by an outside parser behind trusted wrappers whose results are
//! named: what a given reply text parses to is a function of that text
//! alone.

use crate::aggregate::ViewportPoint;
use crate::text::fences_stripped;
use base64::Engine;
use vstd::prelude::*;

verus! {

/// What a click-point reply parses to: the `x` and `y` integers and the
/// `double` flag (false when absent) of the JSON object, or nothing
/// when the text is not a JSON object of that shape.
pub uninterp spec fn point_reply_of(s: Seq<char>) -> Option<(i64, i64, bool)>;

/// Relies on serde_json: parse a JSON object and read its `x`, `y` and
/// `double` members. `x` and `y` must be integers; a missing `double`
/// reads as false. The result depends on the text alone.
#[verifier::external_body]
fn parse_point_fields(s: &str) -> (r: Option<(i64, i64, bool)>)
    ensures
        r == point_reply_of(s@),
{
    let v: serde_json::Value = match serde_json::from_str(s) {
        Ok(v) => v,
        Err(_) => return None,
    };
    let x = v.get("x")?.as_i64()?;
    let y = v.get("y")?.as_i64()?;
    let d = match v.get("double") {
        Some(b) => b.as_bool().unwrap_or(false),
        None => false,
    };
    Some((x, y, d))
}

/// What a candidate-decision reply parses to: `None` when the text is
/// not a JSON object or its `id` member is not a non-negative integer;
/// `Some(None)` for an object with no `id` (or a null one); otherwise
/// the chosen id.
pub uninterp spec fn decision_reply_of(s: Seq<char>) -> Option<Option<u64>>;

/// Relies on serde_json: parse a JSON object and read its optional
/// `id` member. The result depends on the text alone.
#[verifier::external_body]
fn parse_decision_fields(s: &str) -> (r: Option<Option<u64>>)
    ensures
        r == decision_reply_of(s@),
{
    let v: serde_json::Value = match serde_json::from_str(s) {
        Ok(v) => v,
        Err(_) => return None,
    };
    if !v.is_object() {
        return None;
    }
    match v.get("id") {
        None => Some(None),
        Some(x) if x.is_null() => Some(None),
        Some(x) => match x.as_u64() {
            Some(u) => Some(Some(u)),
            None => None,
        },
    }
}

/// What a yes/no validation reply parses to: the `answer` boolean of
/// the JSON object, or nothing when the text is not a JSON object with
/// a boolean `answer`.
pub uninterp spec fn validation_reply_of(s: Seq<char>) -> Option<bool>;

/// Relies on serde_json: parse a JSON object and read its boolean
/// `answer` member. The result depends on the text alone.
#[verifier::external_body]
fn parse_validation_fields(s: &str) -> (r: Option<bool>)
    ensures
        r == validation_reply_of(s@),
{
    let v: serde_json::Value = match serde_json::from_str(s) {
        Ok(v) => v,
        Err(_) => return None,
    };
    let a = v.get("answer")?.as_bool()?;
    Some(a)
}

/// A click-point reply, after fence stripping and range checking.
pub open spec fn spec_point_reply(s: Seq<char>) -> Option<ViewportPoint> {
    match point_reply_of(fences_stripped(s)) {
        None => None,
        Some((x, y, d)) => if i32::MIN <= x <= i32::MAX && i32::MIN <= y <= i32::MAX {
            Some(ViewportPoint { x: x as i32, y: y as i32, double: d })
        } else {
            None
        },
    }
}

/// Read a click-point reply `{"x":int,"y":int,"double":bool}`, possibly
/// wrapped in code fences. Coordinates outside the pixel range are
/// rejected like any other malformed reply.
pub fn parse_point_reply(s: &str) -> (r: Option<ViewportPoint>)
    ensures
        r == spec_point_reply(s@),
{
    let cleaned = crate::text::strip_code_fences(s);
    match parse_point_fields(cleaned) {
        None => None,
        Some((x, y, d)) => {
            if i32::MIN as i64 <= x && x <= i32::MAX as i64 && i32::MIN as i64 <= y && y
                <= i32::MAX as i64 {
                Some(ViewportPoint { x: x as i32, y: y as i32, double: d })
            } else {
                None
            }
        },
    }
}

/// A candidate-decision reply, after fence stripping and range
/// checking.
pub open spec fn spec_decision_reply(s: Seq<char>) -> Option<Option<usize>> {
    match decision_reply_of(fences_stripped(s)) {
        None => None,
        Some(None) => Some(None),
        Some(Some(u)) => if u <= usize::MAX {
            Some(Some(u as usize))
        } else {
            None
        },
    }
}

/// Read a candidate-decision reply `{"id":int,...}`, possibly wrapped
/// in code fences: `None` for an unreadable reply, `Some(None)` for a
/// readable one without an id.
pub fn parse_decision_reply(s: &str) -> (r: Option<Option<usize>>)
    ensures
        r == spec_decision_reply(s@),
{
    let cleaned = crate::text::strip_code_fences(s);
    match parse_decision_fields(cleaned) {
        None => None,
        Some(None) => Some(None),
        Some(Some(u)) => {
            if u <= usize::MAX as u64 {
                Some(Some(u as usize))
            } else {
                None
            }
        },
    }
}

/// A validation reply, after fence stripping.
pub open spec fn spec_validation_reply(s: Seq<char>) -> Option<bool> {
    validation_reply_of(fences_stripped(s))
}

/// Read a yes/no validation reply `{"answer":bool,...}`, possibly
/// wrapped in code fences.
pub fn parse_validation_reply(s: &str) -> (r: Option<bool>)
    ensures
        r == spec_validation_reply(s@),
{
    let cleaned = crate::text::strip_code_fences(s);
    parse_validation_fields(cleaned)
}

/// What the standard padded base64 encoding of some bytes is.
pub uninterp spec fn base64_of(s: Seq<u8>) -> Seq<char>;

/// Relies on base64's standard engine: four alphabet characters for
/// every three input bytes, padded; the encoding depends on the bytes
/// alone. The length bound keeps the output size computable.
#[verifier::external_body]
fn base64_standard(b: &Vec<u8>) -> (r: String)
    requires
        b@.len() <= usize::MAX / 8,
    ensures
        r@ == base64_of(b@),
        r@.len() == 4 * ((b@.len() + 2) / 3),
{
    base64::engine::general_purpose::STANDARD.encode(b)
}

/// The data URL a screenshot is sent under.
pub open spec fn spec_image_data_url(png: Seq<u8>) -> Seq<char> {
    "data:image/png;base64,"@ + base64_of(png)
}

/// Frame a PNG as a base64 data URL for the vision request.
pub fn image_data_url(png: &Vec<u8>) -> (r: String)
    requires
        png@.len() <= usize::MAX / 8,
    ensures
        r@ == spec_image_data_url(png@),
{
    let mut out = String::from_str("data:image/png;base64,");
    let b = base64_standard(png);
    out.append(b.as_str());
    out
}

} // verus!
