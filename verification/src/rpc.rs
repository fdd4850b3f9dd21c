//! JSON-RPC message text: the fields of a request are read through
//! serde_json; replies are written here, piece by piece, as JSON text.
use vstd::prelude::*;
use crate::format::join_with;
use crate::text::{decimal, push_decimal, push_str};

verus! {

/// The string serde_json finds at JSON pointer `ptr` in the message `raw`:
/// none where `raw` is not JSON or holds no string there.
pub uninterp spec fn json_str_at(raw: Seq<char>, ptr: Seq<char>) -> Option<Seq<char>>;

/// The JSON text serde_json writes for the value at pointer `ptr` of the
/// message `raw`: none where `raw` is not JSON or holds nothing there.
pub uninterp spec fn json_value_at(raw: Seq<char>, ptr: Seq<char>) -> Option<Seq<char>>;

/// The unsigned integer serde_json finds at pointer `ptr` of the message
/// `raw`: none where `raw` is not JSON or holds no such number there.
pub uninterp spec fn json_u64_at(raw: Seq<char>, ptr: Seq<char>) -> Option<u64>;

/// `serde_json::from_str::<Value>`, then `Value::pointer`: the string at
/// that place, if the text parses and a string stands there. Claimed: the
/// result is `json_str_at` of the arguments.
#[verifier::external_body]
pub(crate) fn json_str(raw: &str, ptr: &str) -> (r: Option<String>)
    ensures
        r matches Some(s) ==> json_str_at(raw@, ptr@) == Some(s@),
        r is None ==> json_str_at(raw@, ptr@) is None,
{
    let v: serde_json::Value = match serde_json::from_str(raw) {
        Ok(v) => v,
        Err(_) => return None,
    };
    match v.pointer(ptr) {
        Some(serde_json::Value::String(s)) => Some(s.clone()),
        _ => None,
    }
}

/// `serde_json::from_str::<Value>`, then `Value::pointer`, then the value's
/// `to_string`: the compact JSON text of what stands there. Claimed: the
/// result is `json_value_at` of the arguments.
#[verifier::external_body]
pub(crate) fn json_value(raw: &str, ptr: &str) -> (r: Option<String>)
    ensures
        r matches Some(s) ==> json_value_at(raw@, ptr@) == Some(s@),
        r is None ==> json_value_at(raw@, ptr@) is None,
{
    let v: serde_json::Value = match serde_json::from_str(raw) {
        Ok(v) => v,
        Err(_) => return None,
    };
    match v.pointer(ptr) {
        Some(x) => Some(x.to_string()),
        None => None,
    }
}

/// `serde_json::from_str::<Value>`, then `Value::pointer`, then
/// `Value::as_u64`. Claimed: the result is `json_u64_at` of the arguments.
#[verifier::external_body]
pub(crate) fn json_u64(raw: &str, ptr: &str) -> (r: Option<u64>)
    ensures
        r == json_u64_at(raw@, ptr@),
{
    let v: serde_json::Value = match serde_json::from_str(raw) {
        Ok(v) => v,
        Err(_) => return None,
    };
    match v.pointer(ptr) {
        Some(x) => x.as_u64(),
        None => None,
    }
}

/// The JSON string literal serde_json writes for the text `s`.
pub uninterp spec fn json_string_text(s: Seq<char>) -> Seq<char>;

/// `serde_json::to_string` of a `&str`: the quoted and escaped JSON string
/// literal. Claimed: the result is `json_string_text` of the text. Writing
/// a string into a `String` does not fail, so the error arm is never taken.
#[verifier::external_body]
pub(crate) fn json_string(s: &str) -> (r: String)
    ensures
        r@ == json_string_text(s@),
{
    match serde_json::to_string(s) {
        Ok(t) => t,
        Err(_) => String::new(),
    }
}

/// A JSON string literal, as serde_json writes it.
pub open spec fn str_text(s: Seq<char>) -> Seq<char> {
    json_string_text(s)
}

/// A request id as written back: its own JSON text, or `null`.
pub open spec fn id_text(id: Option<Seq<char>>) -> Seq<char> {
    match id {
        Some(t) => t,
        None => "null"@,
    }
}

/// A successful response (members in key order, as serde_json writes an
/// object).
pub open spec fn response_text(id: Option<Seq<char>>, result: Seq<char>) -> Seq<char> {
    "{\"id\":"@ + id_text(id) + ",\"jsonrpc\":\"2.0\",\"result\":"@ + result + "}"@
}

/// A 0-based position.
pub open spec fn position_text(p: (usize, usize)) -> Seq<char> {
    "{\"character\":"@ + decimal(p.1 as nat) + ",\"line\":"@ + decimal(p.0 as nat) + "}"@
}

/// A range between two positions.
pub open spec fn range_text(a: (usize, usize), b: (usize, usize)) -> Seq<char> {
    "{\"end\":"@ + position_text(b) + ",\"start\":"@ + position_text(a) + "}"@
}

/// A JSON array of already written values.
pub open spec fn array_text(parts: Seq<Seq<char>>) -> Seq<char> {
    "["@ + join_with(parts, ","@) + "]"@
}

/// A markdown content object.
pub open spec fn markdown_text(value: Seq<char>) -> Seq<char> {
    "{\"kind\":\"markdown\",\"value\":"@ + str_text(value) + "}"@
}

pub fn str_json(s: &str) -> (r: String)
    ensures
        r@ == str_text(s@),
{
    json_string(s)
}

pub fn id_json(id: &Option<String>) -> (r: String)
    ensures
        r@ == id_text(match id {
            Some(t) => Some(t@),
            None => None,
        }),
{
    match id {
        Some(t) => t.clone(),
        None => "null".to_string(),
    }
}

pub fn response_json(id: &Option<String>, result: &str) -> (r: String)
    ensures
        r@ == response_text(
            match id {
                Some(t) => Some(t@),
                None => None,
            },
            result@,
        ),
{
    let mut r = String::new();
    push_str(&mut r, "{\"id\":");
    let i = id_json(id);
    push_str(&mut r, i.as_str());
    push_str(&mut r, ",\"jsonrpc\":\"2.0\",\"result\":");
    push_str(&mut r, result);
    push_str(&mut r, "}");
    r
}

pub fn position_json(p: (usize, usize)) -> (r: String)
    ensures
        r@ == position_text(p),
{
    let mut r = String::new();
    push_str(&mut r, "{\"character\":");
    push_decimal(&mut r, p.1 as u64);
    push_str(&mut r, ",\"line\":");
    push_decimal(&mut r, p.0 as u64);
    push_str(&mut r, "}");
    r
}

pub fn range_json(a: (usize, usize), b: (usize, usize)) -> (r: String)
    ensures
        r@ == range_text(a, b),
{
    let mut r = String::new();
    push_str(&mut r, "{\"end\":");
    let pb = position_json(b);
    push_str(&mut r, pb.as_str());
    push_str(&mut r, ",\"start\":");
    let pa = position_json(a);
    push_str(&mut r, pa.as_str());
    push_str(&mut r, "}");
    r
}

pub fn markdown_json(value: &str) -> (r: String)
    ensures
        r@ == markdown_text(value@),
{
    let mut r = String::new();
    push_str(&mut r, "{\"kind\":\"markdown\",\"value\":");
    let v = str_json(value);
    push_str(&mut r, v.as_str());
    push_str(&mut r, "}");
    r
}

/// The texts in `parts`, joined by `sep`.
pub fn join_strs(parts: &Vec<String>, sep: &str) -> (r: String)
    ensures
        r@ == join_with(parts@.map_values(|p: String| p@), sep@),
{
    let ghost ps = parts@.map_values(|p: String| p@);
    let mut r = String::new();
    let mut i: usize = 0;
    while i < parts.len()
        invariant
            i <= parts.len(),
            ps == parts@.map_values(|p: String| p@),
            r@ == join_with(ps.take(i as int), sep@),
        decreases parts.len() - i,
    {
        proof {
            assert(ps.take(i + 1).drop_last() == ps.take(i as int));
            assert(ps.take(i + 1).last() == ps[i as int]);
            if i == 0 {
                assert(ps.take(0) =~= Seq::<Seq<char>>::empty());
                assert(ps.take(1)[0] == ps[0]);
            }
        }
        if i > 0 {
            push_str(&mut r, sep);
        }
        push_str(&mut r, parts[i].as_str());
        proof {
            assert(r@ =~= join_with(ps.take(i + 1), sep@));
        }
        i += 1;
    }
    proof {
        assert(ps.take(parts@.len() as int) == ps);
        if parts@.len() == 0 {
            assert(r@ =~= join_with(ps, sep@));
        }
    }
    r
}

/// The values in `parts`, as one JSON array.
pub fn array_json(parts: &Vec<String>) -> (r: String)
    ensures
        r@ == array_text(parts@.map_values(|p: String| p@)),
{
    let ghost ps = parts@.map_values(|p: String| p@);
    let mut r = String::new();
    push_str(&mut r, "[");
    let mut i: usize = 0;
    while i < parts.len()
        invariant
            i <= parts.len(),
            ps == parts@.map_values(|p: String| p@),
            r@ == "["@ + join_with(ps.take(i as int), ","@),
        decreases parts.len() - i,
    {
        proof {
            assert(ps.take(i + 1).drop_last() == ps.take(i as int));
            assert(ps.take(i + 1).last() == ps[i as int]);
            if i == 0 {
                assert(ps.take(1)[0] == ps[0]);
            }
        }
        if i > 0 {
            push_str(&mut r, ",");
        }
        push_str(&mut r, parts[i].as_str());
        proof {
            if i == 0 {
                assert(join_with(ps.take(1), ","@) == ps[0]);
                assert(r@ =~= "["@ + join_with(ps.take(i + 1), ","@));
            } else {
                assert(r@ =~= "["@ + join_with(ps.take(i + 1), ","@));
            }
        }
        i += 1;
    }
    push_str(&mut r, "]");
    proof {
        assert(ps.take(parts@.len() as int) == ps);
    }
    r
}

} // verus!
