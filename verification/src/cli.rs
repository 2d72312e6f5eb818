use vstd::prelude::*;

use crate::shard::parse_key;
use crate::text::{chars_of, debug_str, debug_str_spec, find_char_from, find_from, push_str, string_from_chars};

verus! {

/// What `parse_shard` accepts: a key that parses into three parts, none of
/// them empty.
pub open spec fn shard_parts(s: Seq<char>) -> Option<(Seq<char>, Seq<char>, Seq<char>)> {
    match parse_key(s) {
        Some((a, b, c)) => if a.len() > 0 && b.len() > 0 && c.len() > 0 {
            Some((a, b, c))
        } else {
            None
        },
        None => None,
    }
}

/// Split a shard key given on the command line into namespace, category
/// and entity id, all non-empty.
pub fn parse_shard(s: &str) -> (r: Result<(String, String, String), String>)
    ensures
        match shard_parts(s@) {
            Some((a, b, c)) => r matches Ok((x, y, z)) && x@ == a && y@ == b && z@ == c,
            None => r matches Err(m) && m@
                == "shard must be in `namespace.category.entity_id` form, got "@ + debug_str_spec(s@),
        },
{
    let v = chars_of(s);
    let i = find_char_from(&v, '.', 0);
    if i < v.len() {
        let j = find_char_from(&v, '.', i + 1);
        if j < v.len() && i > 0 && j > i + 1 && j + 1 < v.len() {
            let a = string_from_chars(&v, 0, i);
            let b = string_from_chars(&v, i + 1, j);
            let c = string_from_chars(&v, j + 1, v.len());
            return Ok((a, b, c));
        }
    }
    let mut m = "shard must be in `namespace.category.entity_id` form, got ".to_owned();
    let d = debug_str(s);
    push_str(&mut m, d.as_str());
    Err(m)
}

/// What `parse_kv` gives: the text before the first `=` and the text after
/// it.
pub open spec fn kv_parts(s: Seq<char>) -> Option<(Seq<char>, Seq<char>)> {
    let i = find_from(s, '=', 0);
    if i < s.len() {
        Some((s.subrange(0, i), s.subrange(i + 1, s.len() as int)))
    } else {
        None
    }
}

/// Split a `key=value` driver option at its first `=`.
pub fn parse_kv(s: &str) -> (r: Result<(String, String), String>)
    ensures
        match kv_parts(s@) {
            Some((k, v)) => r matches Ok((x, y)) && x@ == k && y@ == v,
            None => r matches Err(m) && m@ == "expected key=value, got "@ + debug_str_spec(s@),
        },
{
    let v = chars_of(s);
    let i = find_char_from(&v, '=', 0);
    if i < v.len() {
        let k = string_from_chars(&v, 0, i);
        let val = string_from_chars(&v, i + 1, v.len());
        return Ok((k, val));
    }
    let mut m = "expected key=value, got ".to_owned();
    let d = debug_str(s);
    push_str(&mut m, d.as_str());
    Err(m)
}

} // verus!
