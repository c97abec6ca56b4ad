//! Reading JSON documents (driver registries, the permission file) through
//! `serde_json`: string members reached through a path of object members.
use vstd::prelude::*;
use crate::text::{chars_of, concat, replace_all, replace_exec, string_of};

verus! {

/// Whether `serde_json::from_str::<serde_json::Value>` accepts the text.
pub uninterp spec fn json_document_parses(document: Seq<char>) -> bool;

/// The string that a parsed document holds at a JSON pointer:
/// `Value::pointer(pointer)` followed by `Value::as_str`.
pub uninterp spec fn json_string_at(document: Seq<char>, pointer: Seq<char>) -> Option<Seq<char>>;

/// `serde_json::from_str::<serde_json::Value>` on the document, then
/// `Value::pointer` and `Value::as_str` on the parsed value: `Err` when the
/// document does not parse (with serde_json's message, of which nothing is
/// stated), else the string at the pointer, if there is one.
#[verifier::external_body]
pub(crate) fn read_string(document: &str, pointer: &str) -> (r: Result<Option<String>, String>)
    ensures
        r is Ok <==> json_document_parses(document@),
        r matches Ok(o) ==> match o {
            Some(s) => json_string_at(document@, pointer@) == Some(s@),
            None => json_string_at(document@, pointer@) is None,
        },
{
    let value: serde_json::Value = serde_json::from_str(document).map_err(|error| error.to_string())?;
    Ok(value.pointer(pointer).and_then(serde_json::Value::as_str).map(String::from))
}

/// Whether the value that a parsed document holds at a JSON pointer is an
/// object: `Value::pointer(pointer)` followed by `Value::is_object`.
pub uninterp spec fn json_object_at(document: Seq<char>, pointer: Seq<char>) -> bool;

/// `serde_json::from_str::<serde_json::Value>` on the document, then
/// `Value::pointer` and `Value::is_object` on the parsed value: `Err` when the
/// document does not parse (with serde_json's message, of which nothing is
/// stated), else whether there is an object at the pointer.
#[verifier::external_body]
pub(crate) fn object_at(document: &str, pointer: &str) -> (r: Result<bool, String>)
    ensures
        r is Ok <==> json_document_parses(document@),
        r matches Ok(b) ==> b == json_object_at(document@, pointer@),
{
    let value: serde_json::Value = serde_json::from_str(document).map_err(|error| error.to_string())?;
    Ok(value.pointer(pointer).map_or(false, serde_json::Value::is_object))
}

/// A reference token of a JSON pointer: `~` written `~0`, `/` written `~1`.
pub open spec fn escape_token(t: Seq<char>) -> Seq<char> {
    replace_all(replace_all(t, "~"@, "~0"@), "/"@, "~1"@)
}

/// The JSON pointer that addresses the object members `tokens`, outermost
/// first.
pub open spec fn json_pointer(tokens: Seq<Seq<char>>) -> Seq<char>
    decreases tokens.len(),
{
    if tokens.len() == 0 {
        Seq::empty()
    } else {
        json_pointer(tokens.drop_last()) + "/"@ + escape_token(tokens.last())
    }
}

fn escape_token_exec(t: &[char]) -> (r: Vec<char>)
    ensures
        r@ == escape_token(t@),
{
    let a = replace_exec(t, chars_of("~").as_slice(), chars_of("~0").as_slice());
    replace_exec(a.as_slice(), chars_of("/").as_slice(), chars_of("~1").as_slice())
}

/// The JSON pointer of a member path.
pub fn pointer_of(tokens: &Vec<String>) -> (r: String)
    ensures
        r@ == json_pointer(crate::text::string_views(tokens@)),
{
    let ghost all = crate::text::string_views(tokens@);
    let mut out: Vec<char> = Vec::new();
    let mut i: usize = 0;
    while i < tokens.len()
        invariant
            i <= tokens@.len(),
            all == crate::text::string_views(tokens@),
            out@ == json_pointer(all.subrange(0, i as int)),
        decreases tokens@.len() - i,
    {
        let ghost pre = all.subrange(0, i + 1);
        assert(pre.drop_last() =~= all.subrange(0, i as int));
        assert(pre.last() == tokens@[i as int]@);
        let e = escape_token_exec(chars_of(tokens[i].as_str()).as_slice());
        let with_slash = concat(out.as_slice(), chars_of("/").as_slice());
        out = concat(with_slash.as_slice(), e.as_slice());
        i = i + 1;
    }
    assert(all.subrange(0, all.len() as int) =~= all);
    string_of(out.as_slice())
}

/// The string reached from the document's root through the object members
/// `keys`, outermost first: every value passed on the way is an object that
/// has the next member, and the last value is a string. A step into an array
/// or any other non-object finds nothing.
pub open spec fn json_member_string(document: Seq<char>, keys: Seq<Seq<char>>) -> Option<Seq<char>> {
    if forall|i: int| 0 <= i < keys.len() ==> #[trigger] json_object_at(document, json_pointer(keys.take(i))) {
        json_string_at(document, json_pointer(keys))
    } else {
        None
    }
}

/// The string member of a document at a path of object members (see
/// `json_member_string`), or serde_json's error when the document does not
/// parse.
pub fn member_string(document: &str, keys: &Vec<String>) -> (r: Result<Option<String>, String>)
    ensures
        r is Ok <==> json_document_parses(document@),
        r matches Ok(o) ==> match o {
            Some(s) => json_member_string(document@, crate::text::string_views(keys@)) == Some(s@),
            None => json_member_string(document@, crate::text::string_views(keys@)) is None,
        },
{
    let ghost all = crate::text::string_views(keys@);
    let mut prefix: Vec<String> = Vec::new();
    let mut i: usize = 0;
    while i < keys.len()
        invariant
            i <= keys@.len(),
            all == crate::text::string_views(keys@),
            crate::text::string_views(prefix@) == all.take(i as int),
            forall|j: int| 0 <= j < i ==> #[trigger] json_object_at(document@, json_pointer(all.take(j))),
        decreases keys@.len() - i,
    {
        let p = pointer_of(&prefix);
        match object_at(document, p.as_str()) {
            Err(e) => {
                return Err(e);
            },
            Ok(is_object) => {
                if !is_object {
                    assert(!json_object_at(document@, json_pointer(all.take(i as int))));
                    return Ok(None);
                }
            },
        }
        let k = string_of(chars_of(keys[i].as_str()).as_slice());
        let ghost before = crate::text::string_views(prefix@);
        prefix.push(k);
        assert(crate::text::string_views(prefix@) =~= before.push(k@));
        assert(all.take(i + 1) =~= all.take(i as int).push(all[i as int]));
        i = i + 1;
    }
    assert(all.take(all.len() as int) =~= all);
    read_string(document, pointer_of(keys).as_str())
}

} // verus!
