//! JSON documents as plain values: the library's own type for what the
//! `json` crate parses, and lookups on it that behave as `json`'s do.
use json::JsonValue;
use vstd::prelude::*;

verus! {

/// A parsed JSON document, held as plain values.
pub enum JsonDoc {
    Null,
    Bool(bool),
    /// A number, by its value as a `u64` when it is one (`JsonValue::as_u64`).
    Number(Option<u64>),
    Str(String),
    Array(Vec<JsonDoc>),
    /// The members of an object, in the order `json` keeps them.
    Object(Vec<(String, JsonDoc)>),
}

/// `json::JsonValue`, the `json` crate's parsed document; opaque to Verus.
#[verifier::external_type_specification]
#[verifier::external_body]
pub struct ExJsonValue(JsonValue);

/// The document `json::parse` makes of a text, converted to a [`JsonDoc`];
/// `None` when the parser rejects the text. The parser is a function of the
/// text alone.
pub uninterp spec fn json_document(text: Seq<char>) -> Option<JsonDoc>;

/// How long a run of fraction digits the JSON parser takes: it counts the
/// fraction digits of a number down in an `i16` exponent.
pub const DIGIT_RUN_LIMIT: usize = 32768;

/// Whether every run of consecutive ASCII digits in `text` that starts right
/// after a `.` is shorter than `bound`.
pub open spec fn fraction_runs_below(text: Seq<char>, bound: int) -> bool {
    forall|i: int|
        0 < i && i + bound <= text.len() && text[i - 1] == '.' ==> #[trigger] window_has_non_digit(
            text,
            i,
            bound,
        )
}

/// Whether the `bound` characters of `text` from `start` on include one that
/// is not an ASCII digit.
pub open spec fn window_has_non_digit(text: Seq<char>, start: int, bound: int) -> bool {
    exists|k: int| start <= k < start + bound && !is_digit(#[trigger] text[k])
}

/// Whether `c` is an ASCII digit.
pub open spec fn is_digit(c: char) -> bool {
    '0' <= c <= '9'
}

/// Whether every run of consecutive ASCII digits in `text` that starts right
/// after a `.` is shorter than `bound` (see [`fraction_runs_below`]).
pub fn fraction_runs_shorter(text: &str, bound: usize) -> (res: bool)
    requires
        bound > 0,
    ensures
        res == fraction_runs_below(text@, bound as int),
{
    let ghost t = text@;
    // The length of the digit run that follows the last `.` when nothing
    // else has come since; `None` otherwise.
    let mut frac: Option<usize> = None;
    let ghost mut i: int = 0;
    for c in it: text.chars()
        invariant
            t == text@,
            it.seq() == t,
            i == it.index(),
            i <= t.len(),
            bound > 0,
            frac matches Some(n) ==> {
                &&& n < bound
                &&& n < i
                &&& t[i - n - 1] == '.'
                &&& forall|k: int| i - n <= k < i ==> is_digit(#[trigger] t[k])
            },
            frac is None ==> forall|j: int|
                0 < j <= i && #[trigger] t[j - 1] == '.' ==> window_has_non_digit(t, j, i - j),
            forall|s: int|
                0 < s && s + bound <= i && t[s - 1] == '.' ==> #[trigger] window_has_non_digit(t, s, bound as int),
    {
        assert(t[i] == c);
        let ghost old_frac = frac;
        if '0' <= c && c <= '9' {
            assert(is_digit(t[i]));
            match frac {
                Some(n) => {
                    if n + 1 >= bound {
                        proof {
                            let s: int = i + 1 - bound;
                            assert(forall|k: int| s <= k < s + bound ==> is_digit(#[trigger] t[k]));
                            assert(!window_has_non_digit(t, s, bound as int));
                        }
                        return false;
                    }
                    frac = Some(n + 1);
                },
                None => {},
            }
        } else if c == '.' {
            frac = Some(0);
        } else {
            frac = None;
        }
        proof {
            assert forall|s: int|
                0 < s && s + bound <= i + 1 && t[s - 1] == '.' implies #[trigger] window_has_non_digit(t, s, bound as int) by {
                if s + bound == i + 1 {
                    if !is_digit(c) {
                        assert(!is_digit(t[i]));
                    } else if old_frac is Some {
                        let n = old_frac.unwrap();
                        assert(!is_digit(t[i - n - 1]));
                    } else {
                        let w = choose|k: int| s <= k < s + (i - s) && !is_digit(#[trigger] t[k]);
                        assert(!is_digit(t[w]));
                    }
                }
            }
            if frac is None {
                assert forall|j: int|
                    0 < j <= i + 1 && #[trigger] t[j - 1] == '.' implies window_has_non_digit(t, j, i + 1 - j) by {
                    if j <= i {
                        if !is_digit(c) {
                            assert(!is_digit(t[i]));
                        } else {
                            let w = choose|k: int| j <= k < j + (i - j) && !is_digit(#[trigger] t[k]);
                            assert(!is_digit(t[w]));
                        }
                    }
                }
            }
            i = i + 1;
        }
    }
    true
}

/// `json::parse`, its document converted to a [`JsonDoc`]: the result is
/// [`json_document`] of the text. The parser counts the fraction digits of a
/// number down in an `i16` exponent, which overflows (a panic with overflow
/// checks on) past [`DIGIT_RUN_LIMIT`] fraction digits; texts with a digit
/// run that long right after a `.` are left out.
#[verifier::external_body]
pub(crate) fn json_parse(text: &str) -> (res: Option<JsonDoc>)
    requires
        fraction_runs_below(text@, DIGIT_RUN_LIMIT as int),
    ensures
        res == json_document(text@),
{
    match json::parse(text) {
        Ok(value) => Some(json_doc_of(&value)),
        Err(_) => None,
    }
}

/// The conversion `json_parse` applies to a `json::JsonValue`: variant for
/// variant, numbers by `JsonValue::as_u64`, object members in `json`'s order.
/// It states nothing of its own; [`json_document`] names its result through
/// `json_parse`. The parser refuses documents nested deeper than 512, which
/// bounds the recursion.
#[verifier::external_body]
fn json_doc_of(value: &JsonValue) -> (res: JsonDoc) {
    match value {
        JsonValue::Null => JsonDoc::Null,
        JsonValue::Boolean(b) => JsonDoc::Bool(*b),
        JsonValue::Number(_) => JsonDoc::Number(value.as_u64()),
        JsonValue::Short(s) => JsonDoc::Str(s.as_str().to_string()),
        JsonValue::String(s) => JsonDoc::Str(s.clone()),
        JsonValue::Array(items) => JsonDoc::Array(items.iter().map(json_doc_of).collect()),
        JsonValue::Object(_) => JsonDoc::Object(
            value.entries().map(|(name, member)| (name.to_string(), json_doc_of(member))).collect(),
        ),
    }
}

/// The members of a document that is an object; none for any other document.
pub open spec fn doc_members(doc: JsonDoc) -> Seq<(String, JsonDoc)> {
    match doc {
        JsonDoc::Object(members) => members@,
        _ => Seq::empty(),
    }
}

/// The position of the first member named `name`, if any.
pub open spec fn member_index(members: Seq<(String, JsonDoc)>, name: Seq<char>) -> Option<int>
    decreases members.len(),
{
    if members.len() == 0 {
        None
    } else if members[0].0@ == name {
        Some(0)
    } else {
        match member_index(members.drop_first(), name) {
            Some(i) => Some(i + 1),
            None => None,
        }
    }
}

/// The member `name` of an object, `Null` when there is none or the document
/// is not an object (as indexing a `JsonValue` by name gives).
pub open spec fn spec_member(doc: JsonDoc, name: Seq<char>) -> JsonDoc {
    match member_index(doc_members(doc), name) {
        Some(i) => doc_members(doc)[i].1,
        None => JsonDoc::Null,
    }
}

/// The item at `index` of an array, `Null` when there is none or the document
/// is not an array (as indexing a `JsonValue` by position gives).
pub open spec fn spec_item(doc: JsonDoc, index: int) -> JsonDoc {
    match doc {
        JsonDoc::Array(items) => if 0 <= index < items@.len() {
            items@[index]
        } else {
            JsonDoc::Null
        },
        _ => JsonDoc::Null,
    }
}

/// A number that fits a `u32` (as `JsonValue::as_u32` gives).
pub open spec fn spec_as_u32(doc: JsonDoc) -> Option<u32> {
    match doc {
        JsonDoc::Number(Some(n)) => if n <= u32::MAX {
            Some(n as u32)
        } else {
            None
        },
        _ => None,
    }
}

/// A looked-up document, absence read as `Null`.
pub open spec fn or_null(doc: Option<&JsonDoc>) -> JsonDoc {
    match doc {
        Some(d) => *d,
        None => JsonDoc::Null,
    }
}

/// The first position at or after `from` whose member is named `name`.
proof fn lemma_member_index_from(members: Seq<(String, JsonDoc)>, name: Seq<char>, from: int)
    requires
        0 <= from <= members.len(),
        forall|j: int| 0 <= j < from ==> members[j].0@ != name,
    ensures
        match member_index(members.subrange(from, members.len() as int), name) {
            Some(i) => member_index(members, name) == Some(i + from),
            None => member_index(members, name) is None,
        },
    decreases from,
{
    if from > 0 {
        lemma_member_index_from(members.drop_first(), name, from - 1);
        assert(members.drop_first().subrange(from - 1, members.drop_first().len() as int) =~= members.subrange(from, members.len() as int));
    } else {
        assert(members.subrange(0, members.len() as int) =~= members);
        match member_index(members, name) {
            Some(i) => {},
            None => {},
        }
    }
}

/// The member `name` of `doc`; `None` stands for the `Null` that `json`
/// gives for a missing member or a document that is not an object.
pub fn json_member<'a>(doc: Option<&'a JsonDoc>, name: &str) -> (res: Option<&'a JsonDoc>)
    ensures
        or_null(res) == spec_member(or_null(doc), name@),
{
    match doc {
        Some(d) => match d {
        JsonDoc::Object(members) => {
            assert(or_null(doc) == *d);
            assert(doc_members(*d) == members@);
            let owned: String = name.to_owned();
            let mut i: usize = 0;
            while i < members.len()
                invariant
                    0 <= i <= members@.len(),
                    owned@ == name@,
                    doc_members(or_null(doc)) == members@,
                    forall|j: int| 0 <= j < i ==> members@[j].0@ != name@,
                decreases members@.len() - i,
            {
                if members[i].0 == owned {
                    proof {
                        lemma_member_index_from(members@, name@, i as int);
                        let rest = members@.subrange(i as int, members@.len() as int);
                        assert(rest[0] == members@[i as int]);
                        assert(members@[i as int].0@ == name@);
                        assert(member_index(rest, name@) == Some(0int));
                        assert(member_index(members@, name@) == Some(i as int));
                        assert(doc_members(or_null(doc)) == members@);
                    }
                    return Some(&members[i].1);
                }
                i = i + 1;
            }
            proof {
                lemma_member_index_from(members@, name@, i as int);
                let rest = members@.subrange(i as int, members@.len() as int);
                assert(rest.len() == 0);
            }
            None
        },
        _ => None,
        },
        None => None,
    }
}

/// The item at `index` of `doc`; `None` stands for the `Null` that `json`
/// gives for a missing item or a document that is not an array.
pub fn json_item<'a>(doc: Option<&'a JsonDoc>, index: usize) -> (res: Option<&'a JsonDoc>)
    ensures
        or_null(res) == spec_item(or_null(doc), index as int),
{
    match doc {
        Some(JsonDoc::Array(items)) => {
            if index < items.len() {
                Some(&items[index])
            } else {
                None
            }
        },
        _ => None,
    }
}

/// The number `doc` holds when it fits a `u32`.
pub fn json_as_u32(doc: Option<&JsonDoc>) -> (res: Option<u32>)
    ensures
        res == spec_as_u32(or_null(doc)),
{
    match doc {
        Some(JsonDoc::Number(Some(n))) => {
            if *n <= 0xFFFF_FFFFu64 {
                Some(*n as u32)
            } else {
                None
            }
        },
        _ => None,
    }
}

} // verus!
