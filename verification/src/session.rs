//! The state of the application between two runs, kept as JSON.

use vstd::prelude::*;

use crate::errors::Failure;
use crate::paths;

verus! {

broadcast use vstd::string::group_string_axioms;

/// What the window asks to be kept.
pub struct SaveSessionRequest {
    pub session: serde_json::Value,
}

// ---------------------------------------------------------------------------
// The JSON library
// ---------------------------------------------------------------------------

/// A JSON value. The library carries it and does not look into it.
#[verifier::external_type_specification]
#[verifier::external_body]
pub struct ExJsonValue(serde_json::Value);

/// What `serde_json::from_str` makes of a text: a value, or the words of an
/// error.
pub uninterp spec fn json_value(text: Seq<char>) -> Result<serde_json::Value, Seq<char>>;

/// The text that `serde_json::to_string_pretty` makes of a value.
pub uninterp spec fn json_text(value: serde_json::Value) -> Seq<char>;

/// `serde_json::from_str`, into a `serde_json::Value`, with the error in words.
/// What it returns depends on the text alone.
#[verifier::external_body]
fn parse_json(text: &str) -> (r: Result<serde_json::Value, String>)
    ensures
        match r {
            Ok(value) => json_value(text@) == Ok::<serde_json::Value, Seq<char>>(value),
            Err(error) => json_value(text@) == Err::<serde_json::Value, Seq<char>>(error@),
        },
{
    serde_json::from_str(text).map_err(|error| error.to_string())
}

/// In a JSON text, all numbers that stand outside of strings are integers, and no
/// more than 127 lists and objects are open at the same time. `inside` says
/// whether the text starts within a string, and `open` how many lists and objects
/// are open there.
pub open spec fn is_plain_from(s: Seq<char>, inside: bool, open: int) -> bool
    decreases s.len(),
{
    if s.len() == 0 {
        true
    } else if inside {
        if s[0] == '\\' && s.len() > 1 {
            is_plain_from(s.skip(2), true, open)
        } else {
            is_plain_from(s.skip(1), s[0] != '"', open)
        }
    } else if s[0] == '"' {
        is_plain_from(s.skip(1), true, open)
    } else if s[0] == '[' || s[0] == '{' {
        open < 127 && is_plain_from(s.skip(1), false, open + 1)
    } else if s[0] == ']' || s[0] == '}' {
        is_plain_from(s.skip(1), false, open - 1)
    } else {
        &&& s[0] != '.'
        &&& !('0' <= s[0] <= '9' && s.len() > 1 && s[1] == 'e')
        &&& is_plain_from(s.skip(1), false, open)
    }
}

/// The text holds a name that the JSON library keeps for itself.
pub open spec fn holds_private_name(s: Seq<char>) -> bool {
    exists|i: int, j: int|
        0 <= i <= j <= s.len() && #[trigger] s.subrange(i, j) == "$serde_json::private::"@
}

/// A JSON text that stands for one value without loss.
pub open spec fn is_plain(s: Seq<char>) -> bool {
    is_plain_from(s, false, 0) && !holds_private_name(s)
}

/// `serde_json::to_string_pretty`, of a `serde_json::Value`. It succeeds, since
/// the keys of a value are strings and memory takes all that is written, and the
/// text depends on the value alone. `serde_json::from_str` gives the value back
/// where all its numbers are integers, no more than 127 of its lists and objects
/// stand within each other, and no text in it holds a name that the JSON library
/// keeps for itself. Nothing is claimed of other values: a floating-point number
/// is always written with a dot or with an exponent, and may change in its last
/// digit when it is read; deeper nesting is not read at all; and an object whose
/// first key is such a name may be read as something else.
#[verifier::external_body]
fn write_json(value: &serde_json::Value) -> (r: Result<String, String>)
    ensures
        match r {
            Ok(text) => {
                &&& text@ == json_text(*value)
                &&& is_plain(text@) ==> json_value(text@) == Ok::<serde_json::Value, Seq<char>>(
                    *value,
                )
            },
            Err(_) => false,
        },
{
    serde_json::to_string_pretty(value).map_err(|error| error.to_string())
}

// ---------------------------------------------------------------------------
// Sessions
// ---------------------------------------------------------------------------

/// What is kept in a session file: nothing where there is no file, and else the
/// value in its text, or the words of an error.
pub open spec fn session_in(raw: Option<Seq<char>>) -> Result<
    Option<serde_json::Value>,
    Seq<char>,
> {
    match raw {
        None => Ok(None),
        Some(text) => match json_value(text) {
            Ok(value) => Ok(Some(value)),
            Err(error) => Err(error),
        },
    }
}

/// The session in a file, given what the text of the file was parsed to.
pub fn parsed_session(path: &str, parsed: Result<serde_json::Value, String>) -> (r: Result<
    serde_json::Value,
    Failure,
>)
    ensures
        match r {
            Ok(value) => parsed matches Ok(v) && value == v,
            Err(Failure::SessionUnreadable { path: p, error }) => {
                &&& parsed matches Err(e)
                &&& error@ == e@
                &&& p@ == path@
            },
            Err(_) => false,
        },
{
    match parsed {
        Ok(value) => Ok(value),
        Err(error) => Err(Failure::SessionUnreadable { path: path.to_owned(), error }),
    }
}

/// The session that was kept in a file. `raw` is the text of the file, if there
/// is one.
pub fn load_app_session(path: &str, raw: Option<String>) -> (r: Result<
    Option<serde_json::Value>,
    Failure,
>)
    ensures
        match r {
            Ok(session) => session_in(paths::content(raw)) == Ok::<
                Option<serde_json::Value>,
                Seq<char>,
            >(session),
            Err(Failure::SessionUnreadable { path: p, error }) => {
                &&& session_in(paths::content(raw)) == Err::<
                    Option<serde_json::Value>,
                    Seq<char>,
                >(error@)
                &&& p@ == path@
            },
            Err(_) => false,
        },
{
    let text = match raw {
        Some(text) => text,
        None => {
            return Ok(None);
        },
    };
    match parsed_session(path, parse_json(text.as_str())) {
        Ok(value) => Ok(Some(value)),
        Err(failure) => Err(failure),
    }
}

/// The text of the file in which a session is kept. Where the text is plain, the
/// session is read back from it as it was.
pub fn save_app_session(request: &SaveSessionRequest) -> (r: String)
    ensures
        r@ == json_text(request.session),
        is_plain(r@) ==> session_in(Some(r@)) == Ok::<Option<serde_json::Value>, Seq<char>>(
            Some(request.session),
        ),
{
    match write_json(&request.session) {
        Ok(text) => text,
        Err(_) => {
            proof {
                assert(false);
            }
            String::new()
        },
    }
}

// ---------------------------------------------------------------------------
// Laws
// ---------------------------------------------------------------------------

/// A session whose text stands for it is read back as it was saved, whatever was
/// saved before. Without a file there is no session, and no error.
pub proof fn law_saved_session_is_read_back(session: serde_json::Value)
    requires
        json_value(json_text(session)) == Ok::<serde_json::Value, Seq<char>>(session),
    ensures
        session_in(Some(json_text(session))) == Ok::<Option<serde_json::Value>, Seq<char>>(
            Some(session),
        ),
        session_in(None) == Ok::<Option<serde_json::Value>, Seq<char>>(None),
{
}

/// A session is what the text of its file stands for, and an error where the text
/// stands for nothing.
pub proof fn law_session_is_what_the_text_says(text: Seq<char>)
    ensures
        json_value(text) matches Ok(value) ==> session_in(Some(text)) == Ok::<
            Option<serde_json::Value>,
            Seq<char>,
        >(Some(value)),
        json_value(text) matches Err(error) ==> session_in(Some(text)) == Err::<
            Option<serde_json::Value>,
            Seq<char>,
        >(error),
{
}

} // verus!
