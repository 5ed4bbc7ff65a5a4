//! The two error taxonomies and how each becomes a wire `Error` body.
use vstd::prelude::*;

use crate::protocol::{Body, BodyM, IntoMessage, MessageV2};

verus! {

/// A validated protocol failure, reported to the offending client.
pub enum ClientError {
    NameTaken(String),
    InvalidToken,
    NoLogin,
    NoPermission(String, String),
    InvalidObject(String, String),
    InvalidSubject(String, String),
    InvalidChat(String, String),
    InvalidAction(String, String),
    Custom(String, String),
}

/// An internal operation that failed; it is reported as an error body.
pub enum ServerError {
    InvalidToken,
    AlreadyJoinedOrLeft,
    NameTaken(String),
    Custom(String, String),
}

/// The hexadecimal digits, lower case.
pub const HEX_DIGITS: &'static str = "0123456789abcdef";

/// How one character is written inside a JSON string: quote and backslash
/// escaped, control characters as `\u00XX`, anything else as itself.
pub open spec fn json_escape_char(c: char) -> Seq<char> {
    if c == '"' {
        "\\\""@
    } else if c == '\\' {
        "\\\\"@
    } else if (c as u32) < 32 {
        "\\u00"@ + HEX_DIGITS@.subrange((c as u32 / 16) as int, (c as u32 / 16) as int + 1)
            + HEX_DIGITS@.subrange((c as u32 % 16) as int, (c as u32 % 16) as int + 1)
    } else {
        seq![c]
    }
}

/// The characters of `s`, each written as inside a JSON string.
pub open spec fn json_escape(s: Seq<char>) -> Seq<char>
    decreases s.len(),
{
    if s.len() == 0 {
        Seq::empty()
    } else {
        json_escape(s.drop_last()) + json_escape_char(s.last())
    }
}

/// `{"<field>":"<value>"}`, the value escaped; the field is a fixed key.
pub open spec fn json_pair(field: Seq<char>, value: Seq<char>) -> Seq<char> {
    "{\""@ + field + "\":\""@ + json_escape(value) + "\"}"@
}

pub open spec fn error_m(kind: Seq<char>, info: Seq<char>, details: Seq<char>) -> BodyM {
    BodyM::Error { kind, info, details }
}

/// The wire body of a client error.
pub open spec fn client_error_body(e: ClientError) -> BodyM {
    match e {
        ClientError::NameTaken(name) => error_m(
            "NameTaken"@,
            "The name: "@ + name@ + " is taken"@,
            json_pair("invalid_name"@, name@),
        ),
        ClientError::InvalidToken => error_m(
            "InvalidToken"@,
            "The token you gave is invalid"@,
            "{}"@,
        ),
        ClientError::NoLogin => error_m("NoLogin"@, "The action requires login"@, "{}"@),
        ClientError::NoPermission(object, reason) => error_m(
            "NoPermission"@,
            "The action on "@ + object@ + " requires permissions you don\u{27}t have"@,
            json_pair("reason"@, reason@),
        ),
        ClientError::InvalidObject(id, reason) => error_m(
            "InvalidObject"@,
            id@ + ", cannot be the object of that action"@,
            json_pair("reason"@, reason@),
        ),
        ClientError::InvalidSubject(id, reason) => error_m(
            "InvalidSubject"@,
            id@ + ", cannot be the subject of that action"@,
            json_pair("reason"@, reason@),
        ),
        ClientError::InvalidChat(id, reason) => error_m(
            "InvalidChat"@,
            id@ + ", cannot be targeted for that action"@,
            json_pair("reason"@, reason@),
        ),
        ClientError::InvalidAction(id, reason) => error_m(
            "InvalidAction"@,
            "the action, "@ + id@ + ", cannot be performed"@,
            json_pair("reason"@, reason@),
        ),
        ClientError::Custom(info, details) => error_m("Custom"@, info@, details@),
    }
}

/// The wire body of a server error.
pub open spec fn server_error_body(e: ServerError) -> BodyM {
    match e {
        ServerError::InvalidToken => error_m(
            "InvalidToken"@,
            "The token you gave is invalid"@,
            "{}"@,
        ),
        ServerError::AlreadyJoinedOrLeft => error_m(
            "AlreadyJoinedOrLeft"@,
            "The user already joined, or left"@,
            "{}"@,
        ),
        ServerError::NameTaken(name) => error_m(
            "NameTaken"@,
            "The name: "@ + name@ + " is taken"@,
            json_pair("invalid_name"@, name@),
        ),
        ServerError::Custom(info, details) => error_m("ServerError"@, info@, details@),
    }
}

/// `a` + `b` + `c`.
fn join3(a: &str, b: &String, c: &str) -> (r: String)
    ensures
        r@ == a@ + b@ + c@,
{
    let mut out = String::from_str(a);
    out.append(b.as_str());
    out.append(c);
    out
}

/// `b` + `c`.
fn join2(b: &String, c: &str) -> (r: String)
    ensures
        r@ == b@ + c@,
{
    let mut out = b.clone();
    out.append(c);
    out
}

/// `value` with each character written as inside a JSON string.
pub fn escape_json(value: &String) -> (r: String)
    ensures
        r@ == json_escape(value@),
{
    proof {
        reveal_strlit("0123456789abcdef");
    }
    let v = value.as_str();
    let n = v.unicode_len();
    let mut out = String::new();
    let mut i: usize = 0;
    while i < n
        invariant
            v@ == value@,
            n == v@.len(),
            i <= n,
            HEX_DIGITS@.len() == 16,
            out@ == json_escape(v@.take(i as int)),
        decreases n - i,
    {
        let c = v.get_char(i);
        assert(v@.take(i + 1).drop_last() =~= v@.take(i as int));
        assert(v@.take(i + 1).last() == c);
        if c == '"' {
            out.append("\\\"");
        } else if c == '\\' {
            out.append("\\\\");
        } else if (c as u32) < 32 {
            let hi = (c as u32 / 16) as usize;
            let lo = (c as u32 % 16) as usize;
            out.append("\\u00");
            out.append(HEX_DIGITS.substring_char(hi, hi + 1));
            out.append(HEX_DIGITS.substring_char(lo, lo + 1));
        } else {
            let one = v.substring_char(i, i + 1);
            assert(one@ =~= seq![c]);
            out.append(one);
        }
        i += 1;
    }
    assert(v@.take(n as int) =~= v@);
    out
}

/// `{"<field>":"<value>"}`, the value escaped.
pub fn simple_json_object(field: &str, value: &String) -> (r: String)
    ensures
        r@ == json_pair(field@, value@),
{
    let escaped = escape_json(value);
    let mut out = String::from_str("{\"");
    out.append(field);
    out.append("\":\"");
    out.append(escaped.as_str());
    out.append("\"}");
    out
}

fn error_body(kind: &str, info: String, details: String) -> (r: Body)
    ensures
        r@ == error_m(kind@, info@, details@),
{
    Body::Error { kind: String::from_str(kind), info, details }
}

impl ClientError {
    /// The `Error` body that reports this error.
    pub fn into_body(self) -> (r: Body)
        ensures
            r@ == client_error_body(self),
    {
        match self {
            ClientError::NameTaken(name) => {
                let info = join3("The name: ", &name, " is taken");
                error_body("NameTaken", info, simple_json_object("invalid_name", &name))
            },
            ClientError::InvalidToken => error_body(
                "InvalidToken",
                String::from_str("The token you gave is invalid"),
                String::from_str("{}"),
            ),
            ClientError::NoLogin => error_body(
                "NoLogin",
                String::from_str("The action requires login"),
                String::from_str("{}"),
            ),
            ClientError::NoPermission(object, reason) => {
                let info = join3("The action on ", &object, " requires permissions you don\u{27}t have");
                error_body("NoPermission", info, simple_json_object("reason", &reason))
            },
            ClientError::InvalidObject(id, reason) => {
                let info = join2(&id, ", cannot be the object of that action");
                error_body("InvalidObject", info, simple_json_object("reason", &reason))
            },
            ClientError::InvalidSubject(id, reason) => {
                let info = join2(&id, ", cannot be the subject of that action");
                error_body("InvalidSubject", info, simple_json_object("reason", &reason))
            },
            ClientError::InvalidChat(id, reason) => {
                let info = join2(&id, ", cannot be targeted for that action");
                error_body("InvalidChat", info, simple_json_object("reason", &reason))
            },
            ClientError::InvalidAction(id, reason) => {
                let info = join3("the action, ", &id, ", cannot be performed");
                error_body("InvalidAction", info, simple_json_object("reason", &reason))
            },
            ClientError::Custom(info, details) => error_body("Custom", info, details),
        }
    }
}

impl ServerError {
    /// The `Error` body that reports this error.
    pub fn into_body(self) -> (r: Body)
        ensures
            r@ == server_error_body(self),
    {
        match self {
            ServerError::InvalidToken => error_body(
                "InvalidToken",
                String::from_str("The token you gave is invalid"),
                String::from_str("{}"),
            ),
            ServerError::AlreadyJoinedOrLeft => error_body(
                "AlreadyJoinedOrLeft",
                String::from_str("The user already joined, or left"),
                String::from_str("{}"),
            ),
            ServerError::NameTaken(name) => {
                let info = join3("The name: ", &name, " is taken");
                error_body("NameTaken", info, simple_json_object("invalid_name", &name))
            },
            ServerError::Custom(info, details) => error_body("ServerError", info, details),
        }
    }
}

impl IntoMessage for ClientError {
    open spec fn message_body(&self) -> BodyM {
        client_error_body(*self)
    }

    fn into_message(self) -> (r: MessageV2) {
        MessageV2 { seq: 0, data: self.into_body() }
    }
}

impl IntoMessage for ServerError {
    open spec fn message_body(&self) -> BodyM {
        server_error_body(*self)
    }

    fn into_message(self) -> (r: MessageV2) {
        MessageV2 { seq: 0, data: self.into_body() }
    }
}

} // verus!
