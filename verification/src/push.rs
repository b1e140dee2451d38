//! The push API's types: targets, requests, response records, the request
//! body the library generates, and the query parameters of a history list.

use vstd::prelude::*;

use crate::json::{
    def_str_field, fields_model, get_def_str, get_req_bool, get_req_str, get_ts, objs_model,
    parse_single, parse_wrapped, push_quoted, quoted, req_bool_field, req_str_field, sp_single,
    sp_wrapped, ts_field, Scalar, ScalarV,
};
use crate::num::{all_digits, digits_val, float_text_exp, float_text_nanos, float_text_parseable,
    has_exp, has_frac, render_float_seconds, render_u64};
use crate::text::{chars_to_string, push_str_chars};
use crate::time::Timestamp;
use crate::Error;

verus! {

/// Push target.
pub enum Target {
    /// Broadcast to all of the user's devices.
    Broadcast,
    /// Send the push to a specific device.
    Device(String),
    /// Send the push to an email address.
    Email(String),
    /// Send the push to all subscribers of a channel.
    Channel(String),
    /// Send the push to all users who have granted access to this OAuth
    /// iden.
    Client(String),
}

/// Request type of the push API.
pub enum Request<'a> {
    /// Parameters for a note type push.
    Note {
        /// The note's title.
        title: &'a str,
        /// The note's message.
        body: &'a str,
    },
    /// Parameters for a link type push.
    Link {
        /// The link's title.
        title: &'a str,
        /// A message associated with the link.
        body: &'a str,
        /// The url to open.
        url: &'a str,
    },
}

/// The one extra JSON member a target selects; broadcast adds none.
pub open spec fn target_part(t: Target) -> Seq<char> {
    match t {
        Target::Broadcast => Seq::empty(),
        Target::Device(id) => ",\"device_iden\":"@ + quoted(id@),
        Target::Email(id) => ",\"email\":"@ + quoted(id@),
        Target::Channel(id) => ",\"channel_tag\":"@ + quoted(id@),
        Target::Client(id) => ",\"client_iden\":"@ + quoted(id@),
    }
}

/// The request body of a push creation: the request's type discriminator
/// and fields, then the target's member, in one JSON object.
pub open spec fn payload_chars(t: Target, r: Request) -> Seq<char> {
    match r {
        Request::Note { title, body } => "{\"type\":\"note\",\"title\":"@ + quoted(title@)
            + ",\"body\":"@ + quoted(body@) + target_part(t) + "}"@,
        Request::Link { title, body, url } => "{\"type\":\"link\",\"title\":"@ + quoted(title@)
            + ",\"body\":"@ + quoted(body@) + ",\"url\":"@ + quoted(url@) + target_part(t) + "}"@,
    }
}

/// Build the JSON body of a push creation request: exactly the type
/// discriminator ("note" or "link") with the request's fields, and the one
/// member the target selects — none for broadcast.
pub fn create_push_body(target: &Target, request: &Request<'_>) -> (r: String)
    ensures
        r@ == payload_chars(*target, *request),
{
    let mut out: Vec<char> = Vec::new();
    match request {
        Request::Note { title, body } => {
            push_str_chars(&mut out, "{\"type\":\"note\",\"title\":");
            push_quoted(&mut out, title);
            push_str_chars(&mut out, ",\"body\":");
            push_quoted(&mut out, body);
        },
        Request::Link { title, body, url } => {
            push_str_chars(&mut out, "{\"type\":\"link\",\"title\":");
            push_quoted(&mut out, title);
            push_str_chars(&mut out, ",\"body\":");
            push_quoted(&mut out, body);
            push_str_chars(&mut out, ",\"url\":");
            push_quoted(&mut out, url);
        },
    }
    match target {
        Target::Broadcast => {},
        Target::Device(id) => {
            push_str_chars(&mut out, ",\"device_iden\":");
            push_quoted(&mut out, id.as_str());
        },
        Target::Email(id) => {
            push_str_chars(&mut out, ",\"email\":");
            push_quoted(&mut out, id.as_str());
        },
        Target::Channel(id) => {
            push_str_chars(&mut out, ",\"channel_tag\":");
            push_quoted(&mut out, id.as_str());
        },
        Target::Client(id) => {
            push_str_chars(&mut out, ",\"client_iden\":");
            push_quoted(&mut out, id.as_str());
        },
    }
    push_str_chars(&mut out, "}");
    proof {
        assert(out@ =~= payload_chars(*target, *request));
    }
    chars_to_string(&out)
}

/// The mathematical shape of a push record.
pub struct PushV {
    pub active: bool,
    pub body: Seq<char>,
    pub created: Timestamp,
    pub direction: Seq<char>,
    pub dismissed: bool,
    pub iden: Seq<char>,
    pub modified: Timestamp,
    pub receiver_email: Seq<char>,
    pub receiver_email_normalized: Seq<char>,
    pub receiver_iden: Seq<char>,
    pub sender_email: Seq<char>,
    pub sender_email_normalized: Seq<char>,
    pub sender_iden: Seq<char>,
    pub sender_name: Seq<char>,
    pub title: Seq<char>,
    pub url: Seq<char>,
    pub push_type: Seq<char>,
}

/// Response record of the push API.
pub struct Response {
    /// `false` if the item has been deleted.
    pub active: bool,
    /// Body of the push; empty when the push type carries none.
    pub body: String,
    /// Creation time.
    pub created: Timestamp,
    /// Direction the push was sent in: "self", "outgoing", or "incoming".
    pub direction: String,
    /// `true` if the push has been dismissed.
    pub dismissed: bool,
    /// Unique identifier for this object.
    pub iden: String,
    /// Last modified time.
    pub modified: Timestamp,
    /// Email address of the receiver.
    pub receiver_email: String,
    /// Canonical email address of the receiver.
    pub receiver_email_normalized: String,
    /// User iden of the receiver.
    pub receiver_iden: String,
    /// Email address of the sender.
    pub sender_email: String,
    /// Canonical email address of the sender.
    pub sender_email_normalized: String,
    /// User iden of the sender.
    pub sender_iden: String,
    /// Name of the sender.
    pub sender_name: String,
    /// Title of the push; empty when the push type carries none.
    pub title: String,
    /// URL field; meaningful for link type pushes, else empty.
    pub url: String,
    /// Type of the push: "note", "file" or "link".
    pub push_type: String,
}

impl Response {
    /// The record's mathematical shape.
    pub open spec fn model(self) -> PushV {
        PushV {
            active: self.active,
            body: self.body@,
            created: self.created,
            direction: self.direction@,
            dismissed: self.dismissed,
            iden: self.iden@,
            modified: self.modified,
            receiver_email: self.receiver_email@,
            receiver_email_normalized: self.receiver_email_normalized@,
            receiver_iden: self.receiver_iden@,
            sender_email: self.sender_email@,
            sender_email_normalized: self.sender_email_normalized@,
            sender_iden: self.sender_iden@,
            sender_name: self.sender_name@,
            title: self.title@,
            url: self.url@,
            push_type: self.push_type@,
        }
    }

    /// The `created` field.
    pub fn created_time(&self) -> (r: Timestamp)
        ensures
            r == self.created,
    {
        self.created
    }

    /// The `modified` field.
    pub fn modified_time(&self) -> (r: Timestamp)
        ensures
            r == self.modified,
    {
        self.modified
    }
}

/// True when a field list carries every field a push record requires, with
/// the right types; `body`, `title` and `url` may be missing.
pub open spec fn push_fields_ok(fs: Seq<(Seq<char>, ScalarV)>) -> bool {
    &&& req_bool_field(fs, "active"@) is Some
    &&& def_str_field(fs, "body"@) is Some
    &&& ts_field(fs, "created"@) is Some
    &&& req_str_field(fs, "direction"@) is Some
    &&& req_bool_field(fs, "dismissed"@) is Some
    &&& req_str_field(fs, "iden"@) is Some
    &&& ts_field(fs, "modified"@) is Some
    &&& req_str_field(fs, "receiver_email"@) is Some
    &&& req_str_field(fs, "receiver_email_normalized"@) is Some
    &&& req_str_field(fs, "receiver_iden"@) is Some
    &&& req_str_field(fs, "sender_email"@) is Some
    &&& req_str_field(fs, "sender_email_normalized"@) is Some
    &&& req_str_field(fs, "sender_iden"@) is Some
    &&& req_str_field(fs, "sender_name"@) is Some
    &&& def_str_field(fs, "title"@) is Some
    &&& def_str_field(fs, "url"@) is Some
    &&& req_str_field(fs, "type"@) is Some
}

/// The push record a field list denotes.
pub open spec fn sp_push(fs: Seq<(Seq<char>, ScalarV)>) -> Option<PushV> {
    if push_fields_ok(fs) {
        Some(
            PushV {
                active: req_bool_field(fs, "active"@)->0,
                body: def_str_field(fs, "body"@)->0,
                created: ts_field(fs, "created"@)->0,
                direction: req_str_field(fs, "direction"@)->0,
                dismissed: req_bool_field(fs, "dismissed"@)->0,
                iden: req_str_field(fs, "iden"@)->0,
                modified: ts_field(fs, "modified"@)->0,
                receiver_email: req_str_field(fs, "receiver_email"@)->0,
                receiver_email_normalized: req_str_field(fs, "receiver_email_normalized"@)->0,
                receiver_iden: req_str_field(fs, "receiver_iden"@)->0,
                sender_email: req_str_field(fs, "sender_email"@)->0,
                sender_email_normalized: req_str_field(fs, "sender_email_normalized"@)->0,
                sender_iden: req_str_field(fs, "sender_iden"@)->0,
                sender_name: req_str_field(fs, "sender_name"@)->0,
                title: def_str_field(fs, "title"@)->0,
                url: def_str_field(fs, "url"@)->0,
                push_type: req_str_field(fs, "type"@)->0,
            },
        )
    } else {
        None
    }
}

/// Convert one parsed object into a push record.
fn push_of_fields(fields: &Vec<(Vec<char>, Scalar)>) -> (r: Option<Response>)
    ensures
        match r {
            Option::Some(p) => sp_push(fields_model(fields@)) == Some(p.model()) && p.created.wf()
                && p.modified.wf(),
            Option::None => sp_push(fields_model(fields@)) is None,
        },
{
    let active = match get_req_bool(fields, "active") {
        Option::Some(b) => b,
        Option::None => {
            return None;
        },
    };
    let body = match get_def_str(fields, "body") {
        Option::Some(s) => s,
        Option::None => {
            return None;
        },
    };
    let created = match get_ts(fields, "created") {
        Option::Some(t) => t,
        Option::None => {
            return None;
        },
    };
    let direction = match get_req_str(fields, "direction") {
        Option::Some(s) => s,
        Option::None => {
            return None;
        },
    };
    let dismissed = match get_req_bool(fields, "dismissed") {
        Option::Some(b) => b,
        Option::None => {
            return None;
        },
    };
    let iden = match get_req_str(fields, "iden") {
        Option::Some(s) => s,
        Option::None => {
            return None;
        },
    };
    let modified = match get_ts(fields, "modified") {
        Option::Some(t) => t,
        Option::None => {
            return None;
        },
    };
    let receiver_email = match get_req_str(fields, "receiver_email") {
        Option::Some(s) => s,
        Option::None => {
            return None;
        },
    };
    let receiver_email_normalized = match get_req_str(fields, "receiver_email_normalized") {
        Option::Some(s) => s,
        Option::None => {
            return None;
        },
    };
    let receiver_iden = match get_req_str(fields, "receiver_iden") {
        Option::Some(s) => s,
        Option::None => {
            return None;
        },
    };
    let sender_email = match get_req_str(fields, "sender_email") {
        Option::Some(s) => s,
        Option::None => {
            return None;
        },
    };
    let sender_email_normalized = match get_req_str(fields, "sender_email_normalized") {
        Option::Some(s) => s,
        Option::None => {
            return None;
        },
    };
    let sender_iden = match get_req_str(fields, "sender_iden") {
        Option::Some(s) => s,
        Option::None => {
            return None;
        },
    };
    let sender_name = match get_req_str(fields, "sender_name") {
        Option::Some(s) => s,
        Option::None => {
            return None;
        },
    };
    let title = match get_def_str(fields, "title") {
        Option::Some(s) => s,
        Option::None => {
            return None;
        },
    };
    let url = match get_def_str(fields, "url") {
        Option::Some(s) => s,
        Option::None => {
            return None;
        },
    };
    let push_type = match get_req_str(fields, "type") {
        Option::Some(s) => s,
        Option::None => {
            return None;
        },
    };
    Some(
        Response {
            active,
            body,
            created,
            direction,
            dismissed,
            iden,
            modified,
            receiver_email,
            receiver_email_normalized,
            receiver_iden,
            sender_email,
            sender_email_normalized,
            sender_iden,
            sender_name,
            title,
            url,
            push_type,
        },
    )
}

/// The push records an object list denotes; absent when any object is not
/// a push record.
pub open spec fn sp_pushes(objs: Seq<Seq<(Seq<char>, ScalarV)>>) -> Option<Seq<PushV>>
    decreases objs.len(),
{
    if objs.len() == 0 {
        Some(Seq::empty())
    } else {
        match (sp_push(objs[0]), sp_pushes(objs.skip(1))) {
            (Option::Some(p), Option::Some(rest)) => Some(seq![p] + rest),
            _ => None,
        }
    }
}

/// The mathematical shape of a push record list.
pub open spec fn pushes_model(ps: Seq<Response>) -> Seq<PushV> {
    ps.map_values(|p: Response| p.model())
}

/// The push records a whole history-list body denotes.
pub open spec fn pushes_body(s: Seq<char>) -> Option<Seq<PushV>> {
    match sp_wrapped(s, "pushes"@) {
        Option::Some(objs) => sp_pushes(objs),
        Option::None => None,
    }
}

/// The push record a whole single-record body denotes.
pub open spec fn push_body(s: Seq<char>) -> Option<PushV> {
    match sp_single(s) {
        Option::Some(f) => sp_push(f),
        Option::None => None,
    }
}

/// Convert the parsed objects from `i` on into push records.
fn convert_pushes(objs: &Vec<Vec<(Vec<char>, Scalar)>>, i: usize) -> (r: Option<Vec<Response>>)
    requires
        i <= objs@.len(),
    ensures
        match r {
            Option::Some(ps) => sp_pushes(objs_model(objs@).skip(i as int)) == Some(
                pushes_model(ps@),
            ),
            Option::None => sp_pushes(objs_model(objs@).skip(i as int)) is None,
        },
    decreases objs@.len() - i,
{
    let ghost om = objs_model(objs@);
    if i == objs.len() {
        let ps: Vec<Response> = Vec::new();
        proof {
            assert(om.skip(i as int) =~= Seq::<Seq<(Seq<char>, ScalarV)>>::empty());
            assert(pushes_model(ps@) =~= Seq::<PushV>::empty());
        }
        return Some(ps);
    }
    proof {
        assert(om.skip(i as int)[0] == om[i as int]);
        assert(om[i as int] == fields_model(objs@[i as int]@));
        assert(om.skip(i as int).skip(1) =~= om.skip(i + 1));
    }
    match push_of_fields(&objs[i]) {
        Option::None => None,
        Option::Some(p) => {
            match convert_pushes(objs, i + 1) {
                Option::None => None,
                Option::Some(rest) => {
                    let ghost oldr = rest@;
                    let mut ps = rest;
                    ps.insert(0, p);
                    proof {
                        assert(ps@ =~= seq![ps@[0]].add(oldr));
                        assert(pushes_model(ps@) =~= seq![ps@[0].model()] + pushes_model(oldr));
                    }
                    Some(ps)
                },
            }
        },
    }
}

/// Read a push-creation response body: one push record as a JSON object.
/// Returns the record exactly when the body has that shape; anything else
/// is the decode error.
pub fn parse_push_body(body: &str) -> (r: Result<Response, Error>)
    ensures
        r matches Ok(p) ==> push_body(body@) == Some(p.model()),
        r is Err ==> push_body(body@) is None && r == Result::<Response, Error>::Err(Error::Decode),
{
    match parse_single(body) {
        Option::None => Err(Error::Decode),
        Option::Some(fields) => {
            match push_of_fields(&fields) {
                Option::None => Err(Error::Decode),
                Option::Some(p) => Ok(p),
            }
        },
    }
}

/// Read a push-history response body: the JSON object wrapping the push
/// array under the `pushes` key. Returns the records exactly when the body
/// has that shape; anything else is the decode error.
pub fn parse_push_list_body(body: &str) -> (r: Result<Vec<Response>, Error>)
    ensures
        r matches Ok(ps) ==> pushes_body(body@) == Some(pushes_model(ps@)),
        r is Err ==> pushes_body(body@) is None && r == Result::<Vec<Response>, Error>::Err(
            Error::Decode,
        ),
{
    match parse_wrapped(body, "pushes") {
        Option::None => Err(Error::Decode),
        Option::Some(objs) => {
            match convert_pushes(&objs, 0) {
                Option::None => Err(Error::Decode),
                Option::Some(ps) => {
                    proof {
                        assert(objs_model(objs@).skip(0) =~= objs_model(objs@));
                    }
                    Ok(ps)
                },
            }
        },
    }
}

/// Parameters of a push-history list request.
pub struct ListCondition {
    /// Don't return deleted pushes.
    pub active: bool,
    /// Limit on the number of results returned.
    pub limit: u32,
    /// Request pushes modified after this instant.
    pub modified_after: Option<Timestamp>,
    /// Cursor for getting multiple pages of pushes.
    pub cursor: Option<String>,
}

impl ListCondition {
    /// A condition with the given limit: active pushes only, no
    /// modified-after bound, no cursor.
    pub fn new(limit: u32) -> (r: ListCondition)
        ensures
            r.active == true,
            r.limit == limit,
            r.modified_after is None,
            r.cursor is None,
    {
        ListCondition { active: true, limit, modified_after: None, cursor: None }
    }

    /// Set the `modified_after` field.
    pub fn set_modified_after(&mut self, t: Timestamp)
        requires
            t.wf(),
        ensures
            final(self).modified_after == Some(t),
            final(self).active == old(self).active,
            final(self).limit == old(self).limit,
            final(self).cursor == old(self).cursor,
    {
        self.modified_after = Some(t);
    }
}

/// Build the query parameters of a push-history list request: `active` and
/// `limit` always, then `modified_after` (in fractional seconds, exponent
/// notation) and `cursor` when the condition carries them, in that order.
pub fn list_push_params(condition: &ListCondition) -> (r: Vec<(String, String)>)
    requires
        condition.modified_after matches Some(t) ==> t.wf(),
    ensures
        r@.len() == 2 + (if condition.modified_after is Some {
            1int
        } else {
            0
        }) + (if condition.cursor is Some {
            1int
        } else {
            0
        }),
        r@[0].0@ == "active"@,
        r@[0].1@ == (if condition.active {
            "true"@
        } else {
            "false"@
        }),
        r@[1].0@ == "limit"@,
        all_digits(r@[1].1@) && digits_val(r@[1].1@) == condition.limit,
        r@[1].1@.len() > 1 ==> r@[1].1@[0] != '0',
        condition.modified_after matches Some(t) ==> r@[2].0@ == "modified_after"@
            && float_text_parseable(r@[2].1@) && float_text_nanos(r@[2].1@) == t.total_nanos()
            && has_exp(r@[2].1@) && !has_frac(r@[2].1@) && float_text_exp(r@[2].1@) == -9,
        condition.cursor matches Some(c) ==> (if condition.modified_after is Some {
            r@[3].0@ == "cursor"@ && r@[3].1@ == c@
        } else {
            r@[2].0@ == "cursor"@ && r@[2].1@ == c@
        }),
{
    let mut r: Vec<(String, String)> = Vec::new();
    let active_text = if condition.active {
        String::from_str("true")
    } else {
        String::from_str("false")
    };
    r.push((String::from_str("active"), active_text));
    r.push((String::from_str("limit"), render_u64(condition.limit as u64)));
    match &condition.modified_after {
        Option::Some(t) => {
            r.push((String::from_str("modified_after"), render_float_seconds(t)));
        },
        Option::None => {},
    }
    match &condition.cursor {
        Option::Some(c) => {
            r.push((String::from_str("cursor"), c.clone()));
        },
        Option::None => {},
    }
    r
}

} // verus!