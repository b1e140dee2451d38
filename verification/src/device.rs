//! Device records: the typed shape of the device-list response, and its
//! reading from a response body.

use vstd::prelude::*;

use crate::json::{
    fields_model, objs_model, parse_wrapped, sp_wrapped, Scalar, ScalarV,
    get_req_bool, get_req_str, get_opt_str, get_opt_u32, get_ts,
    req_bool_field, req_str_field, opt_str_field, opt_u32_field, ts_field,
};
use crate::time::Timestamp;
use crate::Error;

verus! {

/// The mathematical shape of a device record.
pub struct DeviceV {
    pub active: bool,
    pub iden: Seq<char>,
    pub created: Timestamp,
    pub modified: Timestamp,
    pub icon: Seq<char>,
    pub app_version: Option<u32>,
    pub manufacturer: Option<Seq<char>>,
    pub model: Option<Seq<char>>,
    pub nickname: Option<Seq<char>>,
    pub push_token: Option<Seq<char>>,
}

/// Response record of the device-list API.
pub struct Response {
    /// `false` if the item has been deleted.
    pub active: bool,
    /// Unique identifier for this object.
    pub iden: String,
    /// Creation time.
    pub created: Timestamp,
    /// Last modified time.
    pub modified: Timestamp,
    /// Icon to use for this device; an arbitrary string.
    pub icon: String,
    /// Version of the application installed on the device.
    pub app_version: Option<u32>,
    /// Manufacturer of the device.
    pub manufacturer: Option<String>,
    /// Model of the device.
    pub model: Option<String>,
    /// Name to use when displaying the device.
    pub nickname: Option<String>,
    /// Platform-specific push token.
    pub push_token: Option<String>,
}

/// The shape of an optional string field.
pub open spec fn opt_str_model(s: Option<String>) -> Option<Seq<char>> {
    match s {
        Option::Some(v) => Some(v@),
        Option::None => None,
    }
}

impl Response {
    /// The record's mathematical shape.
    pub open spec fn model(self) -> DeviceV {
        DeviceV {
            active: self.active,
            iden: self.iden@,
            created: self.created,
            modified: self.modified,
            icon: self.icon@,
            app_version: self.app_version,
            manufacturer: opt_str_model(self.manufacturer),
            model: opt_str_model(self.model),
            nickname: opt_str_model(self.nickname),
            push_token: opt_str_model(self.push_token),
        }
    }

    /// The `created` field.
    pub fn created_time(&self) -> (r: Timestamp)
        ensures
            r == self.created,
    {
        self.created
    }

    /// The `modified` field.
    pub fn modified_time(&self) -> (r: Timestamp)
        ensures
            r == self.modified,
    {
        self.modified
    }
}

/// The device record a field list denotes: the required fields must be
/// present with their types, the optional ones may be absent or null.
pub open spec fn sp_device(fs: Seq<(Seq<char>, ScalarV)>) -> Option<DeviceV> {
    match (
        req_bool_field(fs, "active"@),
        req_str_field(fs, "iden"@),
        ts_field(fs, "created"@),
        ts_field(fs, "modified"@),
        req_str_field(fs, "icon"@),
        opt_u32_field(fs, "app_version"@),
        opt_str_field(fs, "manufacturer"@),
        opt_str_field(fs, "model"@),
        opt_str_field(fs, "nickname"@),
        opt_str_field(fs, "push_token"@),
    ) {
        (
            Option::Some(active),
            Option::Some(iden),
            Option::Some(created),
            Option::Some(modified),
            Option::Some(icon),
            Option::Some(app_version),
            Option::Some(manufacturer),
            Option::Some(model),
            Option::Some(nickname),
            Option::Some(push_token),
        ) => Some(
            DeviceV {
                active,
                iden,
                created,
                modified,
                icon,
                app_version,
                manufacturer,
                model,
                nickname,
                push_token,
            },
        ),
        _ => None,
    }
}

/// Convert one parsed object into a device record.
fn device_of_fields(fields: &Vec<(Vec<char>, Scalar)>) -> (r: Option<Response>)
    ensures
        match r {
            Option::Some(d) => sp_device(fields_model(fields@)) == Some(d.model()) && d.created.wf()
                && d.modified.wf(),
            Option::None => sp_device(fields_model(fields@)) is None,
        },
{
    let active = match get_req_bool(fields, "active") {
        Option::Some(b) => b,
        Option::None => {
            return None;
        },
    };
    let iden = match get_req_str(fields, "iden") {
        Option::Some(s) => s,
        Option::None => {
            return None;
        },
    };
    let created = match get_ts(fields, "created") {
        Option::Some(t) => t,
        Option::None => {
            return None;
        },
    };
    let modified = match get_ts(fields, "modified") {
        Option::Some(t) => t,
        Option::None => {
            return None;
        },
    };
    let icon = match get_req_str(fields, "icon") {
        Option::Some(s) => s,
        Option::None => {
            return None;
        },
    };
    let app_version = match get_opt_u32(fields, "app_version") {
        Option::Some(o) => o,
        Option::None => {
            return None;
        },
    };
    let manufacturer = match get_opt_str(fields, "manufacturer") {
        Option::Some(o) => o,
        Option::None => {
            return None;
        },
    };
    let model = match get_opt_str(fields, "model") {
        Option::Some(o) => o,
        Option::None => {
            return None;
        },
    };
    let nickname = match get_opt_str(fields, "nickname") {
        Option::Some(o) => o,
        Option::None => {
            return None;
        },
    };
    let push_token = match get_opt_str(fields, "push_token") {
        Option::Some(o) => o,
        Option::None => {
            return None;
        },
    };
    Some(
        Response {
            active,
            iden,
            created,
            modified,
            icon,
            app_version,
            manufacturer,
            model,
            nickname,
            push_token,
        },
    )
}

/// The device records an object list denotes; absent when any object is
/// not a device record.
pub open spec fn sp_devices(objs: Seq<Seq<(Seq<char>, ScalarV)>>) -> Option<Seq<DeviceV>>
    decreases objs.len(),
{
    if objs.len() == 0 {
        Some(Seq::empty())
    } else {
        match (sp_device(objs[0]), sp_devices(objs.skip(1))) {
            (Option::Some(d), Option::Some(rest)) => Some(seq![d] + rest),
            _ => None,
        }
    }
}

/// The mathematical shape of a device record list.
pub open spec fn devices_model(ds: Seq<Response>) -> Seq<DeviceV> {
    ds.map_values(|d: Response| d.model())
}

/// The device records a whole device-list body denotes.
pub open spec fn devices_body(s: Seq<char>) -> Option<Seq<DeviceV>> {
    match sp_wrapped(s, "devices"@) {
        Option::Some(objs) => sp_devices(objs),
        Option::None => None,
    }
}

/// Convert the parsed objects from `i` on into device records.
fn convert_devices(objs: &Vec<Vec<(Vec<char>, Scalar)>>, i: usize) -> (r: Option<Vec<Response>>)
    requires
        i <= objs@.len(),
    ensures
        match r {
            Option::Some(ds) => sp_devices(objs_model(objs@).skip(i as int)) == Some(
                devices_model(ds@),
            ),
            Option::None => sp_devices(objs_model(objs@).skip(i as int)) is None,
        },
    decreases objs@.len() - i,
{
    let ghost om = objs_model(objs@);
    if i == objs.len() {
        let ds: Vec<Response> = Vec::new();
        proof {
            assert(om.skip(i as int) =~= Seq::<Seq<(Seq<char>, ScalarV)>>::empty());
            assert(devices_model(ds@) =~= Seq::<DeviceV>::empty());
        }
        return Some(ds);
    }
    proof {
        assert(om.skip(i as int)[0] == om[i as int]);
        assert(om[i as int] == fields_model(objs@[i as int]@));
        assert(om.skip(i as int).skip(1) =~= om.skip(i + 1));
    }
    match device_of_fields(&objs[i]) {
        Option::None => None,
        Option::Some(d) => {
            match convert_devices(objs, i + 1) {
                Option::None => None,
                Option::Some(rest) => {
                    let ghost oldr = rest@;
                    let mut ds = rest;
                    ds.insert(0, d);
                    proof {
                        assert(ds@ =~= seq![ds@[0]].add(oldr));
                        assert(devices_model(ds@) =~= seq![ds@[0].model()] + devices_model(oldr));
                    }
                    Some(ds)
                },
            }
        },
    }
}

/// Read a device-list response body: the JSON object wrapping the device
/// array under the `devices` key. Returns the records exactly when the
/// body has that shape; anything else is the decode error.
pub fn parse_devices_body(body: &str) -> (r: Result<Vec<Response>, Error>)
    ensures
        r matches Ok(ds) ==> devices_body(body@) == Some(devices_model(ds@)),
        r is Err ==> devices_body(body@) is None && r == Result::<Vec<Response>, Error>::Err(
            Error::Decode,
        ),
{
    match parse_wrapped(body, "devices") {
        Option::None => Err(Error::Decode),
        Option::Some(objs) => {
            match convert_devices(&objs, 0) {
                Option::None => Err(Error::Decode),
                Option::Some(ds) => {
                    proof {
                        assert(objs_model(objs@).skip(0) =~= objs_model(objs@));
                    }
                    Ok(ds)
                },
            }
        },
    }
}

} // verus!
