//! The form in which the wide-column backend stores a tag. The cookie, the
//! action and the time are the key of the row; the rest is its value. The
//! device and the action are stored as JSON strings of their wire names.

use crate::json::{from_json_string, json_of_text, text_of_json, to_json_string};
use crate::types::{Action, Device, ProductInfo, ProductInfoView, Timestamp, UserTagView};
use vstd::prelude::*;

verus! {

/// Why a tag cannot be stored, or a stored tag cannot be read.
#[derive(Debug, Clone, Copy, PartialEq, Eq, Structural)]
pub enum StoredTagError {
    /// A wire name could not be written as a JSON string.
    Encoding,
    /// The stored action is not the JSON string of `VIEW` or `BUY`.
    Action,
    /// The stored device is not the JSON string of `PC`, `MOBILE` or `TV`.
    Device,
}

/// The value of a row of stored tags.
#[derive(Debug, PartialEq, Eq)]
pub struct UserTag {
    pub country: String,
    pub device: String,
    pub origin: String,
    pub product_info: ProductInfo,
}

/// The mathematical value of a stored [`UserTag`].
pub struct StoredTagView {
    pub country: Seq<char>,
    pub device: Seq<char>,
    pub origin: Seq<char>,
    pub product_info: ProductInfoView,
}

impl View for UserTag {
    type V = StoredTagView;

    open spec fn view(&self) -> StoredTagView {
        StoredTagView {
            country: self.country@,
            device: self.device@,
            origin: self.origin@,
            product_info: self.product_info@,
        }
    }
}

/// The stored form of a tag: its device as the JSON string of the wire name.
pub open spec fn stored_form(tag: UserTagView) -> Result<StoredTagView, StoredTagError> {
    match json_of_text(tag.device.wire_name()) {
        None => Err(StoredTagError::Encoding),
        Some(device) => Ok(
            StoredTagView {
                country: tag.country,
                device,
                origin: tag.origin,
                product_info: tag.product_info,
            },
        ),
    }
}

/// The action that a stored text stands for.
pub open spec fn stored_action(text: Seq<char>) -> Option<Action> {
    match text_of_json(text) {
        None => None,
        Some(name) => Action::named(name),
    }
}

/// The device that a stored text stands for.
pub open spec fn stored_device(text: Seq<char>) -> Option<Device> {
    match text_of_json(text) {
        None => None,
        Some(name) => Device::named(name),
    }
}

/// The tag that a stored row stands for. The action is read first, then the
/// device.
pub open spec fn read_form(
    row: StoredTagView,
    cookie: Seq<char>,
    time: int,
    action: Seq<char>,
) -> Result<UserTagView, StoredTagError> {
    match stored_action(action) {
        None => Err(StoredTagError::Action),
        Some(action) => match stored_device(row.device) {
            None => Err(StoredTagError::Device),
            Some(device) => Ok(
                UserTagView {
                    time,
                    cookie,
                    country: row.country,
                    device,
                    action,
                    origin: row.origin,
                    product_info: row.product_info,
                },
            ),
        },
    }
}

/// The text under which an action is stored: the JSON string of its wire
/// name.
pub fn action_text(action: Action) -> (r: Result<String, StoredTagError>)
    ensures
        match r {
            Ok(text) => json_of_text(action.wire_name()) == Some(text@),
            Err(error) => json_of_text(action.wire_name()) is None && error
                == StoredTagError::Encoding,
        },
{
    match to_json_string(action.name()) {
        Ok(text) => Ok(text),
        Err(_) => Err(StoredTagError::Encoding),
    }
}

impl UserTag {
    /// Puts a tag into its stored form.
    pub fn new(user_tag: crate::types::UserTag) -> (r: Result<Self, StoredTagError>)
        ensures
            match r {
                Ok(row) => stored_form(user_tag@) == Ok::<StoredTagView, StoredTagError>(row@),
                Err(error) => stored_form(user_tag@) == Err::<StoredTagView, StoredTagError>(
                    error,
                ),
            },
    {
        let device = match to_json_string(user_tag.device.name()) {
            Ok(device) => device,
            Err(_) => {
                return Err(StoredTagError::Encoding);
            },
        };
        Ok(
            Self {
                country: user_tag.country,
                device,
                origin: user_tag.origin,
                product_info: user_tag.product_info,
            },
        )
    }

    /// Reads a tag back from its stored form and the key of its row.
    pub fn into_user_tag(self, cookie: String, time: Timestamp, action: String) -> (r: Result<
        crate::types::UserTag,
        StoredTagError,
    >)
        ensures
            match r {
                Ok(tag) => read_form(self@, cookie@, time@, action@) == Ok::<
                    UserTagView,
                    StoredTagError,
                >(tag@),
                Err(error) => read_form(self@, cookie@, time@, action@) == Err::<
                    UserTagView,
                    StoredTagError,
                >(error),
            },
    {
        let action = match from_json_string(action.as_str()) {
            Ok(name) => match Action::from_name(name.as_str()) {
                Some(action) => action,
                None => {
                    return Err(StoredTagError::Action);
                },
            },
            Err(_) => {
                return Err(StoredTagError::Action);
            },
        };
        let device = match from_json_string(self.device.as_str()) {
            Ok(name) => match Device::from_name(name.as_str()) {
                Some(device) => device,
                None => {
                    return Err(StoredTagError::Device);
                },
            },
            Err(_) => {
                return Err(StoredTagError::Device);
            },
        };
        Ok(
            crate::types::UserTag {
                time,
                cookie,
                country: self.country,
                device,
                action,
                origin: self.origin,
                product_info: self.product_info,
            },
        )
    }
}

} // verus!
