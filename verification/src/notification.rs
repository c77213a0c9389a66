//! Notifications as the server hands them to its user.

use crate::common;
use crate::common::Params;
use vstd::prelude::*;

verus! {

/// A notification received from a client.
///
/// A notification is never answered: once it has been handed out, the server keeps no
/// record of it.
#[derive(Debug, Clone, PartialEq)]
pub struct Notification(pub common::Notification);

impl From<common::Notification> for Notification {
    fn from(notification: common::Notification) -> (converted: Notification) {
        Notification(notification)
    }
}

impl vstd::std_specs::convert::FromSpecImpl<common::Notification> for Notification {
    open spec fn obeys_from_spec() -> bool {
        true
    }

    open spec fn from_spec(notification: common::Notification) -> Notification {
        Notification(notification)
    }
}

impl Notification {
    /// Name of the method that the client invokes.
    pub fn method(&self) -> (method: &str)
        ensures
            method@ == self.0.method@,
    {
        self.0.method.as_str()
    }

    /// Parameters that the client passes to the method.
    pub fn params(&self) -> (params: &Params)
        ensures
            *params == self.0.params,
    {
        &self.0.params
    }

    /// Gives back the protocol object that this notification was made from.
    pub fn into_inner(self) -> (notification: common::Notification)
        ensures
            notification == self.0,
    {
        self.0
    }
}

} // verus!
