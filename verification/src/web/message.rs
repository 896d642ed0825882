//! The update messages a streaming session emits.

use vstd::prelude::*;
use crate::fixed::{Airport, FIR};
use crate::moving::Pilot;

verus! {

/// One batch of objects of a single kind.
#[derive(Debug)]
pub struct ObjectsSet {
    pub pilots: Option<Vec<Pilot>>,
    pub airports: Option<Vec<Airport>>,
    pub firs: Option<Vec<FIR>>,
}

/// Whether a batch holds anything.
pub open spec fn spec_objects_set_empty(s: ObjectsSet) -> bool {
    &&& match s.pilots {
        Option::Some(v) => v@.len() == 0,
        Option::None => true,
    }
    &&& match s.airports {
        Option::Some(v) => v@.len() == 0,
        Option::None => true,
    }
    &&& match s.firs {
        Option::Some(v) => v@.len() == 0,
        Option::None => true,
    }
}

impl ObjectsSet {
    /// Whether the batch holds anything.
    pub fn is_empty(&self) -> (r: bool)
        ensures
            r == spec_objects_set_empty(*self),
    {
        let p = match &self.pilots {
            Option::Some(v) => v.len() == 0,
            Option::None => true,
        };
        let a = match &self.airports {
            Option::Some(v) => v.len() == 0,
            Option::None => true,
        };
        let f = match &self.firs {
            Option::Some(v) => v.len() == 0,
            Option::None => true,
        };
        p && a && f
    }
}

/// The payload of one message: objects to set, objects to delete.
#[derive(Debug)]
pub struct Update {
    pub set: Option<ObjectsSet>,
    pub delete: Option<ObjectsSet>,
}

/// Whether a payload holds anything.
pub open spec fn spec_update_empty(u: Update) -> bool {
    &&& match u.set {
        Option::Some(s) => spec_objects_set_empty(s),
        Option::None => true,
    }
    &&& match u.delete {
        Option::Some(s) => spec_objects_set_empty(s),
        Option::None => true,
    }
}

impl Update {
    /// Whether the payload holds anything.
    pub fn is_empty(&self) -> (r: bool)
        ensures
            r == spec_update_empty(*self),
    {
        let s = match &self.set {
            Option::Some(x) => x.is_empty(),
            Option::None => true,
        };
        let d = match &self.delete {
            Option::Some(x) => x.is_empty(),
            Option::None => true,
        };
        s && d
    }
}

/// One message of the event stream.
#[derive(Debug)]
pub struct UpdateMessage {
    pub connection_id: String,
    pub message_type: &'static str,
    pub object_type: &'static str,
    pub data: Update,
}

impl UpdateMessage {
    /// A batch of pilots to draw.
    pub fn pilots_set(connection_id: &String, data: Vec<Pilot>) -> (r: UpdateMessage)
        ensures
            r.connection_id@ == connection_id@,
            r.message_type@ == "update"@,
            r.object_type@ == "pilot"@,
            r.data.set matches Some(s) && s.pilots matches Some(v) && v@ == data@
                && s.airports is None && s.firs is None,
            r.data.delete is None,
            spec_update_empty(r.data) == (data@.len() == 0),
    {
        UpdateMessage {
            connection_id: connection_id.clone(),
            message_type: "update",
            object_type: "pilot",
            data: Update {
                set: Some(ObjectsSet { pilots: Some(data), airports: None, firs: None }),
                delete: None,
            },
        }
    }

    /// A batch of pilots to remove.
    pub fn pilots_delete(connection_id: &String, data: Vec<Pilot>) -> (r: UpdateMessage)
        ensures
            r.connection_id@ == connection_id@,
            r.message_type@ == "update"@,
            r.object_type@ == "pilot"@,
            r.data.delete matches Some(s) && s.pilots matches Some(v) && v@ == data@
                && s.airports is None && s.firs is None,
            r.data.set is None,
            spec_update_empty(r.data) == (data@.len() == 0),
    {
        UpdateMessage {
            connection_id: connection_id.clone(),
            message_type: "update",
            object_type: "pilot",
            data: Update {
                set: None,
                delete: Some(ObjectsSet { pilots: Some(data), airports: None, firs: None }),
            },
        }
    }

    /// A batch of airports to draw.
    pub fn airports_set(connection_id: &String, data: Vec<Airport>) -> (r: UpdateMessage)
        ensures
            r.connection_id@ == connection_id@,
            r.message_type@ == "update"@,
            r.object_type@ == "airport"@,
            r.data.set matches Some(s) && s.airports matches Some(v) && v@ == data@
                && s.pilots is None && s.firs is None,
            r.data.delete is None,
            spec_update_empty(r.data) == (data@.len() == 0),
    {
        UpdateMessage {
            connection_id: connection_id.clone(),
            message_type: "update",
            object_type: "airport",
            data: Update {
                set: Some(ObjectsSet { pilots: None, airports: Some(data), firs: None }),
                delete: None,
            },
        }
    }

    /// A batch of airports to remove.
    pub fn airports_delete(connection_id: &String, data: Vec<Airport>) -> (r: UpdateMessage)
        ensures
            r.connection_id@ == connection_id@,
            r.message_type@ == "update"@,
            r.object_type@ == "airport"@,
            r.data.delete matches Some(s) && s.airports matches Some(v) && v@ == data@
                && s.pilots is None && s.firs is None,
            r.data.set is None,
            spec_update_empty(r.data) == (data@.len() == 0),
    {
        UpdateMessage {
            connection_id: connection_id.clone(),
            message_type: "update",
            object_type: "airport",
            data: Update {
                set: None,
                delete: Some(ObjectsSet { pilots: None, airports: Some(data), firs: None }),
            },
        }
    }

    /// A batch of regions to draw.
    pub fn firs_set(connection_id: &String, data: Vec<FIR>) -> (r: UpdateMessage)
        ensures
            r.connection_id@ == connection_id@,
            r.message_type@ == "update"@,
            r.object_type@ == "fir"@,
            r.data.set matches Some(s) && s.firs matches Some(v) && v@ == data@
                && s.pilots is None && s.airports is None,
            r.data.delete is None,
            spec_update_empty(r.data) == (data@.len() == 0),
    {
        UpdateMessage {
            connection_id: connection_id.clone(),
            message_type: "update",
            object_type: "fir",
            data: Update {
                set: Some(ObjectsSet { pilots: None, airports: None, firs: Some(data) }),
                delete: None,
            },
        }
    }

    /// A batch of regions to remove.
    pub fn firs_delete(connection_id: &String, data: Vec<FIR>) -> (r: UpdateMessage)
        ensures
            r.connection_id@ == connection_id@,
            r.message_type@ == "update"@,
            r.object_type@ == "fir"@,
            r.data.delete matches Some(s) && s.firs matches Some(v) && v@ == data@
                && s.pilots is None && s.airports is None,
            r.data.set is None,
            spec_update_empty(r.data) == (data@.len() == 0),
    {
        UpdateMessage {
            connection_id: connection_id.clone(),
            message_type: "update",
            object_type: "fir",
            data: Update {
                set: None,
                delete: Some(ObjectsSet { pilots: None, airports: None, firs: Some(data) }),
            },
        }
    }
}

} // verus!
