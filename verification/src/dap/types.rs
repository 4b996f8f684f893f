//! Messages, and handles on variables.
use vstd::prelude::*;

use crate::debug::dwarf::entry::text_of;
use crate::debug::graph::GraphModel;
use crate::debug::variables::{VarModel, Variable};
use super::json::{Json, JsonModel};

verus! {

broadcast use vstd::seq_lib::group_seq_properties;

// ---------------------------------------------------------------------------
// Handles
// ---------------------------------------------------------------------------

/// A variable with the declarations that its type is one of.
pub struct HeldModel {
    pub var: VarModel,
    pub graph: GraphModel,
}

/// The values of a list of variables, with the declarations of their types.
pub open spec fn held_of(v: Seq<Variable>) -> Seq<HeldModel> {
    v.map_values(|x: Variable| HeldModel { var: x@, graph: x.ty.model() })
}

/// Lists of variables by handle. Handles are numbered on for as long as the
/// adapter lives, so one that was given up never comes back.
#[derive(Debug)]
pub struct VariablesMap {
    /// The last handle that was given up.
    base: i64,
    /// The lists behind it, in the order of their handles.
    lists: Vec<Vec<Variable>>,
}

/// The mathematical value of a [`VariablesMap`].
pub struct HandlesModel {
    pub base: int,
    pub lists: Seq<Seq<HeldModel>>,
}

impl HandlesModel {
    /// The list that a handle stands for.
    pub open spec fn list(self, handle: int) -> Option<Seq<HeldModel>> {
        if self.base < handle <= self.base + self.lists.len() {
            Some(self.lists[handle - self.base - 1])
        } else {
            None
        }
    }

    /// Whether another handle can be given.
    pub open spec fn has_room(self) -> bool {
        self.base + self.lists.len() < i64::MAX
    }

    /// The handles with one more. Where the handles have run out there is none.
    pub open spec fn with(self, list: Seq<HeldModel>) -> HandlesModel {
        if self.has_room() {
            HandlesModel { lists: self.lists.push(list), ..self }
        } else {
            self
        }
    }

    /// The handle that is given next, 0 where the handles have run out.
    pub open spec fn next(self) -> int {
        if self.has_room() {
            self.base + self.lists.len() + 1
        } else {
            0
        }
    }

    /// All handles given up.
    pub open spec fn cleared(self) -> HandlesModel {
        HandlesModel { base: self.base + self.lists.len(), lists: seq![] }
    }
}

/// The values of lists of variables.
pub open spec fn lists_of(v: Seq<Vec<Variable>>) -> Seq<Seq<HeldModel>> {
    v.map_values(|l: Vec<Variable>| held_of(l@))
}

/// A new handle stands for its list, the others for what they stood for, and
/// once handles are given up none of them stands for anything again, whatever
/// is held later.
pub proof fn handles_do_not_come_back(
    m: HandlesModel,
    list: Seq<HeldModel>,
    handle: int,
)
    requires
        m.base >= 0,
    ensures
        m.has_room() ==> m.with(list).list(m.next()) == Some(list),
        m.list(handle) is Some ==> m.with(list).list(handle) == m.list(handle),
        m.list(handle) is Some ==> m.cleared().list(handle) is None,
        m.list(handle) is Some ==> m.cleared().with(list).list(handle) is None,
        m.list(0) is None,
        m.has_room() ==> m.next() > 0,
{
}

impl View for VariablesMap {
    type V = HandlesModel;

    closed spec fn view(&self) -> HandlesModel {
        HandlesModel { base: self.base as int, lists: lists_of(self.lists@) }
    }
}

impl VariablesMap {
    /// Whether the handles given fit their numbers.
    pub closed spec fn wf(&self) -> bool {
        0 <= self.base && self.base + self.lists@.len() <= i64::MAX
    }

    /// No handles.
    pub fn new() -> (r: Self)
        ensures
            r.wf(),
            r@ == (HandlesModel { base: 0, lists: seq![] }),
    {
        let lists: Vec<Vec<Variable>> = Vec::new();
        assert(lists_of(lists@) =~= seq![]);
        VariablesMap { base: 0, lists }
    }

    /// Gives a handle on a list of variables.
    pub fn allocate(&mut self, list: Vec<Variable>) -> (r: i64)
        requires
            old(self).wf(),
        ensures
            final(self).wf(),
            final(self)@ == old(self)@.with(held_of(list@)),
            r == old(self)@.next(),
    {
        let len: usize = self.lists.len();
        if (len as i128) >= i64::MAX as i128 - self.base as i128 {
            return 0;
        }
        let ghost before = self.lists@;
        self.lists.push(list);
        assert(lists_of(self.lists@) =~= lists_of(before).push(held_of(list@)));
        self.base + len as i64 + 1
    }

    /// The list that a handle stands for.
    pub fn get(&self, handle: i64) -> (r: Option<&Vec<Variable>>)
        requires
            self.wf(),
        ensures
            match r {
                Some(list) => self@.list(handle as int) == Some(held_of(list@)),
                None => self@.list(handle as int) is None,
            },
    {
        let len: usize = self.lists.len();
        if handle <= self.base || (handle as i128) > self.base as i128 + len as i128 {
            return None;
        }
        let i: usize = (handle - self.base - 1) as usize;
        assert(lists_of(self.lists@)[i as int] == held_of(self.lists@[i as int]@));
        Some(&self.lists[i])
    }

    /// Gives up all handles.
    pub fn clear(&mut self)
        requires
            old(self).wf(),
        ensures
            final(self).wf(),
            final(self)@ == old(self)@.cleared(),
    {
        self.base = self.base + self.lists.len() as i64;
        self.lists = Vec::new();
        assert(lists_of(self.lists@) =~= seq![]);
    }
}

// ---------------------------------------------------------------------------
// Base Protocol
// ---------------------------------------------------------------------------

/// A message between the adapter and its client.
#[derive(Debug)]
pub enum ProtocolMessage {
    Request { seq: i64, command: String, arguments: Option<Json> },
    Response {
        seq: i64,
        request_seq: i64,
        success: bool,
        command: String,
        message: Option<String>,
        body: Option<Json>,
    },
    Event { seq: i64, event: String, body: Option<Json> },
}

/// The mathematical value of a [`ProtocolMessage`].
pub enum MessageModel {
    Request { seq: i64, command: Seq<char>, arguments: Option<JsonModel> },
    Response {
        seq: i64,
        request_seq: i64,
        success: bool,
        command: Seq<char>,
        message: Option<Seq<char>>,
        body: Option<JsonModel>,
    },
    Event { seq: i64, event: Seq<char>, body: Option<JsonModel> },
}

/// The value of an optional value of a message.
pub open spec fn body_of(j: Option<Json>) -> Option<JsonModel> {
    match j {
        Some(j) => Some(j@),
        None => None,
    }
}

impl View for ProtocolMessage {
    type V = MessageModel;

    open spec fn view(&self) -> MessageModel {
        match self {
            ProtocolMessage::Request { seq, command, arguments } => MessageModel::Request {
                seq: *seq,
                command: command@,
                arguments: body_of(*arguments),
            },
            ProtocolMessage::Response { seq, request_seq, success, command, message, body } =>
            MessageModel::Response {
                seq: *seq,
                request_seq: *request_seq,
                success: *success,
                command: command@,
                message: text_of(*message),
                body: body_of(*body),
            },
            ProtocolMessage::Event { seq, event, body } => MessageModel::Event {
                seq: *seq,
                event: event@,
                body: body_of(*body),
            },
        }
    }
}

} // verus!
