use vstd::prelude::*;

use crate::handle_data::{
    after_create, after_process, after_remove, has_node_named, nodes_view, CreateNode, NodeInfo,
    NodeView, ProcessData, RemoveNode,
};
use crate::message::WorkerInfo;

verus! {

/// The Unicode `White_Space` property, the set of characters that `str::trim` removes.
pub open spec fn is_white_space(c: char) -> bool {
    let u = c as u32;
    ||| 0x09 <= u <= 0x0d
    ||| u == 0x20
    ||| u == 0x85
    ||| u == 0xa0
    ||| u == 0x1680
    ||| 0x2000 <= u <= 0x200a
    ||| u == 0x2028
    ||| u == 0x2029
    ||| u == 0x202f
    ||| u == 0x205f
    ||| u == 0x3000
}

/// Whether `c` has the Unicode `White_Space` property.
pub fn white_space(c: char) -> (r: bool)
    ensures
        r == is_white_space(c),
{
    let u = c as u32;
    (0x09 <= u && u <= 0x0d) || u == 0x20 || u == 0x85 || u == 0xa0 || u == 0x1680 || (0x2000 <= u
        && u <= 0x200a) || u == 0x2028 || u == 0x2029 || u == 0x202f || u == 0x205f || u == 0x3000
}

/// A line holds nothing but white space: such lines are skipped by the head.
pub open spec fn is_blank(line: Seq<char>) -> bool {
    forall|i: int| 0 <= i < line.len() ==> is_white_space(#[trigger] line[i])
}

/// Whether a received line is empty once trimmed, and is to be skipped.
pub fn is_blank_line(line: &str) -> (r: bool)
    ensures
        r == is_blank(line@),
{
    let n = line.unicode_len();
    let mut i: usize = 0;
    while i < n
        invariant
            n == line@.len(),
            i <= n,
            forall|j: int| 0 <= j < i ==> is_white_space(#[trigger] line@[j]),
        decreases n - i,
    {
        let c = line.get_char(i);
        if !white_space(c) {
            return false;
        }
        i += 1;
    }
    true
}

/// What a connection to a worker delivers next.
pub enum HeadEvent {
    /// A well-formed report.
    Report(WorkerInfo),
    /// A line that is not a report.
    Malformed,
    /// The connection failed.
    StreamError,
    /// The connection ended.
    Closed,
}

/// What the head does after an event.
#[derive(Debug, PartialEq, Eq, Structural, Clone, Copy)]
pub enum HeadStep {
    /// Keep reading the connection.
    Continue,
    /// Keep reading; the report named a node that the head does not list.
    UnknownNode,
    /// Stop reading the connection.
    Stop,
}

/// The state of one worker connection at the head.
pub struct HeadSession {
    /// No report has been received yet.
    pub first_time: bool,
    /// The host name of the latest report.
    pub node_name: String,
}

/// The node list after a report on a connection, from the list before it.
pub open spec fn after_report(s: Seq<NodeView>, first_time: bool, info: crate::message::WorkerInfoView) -> Seq<NodeView> {
    let registered = if first_time { after_create(s, info) } else { s };
    after_process(registered, info, info.hostname)
}

/// The connection's answer to a report: whether the node was found.
pub open spec fn report_step(s: Seq<NodeView>, first_time: bool, info: crate::message::WorkerInfoView) -> HeadStep {
    let registered = if first_time { after_create(s, info) } else { s };
    if has_node_named(registered, info.hostname) {
        HeadStep::Continue
    } else {
        HeadStep::UnknownNode
    }
}

impl HeadSession {
    /// A connection that has received nothing yet.
    pub fn new() -> (s: Self)
        ensures
            s.first_time,
            s.node_name@ == Seq::<char>::empty(),
    {
        HeadSession { first_time: true, node_name: String::new() }
    }

    /// Handles one event of the connection, updating the head's node list.
    ///
    /// The first report registers the node under its host name; every report is
    /// stored on the node named by its host name. A malformed line, a failed or a
    /// closed connection drops the nodes named like the latest report.
    pub fn step(&mut self, list: &mut Vec<NodeInfo>, event: HeadEvent) -> (step: HeadStep)
        ensures
            match event {
                HeadEvent::Report(info) => {
                    &&& !final(self).first_time
                    &&& final(self).node_name@ == info.hostname@
                    &&& nodes_view(final(list)@) == after_report(nodes_view(old(list)@), old(self).first_time, info@)
                    &&& step == report_step(nodes_view(old(list)@), old(self).first_time, info@)
                },
                _ => {
                    &&& final(self).first_time == old(self).first_time
                    &&& final(self).node_name@ == old(self).node_name@
                    &&& nodes_view(final(list)@) == after_remove(nodes_view(old(list)@), old(self).node_name@)
                    &&& step == (if event is Malformed { HeadStep::Continue } else { HeadStep::Stop })
                },
            },
    {
        match event {
            HeadEvent::Report(info) => {
                if self.first_time {
                    CreateNode(list, &info);
                    self.first_time = false;
                }
                self.node_name = info.hostname.clone();
                let found = ProcessData(list, &info, &self.node_name);
                if found {
                    HeadStep::Continue
                } else {
                    HeadStep::UnknownNode
                }
            },
            HeadEvent::Malformed => {
                RemoveNode(list, &self.node_name);
                HeadStep::Continue
            },
            HeadEvent::StreamError => {
                RemoveNode(list, &self.node_name);
                HeadStep::Stop
            },
            HeadEvent::Closed => {
                RemoveNode(list, &self.node_name);
                HeadStep::Stop
            },
        }
    }
}

/// A connection's first report registers its node and is found on it: when no
/// node had that host name, the list gains exactly one entry, holding the report.
pub proof fn law_first_report_registers(s: Seq<NodeView>, info: crate::message::WorkerInfoView)
    requires
        !has_node_named(s, info.hostname),
    ensures
        after_report(s, true, info) == s.push(crate::handle_data::node_entry(info.hostname, info)),
        report_step(s, true, info) == HeadStep::Continue,
{
    crate::handle_data::law_report_after_create(s, info, info);
    let t = after_create(s, info);
    assert(t[s.len() as int].name == info.hostname);
}

/// A later report on a connection (not its first) changes the list in place:
/// the first entry named after the report's host holds the report, whole, with
/// id 1; every other entry, the names and the order of the list stay as they were;
/// without such an entry the list is unchanged.
pub proof fn law_later_report_in_place(s: Seq<NodeView>, info: crate::message::WorkerInfoView)
    ensures
        after_report(s, false, info).len() == s.len(),
        forall|i: int| 0 <= i < s.len() ==> #[trigger] after_report(s, false, info)[i].name == s[i].name,
        forall|k: int|
            0 <= k < s.len() && s[k].name == info.hostname && (forall|j: int| 0 <= j < k ==> s[j].name != info.hostname)
            ==> {
                &&& (#[trigger] after_report(s, false, info)[k]).info == info
                &&& after_report(s, false, info)[k].id == 1
                &&& forall|i: int| 0 <= i < s.len() && i != k ==> after_report(s, false, info)[i] == s[i]
            },
        (forall|i: int| 0 <= i < s.len() ==> s[i].name != info.hostname) ==> after_report(s, false, info) == s,
        report_step(s, false, info) == (if exists|i: int| 0 <= i < s.len() && s[i].name == info.hostname {
            HeadStep::Continue
        } else {
            HeadStep::UnknownNode
        }),
{
    crate::handle_data::law_process_keeps_names(s, info, info.hostname);
    assert forall|k: int|
        0 <= k < s.len() && s[k].name == info.hostname && (forall|j: int| 0 <= j < k ==> s[j].name != info.hostname)
        implies {
            &&& (#[trigger] after_report(s, false, info)[k]).info == info
            &&& after_report(s, false, info)[k].id == 1
            &&& forall|i: int| 0 <= i < s.len() && i != k ==> after_report(s, false, info)[i] == s[i]
        } by {
        crate::handle_data::law_report_stored_unchanged(s, info, info.hostname, k);
    }
}

/// A connection's first report appends one entry for its host holding the report
/// whole, when no node had that host name; the entries before it are unchanged.
pub proof fn law_first_report_appends(s: Seq<NodeView>, info: crate::message::WorkerInfoView)
    requires
        forall|i: int| 0 <= i < s.len() ==> s[i].name != info.hostname,
    ensures
        after_report(s, true, info).len() == s.len() + 1,
        after_report(s, true, info)[s.len() as int].name == info.hostname,
        after_report(s, true, info)[s.len() as int].id == 1,
        after_report(s, true, info)[s.len() as int].info == info,
        forall|i: int| 0 <= i < s.len() ==> after_report(s, true, info)[i] == s[i],
        report_step(s, true, info) == HeadStep::Continue,
{
    let t = after_create(s, info);
    crate::handle_data::law_create_stores_report(s, info);
    crate::handle_data::law_report_stored_unchanged(t, info, info.hostname, s.len() as int);
    assert(t[s.len() as int].name == info.hostname);
}

} // verus!
