use vstd::prelude::*;

use crate::message::{WorkerInfo, WorkerInfoView};

verus! {

/// A worker node known to the head: its name, its id and its latest report.
#[derive(Debug)]
pub struct NodeInfo {
    pub name: String,
    pub id: i32,
    pub info: WorkerInfo,
}

/// The mathematical value of a [`NodeInfo`].
pub struct NodeView {
    pub name: Seq<char>,
    pub id: i32,
    pub info: WorkerInfoView,
}

impl View for NodeInfo {
    type V = NodeView;

    open spec fn view(&self) -> NodeView {
        NodeView { name: self.name@, id: self.id, info: self.info@ }
    }
}

/// The values of a list of nodes, in order.
pub open spec fn nodes_view(s: Seq<NodeInfo>) -> Seq<NodeView> {
    s.map_values(|n: NodeInfo| n@)
}

/// The entry that the head keeps for a node named `name` whose latest report is `info`.
pub open spec fn node_entry(name: Seq<char>, info: WorkerInfoView) -> NodeView {
    NodeView { name, id: 1, info }
}

/// Some entry of `s` is named `name`.
pub open spec fn has_node_named(s: Seq<NodeView>, name: Seq<char>) -> bool {
    exists|i: int| 0 <= i < s.len() && s[i].name == name
}

/// `i` is the position of the first entry of `s` named `name`.
pub open spec fn is_first_named(s: Seq<NodeView>, name: Seq<char>, i: int) -> bool {
    &&& 0 <= i < s.len()
    &&& s[i].name == name
    &&& forall|j: int| 0 <= j < i ==> s[j].name != name
}

/// The position of the first entry of `s` named `name` (meaningful when there is one).
pub open spec fn first_named(s: Seq<NodeView>, name: Seq<char>) -> int {
    choose|i: int| is_first_named(s, name, i)
}

/// The list after a report `info` for the node named `name`: the first entry with
/// that name now holds the report; a list without such an entry is unchanged.
pub open spec fn after_process(s: Seq<NodeView>, info: WorkerInfoView, name: Seq<char>) -> Seq<
    NodeView,
> {
    if has_node_named(s, name) {
        s.update(first_named(s, name), node_entry(name, info))
    } else {
        s
    }
}

/// The list after a new node registers with its first report `info`.
pub open spec fn after_create(s: Seq<NodeView>, info: WorkerInfoView) -> Seq<NodeView> {
    s.push(node_entry(info.hostname, info))
}

/// The list after every entry named `name` is dropped.
pub open spec fn after_remove(s: Seq<NodeView>, name: Seq<char>) -> Seq<NodeView> {
    s.filter(|n: NodeView| n.name != name)
}

/// The first position with a given name is unique.
pub proof fn lemma_first_named_unique(s: Seq<NodeView>, name: Seq<char>, i: int)
    requires
        is_first_named(s, name, i),
    ensures
        first_named(s, name) == i,
{
    let k = first_named(s, name);
    assert(is_first_named(s, name, k));
    if k < i {
        assert(s[k].name != name);
    }
    if i < k {
        assert(s[i].name != name);
    }
}

/// Whenever some entry carries a name, a first such entry exists.
pub proof fn lemma_first_named_exists(s: Seq<NodeView>, name: Seq<char>)
    requires
        has_node_named(s, name),
    ensures
        is_first_named(s, name, first_named(s, name)),
    decreases s.len(),
{
    if s[0].name == name {
        assert(is_first_named(s, name, 0));
    } else {
        let t = s.drop_first();
        let w = choose|i: int| 0 <= i < s.len() && s[i].name == name;
        assert(t[w - 1].name == name);
        lemma_first_named_exists(t, name);
        let k = first_named(t, name);
        assert forall|j: int| 0 <= j < k + 1 implies s[j].name != name by {
            if j > 0 {
                assert(s[j] == t[j - 1]);
            }
        }
        assert(is_first_named(s, name, k + 1));
    }
}

/// Stores the report `worker_info` in the first node named `target_name`.
///
/// Returns whether such a node was found; when none was, the list is unchanged.
#[allow(non_snake_case)]
pub fn ProcessData(list: &mut Vec<NodeInfo>, worker_info: &WorkerInfo, target_name: &String) -> (found: bool)
    ensures
        found == has_node_named(nodes_view(old(list)@), target_name@),
        nodes_view(final(list)@) == after_process(nodes_view(old(list)@), worker_info@, target_name@),
{
    let ghost before = nodes_view(list@);
    let n = list.len();
    let mut i: usize = 0;
    while i < n
        invariant
            n == list.len(),
            i <= n,
            *list == *old(list),
            before == nodes_view(list@),
            forall|j: int| 0 <= j < i ==> before[j].name != target_name@,
        decreases n - i,
    {
        if list[i].name == *target_name {
            let new_value = NodeInfo { name: target_name.clone(), id: 1, info: worker_info.clone() };
            list.set(i, new_value);
            proof {
                assert(is_first_named(before, target_name@, i as int));
                lemma_first_named_unique(before, target_name@, i as int);
                assert(nodes_view(list@) =~= before.update(i as int, node_entry(target_name@, worker_info@)));
            }
            return true;
        }
        i += 1;
    }
    assert(nodes_view(list@) == before);
    false
}

/// Appends a node named after the report's host name, holding the report.
#[allow(non_snake_case)]
pub fn CreateNode(list: &mut Vec<NodeInfo>, worker_info: &WorkerInfo)
    ensures
        nodes_view(final(list)@) == after_create(nodes_view(old(list)@), worker_info@),
{
    let node = NodeInfo { name: worker_info.hostname.clone(), id: 1, info: worker_info.clone() };
    list.push(node);
    assert(nodes_view(list@) =~= after_create(nodes_view(old(list)@), worker_info@));
}

/// Drops every node named `worker_name`, keeping the others in order.
#[allow(non_snake_case)]
pub fn RemoveNode(list: &mut Vec<NodeInfo>, worker_name: &String)
    ensures
        nodes_view(final(list)@) == after_remove(nodes_view(old(list)@), worker_name@),
{
    let ghost orig = nodes_view(list@);
    let ghost keep = |n: NodeView| n.name != worker_name@;
    let ghost mut j: int = 0;
    let mut i: usize = 0;
    while i < list.len()
        invariant
            0 <= j <= orig.len(),
            orig == nodes_view(old(list)@),
            keep == (|n: NodeView| n.name != worker_name@),
            nodes_view(list@) == orig.take(j).filter(keep) + orig.skip(j),
            i == orig.take(j).filter(keep).len(),
        decreases list.len() - i,
    {
        proof {
            assert(nodes_view(list@)[i as int] == orig[j]);
            assert(orig.take(j + 1) =~= orig.take(j).push(orig[j]));
            orig.take(j).lemma_filter_push(orig[j], keep);
        }
        if list[i].name == *worker_name {
            let ghost prev = list@;
            list.remove(i);
            proof {
                assert(nodes_view(list@) =~= nodes_view(prev).remove(i as int));
                assert(!keep(orig[j]));
                assert(nodes_view(list@) =~= orig.take(j + 1).filter(keep) + orig.skip(j + 1));
                j = j + 1;
            }
        } else {
            proof {
                assert(nodes_view(list@) =~= orig.take(j + 1).filter(keep) + orig.skip(j + 1));
                j = j + 1;
            }
            i += 1;
        }
    }
    proof {
        assert(orig.skip(j).len() == 0);
        assert(orig.take(j) =~= orig);
        assert(nodes_view(list@) =~= orig.filter(keep));
    }
}


/// After a node name is dropped, no node with that name is left.
pub proof fn law_remove_clears_name(s: Seq<NodeView>, name: Seq<char>)
    ensures
        !has_node_named(after_remove(s, name), name),
{
    broadcast use vstd::seq_lib::group_filter_ensures;

    let keep = |n: NodeView| n.name != name;
    let r = s.filter(keep);
    assert forall|i: int| 0 <= i < r.len() implies r[i].name != name by {
        assert(keep(r[i]));
    }
}

/// Dropping a name twice drops no more than dropping it once.
pub proof fn law_remove_idempotent(s: Seq<NodeView>, name: Seq<char>)
    ensures
        after_remove(after_remove(s, name), name) == after_remove(s, name),
    decreases s.len(),
{
    reveal(Seq::filter);
    let keep = |n: NodeView| n.name != name;
    if s.len() > 0 {
        law_remove_idempotent(s.drop_last(), name);
        let t = s.drop_last().filter(keep);
        if keep(s.last()) {
            t.lemma_filter_push(s.last(), keep);
        }
    }
}

/// Dropping a name leaves every other node, in the same order.
pub proof fn law_remove_keeps_others(s: Seq<NodeView>, name: Seq<char>)
    ensures
        !has_node_named(s, name) ==> after_remove(s, name) == s,
        after_remove(s, name).len() <= s.len(),
    decreases s.len(),
{
    broadcast use vstd::seq_lib::group_filter_ensures;

    reveal(Seq::filter);
    if s.len() > 0 {
        law_remove_keeps_others(s.drop_last(), name);
        if !has_node_named(s, name) {
            assert(!has_node_named(s.drop_last(), name)) by {
                if has_node_named(s.drop_last(), name) {
                    let w = choose|i: int| 0 <= i < s.drop_last().len() && s.drop_last()[i].name == name;
                    assert(s[w].name == name);
                }
            }
            assert(s.last().name != name);
            assert(s.drop_last().push(s.last()) =~= s);
        }
    }
}

/// A node that registers and then leaves leaves the list as it was, provided no
/// other node had its name.
pub proof fn law_remove_undoes_create(s: Seq<NodeView>, info: WorkerInfoView)
    requires
        !has_node_named(s, info.hostname),
    ensures
        after_remove(after_create(s, info), info.hostname) == s,
{
    let keep = |n: NodeView| n.name != info.hostname;
    s.lemma_filter_push(node_entry(info.hostname, info), keep);
    law_remove_keeps_others(s, info.hostname);
}

/// A report changes no node's name and adds or drops no node.
pub proof fn law_process_keeps_names(s: Seq<NodeView>, info: WorkerInfoView, name: Seq<char>)
    ensures
        after_process(s, info, name).len() == s.len(),
        forall|i: int| 0 <= i < s.len() ==> #[trigger] after_process(s, info, name)[i].name == s[i].name,
{
    if has_node_named(s, name) {
        lemma_first_named_exists(s, name);
    }
}

/// A report for a node stores exactly that report on the node: after the report,
/// the first node with that name holds it, and every other node is unchanged.
pub proof fn law_process_stores_report(s: Seq<NodeView>, info: WorkerInfoView, name: Seq<char>)
    requires
        has_node_named(s, name),
    ensures
        ({
            let k = first_named(s, name);
            let t = after_process(s, info, name);
            &&& 0 <= k < s.len()
            &&& t[k] == node_entry(name, info)
            &&& t[k].name == name && t[k].id == 1 && t[k].info == info
            &&& t.len() == s.len()
            &&& forall|i: int| 0 <= i < s.len() && i != k ==> t[i] == s[i]
        }),
{
    lemma_first_named_exists(s, name);
}

/// A report for a listed node is stored whole, on the first node with that name:
/// that entry keeps its name, gets id 1 and holds the report exactly as given;
/// every other entry, and the length of the list, stay as they were.
pub proof fn law_report_stored_unchanged(s: Seq<NodeView>, info: WorkerInfoView, name: Seq<char>, k: int)
    requires
        0 <= k < s.len(),
        s[k].name == name,
        forall|j: int| 0 <= j < k ==> s[j].name != name,
    ensures
        after_process(s, info, name).len() == s.len(),
        after_process(s, info, name)[k].name == name,
        after_process(s, info, name)[k].id == 1,
        after_process(s, info, name)[k].info == info,
        forall|i: int| 0 <= i < s.len() && i != k ==> after_process(s, info, name)[i] == s[i],
{
    assert(is_first_named(s, name, k));
    lemma_first_named_unique(s, name, k);
}

/// A report for a name that no node carries leaves the list unchanged.
pub proof fn law_report_for_unknown_name(s: Seq<NodeView>, info: WorkerInfoView, name: Seq<char>)
    requires
        forall|i: int| 0 <= i < s.len() ==> s[i].name != name,
    ensures
        after_process(s, info, name) == s,
{
}

/// Registering a node appends one entry, named after the report's host, with id 1,
/// holding the report exactly as given; the entries before it stay as they were.
pub proof fn law_create_stores_report(s: Seq<NodeView>, info: WorkerInfoView)
    ensures
        after_create(s, info).len() == s.len() + 1,
        after_create(s, info)[s.len() as int].name == info.hostname,
        after_create(s, info)[s.len() as int].id == 1,
        after_create(s, info)[s.len() as int].info == info,
        forall|i: int| 0 <= i < s.len() ==> after_create(s, info)[i] == s[i],
{
}

/// The first report after a node registers lands on that node's own entry, the
/// last one, when no other node had its name.
pub proof fn law_report_after_create(s: Seq<NodeView>, first: WorkerInfoView, next: WorkerInfoView)
    requires
        !has_node_named(s, first.hostname),
    ensures
        after_process(after_create(s, first), next, first.hostname) == s.push(
            node_entry(first.hostname, next),
        ),
{
    let t = after_create(s, first);
    let k = s.len() as int;
    assert(is_first_named(t, first.hostname, k)) by {
        assert forall|j: int| 0 <= j < k implies t[j].name != first.hostname by {
            assert(t[j] == s[j]);
        }
    }
    lemma_first_named_unique(t, first.hostname, k);
    assert(t.update(k, node_entry(first.hostname, next)) =~= s.push(node_entry(first.hostname, next)));
}

/// Dropping a name from an empty list gives the empty list, and dropping it from
/// a list with one more entry at the end drops that entry exactly when it carries
/// the name: the dropped entries are those with the name, the others stay in order.
pub proof fn law_remove_entry_by_entry(s: Seq<NodeView>, last: NodeView, name: Seq<char>)
    ensures
        after_remove(Seq::<NodeView>::empty(), name) == Seq::<NodeView>::empty(),
        after_remove(s.push(last), name) == if last.name == name {
            after_remove(s, name)
        } else {
            after_remove(s, name).push(last)
        },
{
    reveal(Seq::filter);
    let keep = |n: NodeView| n.name != name;
    s.lemma_filter_push(last, keep);
}

} // verus!
