use vstd::prelude::*;

verus! {

/// How many samples a load graph shows.
pub const GRAPH_WIDTH: usize = 20;

/// The recent load samples of one CPU core of one node, oldest first.
pub struct CoreGraph {
    pub hostname: String,
    pub core_index: i32,
    pub graph_data: String,
}

/// The recent memory samples of one node, oldest first.
pub struct RAMGraph {
    pub hostname: String,
    pub graph_data: String,
}

/// The mathematical value of a [`CoreGraph`].
pub struct CoreGraphView {
    pub hostname: Seq<char>,
    pub core_index: i32,
    pub graph_data: Seq<char>,
}

/// The mathematical value of a [`RAMGraph`].
pub struct RAMGraphView {
    pub hostname: Seq<char>,
    pub graph_data: Seq<char>,
}

impl View for CoreGraph {
    type V = CoreGraphView;

    open spec fn view(&self) -> CoreGraphView {
        CoreGraphView { hostname: self.hostname@, core_index: self.core_index, graph_data: self.graph_data@ }
    }
}

impl View for RAMGraph {
    type V = RAMGraphView;

    open spec fn view(&self) -> RAMGraphView {
        RAMGraphView { hostname: self.hostname@, graph_data: self.graph_data@ }
    }
}

pub open spec fn core_graphs_view(s: Seq<CoreGraph>) -> Seq<CoreGraphView> {
    s.map_values(|g: CoreGraph| g@)
}

pub open spec fn ram_graphs_view(s: Seq<RAMGraph>) -> Seq<RAMGraphView> {
    s.map_values(|g: RAMGraph| g@)
}

/// The window that a new graph starts with: `GRAPH_WIDTH` spaces.
pub open spec fn blank_window() -> Seq<char> {
    Seq::new(GRAPH_WIDTH as nat, |i: int| ' ')
}

/// A window after the sample `bar` is appended: when it then holds more than
/// `GRAPH_WIDTH` characters, its oldest character is dropped.
pub open spec fn push_sample(window: Seq<char>, bar: Seq<char>) -> Seq<char> {
    let s = window + bar;
    if s.len() > GRAPH_WIDTH { s.drop_first() } else { s }
}

/// Appends a sample to a window, as [`push_sample`] states.
pub fn push_sample_exec(window: &String, bar: &str) -> (res: String)
    ensures
        res@ == push_sample(window@, bar@),
{
    let mut s = window.clone();
    s.append(bar);
    let n = s.as_str().unicode_len();
    if n > GRAPH_WIDTH {
        let rest = s.as_str().substring_char(1, n);
        let r = String::from_str(rest);
        assert(r@ =~= (window@ + bar@).drop_first());
        r
    } else {
        s
    }
}

/// A fresh window of `GRAPH_WIDTH` spaces.
pub fn blank_window_exec() -> (res: String)
    ensures
        res@ == blank_window(),
{
    let s = String::from_str("                    ");
    proof {
        reveal_strlit("                    ");
        assert(s@ =~= blank_window());
    }
    s
}

/// `i` is the first graph of `s` for core `core_index` of `hostname`.
pub open spec fn is_first_core_graph(s: Seq<CoreGraphView>, hostname: Seq<char>, core_index: i32, i: int) -> bool {
    &&& 0 <= i < s.len()
    &&& s[i].hostname == hostname && s[i].core_index == core_index
    &&& forall|j: int| 0 <= j < i ==> !(s[j].hostname == hostname && s[j].core_index == core_index)
}

pub open spec fn has_core_graph(s: Seq<CoreGraphView>, hostname: Seq<char>, core_index: i32) -> bool {
    exists|i: int| 0 <= i < s.len() && s[i].hostname == hostname && s[i].core_index == core_index
}

pub open spec fn first_core_graph(s: Seq<CoreGraphView>, hostname: Seq<char>, core_index: i32) -> int {
    choose|i: int| is_first_core_graph(s, hostname, core_index, i)
}

/// The core graphs after a sample `bar` of core `core_index` of `hostname`: the
/// first graph of that core gets the sample; without one, a blank graph is added.
pub open spec fn after_core_sample(s: Seq<CoreGraphView>, hostname: Seq<char>, core_index: i32, bar: Seq<char>) -> Seq<CoreGraphView> {
    if has_core_graph(s, hostname, core_index) {
        let i = first_core_graph(s, hostname, core_index);
        s.update(i, CoreGraphView { hostname: s[i].hostname, core_index: s[i].core_index, graph_data: push_sample(s[i].graph_data, bar) })
    } else {
        s.push(CoreGraphView { hostname, core_index, graph_data: blank_window() })
    }
}

/// What is drawn for that core after the sample: the updated window, or the sample
/// alone when the core had no graph yet.
pub open spec fn core_sample_shown(s: Seq<CoreGraphView>, hostname: Seq<char>, core_index: i32, bar: Seq<char>) -> Seq<char> {
    if has_core_graph(s, hostname, core_index) {
        push_sample(s[first_core_graph(s, hostname, core_index)].graph_data, bar)
    } else {
        bar
    }
}

/// Records a load sample `bar` of core `core_index` of `hostname` and returns the
/// text to draw for that core.
pub fn record_core_sample(graphs: &mut Vec<CoreGraph>, hostname: &String, core_index: i32, bar: &str) -> (shown: String)
    ensures
        core_graphs_view(final(graphs)@) == after_core_sample(core_graphs_view(old(graphs)@), hostname@, core_index, bar@),
        shown@ == core_sample_shown(core_graphs_view(old(graphs)@), hostname@, core_index, bar@),
{
    let ghost before = core_graphs_view(graphs@);
    let n = graphs.len();
    let mut i: usize = 0;
    while i < n
        invariant
            n == graphs.len(),
            i <= n,
            *graphs == *old(graphs),
            before == core_graphs_view(graphs@),
            forall|j: int| 0 <= j < i ==> !(#[trigger] before[j].hostname == hostname@ && before[j].core_index == core_index),
        decreases n - i,
    {
        if graphs[i].core_index == core_index && graphs[i].hostname == *hostname {
            let new_graph = push_sample_exec(&graphs[i].graph_data, bar);
            let item = CoreGraph { hostname: graphs[i].hostname.clone(), core_index, graph_data: new_graph.clone() };
            graphs.set(i, item);
            proof {
                assert(is_first_core_graph(before, hostname@, core_index, i as int));
                let k = first_core_graph(before, hostname@, core_index);
                assert(is_first_core_graph(before, hostname@, core_index, k));
                if k < i { assert(!(before[k].hostname == hostname@ && before[k].core_index == core_index)); }
                if i < k { assert(!(before[i as int].hostname == hostname@ && before[i as int].core_index == core_index)); }
                assert(core_graphs_view(graphs@) =~= after_core_sample(before, hostname@, core_index, bar@));
            }
            return new_graph;
        }
        i += 1;
    }
    let blank = blank_window_exec();
    graphs.push(CoreGraph { hostname: hostname.clone(), core_index, graph_data: blank });
    assert(core_graphs_view(graphs@) =~= after_core_sample(before, hostname@, core_index, bar@));
    String::from_str(bar)
}

/// `i` is the first memory graph of `s` for `hostname`.
pub open spec fn is_first_ram_graph(s: Seq<RAMGraphView>, hostname: Seq<char>, i: int) -> bool {
    &&& 0 <= i < s.len()
    &&& s[i].hostname == hostname
    &&& forall|j: int| 0 <= j < i ==> s[j].hostname != hostname
}

pub open spec fn has_ram_graph(s: Seq<RAMGraphView>, hostname: Seq<char>) -> bool {
    exists|i: int| 0 <= i < s.len() && s[i].hostname == hostname
}

pub open spec fn first_ram_graph(s: Seq<RAMGraphView>, hostname: Seq<char>) -> int {
    choose|i: int| is_first_ram_graph(s, hostname, i)
}

/// The memory graphs after a sample `bar` of `hostname`, as for cores.
pub open spec fn after_ram_sample(s: Seq<RAMGraphView>, hostname: Seq<char>, bar: Seq<char>) -> Seq<RAMGraphView> {
    if has_ram_graph(s, hostname) {
        let i = first_ram_graph(s, hostname);
        s.update(i, RAMGraphView { hostname: s[i].hostname, graph_data: push_sample(s[i].graph_data, bar) })
    } else {
        s.push(RAMGraphView { hostname, graph_data: blank_window() })
    }
}

/// What is drawn for the memory of `hostname` after the sample.
pub open spec fn ram_sample_shown(s: Seq<RAMGraphView>, hostname: Seq<char>, bar: Seq<char>) -> Seq<char> {
    if has_ram_graph(s, hostname) {
        push_sample(s[first_ram_graph(s, hostname)].graph_data, bar)
    } else {
        bar
    }
}

/// Records a memory sample `bar` of `hostname` and returns the text to draw.
pub fn record_ram_sample(graphs: &mut Vec<RAMGraph>, hostname: &String, bar: &str) -> (shown: String)
    ensures
        ram_graphs_view(final(graphs)@) == after_ram_sample(ram_graphs_view(old(graphs)@), hostname@, bar@),
        shown@ == ram_sample_shown(ram_graphs_view(old(graphs)@), hostname@, bar@),
{
    let ghost before = ram_graphs_view(graphs@);
    let n = graphs.len();
    let mut i: usize = 0;
    while i < n
        invariant
            n == graphs.len(),
            i <= n,
            *graphs == *old(graphs),
            before == ram_graphs_view(graphs@),
            forall|j: int| 0 <= j < i ==> #[trigger] before[j].hostname != hostname@,
        decreases n - i,
    {
        if graphs[i].hostname == *hostname {
            let new_graph = push_sample_exec(&graphs[i].graph_data, bar);
            let item = RAMGraph { hostname: graphs[i].hostname.clone(), graph_data: new_graph.clone() };
            graphs.set(i, item);
            proof {
                assert(is_first_ram_graph(before, hostname@, i as int));
                let k = first_ram_graph(before, hostname@);
                assert(is_first_ram_graph(before, hostname@, k));
                if k < i { assert(before[k].hostname != hostname@); }
                if i < k { assert(before[i as int].hostname != hostname@); }
                assert(ram_graphs_view(graphs@) =~= after_ram_sample(before, hostname@, bar@));
            }
            return new_graph;
        }
        i += 1;
    }
    let blank = blank_window_exec();
    graphs.push(RAMGraph { hostname: hostname.clone(), graph_data: blank });
    assert(ram_graphs_view(graphs@) =~= after_ram_sample(before, hostname@, bar@));
    String::from_str(bar)
}

/// Every window of a list of core graphs holds at most `GRAPH_WIDTH` samples.
pub open spec fn core_windows_bounded(s: Seq<CoreGraphView>) -> bool {
    forall|i: int| 0 <= i < s.len() ==> (#[trigger] s[i]).graph_data.len() <= GRAPH_WIDTH
}

/// Every window of a list of memory graphs holds at most `GRAPH_WIDTH` samples.
pub open spec fn ram_windows_bounded(s: Seq<RAMGraphView>) -> bool {
    forall|i: int| 0 <= i < s.len() ==> (#[trigger] s[i]).graph_data.len() <= GRAPH_WIDTH
}

/// A window fed one-character samples never grows past `GRAPH_WIDTH`.
pub proof fn law_window_bounded(window: Seq<char>, bar: Seq<char>)
    requires
        window.len() <= GRAPH_WIDTH,
        bar.len() <= 1,
    ensures
        push_sample(window, bar).len() <= GRAPH_WIDTH,
{
}

/// A full window fed a one-character sample drops its oldest sample and ends with
/// the new one: it always shows the latest `GRAPH_WIDTH` samples.
pub proof fn law_full_window_shifts(window: Seq<char>, bar: Seq<char>)
    requires
        window.len() == GRAPH_WIDTH,
        bar.len() == 1,
    ensures
        push_sample(window, bar) == window.drop_first().push(bar[0]),
        push_sample(window, bar).len() == GRAPH_WIDTH,
{
    assert(push_sample(window, bar) =~= window.drop_first().push(bar[0]));
}

/// Recording one-character core samples keeps every core window within
/// `GRAPH_WIDTH`, and adds at most one graph, leaving every other graph as it was.
pub proof fn law_core_graphs_bounded(s: Seq<CoreGraphView>, hostname: Seq<char>, core_index: i32, bar: Seq<char>)
    requires
        core_windows_bounded(s),
        bar.len() <= 1,
    ensures
        core_windows_bounded(after_core_sample(s, hostname, core_index, bar)),
        after_core_sample(s, hostname, core_index, bar).len() <= s.len() + 1,
        forall|i: int| 0 <= i < s.len() && !(s[i].hostname == hostname && s[i].core_index == core_index)
            ==> #[trigger] after_core_sample(s, hostname, core_index, bar)[i] == s[i],
{
    if has_core_graph(s, hostname, core_index) {
        lemma_first_core_graph_exists(s, hostname, core_index);
        let k = first_core_graph(s, hostname, core_index);
        law_window_bounded(s[k].graph_data, bar);
    }
}

/// Recording one-character memory samples keeps every memory window within
/// `GRAPH_WIDTH`, and adds at most one graph, leaving every other graph as it was.
pub proof fn law_ram_graphs_bounded(s: Seq<RAMGraphView>, hostname: Seq<char>, bar: Seq<char>)
    requires
        ram_windows_bounded(s),
        bar.len() <= 1,
    ensures
        ram_windows_bounded(after_ram_sample(s, hostname, bar)),
        after_ram_sample(s, hostname, bar).len() <= s.len() + 1,
        forall|i: int| 0 <= i < s.len() && s[i].hostname != hostname
            ==> #[trigger] after_ram_sample(s, hostname, bar)[i] == s[i],
{
    if has_ram_graph(s, hostname) {
        lemma_first_ram_graph_exists(s, hostname);
        let k = first_ram_graph(s, hostname);
        law_window_bounded(s[k].graph_data, bar);
    }
}

/// Whenever some graph belongs to a core, a first such graph exists.
pub proof fn lemma_first_core_graph_exists(s: Seq<CoreGraphView>, hostname: Seq<char>, core_index: i32)
    requires
        has_core_graph(s, hostname, core_index),
    ensures
        is_first_core_graph(s, hostname, core_index, first_core_graph(s, hostname, core_index)),
    decreases s.len(),
{
    if s[0].hostname == hostname && s[0].core_index == core_index {
        assert(is_first_core_graph(s, hostname, core_index, 0));
    } else {
        let t = s.drop_first();
        let w = choose|i: int| 0 <= i < s.len() && s[i].hostname == hostname && s[i].core_index == core_index;
        assert(t[w - 1] == s[w]);
        lemma_first_core_graph_exists(t, hostname, core_index);
        let k = first_core_graph(t, hostname, core_index);
        assert forall|j: int| 0 <= j < k + 1 implies !(s[j].hostname == hostname && s[j].core_index == core_index) by {
            if j > 0 {
                assert(s[j] == t[j - 1]);
            }
        }
        assert(is_first_core_graph(s, hostname, core_index, k + 1));
    }
}

/// Whenever some memory graph belongs to a host, a first such graph exists.
pub proof fn lemma_first_ram_graph_exists(s: Seq<RAMGraphView>, hostname: Seq<char>)
    requires
        has_ram_graph(s, hostname),
    ensures
        is_first_ram_graph(s, hostname, first_ram_graph(s, hostname)),
    decreases s.len(),
{
    if s[0].hostname == hostname {
        assert(is_first_ram_graph(s, hostname, 0));
    } else {
        let t = s.drop_first();
        let w = choose|i: int| 0 <= i < s.len() && s[i].hostname == hostname;
        assert(t[w - 1] == s[w]);
        lemma_first_ram_graph_exists(t, hostname);
        let k = first_ram_graph(t, hostname);
        assert forall|j: int| 0 <= j < k + 1 implies s[j].hostname != hostname by {
            if j > 0 {
                assert(s[j] == t[j - 1]);
            }
        }
        assert(is_first_ram_graph(s, hostname, k + 1));
    }
}

/// A key pressed in the node view.
#[derive(Debug, PartialEq, Eq, Structural, Clone, Copy)]
pub enum Key {
    /// `q`: leave the view.
    Quit,
    /// Arrow up: select the previous node.
    Up,
    /// Arrow down: select the next node.
    Down,
    /// Any other key.
    Other,
}

/// The node selected after arrow up: the previous one, wrapping from the first to
/// the last (which is `-1` when there is no node).
pub open spec fn previous_index(index: int, len: int) -> int {
    if index == 0 { len - 1 } else { index - 1 }
}

/// The node selected after arrow down: the next one, wrapping from the last to the first.
pub open spec fn next_index(index: int, len: int) -> int {
    if index == len - 1 { 0 } else { index + 1 }
}

/// Selects the previous node of a list of `len` nodes.
pub fn select_previous(index: i32, len: usize) -> (r: i32)
    requires
        len <= i32::MAX,
        index == 0 || index > i32::MIN,
    ensures
        r == previous_index(index as int, len as int),
{
    if index == 0 {
        len as i32 - 1
    } else {
        index - 1
    }
}

/// Selects the next node of a list of `len` nodes.
pub fn select_next(index: i32, len: usize) -> (r: i32)
    requires
        len <= i32::MAX,
        index == len - 1 || index < i32::MAX,
    ensures
        r == next_index(index as int, len as int),
{
    if index == len as i32 - 1 {
        0
    } else {
        index + 1
    }
}

/// What a key press does to the selection: the new index, and whether the view closes.
pub open spec fn key_outcome(index: int, len: int, key: Key) -> (int, bool) {
    match key {
        Key::Quit => (index, true),
        Key::Up => (previous_index(index, len), false),
        Key::Down => (next_index(index, len), false),
        Key::Other => (index, false),
    }
}

/// Handles a key press in the node view: returns the selected index and whether
/// the view closes.
pub fn handle_key(index: i32, len: usize, key: Key) -> (r: (i32, bool))
    requires
        key == Key::Up || key == Key::Down ==> len <= i32::MAX,
        key == Key::Up ==> index == 0 || index > i32::MIN,
        key == Key::Down ==> index == len - 1 || index < i32::MAX,
    ensures
        (r.0 as int, r.1) == key_outcome(index as int, len as int, key),
{
    match key {
        Key::Quit => (index, true),
        Key::Up => (select_previous(index, len), false),
        Key::Down => (select_next(index, len), false),
        Key::Other => (index, false),
    }
}

/// Moving down then up, or up then down, comes back to the same node, and a
/// selection inside a non-empty list stays inside it.
pub proof fn law_selection_round_trip(index: int, len: int)
    requires
        0 <= index < len,
    ensures
        0 <= next_index(index, len) < len,
        0 <= previous_index(index, len) < len,
        previous_index(next_index(index, len), len) == index,
        next_index(previous_index(index, len), len) == index,
{
}

/// The colour of a load figure of `level` percent (0 to 101): red grows and green
/// shrinks with the load.
pub open spec fn usage_rgb(level: int) -> (int, int, int) {
    (2 * level, 2 * (101 - level), 0)
}

/// The red, green and blue parts of the colour of a load of `level` percent.
pub fn usage_color(level: u8) -> (r: (u8, u8, u8))
    requires
        level <= 101,
    ensures
        (r.0 as int, r.1 as int, r.2 as int) == usage_rgb(level as int),
{
    (2 * level, 2 * (101 - level), 0)
}

/// The glyph of a bar of height `level` (1 to 4).
pub open spec fn glyph(level: int) -> char {
    if level == 1 {
        '\u{28c0}'
    } else if level == 2 {
        '\u{28e4}'
    } else if level == 3 {
        '\u{28f6}'
    } else {
        '\u{28ff}'
    }
}

/// The glyph of a bar of height `level`, from the lowest (1) to the full one (4).
pub fn bar_glyph(level: usize) -> (c: char)
    requires
        1 <= level <= 4,
    ensures
        c == glyph(level as int),
{
    if level == 1 {
        '\u{28c0}'
    } else if level == 2 {
        '\u{28e4}'
    } else if level == 3 {
        '\u{28f6}'
    } else {
        '\u{28ff}'
    }
}

/// The width of a core's label column.
pub const LABEL_WIDTH: usize = 10;

/// The spaces that pad a core label of `label_len` characters to the label column.
pub fn label_padding(label_len: usize) -> (r: usize)
    ensures
        r == LABEL_WIDTH - (if label_len < LABEL_WIDTH { label_len } else { LABEL_WIDTH }),
{
    if label_len < LABEL_WIDTH {
        LABEL_WIDTH - label_len
    } else {
        0
    }
}

/// The tree connector in front of core `core_index` of `core_count` cores: the
/// last core closes the tree.
pub open spec fn connector(core_index: int, core_count: int) -> char {
    if core_index + 1 == core_count { '\u{2570}' } else { '\u{251c}' }
}

/// The tree connector drawn in front of a core's line.
pub fn core_connector(core_index: i32, core_count: usize) -> (c: char)
    requires
        core_index < i32::MAX,
        core_count <= i32::MAX,
    ensures
        c == connector(core_index as int, core_count as int),
{
    if core_index + 1 == core_count as i32 {
        '\u{2570}'
    } else {
        '\u{251c}'
    }
}

/// The selection after `n` presses of arrow down from `index`.
pub open spec fn after_downs(index: int, len: int, n: nat) -> int
    decreases n,
{
    if n == 0 {
        index
    } else {
        next_index(after_downs(index, len, (n - 1) as nat), len)
    }
}

/// The selection after `n` presses of arrow up from `index`.
pub open spec fn after_ups(index: int, len: int, n: nat) -> int
    decreases n,
{
    if n == 0 {
        index
    } else {
        previous_index(after_ups(index, len, (n - 1) as nat), len)
    }
}

proof fn lemma_after_downs(index: int, len: int, n: nat)
    requires
        0 <= index < len,
        n <= len,
    ensures
        after_downs(index, len, n) == if index + n < len { index + n } else { index + n - len },
    decreases n,
{
    if n > 0 {
        lemma_after_downs(index, len, (n - 1) as nat);
    }
}

proof fn lemma_after_ups(index: int, len: int, n: nat)
    requires
        0 <= index < len,
        n <= len,
    ensures
        after_ups(index, len, n) == if n <= index { index - n } else { index - n + len },
    decreases n,
{
    if n > 0 {
        lemma_after_ups(index, len, (n - 1) as nat);
    }
}

/// Pressing arrow down, or arrow up, once per node brings the selection back to
/// where it started; on the way it never leaves the list.
pub proof fn law_full_cycle_returns(index: int, len: int)
    requires
        0 <= index < len,
    ensures
        after_downs(index, len, len as nat) == index,
        after_ups(index, len, len as nat) == index,
        forall|n: nat| n <= len ==> 0 <= #[trigger] after_downs(index, len, n) < len,
        forall|n: nat| n <= len ==> 0 <= #[trigger] after_ups(index, len, n) < len,
{
    lemma_after_downs(index, len, len as nat);
    lemma_after_ups(index, len, len as nat);
    assert forall|n: nat| n <= len implies 0 <= #[trigger] after_downs(index, len, n) < len by {
        lemma_after_downs(index, len, n);
    }
    assert forall|n: nat| n <= len implies 0 <= #[trigger] after_ups(index, len, n) < len by {
        lemma_after_ups(index, len, n);
    }
}

/// No two core graphs belong to the same core of the same host.
pub open spec fn core_keys_distinct(s: Seq<CoreGraphView>) -> bool {
    forall|i: int, j: int|
        0 <= i < j < s.len() ==> !(#[trigger] s[i].hostname == #[trigger] s[j].hostname
            && s[i].core_index == s[j].core_index)
}

/// No two memory graphs belong to the same host.
pub open spec fn ram_keys_distinct(s: Seq<RAMGraphView>) -> bool {
    forall|i: int, j: int| 0 <= i < j < s.len() ==> #[trigger] s[i].hostname != #[trigger] s[j].hostname
}

/// Recording a core sample keeps one graph per core: the graphs stay distinct by
/// (host, core), the sampled core has a graph afterwards, and every graph keeps its
/// place and its host and core, none is dropped.
pub proof fn law_core_sample_one_graph_per_core(s: Seq<CoreGraphView>, hostname: Seq<char>, core_index: i32, bar: Seq<char>)
    requires
        core_keys_distinct(s),
    ensures
        ({
            let t = after_core_sample(s, hostname, core_index, bar);
            &&& core_keys_distinct(t)
            &&& has_core_graph(t, hostname, core_index)
            &&& s.len() <= t.len() <= s.len() + 1
            &&& forall|i: int| 0 <= i < s.len() ==> #[trigger] t[i].hostname == s[i].hostname && t[i].core_index == s[i].core_index
        }),
{
    let t = after_core_sample(s, hostname, core_index, bar);
    if has_core_graph(s, hostname, core_index) {
        lemma_first_core_graph_exists(s, hostname, core_index);
        let k = first_core_graph(s, hostname, core_index);
        assert(t[k].hostname == hostname && t[k].core_index == core_index);
        assert forall|i: int, j: int| 0 <= i < j < t.len() implies !(#[trigger] t[i].hostname == #[trigger] t[j].hostname
            && t[i].core_index == t[j].core_index) by {
            assert(s[i].hostname == t[i].hostname && s[i].core_index == t[i].core_index);
            assert(s[j].hostname == t[j].hostname && s[j].core_index == t[j].core_index);
        }
    } else {
        let n = s.len() as int;
        assert(t[n].hostname == hostname && t[n].core_index == core_index);
        assert forall|i: int, j: int| 0 <= i < j < t.len() implies !(#[trigger] t[i].hostname == #[trigger] t[j].hostname
            && t[i].core_index == t[j].core_index) by {
            if j == n {
                assert(t[i] == s[i]);
            } else {
                assert(t[i] == s[i] && t[j] == s[j]);
            }
        }
    }
}

/// Recording a memory sample keeps one graph per host: the graphs stay distinct
/// by host, the sampled host has a graph afterwards, and every graph keeps its
/// place and its host, none is dropped.
pub proof fn law_ram_sample_one_graph_per_host(s: Seq<RAMGraphView>, hostname: Seq<char>, bar: Seq<char>)
    requires
        ram_keys_distinct(s),
    ensures
        ({
            let t = after_ram_sample(s, hostname, bar);
            &&& ram_keys_distinct(t)
            &&& has_ram_graph(t, hostname)
            &&& s.len() <= t.len() <= s.len() + 1
            &&& forall|i: int| 0 <= i < s.len() ==> #[trigger] t[i].hostname == s[i].hostname
        }),
{
    let t = after_ram_sample(s, hostname, bar);
    if has_ram_graph(s, hostname) {
        lemma_first_ram_graph_exists(s, hostname);
        let k = first_ram_graph(s, hostname);
        assert(t[k].hostname == hostname);
        assert forall|i: int, j: int| 0 <= i < j < t.len() implies #[trigger] t[i].hostname != #[trigger] t[j].hostname by {
            assert(s[i].hostname == t[i].hostname);
            assert(s[j].hostname == t[j].hostname);
        }
    } else {
        let n = s.len() as int;
        assert(t[n].hostname == hostname);
        assert forall|i: int, j: int| 0 <= i < j < t.len() implies #[trigger] t[i].hostname != #[trigger] t[j].hostname by {
            if j == n {
                assert(t[i] == s[i]);
            } else {
                assert(t[i] == s[i] && t[j] == s[j]);
            }
        }
    }
}

/// The views of a list of samples.
pub open spec fn samples_view(bars: Seq<String>) -> Seq<Seq<char>> {
    bars.map_values(|b: String| b@)
}

/// The core graphs after one sample per core of `hostname`: `bars[k]` is the
/// sample of core `k`, recorded in the order of the cores.
pub open spec fn after_core_samples(s: Seq<CoreGraphView>, hostname: Seq<char>, bars: Seq<Seq<char>>) -> Seq<CoreGraphView>
    decreases bars.len(),
{
    if bars.len() == 0 {
        s
    } else {
        after_core_sample(
            after_core_samples(s, hostname, bars.drop_last()),
            hostname,
            (bars.len() - 1) as i32,
            bars.last(),
        )
    }
}

/// Records one load sample per core of `hostname` (`bars[k]` for core `k`) and
/// returns, for each core, the text to draw.
pub fn record_core_samples(graphs: &mut Vec<CoreGraph>, hostname: &String, bars: &Vec<String>) -> (shown: Vec<String>)
    requires
        bars.len() <= i32::MAX,
    ensures
        core_graphs_view(final(graphs)@) == after_core_samples(core_graphs_view(old(graphs)@), hostname@, samples_view(bars@)),
        shown.len() == bars.len(),
        forall|k: int| 0 <= k < bars.len() ==> (#[trigger] shown@[k])@ == core_sample_shown(
            after_core_samples(core_graphs_view(old(graphs)@), hostname@, samples_view(bars@).take(k)),
            hostname@,
            k as i32,
            bars@[k]@,
        ),
{
    let ghost start = core_graphs_view(graphs@);
    let ghost all = samples_view(bars@);
    let mut shown: Vec<String> = Vec::new();
    let mut k: usize = 0;
    assert(all.take(0) =~= Seq::<Seq<char>>::empty());
    while k < bars.len()
        invariant
            k <= bars.len(),
            bars.len() <= i32::MAX,
            start == core_graphs_view(old(graphs)@),
            all == samples_view(bars@),
            core_graphs_view(graphs@) == after_core_samples(start, hostname@, all.take(k as int)),
            shown.len() == k,
            forall|j: int| 0 <= j < k ==> (#[trigger] shown@[j])@ == core_sample_shown(
                after_core_samples(start, hostname@, all.take(j)),
                hostname@,
                j as i32,
                bars@[j]@,
            ),
        decreases bars.len() - k,
    {
        let ghost before = core_graphs_view(graphs@);
        let text = record_core_sample(graphs, hostname, k as i32, bars[k].as_str());
        proof {
            let next = all.take(k + 1);
            assert(next.drop_last() =~= all.take(k as int));
            assert(next.last() == bars@[k as int]@);
            assert(next.len() - 1 == k);
        }
        shown.push(text);
        k += 1;
    }
    assert(all.take(bars.len() as int) =~= all);
    shown
}

/// Recording one sample per core of a node leaves exactly one graph for every
/// core of that node, keeps the graphs distinct by (host, core), and drops no graph.
pub proof fn law_node_samples_one_graph_per_core(s: Seq<CoreGraphView>, hostname: Seq<char>, bars: Seq<Seq<char>>)
    requires
        core_keys_distinct(s),
        bars.len() <= i32::MAX,
    ensures
        ({
            let t = after_core_samples(s, hostname, bars);
            &&& core_keys_distinct(t)
            &&& forall|k: int| 0 <= k < bars.len() ==> #[trigger] has_core_graph(t, hostname, k as i32)
            &&& s.len() <= t.len()
            &&& forall|i: int| 0 <= i < s.len() ==> #[trigger] t[i].hostname == s[i].hostname && t[i].core_index == s[i].core_index
        }),
    decreases bars.len(),
{
    if bars.len() > 0 {
        let prev = bars.drop_last();
        law_node_samples_one_graph_per_core(s, hostname, prev);
        let u = after_core_samples(s, hostname, prev);
        let c = (bars.len() - 1) as i32;
        law_core_sample_one_graph_per_core(u, hostname, c, bars.last());
        let t = after_core_samples(s, hostname, bars);
        assert(t == after_core_sample(u, hostname, c, bars.last()));
        assert forall|k: int| 0 <= k < bars.len() implies #[trigger] has_core_graph(t, hostname, k as i32) by {
            if k < bars.len() - 1 {
                assert(has_core_graph(u, hostname, k as i32));
                let w = choose|i: int| 0 <= i < u.len() && u[i].hostname == hostname && u[i].core_index == k as i32;
                assert(t[w].hostname == u[w].hostname);
                assert(t[w].hostname == hostname && t[w].core_index == k as i32);
            }
        }
        assert forall|i: int| 0 <= i < s.len() implies #[trigger] t[i].hostname == s[i].hostname && t[i].core_index == s[i].core_index by {
            assert(u[i].hostname == s[i].hostname && u[i].core_index == s[i].core_index);
            assert(t[i].hostname == u[i].hostname && t[i].core_index == u[i].core_index);
        }
    }
}

/// The sample history after a sample: the history followed by the sample, keeping
/// only its last characters when it grows past `GRAPH_WIDTH` (by dropping one).
pub proof fn law_push_sample_scrolls(window: Seq<char>, bar: Seq<char>)
    ensures
        push_sample(window, bar).is_suffix_of(window + bar),
        push_sample(window, bar).len() == if window.len() + bar.len() > GRAPH_WIDTH {
            window.len() + bar.len() - 1
        } else {
            window.len() + bar.len() + 0int
        },
{
    let w = window + bar;
    if w.len() > GRAPH_WIDTH {
        assert(w.skip(1) =~= w.drop_first());
    } else {
        assert(w.skip(0) =~= w);
    }
}

/// A sample of a core that has a graph scrolls that core's own window: the first
/// graph of the core keeps its host and core, and its window becomes its previous
/// window followed by the sample, cut by one character when that passes
/// `GRAPH_WIDTH`; the text drawn is that new window; every other graph stays as it was.
pub proof fn law_core_window_scrolls(s: Seq<CoreGraphView>, hostname: Seq<char>, core_index: i32, bar: Seq<char>, k: int)
    requires
        0 <= k < s.len(),
        s[k].hostname == hostname && s[k].core_index == core_index,
        forall|j: int| 0 <= j < k ==> !(s[j].hostname == hostname && s[j].core_index == core_index),
    ensures
        ({
            let t = after_core_sample(s, hostname, core_index, bar);
            let w = s[k].graph_data + bar;
            &&& t.len() == s.len()
            &&& t[k].hostname == hostname && t[k].core_index == core_index
            &&& t[k].graph_data.is_suffix_of(w)
            &&& t[k].graph_data.len() == if w.len() > GRAPH_WIDTH { w.len() - 1 } else { w.len() + 0int }
            &&& core_sample_shown(s, hostname, core_index, bar) == t[k].graph_data
            &&& forall|i: int| 0 <= i < s.len() && i != k ==> t[i] == s[i]
        }),
{
    assert(is_first_core_graph(s, hostname, core_index, k));
    let f = first_core_graph(s, hostname, core_index);
    assert(is_first_core_graph(s, hostname, core_index, f));
    if f < k {
        assert(!(s[f].hostname == hostname && s[f].core_index == core_index));
    }
    if k < f {
        assert(!(s[k].hostname == hostname && s[k].core_index == core_index));
    }
    law_push_sample_scrolls(s[k].graph_data, bar);
}

/// A sample of a core without a graph adds one graph for it, at the end, whose
/// window is `GRAPH_WIDTH` spaces; the sample alone is drawn; every other graph
/// stays as it was.
pub proof fn law_core_graph_started(s: Seq<CoreGraphView>, hostname: Seq<char>, core_index: i32, bar: Seq<char>)
    requires
        forall|j: int| 0 <= j < s.len() ==> !(s[j].hostname == hostname && s[j].core_index == core_index),
    ensures
        ({
            let t = after_core_sample(s, hostname, core_index, bar);
            let n = s.len() as int;
            &&& t.len() == s.len() + 1
            &&& t[n].hostname == hostname && t[n].core_index == core_index
            &&& t[n].graph_data.len() == GRAPH_WIDTH
            &&& forall|i: int| 0 <= i < GRAPH_WIDTH ==> t[n].graph_data[i] == ' '
            &&& core_sample_shown(s, hostname, core_index, bar) == bar
            &&& forall|i: int| 0 <= i < n ==> t[i] == s[i]
        }),
{
}

/// A memory sample of a host that has a graph scrolls that host's own window, as
/// for cores; the text drawn is the new window; every other graph stays as it was.
pub proof fn law_ram_window_scrolls(s: Seq<RAMGraphView>, hostname: Seq<char>, bar: Seq<char>, k: int)
    requires
        0 <= k < s.len(),
        s[k].hostname == hostname,
        forall|j: int| 0 <= j < k ==> s[j].hostname != hostname,
    ensures
        ({
            let t = after_ram_sample(s, hostname, bar);
            let w = s[k].graph_data + bar;
            &&& t.len() == s.len()
            &&& t[k].hostname == hostname
            &&& t[k].graph_data.is_suffix_of(w)
            &&& t[k].graph_data.len() == if w.len() > GRAPH_WIDTH { w.len() - 1 } else { w.len() + 0int }
            &&& ram_sample_shown(s, hostname, bar) == t[k].graph_data
            &&& forall|i: int| 0 <= i < s.len() && i != k ==> t[i] == s[i]
        }),
{
    assert(is_first_ram_graph(s, hostname, k));
    let f = first_ram_graph(s, hostname);
    assert(is_first_ram_graph(s, hostname, f));
    if f < k {
        assert(s[f].hostname != hostname);
    }
    if k < f {
        assert(s[k].hostname != hostname);
    }
    law_push_sample_scrolls(s[k].graph_data, bar);
}

/// A memory sample of a host without a graph adds one blank graph for it at the
/// end; the sample alone is drawn; every other graph stays as it was.
pub proof fn law_ram_graph_started(s: Seq<RAMGraphView>, hostname: Seq<char>, bar: Seq<char>)
    requires
        forall|j: int| 0 <= j < s.len() ==> s[j].hostname != hostname,
    ensures
        ({
            let t = after_ram_sample(s, hostname, bar);
            let n = s.len() as int;
            &&& t.len() == s.len() + 1
            &&& t[n].hostname == hostname
            &&& t[n].graph_data.len() == GRAPH_WIDTH
            &&& forall|i: int| 0 <= i < GRAPH_WIDTH ==> t[n].graph_data[i] == ' '
            &&& ram_sample_shown(s, hostname, bar) == bar
            &&& forall|i: int| 0 <= i < n ==> t[i] == s[i]
        }),
{
}

} // verus!
