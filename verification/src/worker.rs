use vstd::prelude::*;

verus! {

/// `pat` occurs in `s` at character position `i`.
pub open spec fn occurs_at(s: Seq<char>, pat: Seq<char>, i: int) -> bool {
    0 <= i && i + pat.len() <= s.len() && s.subrange(i, i + pat.len()) == pat
}

/// Whether `pat` occurs in `s` at character position `i` (`n` and `m` being the
/// lengths of `s` and `pat`).
fn occurs_at_exec(s: &str, n: usize, pat: &str, m: usize, i: usize) -> (r: bool)
    requires
        n == s@.len(),
        m == pat@.len(),
    ensures
        r == occurs_at(s@, pat@, i as int),
{
    if i > n || m > n - i {
        return false;
    }
    let mut k: usize = 0;
    while k < m
        invariant
            i + m <= n,
            n == s@.len(),
            m == pat@.len(),
            k <= m,
            forall|j: int| 0 <= j < k ==> s@[i + j] == pat@[j],
        decreases m - k,
    {
        if s.get_char(i + k) != pat.get_char(k) {
            assert(s@.subrange(i as int, i + m)[k as int] != pat@[k as int]);
            return false;
        }
        k += 1;
    }
    assert(s@.subrange(i as int, i + m) =~= pat@);
    true
}

/// Whether `s` starts with `pat`.
pub fn starts_with(s: &str, pat: &str) -> (r: bool)
    ensures
        r == pat@.is_prefix_of(s@),
{
    let r = occurs_at_exec(s, s.unicode_len(), pat, pat.unicode_len(), 0);
    assert(r == pat@.is_prefix_of(s@)) by {
        if pat@.len() <= s@.len() {
            assert(s@.subrange(0, pat@.len() as int) =~= s@.take(pat@.len() as int));
        }
    }
    r
}

/// Whether `s` ends with `pat`.
pub fn ends_with(s: &str, pat: &str) -> (r: bool)
    ensures
        r == pat@.is_suffix_of(s@),
{
    let n = s.unicode_len();
    let m = pat.unicode_len();
    if m > n {
        return false;
    }
    let r = occurs_at_exec(s, n, pat, m, n - m);
    assert(r == pat@.is_suffix_of(s@)) by {
        assert(s@.subrange((n - m) as int, n as int) =~= s@.skip((n - m) as int));
    }
    r
}

/// `s` with every occurrence of `pat` removed, scanning from the left; an
/// occurrence that is removed does not take part in a later one.
pub open spec fn remove_all(s: Seq<char>, pat: Seq<char>) -> Seq<char>
    decreases s.len(),
{
    if s.len() == 0 {
        s
    } else if pat.len() > 0 && pat.len() <= s.len() && s.take(pat.len() as int) == pat {
        remove_all(s.skip(pat.len() as int), pat)
    } else {
        seq![s[0]] + remove_all(s.drop_first(), pat)
    }
}

/// `s` with every occurrence of `pat` removed, as [`remove_all`] states.
pub fn remove_all_exec(s: &str, pat: &str) -> (res: String)
    ensures
        res@ == remove_all(s@, pat@),
{
    let n = s.unicode_len();
    let m = pat.unicode_len();
    let mut res = String::new();
    let mut i: usize = 0;
    assert(s@.skip(0) =~= s@);
    assert(res@ + remove_all(s@, pat@) =~= remove_all(s@, pat@));
    while i < n
        invariant
            n == s@.len(),
            m == pat@.len(),
            i <= n,
            res@ + remove_all(s@.skip(i as int), pat@) == remove_all(s@, pat@),
        decreases n - i,
    {
        let ghost t = s@.skip(i as int);
        if m > 0 && occurs_at_exec(s, n, pat, m, i) {
            proof {
                assert(t.take(m as int) =~= s@.subrange(i as int, i + m));
                assert(t.skip(m as int) =~= s@.skip(i + m));
            }
            i += m;
        } else {
            proof {
                if m > 0 && m <= t.len() {
                    assert(t.take(m as int) =~= s@.subrange(i as int, i + m));
                }
                assert(t.drop_first() =~= s@.skip(i + 1));
            }
            let c = s.substring_char(i, i + 1);
            res.append(c);
            proof {
                assert(c@ =~= seq![t[0]]);
                assert(res@ + remove_all(s@.skip(i + 1), pat@) =~= remove_all(s@, pat@));
            }
            i += 1;
        }
    }
    assert(s@.skip(n as int) =~= Seq::<char>::empty());
    res
}

/// Whether a sensor file named `name` holds a temperature reading
/// (`temp*_input`).
pub fn is_temp_input(name: &str) -> (r: bool)
    ensures
        r == ("temp"@.is_prefix_of(name@) && "_input"@.is_suffix_of(name@)),
{
    starts_with(name, "temp") && ends_with(name, "_input")
}

/// Whether a sensor label names a whole CPU package: Intel's `Package id`, AMD's
/// `Tdie`, or a system-on-chip's `SoC Temperature`.
pub fn is_package_label(label: &str) -> (r: bool)
    ensures
        r == ("Package id"@.is_prefix_of(label@) || "Tdie"@.is_prefix_of(label@)
            || "SoC Temperature"@.is_prefix_of(label@)),
{
    starts_with(label, "Package id") || starts_with(label, "Tdie") || starts_with(label,
        "SoC Temperature")
}

/// The path of the label file that goes with the reading file `input_path`: every
/// `input` in the path is dropped and `label` is appended.
pub fn label_path(input_path: &str) -> (res: String)
    ensures
        res@ == remove_all(input_path@, "input"@) + "label"@,
{
    let mut base = remove_all_exec(input_path, "input");
    base.append("label");
    base
}

/// A report framed for the wire: its JSON text and a newline.
pub fn frame_report(json: String) -> (line: String)
    ensures
        line@ == json@.push('\n'),
{
    let mut line = json;
    line.append("\n");
    proof {
        reveal_strlit("\n");
    }
    assert(line@ =~= json@.push('\n'));
    line
}

/// What happened on the worker's link to the head.
#[derive(Debug, PartialEq, Eq, Structural, Clone, Copy)]
pub enum LinkEvent {
    /// A connection to the head was opened.
    Connected,
    /// The head could not be reached.
    ConnectFailed,
    /// A report was sent.
    Sent,
    /// Sending a report failed.
    SendFailed,
}

/// What the worker does next.
#[derive(Debug, PartialEq, Eq, Structural, Clone, Copy)]
pub enum LinkStep {
    /// Send a report now.
    Send,
    /// Wait this many milliseconds, then send a report.
    WaitThenSend(u64),
    /// Open a connection now.
    Connect,
    /// Wait this many milliseconds, then open a connection.
    WaitThenConnect(u64),
}

/// How long the worker waits between reports, and between attempts to reach the head.
pub const REPORT_INTERVAL_MS: u64 = 1000;

/// The worker's next step after a link event.
pub open spec fn link_step(event: LinkEvent) -> LinkStep {
    match event {
        LinkEvent::Connected => LinkStep::Send,
        LinkEvent::Sent => LinkStep::WaitThenSend(REPORT_INTERVAL_MS),
        LinkEvent::SendFailed => LinkStep::Connect,
        LinkEvent::ConnectFailed => LinkStep::WaitThenConnect(REPORT_INTERVAL_MS),
    }
}

/// Decides the worker's next step: report once a second while the link holds,
/// reconnect at once when a send fails, and retry a second after the head could
/// not be reached.
pub fn next_link_step(event: LinkEvent) -> (step: LinkStep)
    ensures
        step == link_step(event),
{
    match event {
        LinkEvent::Connected => LinkStep::Send,
        LinkEvent::Sent => LinkStep::WaitThenSend(REPORT_INTERVAL_MS),
        LinkEvent::SendFailed => LinkStep::Connect,
        LinkEvent::ConnectFailed => LinkStep::WaitThenConnect(REPORT_INTERVAL_MS),
    }
}

} // verus!
