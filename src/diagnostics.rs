use vstd::prelude::*;
use vstd::string::StringExecFns;

verus! {

/// Severity of a log line, most severe first.
#[derive(Debug, Clone, Copy, PartialEq, Eq, Structural)]
pub enum LogLevel {
    Error,
    Warn,
    Info,
    Debug,
    Trace,
}

/// The number that stands for a severity on the wire: 0 for the most
/// severe, 4 for the least.
pub open spec fn level_code(l: LogLevel) -> u64 {
    match l {
        LogLevel::Error => 0,
        LogLevel::Warn => 1,
        LogLevel::Info => 2,
        LogLevel::Debug => 3,
        LogLevel::Trace => 4,
    }
}

impl LogLevel {
    /// The wire number of this severity.
    pub fn code(&self) -> (r: u64)
        ensures
            r == level_code(*self),
    {
        match self {
            LogLevel::Error => 0,
            LogLevel::Warn => 1,
            LogLevel::Info => 2,
            LogLevel::Debug => 3,
            LogLevel::Trace => 4,
        }
    }

    /// The severity a wire number stands for, if any.
    pub fn from_code(code: u64) -> (r: Option<LogLevel>)
        ensures
            r is Some <==> code <= 4,
            r matches Some(l) ==> level_code(l) == code,
    {
        match code {
            0 => Some(LogLevel::Error),
            1 => Some(LogLevel::Warn),
            2 => Some(LogLevel::Info),
            3 => Some(LogLevel::Debug),
            4 => Some(LogLevel::Trace),
            _ => None,
        }
    }

    /// Whether this severity is strictly more severe than `other`.
    pub fn is_more_severe_than(&self, other: LogLevel) -> (r: bool)
        ensures
            r == (level_code(*self) < level_code(other)),
    {
        self.code() < other.code()
    }
}

/// A signal the guest forwards to its host.
#[derive(Debug)]
pub enum HostEvent {
    /// One log line.
    Log { level: LogLevel, message: String },
    /// A named instant on the host's clock.
    Mark { name: String },
    /// The time between two marks, recorded under a new name.
    Measure { name: String, start: String, end: String },
}

/// The mark that opens the phase `name`.
pub open spec fn start_mark_of(name: Seq<char>) -> Seq<char> {
    name + "-started"@
}

/// The mark that closes the phase `name`.
pub open spec fn end_mark_of(name: Seq<char>) -> Seq<char> {
    name + "-ended"@
}

/// The name of the mark that opens the phase `name`.
pub fn start_mark(name: &str) -> (r: String)
    ensures
        r@ == start_mark_of(name@),
{
    let mut s = String::from_str(name);
    s.append("-started");
    s
}

/// The name of the mark that closes the phase `name`.
pub fn end_mark(name: &str) -> (r: String)
    ensures
        r@ == end_mark_of(name@),
{
    let mut s = String::from_str(name);
    s.append("-ended");
    s
}

/// The event that records the mark `name` on the host's clock.
pub fn mark_event(name: &str) -> (r: HostEvent)
    ensures
        r matches HostEvent::Mark { name: m } && m@ == name@,
{
    HostEvent::Mark { name: String::from_str(name) }
}

/// The events that close a timed phase whose marks have explicit names:
/// the closing mark `end`, then the measurement `name` from the mark
/// `start` to `end`.
pub fn closing_events(name: &str, start: &str, end: &str) -> (r: Vec<HostEvent>)
    ensures
        r@.len() == 2,
        r@[0] matches HostEvent::Mark { name: m } && m@ == end@,
        r@[1] matches HostEvent::Measure { name: n, start: s, end: e } && n@ == name@ && s@
            == start@ && e@ == end@,
{
    let mut events: Vec<HostEvent> = Vec::new();
    events.push(HostEvent::Mark { name: String::from_str(end) });
    events.push(
        HostEvent::Measure {
            name: String::from_str(name),
            start: String::from_str(start),
            end: String::from_str(end),
        },
    );
    events
}

/// The event that opens the timed phase `name`, marked `name-started`.
pub fn phase_started(name: &str) -> (r: HostEvent)
    ensures
        r matches HostEvent::Mark { name: m } && m@ == start_mark_of(name@),
{
    HostEvent::Mark { name: start_mark(name) }
}

/// The events that close the timed phase `name`: its closing mark
/// `name-ended`, then the measurement from its opening mark to its closing
/// one.
pub fn phase_ended(name: &str) -> (r: Vec<HostEvent>)
    ensures
        r@.len() == 2,
        r@[0] matches HostEvent::Mark { name: m } && m@ == end_mark_of(name@),
        r@[1] matches HostEvent::Measure { name: n, start: s, end: e } && n@ == name@ && s@
            == start_mark_of(name@) && e@ == end_mark_of(name@),
{
    let start = start_mark(name);
    let end = end_mark(name);
    closing_events(name, start.as_str(), end.as_str())
}

/// One field of a structured log event: its name and its value as text.
#[derive(Debug)]
pub struct EventField {
    pub name: String,
    pub value: String,
}

impl View for EventField {
    type V = (Seq<char>, Seq<char>);

    open spec fn view(&self) -> (Seq<char>, Seq<char>) {
        (self.name@, self.value@)
    }
}

/// The fields of an event, as (name, value) pairs.
pub open spec fn fields_view(fields: Seq<EventField>) -> Seq<(Seq<char>, Seq<char>)> {
    fields.map_values(|f: EventField| f@)
}

/// The value of the last field named `message`, if any.
pub open spec fn last_message(fields: Seq<(Seq<char>, Seq<char>)>) -> Option<Seq<char>>
    decreases fields.len(),
{
    if fields.len() == 0 {
        None
    } else if fields.last().0 == "message"@ {
        Some(fields.last().1)
    } else {
        last_message(fields.drop_last())
    }
}

/// Every field written as `name=value `, in order.
pub open spec fn fields_text(fields: Seq<(Seq<char>, Seq<char>)>) -> Seq<char>
    decreases fields.len(),
{
    if fields.len() == 0 {
        Seq::empty()
    } else {
        fields_text(fields.drop_last()) + fields.last().0 + "="@ + fields.last().1 + " "@
    }
}

/// The line forwarded for an event: its `message` field where it has one,
/// else all of its fields.
pub open spec fn event_text(fields: Seq<(Seq<char>, Seq<char>)>) -> Seq<char> {
    match last_message(fields) {
        Some(m) => m,
        None => fields_text(fields),
    }
}

/// The line to forward for a structured log event with these fields.
pub fn event_message(fields: &Vec<EventField>) -> (r: String)
    ensures
        r@ == event_text(fields_view(fields@)),
{
    let ghost fv = fields_view(fields@);
    let key = String::from_str("message");
    let mut message: Option<String> = None;
    let mut all = String::new();
    let n = fields.len();
    let mut i: usize = 0;
    while i < n
        invariant
            n == fields@.len(),
            fv == fields_view(fields@),
            fv.len() == n,
            key@ == "message"@,
            i <= n,
            match message {
                Some(m) => last_message(fv.subrange(0, i as int)) == Some(m@),
                None => last_message(fv.subrange(0, i as int)) is None,
            },
            all@ == fields_text(fv.subrange(0, i as int)),
        decreases n - i,
    {
        let f = &fields[i];
        assert(fv[i as int] == f@);
        let ghost prefix = fv.subrange(0, i as int + 1);
        assert(prefix.drop_last() =~= fv.subrange(0, i as int));
        assert(prefix.last() == f@);
        if f.name == key {
            message = Some(f.value.clone());
        }
        all.append(f.name.as_str());
        all.append("=");
        all.append(f.value.as_str());
        all.append(" ");
        i = i + 1;
    }
    assert(fv.subrange(0, n as int) =~= fv);
    match message {
        Some(m) => m,
        None => all,
    }
}

/// Whether a call to `HookLatch::should_install` installs now, and whether
/// the hook is installed after it, given whether it was before.
pub open spec fn latch_step(installed: bool) -> (bool, bool) {
    (!installed, true)
}

/// How many of `n` calls in a row install the hook, starting from
/// `installed`.
pub open spec fn install_count(installed: bool, n: nat) -> nat
    decreases n,
{
    if n == 0 {
        0
    } else {
        (if latch_step(installed).0 {
            1nat
        } else {
            0nat
        }) + install_count(latch_step(installed).1, (n - 1) as nat)
    }
}

/// Guards the one-time installation of the panic handler.
pub struct HookLatch {
    installed: bool,
}

impl HookLatch {
    /// Whether the handler has been installed.
    pub closed spec fn is_installed(&self) -> bool {
        self.installed
    }

    /// A latch for a handler not yet installed.
    pub fn new() -> (r: HookLatch)
        ensures
            !r.is_installed(),
    {
        HookLatch { installed: false }
    }

    /// Whether the handler has been installed.
    pub fn installed(&self) -> (r: bool)
        ensures
            r == self.is_installed(),
    {
        self.installed
    }

    /// Whether the caller should install the handler now: true on the first
    /// call only.
    pub fn should_install(&mut self) -> (r: bool)
        ensures
            (r, final(self).is_installed()) == latch_step(old(self).is_installed()),
    {
        let first = !self.installed;
        self.installed = true;
        first
    }
}

/// Installing the handler any number of times, one or more, installs it
/// exactly once, as a single installation does, and leaves it installed.
pub proof fn lemma_install_once(n: nat)
    requires
        n >= 1,
    ensures
        install_count(false, n) == install_count(false, 1),
        install_count(false, n) == 1,
{
    lemma_installed_stays((n - 1) as nat);
    assert(install_count(true, 0) == 0);
}

/// Once installed, further calls install nothing.
proof fn lemma_installed_stays(n: nat)
    ensures
        install_count(true, n) == 0,
    decreases n,
{
    if n > 0 {
        lemma_installed_stays((n - 1) as nat);
    }
}

} // verus!
