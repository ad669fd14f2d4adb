//! The diagnostic event log: a bounded ring of timestamped lines, the device
//! and GPU descriptions, the text report, and sampled FNV-1a fingerprints of
//! sensor buffers.
use crate::codec::u16_le_bytes;
use crate::pixel_map::CompactPixelMap;
use crate::text::{append_decimal, decimal, decimal_len};
use std::collections::VecDeque;
use std::time::{Duration, Instant};
use vstd::prelude::*;
use vstd::string::StringExecFns;

verus! {

/// Lines kept in the event log.
pub const MAX_EVENTS: usize = 300;
/// Values sampled from a buffer for its fingerprint.
pub const FINGERPRINT_SAMPLES: usize = 4096;
/// FNV-1a 64-bit offset basis.
pub const FNV_OFFSET_BASIS: u64 = 0xcbf29ce484222325;
/// FNV-1a 64-bit prime.
pub const FNV_PRIME: u64 = 0x100000001b3;

#[verifier::external_type_specification]
#[verifier::external_body]
pub struct ExInstant(Instant);

/// Calls `Instant::now`; nothing is promised of the instant.
#[verifier::external_body]
fn now() -> Instant {
    Instant::now()
}

/// Calls `Instant::elapsed`; the time since the instant depends on the
/// clock, so nothing is promised of it.
#[verifier::external_body]
fn elapsed_since(started: &Instant) -> Duration {
    started.elapsed()
}

/// Calls `Duration::as_secs`; a duration is opaque here, so nothing is
/// promised of its whole seconds.
#[verifier::external_body]
fn whole_seconds(duration: &Duration) -> u64 {
    duration.as_secs()
}

/// Calls `Duration::subsec_millis`, which is below 1000.
#[verifier::external_body]
fn millis_past_second(duration: &Duration) -> (r: u32)
    ensures
        r < 1000,
{
    duration.subsec_millis()
}

/// What `str::trim` returns: the text without leading and trailing
/// whitespace.
pub uninterp spec fn trimmed(text: Seq<char>) -> Seq<char>;

/// Calls `str::trim`.
#[verifier::external_body]
pub(crate) fn trim_text(text: &str) -> (r: &str)
    ensures
        r@ == trimmed(text@),
{
    text.trim()
}

/// `text` right-aligned in a field of `width` characters filled with `fill`.
pub open spec fn pad_left(text: Seq<char>, width: nat, fill: char) -> Seq<char> {
    if text.len() >= width {
        text
    } else {
        Seq::new((width - text.len()) as nat, |i: int| fill) + text
    }
}

/// An event line: `[+SSSSS.mmms] message`, the seconds right-aligned in
/// five columns and the milliseconds zero-padded to three digits.
pub open spec fn event_line(secs: u64, millis: u32, message: Seq<char>) -> Seq<char> {
    seq!['[', '+'] + pad_left(decimal(secs as nat), 5, ' ') + seq!['.'] + pad_left(
        decimal(millis as nat),
        3,
        '0',
    ) + seq!['s', ']', ' '] + message
}

/// The log after one more line: the oldest line leaves a full log.
pub open spec fn ring_push(events: Seq<Seq<char>>, line: Seq<char>) -> Seq<Seq<char>> {
    if events.len() >= MAX_EVENTS {
        events.drop_first().push(line)
    } else {
        events.push(line)
    }
}

/// The last `n` elements of `s`, or all of them.
pub open spec fn newest<A>(s: Seq<A>, n: nat) -> Seq<A> {
    if s.len() <= n {
        s
    } else {
        s.subrange(s.len() - n, s.len() as int)
    }
}

/// The log after pushing `lines` one by one.
pub open spec fn ring_push_all(events: Seq<Seq<char>>, lines: Seq<Seq<char>>) -> Seq<Seq<char>>
    decreases lines.len(),
{
    if lines.len() == 0 {
        events
    } else {
        ring_push(ring_push_all(events, lines.drop_last()), lines.last())
    }
}

/// Pushing lines keeps exactly the newest [`MAX_EVENTS`] lines, oldest first.
pub proof fn lemma_log_keeps_newest_lines(events: Seq<Seq<char>>, lines: Seq<Seq<char>>)
    requires
        events.len() <= MAX_EVENTS,
    ensures
        ring_push_all(events, lines) == newest(events + lines, MAX_EVENTS as nat),
    decreases lines.len(),
{
    if lines.len() > 0 {
        let before = lines.drop_last();
        lemma_log_keeps_newest_lines(events, before);
        assert(events + lines =~= (events + before).push(lines.last()));
        let prefix = events + before;
        let kept = newest(prefix, MAX_EVENTS as nat);
        if prefix.len() >= MAX_EVENTS {
            assert(kept.drop_first().push(lines.last()) =~= newest(
                prefix.push(lines.last()),
                MAX_EVENTS as nat,
            ));
        } else {
            assert(kept.push(lines.last()) =~= newest(prefix.push(lines.last()), MAX_EVENTS as nat));
        }
    } else {
        assert(events + lines =~= events);
    }
}

/// A line for `message` was added to the log at some time after it started.
pub open spec fn logged(before: Seq<Seq<char>>, after: Seq<Seq<char>>, message: Seq<char>) -> bool {
    exists|secs: u64, millis: u32|
        millis < 1000 && after == #[trigger] ring_push(before, event_line(secs, millis, message))
}

/// The line that a step of the log from `before` to `after` added for
/// `message`: one stamped at some time after the start.
pub open spec fn pushed_line(before: Seq<Seq<char>>, after: Seq<Seq<char>>, message: Seq<char>) -> Seq<char> {
    choose|line: Seq<char>| stamped_line(line, message) && after == ring_push(before, line)
}

proof fn lemma_log_after_steps(logs: Seq<Seq<Seq<char>>>, lines: Seq<Seq<char>>, k: int)
    requires
        0 <= k <= lines.len(),
        logs.len() == lines.len() + 1,
        forall|j: int| 0 <= j < lines.len() ==> logs[j + 1] == ring_push(logs[j], #[trigger] lines[j]),
    ensures
        logs[k] == ring_push_all(logs[0], lines.take(k)),
    decreases k,
{
    if k > 0 {
        lemma_log_after_steps(logs, lines, k - 1);
        assert(lines.take(k).drop_last() =~= lines.take(k - 1));
        assert(logs[k] == ring_push(logs[k - 1], lines[k - 1]));
    } else {
        assert(lines.take(0) =~= Seq::<Seq<char>>::empty());
    }
}

/// `line` is the line for `message` stamped at some time.
#[verifier::opaque]
pub open spec fn stamped_line(line: Seq<char>, message: Seq<char>) -> bool {
    exists|secs: u64, millis: u32| millis < 1000 && line == #[trigger] event_line(secs, millis, message)
}

/// `lines` are the stamped lines of `messages`, one each, and the last log
/// holds the newest [`MAX_EVENTS`] of the first log's lines and `lines`;
/// once there are that many messages, only their lines.
pub open spec fn recorded_lines(logs: Seq<Seq<Seq<char>>>, messages: Seq<Seq<char>>, lines: Seq<Seq<char>>) -> bool {
    &&& lines.len() == messages.len()
    &&& forall|k: int| 0 <= k < lines.len() ==> stamped_line(#[trigger] lines[k], messages[k])
    &&& logs.last() == newest(logs[0] + lines, MAX_EVENTS as nat)
    &&& messages.len() >= MAX_EVENTS ==> logs.last() == lines.subrange(lines.len() - MAX_EVENTS, lines.len() as int)
}

proof fn lemma_pushed_line(before: Seq<Seq<char>>, after: Seq<Seq<char>>, message: Seq<char>)
    requires
        logged(before, after, message),
    ensures
        stamped_line(pushed_line(before, after, message), message),
        after == ring_push(before, pushed_line(before, after, message)),
{
    let (secs, millis) = choose|secs: u64, millis: u32|
        millis < 1000 && after == #[trigger] ring_push(before, event_line(secs, millis, message));
    let witness = event_line(secs, millis, message);
    assert(stamped_line(witness, message)) by {
        reveal(stamped_line);
    }
    assert(stamped_line(witness, message) && after == ring_push(before, witness));
}

/// Each step from `logs[k]` to `logs[k + 1]` logged `messages[k]`, as
/// [`record`] does.
#[verifier::opaque]
pub open spec fn each_step_logged(logs: Seq<Seq<Seq<char>>>, messages: Seq<Seq<char>>) -> bool {
    forall|k: int| 0 <= k < messages.len() ==> logged(#[trigger] logs[k], logs[k + 1], messages[k])
}

/// A run of [`record`] calls (each step of `logs` logs the matching
/// message, the first log holding at most [`MAX_EVENTS`] lines) leaves the
/// newest [`MAX_EVENTS`] of the earlier lines followed by one stamped line
/// per message, in call order; once [`MAX_EVENTS`] messages were recorded,
/// exactly their lines remain.
pub proof fn lemma_recorded_messages_are_kept_in_order(logs: Seq<Seq<Seq<char>>>, messages: Seq<Seq<char>>)
    requires
        logs.len() == messages.len() + 1,
        logs[0].len() <= MAX_EVENTS,
        each_step_logged(logs, messages),
    ensures
        exists|lines: Seq<Seq<char>>| recorded_lines(logs, messages, lines),
        logs.last().len() <= MAX_EVENTS,
{
    let n = messages.len();
    let lines = Seq::new(n, |k: int| pushed_line(logs[k], logs[k + 1], messages[k]));
    assert forall|k: int| 0 <= k < n implies stamped_line(#[trigger] lines[k], messages[k]) && logs[k + 1] == ring_push(
        logs[k],
        lines[k],
    ) by {
        reveal(each_step_logged);
        lemma_pushed_line(logs[k], logs[k + 1], messages[k]);
    }
    lemma_log_after_steps(logs, lines, n as int);
    assert(lines.take(n as int) =~= lines);
    lemma_log_keeps_newest_lines(logs[0], lines);
    if n >= MAX_EVENTS {
        assert(newest(logs[0] + lines, MAX_EVENTS as nat) =~= lines.subrange(n - MAX_EVENTS, n as int));
    }
    assert(recorded_lines(logs, messages, lines));
}

/// After [`set_gpu_info`] stored `gpu_info` and [`clear`] then emptied the
/// log (whatever came between them), the report shows the trimmed GPU
/// description and, under its events heading, exactly one line: the
/// stamped "log cleared" line.
pub proof fn lemma_cleared_report_shows_gpu_and_one_line(
    preamble: Seq<char>,
    device_info: Option<Seq<char>>,
    gpu_info: Seq<char>,
    events: Seq<Seq<char>>,
)
    requires
        logged(Seq::empty(), events, "Diagnostic event log cleared"@),
    ensures
        exists|secs: u64, millis: u32|
            {
                &&& millis < 1000
                &&& events == seq![event_line(secs, millis, "Diagnostic event log cleared"@)]
                &&& snapshot_text(preamble, device_info, Some(gpu_info), events) == preamble + info_section(
                    "\n[Android device]\n"@,
                    device_info,
                ) + "\n[GPU adapter]\n"@ + trimmed(gpu_info) + seq!['\n'] + "\n[Events]\n"@ + event_line(
                    secs,
                    millis,
                    "Diagnostic event log cleared"@,
                ) + seq!['\n']
            },
{
    let cleared = "Diagnostic event log cleared"@;
    let (secs, millis) = choose|secs: u64, millis: u32|
        millis < 1000 && events == #[trigger] ring_push(Seq::empty(), event_line(secs, millis, cleared));
    let line = event_line(secs, millis, cleared);
    assert(events =~= seq![line]);
    assert(events.drop_last() =~= Seq::<Seq<char>>::empty());
    assert(event_lines_text(events) =~= line + seq!['\n']) by {
        reveal_with_fuel(event_lines_text, 2);
    }
    assert(snapshot_text(preamble, device_info, Some(gpu_info), events) =~= preamble + info_section(
        "\n[Android device]\n"@,
        device_info,
    ) + "\n[GPU adapter]\n"@ + trimmed(gpu_info) + seq!['\n'] + "\n[Events]\n"@ + line + seq!['\n']);
}

fn append_repeated(out: &mut String, piece: &str, count: usize)
    requires
        piece@.len() == 1,
    ensures
        final(out)@ == old(out)@ + Seq::new(count as nat, |i: int| piece@[0]),
{
    let mut k: usize = 0;
    while k < count
        invariant
            piece@.len() == 1,
            0 <= k <= count,
            out@ == old(out)@ + Seq::new(k as nat, |i: int| piece@[0]),
        decreases count - k,
    {
        out.append(piece);
        k += 1;
        proof {
            assert(out@ =~= old(out)@ + Seq::new(k as nat, |i: int| piece@[0]));
        }
    }
}

fn append_padded_decimal(out: &mut String, n: u64, width: usize, fill: &str)
    requires
        fill@.len() == 1,
    ensures
        final(out)@ == old(out)@ + pad_left(decimal(n as nat), width as nat, fill@[0]),
{
    let len = decimal_len(n);
    if len < width {
        append_repeated(out, fill, width - len);
    }
    append_decimal(out, n);
    proof {
        if len < width {
            assert(final(out)@ =~= old(out)@ + pad_left(decimal(n as nat), width as nat, fill@[0]));
        } else {
            assert(final(out)@ =~= old(out)@ + pad_left(decimal(n as nat), width as nat, fill@[0]));
        }
    }
}

/// Formats an event line: `[+SSSSS.mmms] message`.
pub fn format_event_line(secs: u64, millis: u32, message: &str) -> (r: String)
    ensures
        r@ == event_line(secs, millis, message@),
{
    let mut line = String::new();
    proof {
        reveal_strlit("[+");
        reveal_strlit(" ");
        reveal_strlit(".");
        reveal_strlit("0");
        reveal_strlit("s] ");
    }
    line.append("[+");
    append_padded_decimal(&mut line, secs, 5, " ");
    line.append(".");
    append_padded_decimal(&mut line, millis as u64, 3, "0");
    line.append("s] ");
    line.append(message);
    proof {
        assert(line@ =~= event_line(secs, millis, message@));
    }
    line
}

/// The event log with the device and GPU descriptions.
pub struct DiagnosticState {
    started: Instant,
    device_info: Option<String>,
    gpu_info: Option<String>,
    events: VecDeque<String>,
}

/// The text held by an optional string.
pub open spec fn option_text(o: Option<String>) -> Option<Seq<char>> {
    match o {
        Some(s) => Some(s@),
        None => None,
    }
}

impl DiagnosticState {
    #[verifier::type_invariant]
    closed spec fn bounded(self) -> bool {
        self.events@.len() <= MAX_EVENTS
    }

    /// The log lines, oldest first.
    pub closed spec fn events(self) -> Seq<Seq<char>> {
        self.events@.map_values(|line: String| line@)
    }

    pub closed spec fn device_info(self) -> Option<Seq<char>> {
        option_text(self.device_info)
    }

    pub closed spec fn gpu_info(self) -> Option<Seq<char>> {
        option_text(self.gpu_info)
    }

    /// An empty log that starts now.
    pub fn new() -> (r: Self)
        ensures
            r.events() == Seq::<Seq<char>>::empty(),
            r.device_info() is None,
            r.gpu_info() is None,
    {
        let r = DiagnosticState {
            started: now(),
            device_info: None,
            gpu_info: None,
            events: VecDeque::with_capacity(MAX_EVENTS),
        };
        assert(r.events() =~= Seq::<Seq<char>>::empty());
        r
    }

    /// Adds the line for `message` stamped `secs.millis` after the start,
    /// dropping the oldest line of a full log.
    pub fn push_at(&mut self, secs: u64, millis: u32, message: &str)
        ensures
            final(self).events() == ring_push(old(self).events(), event_line(secs, millis, message@)),
            final(self).events().len() <= MAX_EVENTS,
            final(self).device_info() == old(self).device_info(),
            final(self).gpu_info() == old(self).gpu_info(),
    {
        proof {
            use_type_invariant(&*self);
        }
        let line = format_event_line(secs, millis, message);
        let mut events: VecDeque<String> = VecDeque::new();
        std::mem::swap(&mut events, &mut self.events);
        let ghost before = events@;
        if events.len() == MAX_EVENTS {
            events.pop_front();
        }
        events.push_back(line);
        proof {
            let lines = |s: String| s@;
            if before.len() >= MAX_EVENTS {
                assert(events@.map_values(lines) =~= before.map_values(lines).drop_first().push(line@));
            } else {
                assert(events@.map_values(lines) =~= before.map_values(lines).push(line@));
            }
        }
        self.events = events;
    }

    /// Adds the line for `message`, stamped with the time since the log
    /// started.
    pub fn push(&mut self, message: &str)
        ensures
            logged(old(self).events(), final(self).events(), message@),
            final(self).events().len() <= MAX_EVENTS,
            final(self).device_info() == old(self).device_info(),
            final(self).gpu_info() == old(self).gpu_info(),
    {
        let elapsed = elapsed_since(&self.started);
        let secs = whole_seconds(&elapsed);
        let millis = millis_past_second(&elapsed);
        self.push_at(secs, millis, message);
    }
}

/// Adds a line to the log.
pub fn record(state: &mut DiagnosticState, message: &str)
    ensures
        logged(old(state).events(), final(state).events(), message@),
        final(state).events().len() <= MAX_EVENTS,
        final(state).device_info() == old(state).device_info(),
        final(state).gpu_info() == old(state).gpu_info(),
{
    state.push(message);
}

/// Stores the device description and logs that it was captured.
pub fn set_device_info(state: &mut DiagnosticState, info: String)
    ensures
        final(state).device_info() == Some(info@),
        final(state).gpu_info() == old(state).gpu_info(),
        logged(old(state).events(), final(state).events(), "Android device information captured"@),
{
    proof {
        use_type_invariant(&*state);
    }
    state.device_info = Some(info);
    state.push("Android device information captured");
}

/// Stores the GPU adapter description and logs that it was captured.
pub fn set_gpu_info(state: &mut DiagnosticState, info: String)
    ensures
        final(state).gpu_info() == Some(info@),
        final(state).device_info() == old(state).device_info(),
        logged(old(state).events(), final(state).events(), "GPU adapter information captured"@),
{
    proof {
        use_type_invariant(&*state);
    }
    state.gpu_info = Some(info);
    state.push("GPU adapter information captured");
}

/// Empties the log, restarts its clock and logs that it was cleared.
pub fn clear(state: &mut DiagnosticState)
    ensures
        logged(Seq::empty(), final(state).events(), "Diagnostic event log cleared"@),
        final(state).device_info() == old(state).device_info(),
        final(state).gpu_info() == old(state).gpu_info(),
{
    state.events = VecDeque::new();
    state.started = now();
    proof {
        assert(state.events() =~= Seq::<Seq<char>>::empty());
    }
    state.push("Diagnostic event log cleared");
}

/// The lines of the log, each ended by a newline.
pub open spec fn event_lines_text(events: Seq<Seq<char>>) -> Seq<char>
    decreases events.len(),
{
    if events.len() == 0 {
        Seq::empty()
    } else {
        event_lines_text(events.drop_last()) + events.last() + seq!['\n']
    }
}

/// A titled section of the report holding trimmed text, or nothing.
pub open spec fn info_section(title: Seq<char>, info: Option<Seq<char>>) -> Seq<char> {
    match info {
        Some(text) => title + trimmed(text) + seq!['\n'],
        None => Seq::empty(),
    }
}

/// The report: the preamble, the device and GPU sections, and the events.
pub open spec fn snapshot_text(
    preamble: Seq<char>,
    device_info: Option<Seq<char>>,
    gpu_info: Option<Seq<char>>,
    events: Seq<Seq<char>>,
) -> Seq<char> {
    preamble + info_section("\n[Android device]\n"@, device_info) + info_section(
        "\n[GPU adapter]\n"@,
        gpu_info,
    ) + "\n[Events]\n"@ + if events.len() == 0 {
        "No diagnostic events yet. Open a RAW or start an export.\n"@
    } else {
        event_lines_text(events)
    }
}

fn append_info_section(out: &mut String, title: &str, info: &Option<String>)
    ensures
        final(out)@ == old(out)@ + info_section(title@, option_text(*info)),
{
    match info {
        Some(text) => {
            out.append(title);
            out.append(trim_text(text.as_str()));
            proof {
                reveal_strlit("\n");
            }
            out.append("\n");
            proof {
                assert(final(out)@ =~= old(out)@ + info_section(title@, option_text(*info)));
            }
        },
        None => {
            proof {
                assert(old(out)@ + info_section(title@, option_text(*info)) =~= old(out)@);
            }
        },
    }
}

/// The text report of the log, after `preamble` (the build and platform
/// lines).
pub fn snapshot(state: &DiagnosticState, preamble: &str) -> (r: String)
    ensures
        r@ == snapshot_text(preamble@, state.device_info(), state.gpu_info(), state.events()),
{
    let mut output = String::new();
    output.append(preamble);
    append_info_section(&mut output, "\n[Android device]\n", &state.device_info);
    append_info_section(&mut output, "\n[GPU adapter]\n", &state.gpu_info);
    output.append("\n[Events]\n");
    let ghost head = output@;
    if state.events.len() == 0 {
        output.append("No diagnostic events yet. Open a RAW or start an export.\n");
        proof {
            assert(state.events() =~= Seq::<Seq<char>>::empty());
        }
    } else {
        proof {
            reveal_strlit("\n");
        }
        let n = state.events.len();
        let mut i: usize = 0;
        while i < n
            invariant
                n == state.events@.len(),
                0 <= i <= n,
                output@ == head + event_lines_text(state.events().take(i as int)),
            decreases n - i,
        {
            let line = &state.events[i];
            output.append(line.as_str());
            output.append("\n");
            i += 1;
            proof {
                reveal_strlit("\n");
                let ev = state.events();
                assert(ev.take(i as int).drop_last() =~= ev.take(i - 1));
                assert(ev.take(i as int).last() == state.events@[i - 1]@);
                assert(output@ =~= head + event_lines_text(ev.take(i as int)));
            }
        }
        proof {
            assert(state.events().take(n as int) =~= state.events());
        }
    }
    output
}

/// Values sampled from a buffer of `length`.
pub open spec fn sample_count(length: nat) -> nat {
    if length <= FINGERPRINT_SAMPLES { length } else { FINGERPRINT_SAMPLES as nat }
}

/// Sample `sample` of a buffer of `length`: the samples spread evenly from
/// the first to the last value, the product saturating at `usize::MAX`.
pub open spec fn sample_index(length: nat, sample: nat) -> nat {
    let count = sample_count(length);
    if count <= 1 {
        0
    } else {
        let product = sample * (length - 1);
        let saturated = if product > usize::MAX { usize::MAX as nat } else { product as nat };
        saturated / (count - 1) as nat
    }
}

/// The values of a buffer at its sample positions.
pub open spec fn sampled_values<A>(values: Seq<A>) -> Seq<A> {
    Seq::new(sample_count(values.len()), |s: int| values[sample_index(values.len(), s as nat) as int])
}

proof fn lemma_sample_index_in_range(length: nat, sample: nat)
    requires
        sample < sample_count(length),
        length <= usize::MAX,
    ensures
        sample_index(length, sample) < length,
{
    let count = sample_count(length);
    if count > 1 {
        let last: int = length - 1;
        let c1: int = count - 1;
        let product: int = sample * last;
        assert(product <= c1 * last) by (nonlinear_arith)
            requires
                0 <= sample <= c1,
                product == sample * last,
                last >= 0,
        ;
        if product > usize::MAX {
            assert((usize::MAX as int) / c1 <= last) by (nonlinear_arith)
                requires
                    c1 * last > usize::MAX,
                    c1 >= 1,
            ;
        } else {
            assert(product / c1 <= last) by (nonlinear_arith)
                requires
                    0 <= product <= c1 * last,
                    c1 >= 1,
            ;
        }
    }
}

/// The sample positions of a buffer of `length`.
pub fn sample_indices(length: usize) -> (r: Vec<usize>)
    ensures
        r@.len() == sample_count(length as nat),
        forall|s: int| 0 <= s < r@.len() ==> #[trigger] r@[s] == sample_index(length as nat, s as nat),
        forall|s: int| 0 <= s < r@.len() ==> #[trigger] r@[s] < length,
{
    let count = if length < FINGERPRINT_SAMPLES { length } else { FINGERPRINT_SAMPLES };
    let mut indices: Vec<usize> = Vec::new();
    let mut sample: usize = 0;
    while sample < count
        invariant
            count == sample_count(length as nat),
            0 <= sample <= count,
            indices@.len() == sample,
            forall|s: int| 0 <= s < sample ==> #[trigger] indices@[s] == sample_index(length as nat, s as nat),
            forall|s: int| 0 <= s < sample ==> #[trigger] indices@[s] < length,
        decreases count - sample,
    {
        let index = if count <= 1 {
            0
        } else {
            let product = match sample.checked_mul(length - 1) {
                Some(p) => p,
                None => usize::MAX,
            };
            product / (count - 1)
        };
        proof {
            lemma_sample_index_in_range(length as nat, sample as nat);
        }
        indices.push(index);
        sample += 1;
    }
    indices
}

/// One FNV-1a step: xor in the byte, then multiply by the prime modulo
/// 2^64.
pub open spec fn spec_fnv1a_step(hash: u64, byte: u8) -> u64 {
    (((hash ^ (byte as u64)) as nat * FNV_PRIME as nat) % 0x1_0000_0000_0000_0000) as u64
}

/// FNV-1a over `bytes`, starting from `hash`.
pub open spec fn fnv1a(hash: u64, bytes: Seq<u8>) -> u64
    decreases bytes.len(),
{
    if bytes.len() == 0 {
        hash
    } else {
        spec_fnv1a_step(fnv1a(hash, bytes.drop_last()), bytes.last())
    }
}

pub fn fnv1a_step(hash: u64, byte: u8) -> (r: u64)
    ensures
        r == spec_fnv1a_step(hash, byte),
{
    (hash ^ (byte as u64)).wrapping_mul(FNV_PRIME)
}

/// Sampled fingerprint of 16-bit samples: FNV-1a over the little-endian
/// bytes of the sampled values.
pub fn sampled_u16_fingerprint(values: &[u16]) -> (r: u64)
    ensures
        r == fnv1a(FNV_OFFSET_BASIS, u16_le_bytes(sampled_values(values@))),
{
    let indices = sample_indices(values.len());
    let ghost samples = sampled_values(values@);
    let mut hash: u64 = FNV_OFFSET_BASIS;
    let mut s: usize = 0;
    while s < indices.len()
        invariant
            indices@.len() == samples.len(),
            samples == sampled_values(values@),
            forall|k: int| 0 <= k < indices@.len() ==> #[trigger] indices@[k] == sample_index(values@.len(), k as nat),
            forall|k: int| 0 <= k < indices@.len() ==> #[trigger] indices@[k] < values@.len(),
            0 <= s <= indices@.len(),
            hash == fnv1a(FNV_OFFSET_BASIS, u16_le_bytes(samples.take(s as int))),
        decreases indices@.len() - s,
    {
        let value = values[indices[s]];
        let low = (value % 256) as u8;
        let high = (value / 256) as u8;
        let ghost before = u16_le_bytes(samples.take(s as int));
        let ghost after = u16_le_bytes(samples.take(s + 1));
        proof {
            assert(samples[s as int] == value);
            assert(after =~= before.push(low).push(high));
            assert(before.push(low).push(high).drop_last() =~= before.push(low));
            assert(before.push(low).drop_last() =~= before);
        }
        let mid = fnv1a_step(hash, low);
        assert(mid == fnv1a(FNV_OFFSET_BASIS, before.push(low)));
        hash = fnv1a_step(mid, high);
        assert(hash == fnv1a(FNV_OFFSET_BASIS, before.push(low).push(high)));
        s += 1;
    }
    proof {
        assert(samples.take(s as int) =~= samples);
    }
    hash
}

/// Sampled fingerprint of a map of bytes: FNV-1a over the sampled values.
pub fn sampled_u8_fingerprint(values: &CompactPixelMap<u8>) -> (r: u64)
    ensures
        r == fnv1a(FNV_OFFSET_BASIS, sampled_values(values.pixels())),
{
    let indices = sample_indices(values.len());
    let ghost samples = sampled_values(values.pixels());
    let mut hash: u64 = FNV_OFFSET_BASIS;
    let mut s: usize = 0;
    while s < indices.len()
        invariant
            values.pixels().len() == values.spec_len(),
            indices@.len() == samples.len(),
            samples == sampled_values(values.pixels()),
            forall|k: int|
                0 <= k < indices@.len() ==> #[trigger] indices@[k] == sample_index(values.pixels().len(), k as nat),
            forall|k: int| 0 <= k < indices@.len() ==> #[trigger] indices@[k] < values.spec_len(),
            0 <= s <= indices@.len(),
            hash == fnv1a(FNV_OFFSET_BASIS, samples.take(s as int)),
        decreases indices@.len() - s,
    {
        let value = *values.value_at(indices[s]);
        proof {
            assert(samples.take(s + 1).drop_last() =~= samples.take(s as int));
        }
        hash = fnv1a_step(hash, value);
        s += 1;
    }
    proof {
        assert(samples.take(s as int) =~= samples);
    }
    hash
}

/// Number of entries of `s` equal to `value`.
pub open spec fn count_of(s: Seq<u8>, value: u8) -> nat
    decreases s.len(),
{
    if s.len() == 0 {
        0
    } else {
        count_of(s.drop_last(), value) + if s.last() == value { 1nat } else { 0nat }
    }
}

proof fn lemma_count_of_bound(s: Seq<u8>, value: u8)
    ensures
        count_of(s, value) <= s.len(),
    decreases s.len(),
{
    if s.len() > 0 {
        lemma_count_of_bound(s.drop_last(), value);
    }
}

/// How many sampled colour indices name each of the four CFA colours;
/// samples of other values are not counted.
pub fn sampled_cfa_counts(values: &CompactPixelMap<u8>) -> (r: [usize; 4])
    ensures
        forall|c: int|
            0 <= c < 4 ==> #[trigger] r@[c] == count_of(sampled_values(values.pixels()), c as u8),
{
    let indices = sample_indices(values.len());
    let ghost samples = sampled_values(values.pixels());
    let mut counts: [usize; 4] = [0, 0, 0, 0];
    let mut s: usize = 0;
    while s < indices.len()
        invariant
            values.pixels().len() == values.spec_len(),
            indices@.len() == samples.len(),
            samples == sampled_values(values.pixels()),
            samples.len() <= FINGERPRINT_SAMPLES,
            forall|k: int|
                0 <= k < indices@.len() ==> #[trigger] indices@[k] == sample_index(values.pixels().len(), k as nat),
            forall|k: int| 0 <= k < indices@.len() ==> #[trigger] indices@[k] < values.spec_len(),
            0 <= s <= indices@.len(),
            forall|c: int| 0 <= c < 4 ==> #[trigger] counts@[c] == count_of(samples.take(s as int), c as u8),
        decreases indices@.len() - s,
    {
        let value = *values.value_at(indices[s]);
        proof {
            assert(samples.take(s + 1).drop_last() =~= samples.take(s as int));
            assert forall|c: int| 0 <= c < 4 implies #[trigger] count_of(samples.take(s as int), c as u8) <= s by {
                lemma_count_of_bound(samples.take(s as int), c as u8);
            }
        }
        if value < 4 {
            let slot = value as usize;
            counts[slot] = counts[slot] + 1;
        }
        s += 1;
    }
    proof {
        assert(samples.take(s as int) =~= samples);
    }
    counts
}

} // verus!
