//! What is shown of a model's answer as it comes in.
use vstd::prelude::*;

use crate::text::{char_width, chars_of, decimal_text, escape_newlines};

verus! {

/// How many bytes of a tool's result are shown at most.
pub const RESULT_LIMIT: usize = 200;

/// A piece of a model's answer.
#[derive(Clone, Debug)]
pub enum StreamEvent {
    /// Text of the answer.
    Text(String),
    /// Text of the model's reasoning.
    Reasoning(String),
    /// The model calls a tool.
    ToolCall { name: String, arguments: String },
    /// The texts that a tool has answered with.
    ToolResult(Vec<String>),
    /// Anything else.
    Other,
    /// The stream has failed.
    Failed(String),
}

/// What to write to the two outputs.
#[derive(Clone, Debug)]
pub struct Rendered {
    pub stdout: String,
    pub stderr: String,
}

/// Texts one after the other.
pub open spec fn concatenated(parts: Seq<String>) -> Seq<char>
    decreases parts.len(),
{
    if parts.len() == 0 {
        seq![]
    } else {
        concatenated(parts.drop_last()) + parts.last()@
    }
}

/// Puts texts one after the other.
pub fn concatenate(parts: &Vec<String>) -> (text: String)
    ensures
        text@ == concatenated(parts@),
{
    let mut text = String::new();
    let mut i: usize = 0;
    while i < parts.len()
        invariant
            i <= parts@.len(),
            text@ == concatenated(parts@.take(i as int)),
        decreases parts@.len() - i,
    {
        let ghost next = parts@.take(i + 1);
        assert(next.drop_last() == parts@.take(i as int));
        text.append(parts[i].as_str());
        i = i + 1;
    }
    assert(parts@.take(i as int) == parts@);
    text
}

/// Whether the first `k` characters of a text are the longest beginning that keeps to the limit.
pub open spec fn is_cut(text: Seq<char>, k: int) -> bool {
    &&& 0 <= k <= text.len()
    &&& crate::text::byte_length(text.take(k)) <= RESULT_LIMIT
    &&& k < text.len() ==> crate::text::byte_length(text.take(k + 1)) > RESULT_LIMIT
}

/// The longest beginning of a text that keeps to the limit.
pub open spec fn cut(text: Seq<char>) -> Seq<char> {
    text.take(choose|k: int| is_cut(text, k))
}

/// A tool's result as it is shown: whole, or cut at the limit with its full length in bytes.
pub open spec fn shortened(text: Seq<char>) -> Seq<char> {
    if crate::text::byte_length(text) > RESULT_LIMIT {
        cut(text) + "... ("@ + crate::text::decimal(crate::text::byte_length(text)) + " bytes)"@
    } else {
        text
    }
}

/// A longer beginning of a text has more bytes.
proof fn lemma_longer_beginning(text: Seq<char>, j: int, k: int)
    requires
        0 <= j < k <= text.len(),
    ensures
        crate::text::byte_length(text.take(j)) < crate::text::byte_length(text.take(k)),
{
    assert(text.take(j) == text.take(k).take(j));
    crate::text::law_longer_text_has_more_bytes(text.take(j), text.take(k));
}

/// Only one beginning is the longest.
proof fn lemma_cut_unique(text: Seq<char>, j: int, k: int)
    requires
        is_cut(text, j),
        is_cut(text, k),
    ensures
        j == k,
{
    if j + 1 < k {
        lemma_longer_beginning(text, j + 1, k);
    } else if k + 1 < j {
        lemma_longer_beginning(text, k + 1, j);
    }
}

/// Counts the characters up to the limit.
fn cut_length(chars: &Vec<char>) -> (length: usize)
    ensures
        is_cut(chars@, length as int),
{
    let n = chars.len();
    let mut used: usize = 0;
    let mut i: usize = 0;
    assert(chars@.take(0).len() == 0);
    while i < n
        invariant
            i <= n,
            n == chars@.len(),
            used == crate::text::byte_length(chars@.take(i as int)),
            used <= RESULT_LIMIT,
        decreases n - i,
    {
        let width = char_width(chars[i]);
        proof {
            assert(chars@.take(i + 1) == chars@.take(i as int).push(chars@[i as int]));
            crate::text::law_character_adds_its_bytes(chars@.take(i as int), chars@[i as int]);
        }
        if used + width > RESULT_LIMIT {
            return i;
        }
        used = used + width;
        i = i + 1;
    }
    i
}

/// Shortens a tool's result for display. It is never cut within a character.
pub fn shorten_result(text: &str) -> (shown: String)
    ensures
        shown@ == shortened(text@),
{
    let bytes = text.as_bytes();
    let length: usize = bytes.len();
    if length > RESULT_LIMIT {
        let chars = chars_of(text);
        let end = cut_length(&chars);
        proof {
            let chosen = choose|k: int| is_cut(text@, k);
            lemma_cut_unique(text@, chosen, end as int);
        }
        let front = text.substring_char(0, end);
        let number = decimal_text(length);
        front.to_owned().concat("... (").concat(number.as_str()).concat(" bytes)")
    } else {
        text.to_owned()
    }
}

/// What goes to the standard output: the text of the answer.
pub open spec fn stdout_of(event: StreamEvent) -> Seq<char> {
    match event {
        StreamEvent::Text(text) => text@,
        _ => seq![],
    }
}

/// What goes to the standard error: reasoning in dim italics, tool calls in bold cyan with dim
/// arguments, tool results dimmed on one line, and failures. In quiet mode only failures are left.
pub open spec fn stderr_of(event: StreamEvent, quiet: bool) -> Seq<char> {
    match event {
        StreamEvent::Failed(error) => "stream error: "@ + error@ + "\n"@,
        StreamEvent::Reasoning(text) => if quiet {
            seq![]
        } else {
            "\x1b[2;3m"@ + text@ + "\x1b[0m"@
        },
        StreamEvent::ToolCall { name, arguments } => if quiet {
            seq![]
        } else {
            "\x1b[1;36m"@ + name@ + "\x1b[0m\x1b[2m("@ + arguments@ + ")\x1b[0m\n"@
        },
        StreamEvent::ToolResult(parts) => if quiet {
            seq![]
        } else {
            "\x1b[2m  -> "@ + crate::text::escaped_newlines(shortened(concatenated(parts@)))
                + "\x1b[0m\n"@
        },
        _ => seq![],
    }
}

/// Renders a piece of a model's answer.
fn render(event: &StreamEvent, quiet: bool) -> (rendered: Rendered)
    ensures
        rendered.stdout@ == stdout_of(*event),
        rendered.stderr@ == stderr_of(*event, quiet),
{
    let mut stdout = String::new();
    let mut stderr = String::new();
    match event {
        StreamEvent::Text(text) => {
            stdout = text.clone();
        },
        StreamEvent::Reasoning(text) => if !quiet {
            stderr.append("\x1b[2;3m");
            stderr.append(text.as_str());
            stderr.append("\x1b[0m");
        },
        StreamEvent::ToolCall { name, arguments } => if !quiet {
            stderr.append("\x1b[1;36m");
            stderr.append(name.as_str());
            stderr.append("\x1b[0m\x1b[2m(");
            stderr.append(arguments.as_str());
            stderr.append(")\x1b[0m\n");
        },
        StreamEvent::ToolResult(parts) => if !quiet {
            let text = concatenate(parts);
            let shown = shorten_result(text.as_str());
            let line = escape_newlines(shown.as_str());
            stderr.append("\x1b[2m  -> ");
            stderr.append(line.as_str());
            stderr.append("\x1b[0m\n");
        },
        StreamEvent::Other => {},
        StreamEvent::Failed(error) => {
            stderr.append("stream error: ");
            stderr.append(error.as_str());
            stderr.append("\n");
        },
    }
    Rendered { stdout, stderr }
}

// --- a whole stream ---

/// Whether a stream is over after an event, or after its end, which is `None`.
pub open spec fn over_after(over: bool, event: Option<StreamEvent>) -> bool {
    over || event is None || event->0 is Failed
}

/// What an event adds to the standard output. The end of the stream and a failure end the answer
/// with a line break; after them nothing is added.
pub open spec fn printed_to_stdout(over: bool, event: Option<StreamEvent>) -> Seq<char> {
    if over {
        seq![]
    } else if over_after(over, event) {
        "\n"@
    } else {
        stdout_of(event->0)
    }
}

/// What an event adds to the standard error. After the end of the stream or a failure nothing is
/// added.
pub open spec fn printed_to_stderr(
    over: bool,
    event: Option<StreamEvent>,
    quiet: bool,
) -> Seq<char> {
    if over || event is None {
        seq![]
    } else {
        stderr_of(event->0, quiet)
    }
}

/// Shows a stream, event by event.
#[derive(Clone, Debug)]
pub struct Printer {
    pub quiet: bool,
    pub over: bool,
}

impl Printer {
    /// A printer for a new stream.
    pub fn new(quiet: bool) -> (printer: Printer)
        ensures
            printer.quiet == quiet,
            !printer.over,
    {
        Printer { quiet, over: false }
    }

    /// Takes the next event of the stream, or its end.
    pub fn print(&mut self, event: &Option<StreamEvent>) -> (rendered: Rendered)
        ensures
            final(self).quiet == old(self).quiet,
            final(self).over == over_after(old(self).over, *event),
            rendered.stdout@ == printed_to_stdout(old(self).over, *event),
            rendered.stderr@ == printed_to_stderr(old(self).over, *event, old(self).quiet),
    {
        let mut rendered = Rendered { stdout: String::new(), stderr: String::new() };
        if !self.over {
            match event {
                Some(event) => {
                    rendered = render(event, self.quiet);
                    match event {
                        StreamEvent::Failed(_) => {
                            self.over = true;
                        },
                        _ => {},
                    }
                },
                None => {
                    self.over = true;
                },
            }
            if self.over {
                rendered.stdout = "\n".to_owned();
            }
        }
        rendered
    }
}

/// All that a printer writes to the standard output, when it is handed the events and then the
/// end of the stream.
pub open spec fn whole_stdout(over: bool, events: Seq<StreamEvent>) -> Seq<char>
    decreases events.len(),
{
    if events.len() == 0 {
        printed_to_stdout(over, None)
    } else {
        printed_to_stdout(over, Some(events[0])) + whole_stdout(
            over_after(over, Some(events[0])),
            events.skip(1),
        )
    }
}

/// All that a printer writes to the standard error.
pub open spec fn whole_stderr(over: bool, events: Seq<StreamEvent>, quiet: bool) -> Seq<char>
    decreases events.len(),
{
    if events.len() == 0 {
        printed_to_stderr(over, None, quiet)
    } else {
        printed_to_stderr(over, Some(events[0]), quiet) + whole_stderr(
            over_after(over, Some(events[0])),
            events.skip(1),
            quiet,
        )
    }
}

/// The events before the first failure.
pub open spec fn before_failure(events: Seq<StreamEvent>) -> Seq<StreamEvent>
    decreases events.len(),
{
    if events.len() == 0 || events[0] is Failed {
        seq![]
    } else {
        seq![events[0]] + before_failure(events.skip(1))
    }
}

/// The texts of the answer, one after the other.
pub open spec fn answer_text(events: Seq<StreamEvent>) -> Seq<char>
    decreases events.len(),
{
    if events.len() == 0 {
        seq![]
    } else {
        (match events[0] {
            StreamEvent::Text(text) => text@,
            _ => seq![],
        }) + answer_text(events.skip(1))
    }
}

/// What events leave in the log, one after the other.
pub open spec fn log_text(events: Seq<StreamEvent>, quiet: bool) -> Seq<char>
    decreases events.len(),
{
    if events.len() == 0 {
        seq![]
    } else {
        stderr_of(events[0], quiet) + log_text(events.skip(1), quiet)
    }
}

// --- laws ---

/// Once a stream is over, nothing more is written.
pub proof fn law_nothing_follows_the_end(events: Seq<StreamEvent>, quiet: bool)
    ensures
        whole_stdout(true, events) == Seq::<char>::empty(),
        whole_stderr(true, events, quiet) == Seq::<char>::empty(),
    decreases events.len(),
{
    if events.len() > 0 {
        law_nothing_follows_the_end(events.skip(1), quiet);
    }
}

/// The standard output of a stream is the text of the answer up to the stream's end or its first
/// failure, and one line break.
pub proof fn law_stdout_is_the_answer(events: Seq<StreamEvent>)
    ensures
        whole_stdout(false, events) == answer_text(before_failure(events)) + "\n"@,
    decreases events.len(),
{
    if events.len() == 0 {
        assert(answer_text(before_failure(events)) + "\n"@ == "\n"@);
    } else if events[0] is Failed {
        law_nothing_follows_the_end(events.skip(1), false);
        assert(answer_text(before_failure(events)) + "\n"@ == "\n"@);
        assert("\n"@ + Seq::<char>::empty() == "\n"@);
    } else {
        let rest = events.skip(1);
        law_stdout_is_the_answer(rest);
        let first = seq![events[0]] + before_failure(rest);
        assert(first.skip(1) == before_failure(rest));
        assert(answer_text(first) == stdout_of(events[0]) + answer_text(before_failure(rest)));
        assert(stdout_of(events[0]) + (answer_text(before_failure(rest)) + "\n"@) == stdout_of(
            events[0],
        ) + answer_text(before_failure(rest)) + "\n"@);
    }
}

/// A failure is the last that is logged. What came before it is kept, what comes after it is not
/// shown, and the answer still ends with a line break.
pub proof fn law_failure_ends_the_stream(
    before: Seq<StreamEvent>,
    error: String,
    after: Seq<StreamEvent>,
    quiet: bool,
)
    requires
        forall|i: int| 0 <= i < before.len() ==> !(#[trigger] before[i] is Failed),
    ensures
        ({
            let events = before + seq![StreamEvent::Failed(error)] + after;
            &&& whole_stdout(false, events) == answer_text(before) + "\n"@
            &&& whole_stderr(false, events, quiet) == log_text(before, quiet) + "stream error: "@
                + error@ + "\n"@
        }),
    decreases before.len(),
{
    let failure = StreamEvent::Failed(error);
    let events = before + seq![failure] + after;
    let line = "stream error: "@ + error@ + "\n"@;
    if before.len() == 0 {
        assert(events[0] == failure);
        law_nothing_follows_the_end(events.skip(1), quiet);
        assert("\n"@ + Seq::<char>::empty() == "\n"@);
        assert(answer_text(before) + "\n"@ == "\n"@);
        assert(line + Seq::<char>::empty() == line);
        assert(log_text(before, quiet) + "stream error: "@ + error@ + "\n"@ == line);
    } else {
        let rest = before.skip(1);
        assert(events[0] == before[0]);
        assert(events.skip(1) == rest + seq![failure] + after);
        assert forall|i: int| 0 <= i < rest.len() implies !(#[trigger] rest[i] is Failed) by {
            assert(rest[i] == before[i + 1]);
        }
        law_failure_ends_the_stream(rest, error, after, quiet);
        assert(whole_stdout(false, events) == stdout_of(before[0]) + (answer_text(rest) + "\n"@));
        assert(stdout_of(before[0]) + (answer_text(rest) + "\n"@) == answer_text(before) + "\n"@);
        let logged = log_text(rest, quiet);
        assert(stderr_of(before[0], quiet) + (logged + "stream error: "@ + error@ + "\n"@)
            == log_text(before, quiet) + "stream error: "@ + error@ + "\n"@);
    }
}

/// A stream without a failure leaves all its events in the log.
pub proof fn law_all_events_are_logged(events: Seq<StreamEvent>, quiet: bool)
    requires
        forall|i: int| 0 <= i < events.len() ==> !(#[trigger] events[i] is Failed),
    ensures
        whole_stderr(false, events, quiet) == log_text(events, quiet),
    decreases events.len(),
{
    if events.len() > 0 {
        let rest = events.skip(1);
        assert forall|i: int| 0 <= i < rest.len() implies !(#[trigger] rest[i] is Failed) by {
            assert(rest[i] == events[i + 1]);
        }
        law_all_events_are_logged(rest, quiet);
    }
}

/// In quiet mode nothing but a failure is written to the standard error.
pub proof fn law_quiet_hides_all_but_failures(event: StreamEvent)
    requires
        !(event is Failed),
    ensures
        stderr_of(event, true).len() == 0,
{
}

/// What is shown of a long result is the longest beginning of it that keeps to the limit, which
/// falls short of the limit by less than one character.
pub proof fn law_cut_is_the_longest_beginning(text: Seq<char>, k: int)
    requires
        crate::text::byte_length(text) > RESULT_LIMIT,
        0 <= k <= text.len(),
    ensures
        cut(text).is_prefix_of(text),
        RESULT_LIMIT - 4 < crate::text::byte_length(cut(text)) <= RESULT_LIMIT,
        crate::text::byte_length(text.take(k)) <= RESULT_LIMIT <==> k <= cut(text).len(),
{
    lemma_cut_exists(text, 0);
    let end = choose|i: int| is_cut(text, i);
    assert(cut(text) == text.take(end));
    assert(text.take(text.len() as int) == text);
    assert(text.take(end + 1) == text.take(end).push(text[end]));
    crate::text::law_character_adds_its_bytes(text.take(end), text[end]);
    if k < end {
        lemma_longer_beginning(text, k, end);
    } else if k > end + 1 {
        lemma_longer_beginning(text, end + 1, k);
    }
}

/// Every text has a longest beginning that keeps to the limit.
proof fn lemma_cut_exists(text: Seq<char>, k: int)
    requires
        0 <= k <= text.len(),
        k > 0 ==> crate::text::byte_length(text.take(k)) <= RESULT_LIMIT,
    ensures
        exists|i: int| is_cut(text, i),
    decreases text.len() - k,
{
    if k == 0 {
        assert(text.take(0).len() == 0);
    }
    if k < text.len() && crate::text::byte_length(text.take(k + 1)) <= RESULT_LIMIT {
        lemma_cut_exists(text, k + 1);
    } else {
        assert(is_cut(text, k));
    }
}

/// Where a character ends exactly at the limit, a long result is cut there.
pub proof fn law_cut_at_the_limit(text: Seq<char>, k: int)
    requires
        0 <= k < text.len(),
        crate::text::byte_length(text.take(k)) == RESULT_LIMIT,
    ensures
        cut(text) == text.take(k),
{
    lemma_longer_beginning(text, k, k + 1);
    assert(is_cut(text, k));
    let chosen = choose|i: int| is_cut(text, i);
    lemma_cut_unique(text, chosen, k);
}

/// What is shown of each kind of event where a run is not quiet. Text, reasoning, names,
/// arguments and errors are shown as they come; only a tool's result is shortened and put on one
/// line.
pub proof fn law_what_is_shown_of_an_event(
    text: String,
    name: String,
    arguments: String,
    parts: Vec<String>,
)
    ensures
        stdout_of(StreamEvent::Text(text)) == text@,
        stderr_of(StreamEvent::Text(text), false) == Seq::<char>::empty(),
        stdout_of(StreamEvent::Reasoning(text)) == Seq::<char>::empty(),
        stderr_of(StreamEvent::Reasoning(text), false) == "\x1b[2;3m"@ + text@ + "\x1b[0m"@,
        stdout_of(StreamEvent::ToolCall { name, arguments }) == Seq::<char>::empty(),
        stderr_of(StreamEvent::ToolCall { name, arguments }, false) == "\x1b[1;36m"@ + name@
            + "\x1b[0m\x1b[2m("@ + arguments@ + ")\x1b[0m\n"@,
        stdout_of(StreamEvent::ToolResult(parts)) == Seq::<char>::empty(),
        stderr_of(StreamEvent::ToolResult(parts), false) == "\x1b[2m  -> "@
            + crate::text::escaped_newlines(shortened(concatenated(parts@))) + "\x1b[0m\n"@,
        stdout_of(StreamEvent::Other) == Seq::<char>::empty(),
        stderr_of(StreamEvent::Other, false) == Seq::<char>::empty(),
        stdout_of(StreamEvent::Failed(text)) == Seq::<char>::empty(),
        stderr_of(StreamEvent::Failed(text), false) == "stream error: "@ + text@ + "\n"@,
{
}

/// In quiet mode the text of the answer and failures are shown as ever, and nothing else.
pub proof fn law_what_is_shown_in_quiet_mode(event: StreamEvent, error: String)
    ensures
        stderr_of(StreamEvent::Failed(error), true) == "stream error: "@ + error@ + "\n"@,
        !(event is Failed) ==> stderr_of(event, true) == Seq::<char>::empty(),
{
}

/// A result in parts is its parts, one after the other.
pub proof fn law_parts_of_a_result(parts: Seq<String>, part: String)
    ensures
        concatenated(seq![]) == Seq::<char>::empty(),
        concatenated(parts.push(part)) == concatenated(parts) + part@,
{
    assert(parts.push(part).drop_last() == parts);
}

/// A result of at most 200 bytes is shown whole. Of a longer one the longest beginning of at most
/// 200 bytes is shown, and how many bytes it has.
pub proof fn law_how_a_result_is_shortened(text: Seq<char>, k: int)
    ensures
        vstd::utf8::encode_utf8(text).len() <= 200 ==> shortened(text) == text,
        vstd::utf8::encode_utf8(text).len() > 200 && 0 <= k < text.len()
            && vstd::utf8::encode_utf8(text.take(k)).len() <= 200 && vstd::utf8::encode_utf8(
            text.take(k + 1),
        ).len() > 200 ==> shortened(text) == text.take(k) + "... ("@ + crate::text::decimal(
            vstd::utf8::encode_utf8(text).len(),
        ) + " bytes)"@,
{
    if 0 <= k < text.len() && is_cut(text, k) {
        let chosen = choose|i: int| is_cut(text, i);
        lemma_cut_unique(text, chosen, k);
    }
}

/// What a printer does with the next event. While the stream goes on it shows the event; the end
/// and a failure end the answer with a line break; after that it shows nothing.
pub proof fn law_what_a_printer_does(event: StreamEvent, quiet: bool, any: Option<StreamEvent>)
    ensures
        !(event is Failed) ==> {
            &&& printed_to_stdout(false, Some(event)) == stdout_of(event)
            &&& !over_after(false, Some(event))
        },
        event is Failed ==> {
            &&& printed_to_stdout(false, Some(event)) == "\n"@
            &&& over_after(false, Some(event))
        },
        printed_to_stderr(false, Some(event), quiet) == stderr_of(event, quiet),
        printed_to_stdout(false, None) == "\n"@,
        printed_to_stderr(false, None, quiet) == Seq::<char>::empty(),
        over_after(false, None),
        printed_to_stdout(true, any) == Seq::<char>::empty(),
        printed_to_stderr(true, any, quiet) == Seq::<char>::empty(),
        over_after(true, any),
{
}

/// What a printer writes in all is what it writes for each event in turn, and for the end.
pub proof fn law_a_stream_is_shown_in_turn(
    over: bool,
    event: StreamEvent,
    events: Seq<StreamEvent>,
    quiet: bool,
)
    ensures
        whole_stdout(over, seq![]) == printed_to_stdout(over, None),
        whole_stderr(over, seq![], quiet) == printed_to_stderr(over, None, quiet),
        whole_stdout(over, seq![event] + events) == printed_to_stdout(over, Some(event))
            + whole_stdout(over_after(over, Some(event)), events),
        whole_stderr(over, seq![event] + events, quiet) == printed_to_stderr(
            over,
            Some(event),
            quiet,
        ) + whole_stderr(over_after(over, Some(event)), events, quiet),
{
    assert((seq![event] + events).skip(1) == events);
}

/// The text of an answer is the text of its text events; the log is what each event leaves in it;
/// and a stream goes on until its first failure.
pub proof fn law_answer_and_log_event_by_event(
    text: String,
    event: StreamEvent,
    events: Seq<StreamEvent>,
    quiet: bool,
)
    ensures
        answer_text(seq![]) == Seq::<char>::empty(),
        answer_text(seq![StreamEvent::Text(text)] + events) == text@ + answer_text(events),
        !(event is Text) ==> answer_text(seq![event] + events) == answer_text(events),
        log_text(seq![], quiet) == Seq::<char>::empty(),
        log_text(seq![event] + events, quiet) == stderr_of(event, quiet) + log_text(events, quiet),
        before_failure(seq![]) == Seq::<StreamEvent>::empty(),
        event is Failed ==> before_failure(seq![event] + events) == Seq::<StreamEvent>::empty(),
        !(event is Failed) ==> before_failure(seq![event] + events) == seq![event]
            + before_failure(events),
{
    assert((seq![event] + events).skip(1) == events);
    assert((seq![StreamEvent::Text(text)] + events).skip(1) == events);
    assert(Seq::<char>::empty() + answer_text(events) == answer_text(events));
}

} // verus!
