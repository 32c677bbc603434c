//! Exporting a meeting's transcript as plain text or as WebVTT captions.

use crate::double;
use crate::double::{Double, Real};
use crate::models;
use crate::models::{MeetingDetails, MeetingTranscript};
use crate::order;
use crate::order::SortKey;
use crate::text;
use vstd::prelude::*;
use vstd::string::*;

verus! {

/// The outcome of an export.
pub struct ExportResult {
    pub saved: bool,
    pub path: Option<String>,
    pub segment_count: usize,
    pub skipped_count: Option<usize>,
}

/// A time in hundredths of a second, the precision at which times are shown.
pub open spec fn centiseconds(time: Real) -> nat {
    double::rounded_whole(double::multiple(double::larger(time, Real::Finite { units: 0 }), 100), u64::MAX as nat)
}

/// Hundredths of a second as `HH:MM:SS.cc`.
pub open spec fn clock(cs: nat) -> Seq<char> {
    text::two_digits(cs / 360_000) + ":"@ + text::two_digits((cs % 360_000) / 6_000) + ":"@ + text::two_digits(
        (cs % 6_000) / 100,
    ) + "."@ + text::two_digits(cs % 100)
}

/// A time as `HH:MM:SS.cc`.
pub open spec fn timestamp(time: Real) -> Seq<char> {
    clock(centiseconds(time))
}

/// Rounding comes before the split into fields: minutes and seconds stay below sixty, and the
/// fields add up to the rounded time.
pub proof fn clock_fields_stay_in_range(cs: nat)
    ensures
        (cs % 360_000) / 6_000 < 60,
        (cs % 6_000) / 100 < 60,
        cs % 100 < 100,
        360_000 * (cs / 360_000) + 6_000 * ((cs % 360_000) / 6_000) + 100 * ((cs % 6_000) / 100) + cs
            % 100 == cs,
{
}

/// A time as `HH:MM:SS.cc`; times before zero show as zero.
pub fn format_timestamp(seconds: &Double) -> (r: String)
    ensures
        r@ == timestamp(seconds@),
{
    let zero = Double { bits: 0 };
    let total_cs: u64 = seconds.max(&zero).times(100).round_within(u64::MAX);
    let hrs: u64 = total_cs / 360_000;
    let mins: u64 = (total_cs % 360_000) / 6_000;
    let secs: u64 = (total_cs % 6_000) / 100;
    let mut r = String::new();
    text::push_two_digits(&mut r, hrs);
    r.append(":");
    text::push_two_digits(&mut r, mins);
    r.append(":");
    text::push_two_digits(&mut r, secs);
    r.append(".");
    text::push_two_digits(&mut r, total_cs % 100);
    assert(r@ =~= timestamp(seconds@));
    r
}

/// The start times of segments.
pub open spec fn start_times(transcripts: Seq<MeetingTranscript>) -> Seq<Option<Double>> {
    Seq::new(transcripts.len(), |i: int| transcripts[i].audio_start_time)
}

/// Exported segments come in the order of their start times: each of them once, none before one
/// that starts earlier, those without a start time first, and those that start together in their
/// given order.
pub proof fn segments_come_in_order(transcripts: Seq<MeetingTranscript>)
    requires
        forall|i: int|
            0 <= i < transcripts.len() ==> ((#[trigger] transcripts[i]).audio_start_time matches Some(
                start,
            ) ==> start@ != Real::NotANumber),
    ensures
        order::lists_each_once(
            order::stable_order(start_times(transcripts), transcripts.len()),
            transcripts.len(),
        ),
        order::rises_stably(
            order::stable_order(start_times(transcripts), transcripts.len()),
            start_times(transcripts),
        ),
{
    let starts = start_times(transcripts);
    assert forall|i: int| 0 <= i < starts.len() implies (#[trigger] starts[i]).is_key() by {
        assert(starts[i] == transcripts[i].audio_start_time);
    }
    order::stable_order_lists_each_once(starts, transcripts.len());
    order::stable_order_is_a_stable_sort(starts, transcripts.len());
}

/// The order of segments by start time.
fn sort_by_start(transcripts: &[MeetingTranscript]) -> (r: Vec<usize>)
    ensures
        order::indices(r@) == order::stable_order(start_times(transcripts@), transcripts@.len()),
        r@.len() == transcripts@.len(),
        forall|k: int| 0 <= k < r@.len() ==> #[trigger] r@[k] < transcripts@.len(),
        order::lists_each_once(order::indices(r@), transcripts@.len()),
{
    let mut starts: Vec<Option<Double>> = Vec::new();
    let mut i: usize = 0;
    while i < transcripts.len()
        invariant
            i <= transcripts@.len(),
            starts@ == start_times(transcripts@).take(i as int),
        decreases transcripts@.len() - i,
    {
        starts.push(transcripts[i].audio_start_time);
        i += 1;
    }
    assert(starts@ =~= start_times(transcripts@));
    order::sort_indices(&starts)
}

/// The speaker label that a segment shows: its label without surrounding whitespace, if any is left.
pub open spec fn display_label(t: MeetingTranscript) -> Option<Seq<char>> {
    match t.speaker_label {
        Some(label) => if text::trimmed(label@).len() > 0 {
            Some(text::trimmed(label@))
        } else {
            None
        },
        None => None,
    }
}

/// The human-facing speaker label of a segment, if one was assigned and is not blank.
pub fn speaker_display_label(t: &MeetingTranscript) -> (r: Option<&str>)
    ensures
        r is Some <==> display_label(*t) is Some,
        r matches Some(label) ==> Some(label@) == display_label(*t),
{
    match &t.speaker_label {
        Some(label) => {
            let label: &str = text::trim(label.as_str());
            if label.is_empty() {
                None
            } else {
                Some(label)
            }
        },
        None => None,
    }
}

/// A segment's text on one line.
pub open spec fn one_line(s: Seq<char>) -> Seq<char> {
    text::replaced(text::replaced(s, '\n', " "@), '\r', ""@)
}

/// A segment's line of plain text.
pub open spec fn txt_line(t: MeetingTranscript) -> Seq<char> {
    let body = match display_label(t) {
        Some(label) => label + ": "@ + one_line(t.text@),
        None => one_line(t.text@),
    };
    match t.audio_start_time {
        Some(start) => "["@ + timestamp(start@) + "] "@ + body + "\n"@,
        None => body + "\n"@,
    }
}

/// The lines of the first `n` segments of `order`.
pub open spec fn txt_lines(transcripts: Seq<MeetingTranscript>, order: Seq<int>, n: nat) -> Seq<char>
    decreases n,
{
    if n == 0 {
        Seq::empty()
    } else {
        txt_lines(transcripts, order, (n - 1) as nat) + txt_line(transcripts[order[n - 1]])
    }
}

/// A transcript as plain text: one line for each segment, in the order of start times.
pub open spec fn txt(transcripts: Seq<MeetingTranscript>) -> Seq<char> {
    txt_lines(
        transcripts,
        order::stable_order(start_times(transcripts), transcripts.len()),
        transcripts.len(),
    )
}

/// The plain text of two transcripts one after the other, where no segment of the second starts
/// before one of the first, is the two texts joined; without segments the text is empty.
pub proof fn joined_transcripts_have_joined_texts(
    a: Seq<MeetingTranscript>,
    b: Seq<MeetingTranscript>,
)
    requires
        forall|i: int, j: int|
            0 <= i < a.len() && 0 <= j < b.len() ==> !(#[trigger] b[j]).audio_start_time.precedes(
                (#[trigger] a[i]).audio_start_time,
            ),
    ensures
        txt(a + b) == txt(a) + txt(b),
        txt(Seq::empty()) == Seq::<char>::empty(),
{
    let x = start_times(a);
    let y = start_times(b);
    assert(start_times(a + b) =~= x + y);
    assert forall|i: int, j: int| 0 <= i < x.len() && 0 <= j < y.len() implies !(
    #[trigger] y[j]).precedes(#[trigger] x[i]) by {
        assert(!b[j].audio_start_time.precedes(a[i].audio_start_time));
    }
    order::stable_order_of_joined(x, y, b.len());
    order::stable_order_lists_each_once(x, a.len());
    order::stable_order_lists_each_once(y, b.len());
    let first = order::stable_order(x, a.len());
    let second = order::stable_order(y, b.len());
    assert forall|k: int| 0 <= k < first.len() implies 0 <= #[trigger] first[k] < a.len() by {
        assert(first.contains(first[k]));
    }
    assert forall|k: int| 0 <= k < second.len() implies 0 <= #[trigger] second[k] < b.len() by {
        assert(second.contains(second[k]));
    }
    lemma_joined_lines(a, b, first, second, b.len());
}

proof fn lemma_front_lines(
    a: Seq<MeetingTranscript>,
    b: Seq<MeetingTranscript>,
    first: Seq<int>,
    rest: Seq<int>,
    n: nat,
)
    requires
        n <= first.len(),
        forall|k: int| 0 <= k < first.len() ==> 0 <= #[trigger] first[k] < a.len(),
    ensures
        txt_lines(a + b, first + rest, n) == txt_lines(a, first, n),
    decreases n,
{
    if n > 0 {
        lemma_front_lines(a, b, first, rest, (n - 1) as nat);
        assert((a + b)[(first + rest)[n - 1]] == a[first[n - 1]]);
    }
}

proof fn lemma_joined_lines(
    a: Seq<MeetingTranscript>,
    b: Seq<MeetingTranscript>,
    first: Seq<int>,
    second: Seq<int>,
    m: nat,
)
    requires
        m <= second.len(),
        forall|k: int| 0 <= k < first.len() ==> 0 <= #[trigger] first[k] < a.len(),
        forall|k: int| 0 <= k < second.len() ==> 0 <= #[trigger] second[k] < b.len(),
    ensures
        txt_lines(a + b, first + order::moved(second, a.len() as int), first.len() + m) == txt_lines(
            a,
            first,
            first.len(),
        ) + txt_lines(b, second, m),
    decreases m,
{
    let all = first + order::moved(second, a.len() as int);
    if m == 0 {
        lemma_front_lines(a, b, first, order::moved(second, a.len() as int), first.len());
        assert(txt_lines(a, first, first.len()) + txt_lines(b, second, 0) =~= txt_lines(
            a,
            first,
            first.len(),
        ));
    } else {
        lemma_joined_lines(a, b, first, second, (m - 1) as nat);
        assert((a + b)[all[first.len() + m - 1]] == b[second[m - 1]]);
        assert((first.len() + m - 1) as nat == first.len() + (m - 1) as nat);
        assert(txt_lines(a, first, first.len()) + txt_lines(b, second, (m - 1) as nat) + txt_line(
            b[second[m - 1]],
        ) =~= txt_lines(a, first, first.len()) + (txt_lines(b, second, (m - 1) as nat) + txt_line(
            b[second[m - 1]],
        )));
    }
}

/// Appends a segment's line of plain text.
fn push_txt_line(output: &mut String, t: &MeetingTranscript)
    ensures
        final(output)@ == old(output)@ + txt_line(*t),
{
    if let Some(start) = &t.audio_start_time {
        output.append("[");
        output.append(format_timestamp(start).as_str());
        output.append("] ");
    }
    if let Some(label) = speaker_display_label(t) {
        output.append(label);
        output.append(": ");
    }
    let line = text::replace(t.text.as_str(), '\n', " ");
    output.append(text::replace(line.as_str(), '\r', "").as_str());
    output.append("\n");
    assert(output@ =~= old(output)@ + txt_line(*t));
}

/// A transcript as plain text: one line for each segment, in the order of start times.
pub fn format_txt(transcripts: &[MeetingTranscript]) -> (r: String)
    ensures
        r@ == txt(transcripts@),
{
    let by_start: Vec<usize> = sort_by_start(transcripts);
    let mut output = String::new();
    let mut i: usize = 0;
    let ghost o = order::stable_order(start_times(transcripts@), transcripts@.len());
    while i < by_start.len()
        invariant
            i <= by_start@.len(),
            by_start@.len() == transcripts@.len(),
            order::indices(by_start@) == o,
            forall|k: int| 0 <= k < by_start@.len() ==> #[trigger] by_start@[k] < transcripts@.len(),
            output@ == txt_lines(transcripts@, o, i as nat),
        decreases by_start@.len() - i,
    {
        assert(o[i as int] == by_start@[i as int]);
        push_txt_line(&mut output, &transcripts[by_start[i]]);
        i += 1;
    }
    output
}

/// Text with the characters that have a meaning in WebVTT markup escaped.
pub open spec fn escaped(s: Seq<char>) -> Seq<char> {
    text::replaced(
        text::replaced(text::replaced(s, '&', "&amp;"@), '<', "&lt;"@),
        '>',
        "&gt;"@,
    )
}

/// Text with the characters that have a meaning in WebVTT markup escaped.
fn escape(s: &str) -> (r: String)
    ensures
        r@ == escaped(s@),
{
    let s = text::replace(s, '&', "&amp;");
    let s = text::replace(s.as_str(), '<', "&lt;");
    text::replace(s.as_str(), '>', "&gt;")
}

/// When a segment ends: its end time, else its start plus its duration, else five seconds on.
pub open spec fn cue_end(t: MeetingTranscript, start: Real) -> Real {
    match (t.audio_end_time, t.duration) {
        (Some(end), _) => end@,
        (None, Some(duration)) => double::sum(start, duration@),
        (None, None) => double::sum(start, double::whole(5)),
    }
}

/// The text of a segment's caption: one escaped line behind the tag of its speaker.
pub open spec fn cue_text(t: MeetingTranscript) -> Seq<char> {
    let line = text::replaced(text::replaced(escaped(t.text@), '\r', ""@), '\n', " "@);
    match display_label(t) {
        Some(label) => "<v "@ + escaped(label) + ">"@ + line,
        None => line,
    }
}

/// A segment's caption, for one that has a start time.
pub open spec fn cue(t: MeetingTranscript) -> Seq<char> {
    match t.audio_start_time {
        Some(start) => {
            timestamp(start@) + " --> "@ + timestamp(cue_end(t, start@)) + "\n"@ + cue_text(
                t,
            ) + "\n\n"@
        },
        None => Seq::empty(),
    }
}

/// The captions of the first `n` segments of `order`.
pub open spec fn cues(transcripts: Seq<MeetingTranscript>, order: Seq<int>, n: nat) -> Seq<char>
    decreases n,
{
    if n == 0 {
        Seq::empty()
    } else {
        cues(transcripts, order, (n - 1) as nat) + cue(transcripts[order[n - 1]])
    }
}

/// A transcript as WebVTT: a header and one caption for each segment that has a start time.
pub open spec fn vtt(transcripts: Seq<MeetingTranscript>) -> Seq<char> {
    "WEBVTT\n\n"@ + cues(
        transcripts,
        order::stable_order(start_times(transcripts), transcripts.len()),
        transcripts.len(),
    )
}

/// The number of segments without a start time.
pub open spec fn untimed(transcripts: Seq<MeetingTranscript>) -> nat
    decreases transcripts.len(),
{
    if transcripts.len() == 0 {
        0
    } else {
        untimed(transcripts.drop_last()) + if transcripts.last().audio_start_time is None {
            1nat
        } else {
            0nat
        }
    }
}

/// The text of a segment's caption.
fn caption_text(t: &MeetingTranscript) -> (r: String)
    ensures
        r@ == cue_text(*t),
{
    let line = escape(t.text.as_str());
    let line = text::replace(line.as_str(), '\r', "");
    let line = text::replace(line.as_str(), '\n', " ");
    match speaker_display_label(t) {
        Some(label) => {
            let mut r = "<v ".to_owned();
            r.append(escape(label).as_str());
            r.append(">");
            r.append(line.as_str());
            r
        },
        None => line,
    }
}

/// Appends a segment's caption.
fn push_cue(output: &mut String, t: &MeetingTranscript, start: &Double)
    requires
        t.audio_start_time == Some(*start),
    ensures
        final(output)@ == old(output)@ + cue(*t),
{
    let end: Double = match (&t.audio_end_time, &t.duration) {
        (Some(end), _) => *end,
        (None, Some(duration)) => start.plus(duration),
        (None, None) => start.plus(&Double::from_whole(5)),
    };
    output.append(format_timestamp(start).as_str());
    output.append(" --> ");
    output.append(format_timestamp(&end).as_str());
    output.append("\n");
    output.append(caption_text(t).as_str());
    output.append("\n\n");
    assert(output@ =~= old(output)@ + cue(*t));
}

/// A transcript as WebVTT captions, with the number of segments left out for want of a start time.
pub fn format_vtt(transcripts: &[MeetingTranscript]) -> (r: (String, usize))
    ensures
        r.0@ == vtt(transcripts@),
        r.1 == untimed(transcripts@),
{
    let by_start: Vec<usize> = sort_by_start(transcripts);
    let mut output = "WEBVTT\n\n".to_owned();
    let mut skipped: usize = 0;
    let mut i: usize = 0;
    let ghost o = order::stable_order(start_times(transcripts@), transcripts@.len());
    proof {
        assert(output@ =~= "WEBVTT\n\n"@ + cues(transcripts@, o, 0));
    }
    while i < by_start.len()
        invariant
            i <= by_start@.len(),
            by_start@.len() == transcripts@.len(),
            order::indices(by_start@) == o,
            forall|k: int| 0 <= k < by_start@.len() ==> #[trigger] by_start@[k] < transcripts@.len(),
            output@ == "WEBVTT\n\n"@ + cues(transcripts@, o, i as nat),
            skipped <= i,
            skipped == untimed(arranged(transcripts@, o, i as nat)),
        decreases by_start@.len() - i,
    {
        assert(o[i as int] == by_start@[i as int]);
        let t: &MeetingTranscript = &transcripts[by_start[i]];
        proof {
            let now = arranged(transcripts@, o, i as nat);
            let next = arranged(transcripts@, o, (i + 1) as nat);
            assert(next.drop_last() =~= now);
        }
        let ghost before = output@;
        match &t.audio_start_time {
            Some(start) => {
                push_cue(&mut output, t, start);
            },
            None => {
                skipped += 1;
            },
        }
        assert(output@ =~= "WEBVTT\n\n"@ + cues(transcripts@, o, (i + 1) as nat));
        i += 1;
    }
    proof {
        lemma_untimed_of_arranged(transcripts@, o);
    }
    (output, skipped)
}

/// The segments of the first `n` indices of `order`.
spec fn arranged(transcripts: Seq<MeetingTranscript>, order: Seq<int>, n: nat) -> Seq<
    MeetingTranscript,
> {
    Seq::new(n, |k: int| transcripts[order[k]])
}

/// Taking out one segment takes it out of the count.
proof fn lemma_untimed_remove(s: Seq<MeetingTranscript>, i: int)
    requires
        0 <= i < s.len(),
    ensures
        untimed(s) == untimed(s.remove(i)) + if s[i].audio_start_time is None {
            1nat
        } else {
            0nat
        },
    decreases s.len(),
{
    let last = s.len() - 1;
    if i == last {
        assert(s.remove(i) =~= s.drop_last());
    } else {
        lemma_untimed_remove(s.drop_last(), i);
        assert(s.remove(i).drop_last() =~= s.drop_last().remove(i));
        assert(s.remove(i).last() == s.last());
    }
}

/// Rearranging segments does not change how many have no start time.
proof fn lemma_untimed_of_arranged(transcripts: Seq<MeetingTranscript>, order: Seq<int>)
    requires
        order::lists_each_once(order, transcripts.len()),
    ensures
        untimed(arranged(transcripts, order, transcripts.len())) == untimed(transcripts),
    decreases transcripts.len(),
{
    let n = transcripts.len();
    let there = arranged(transcripts, order, n);
    if n == 0 {
        assert(there =~= transcripts);
    } else {
        assert(order.contains(n - 1));
        let w = order.index_of(n - 1);
        let head = transcripts.drop_last();
        let rest = order.remove(w);
        assert forall|k: int| 0 <= k < n - 1 implies #[trigger] rest.contains(k) by {
            assert(order.contains(k));
            let v = order.index_of(k);
            if v < w {
                assert(rest[v] == k);
            } else {
                assert(rest[v - 1] == k);
            }
        }
        assert forall|k: int| #[trigger] rest.contains(k) implies 0 <= k < n - 1 by {
            let v = rest.index_of(k);
            if v < w {
                assert(order[v] == k);
            } else {
                assert(order[v + 1] == k);
            }
            assert(order.contains(k));
            assert(order[w] == n - 1);
        }
        lemma_untimed_of_arranged(head, rest);
        lemma_untimed_remove(there, w);
        assert(there.remove(w) =~= arranged(head, rest, (n - 1) as nat)) by {
            assert forall|k: int| 0 <= k < n - 1 implies #[trigger] there.remove(w)[k] == arranged(
                head,
                rest,
                (n - 1) as nat,
            )[k] by {
                assert(rest.contains(rest[k]));
            }
        }
    }
}

/// Escaping leaves no angle bracket, so text cannot open or close a tag.
pub proof fn escaped_text_has_no_tags(s: Seq<char>)
    ensures
        !escaped(s).contains('<'),
        !escaped(s).contains('>'),
{
    reveal_strlit("&amp;");
    reveal_strlit("&lt;");
    reveal_strlit("&gt;");
    let a = text::replaced(s, '&', "&amp;"@);
    let b = text::replaced(a, '<', "&lt;"@);
    text::replaced_holds_no(a, '<', "&lt;"@, '<');
    text::replaced_holds_no(b, '>', "&gt;"@, '<');
    text::replaced_holds_no(b, '>', "&gt;"@, '>');
}

/// The text of a caption or of a line of plain text holds no line break: whatever the segment's
/// text, a caption is never cut short by a blank line, and a segment is one line.
pub proof fn segment_text_has_no_line_breaks(s: Seq<char>)
    ensures
        !one_line(s).contains('\n'),
        !one_line(s).contains('\r'),
        !text::replaced(text::replaced(escaped(s), '\r', ""@), '\n', " "@).contains('\n'),
        !text::replaced(text::replaced(escaped(s), '\r', ""@), '\n', " "@).contains('\r'),
{
    reveal_strlit("");
    reveal_strlit(" ");
    let a = text::replaced(s, '\n', " "@);
    text::replaced_holds_no(s, '\n', " "@, '\n');
    text::replaced_holds_no(a, '\r', ""@, '\n');
    text::replaced_holds_no(a, '\r', ""@, '\r');
    let e = escaped(s);
    let b = text::replaced(e, '\r', ""@);
    text::replaced_holds_no(e, '\r', ""@, '\r');
    text::replaced_holds_no(b, '\n', " "@, '\r');
    text::replaced_holds_no(b, '\n', " "@, '\n');
}

/// What becomes of a title's character in a file name: line and tab characters become spaces,
/// other control characters and those that file systems reserve go, the rest stays.
pub open spec fn file_char(c: char) -> Option<char> {
    if '\u{0009}' <= c <= '\u{000d}' {
        Some(' ')
    } else if c <= '\u{001f}' || c == '/' || c == '\\' || c == ':' || c == '*' || c == '?' || c == '"'
        || c == '<' || c == '>' || c == '|' {
        None
    } else {
        Some(c)
    }
}

/// A title with each character made fit for a file name.
pub open spec fn file_chars(s: Seq<char>) -> Seq<char>
    decreases s.len(),
{
    if s.len() == 0 {
        Seq::empty()
    } else {
        match file_char(s.last()) {
            Some(c) => file_chars(s.drop_last()).push(c),
            None => file_chars(s.drop_last()),
        }
    }
}

/// A title as the stem of a file name, before it is cut to length.
pub open spec fn whole_stem(title: Seq<char>) -> Seq<char> {
    text::stripped_of(text::trimmed(text::words(file_chars(title))), '.')
}

/// The length of a stem in bytes.
pub const STEM_BYTES: usize = 80;

/// Whether the stem is short enough or can be cut between two characters.
pub open spec fn stem_can_be_cut(title: Seq<char>) -> bool {
    text::byte_len(whole_stem(title)) > STEM_BYTES ==> text::has_boundary(
        whole_stem(title),
        STEM_BYTES as nat,
    )
}

/// A title as the stem of a file name: never empty, and of at most eighty bytes.
pub open spec fn filename_stem(title: Seq<char>) -> Seq<char> {
    let stem = whole_stem(title);
    if stem.len() == 0 {
        "meeting"@
    } else {
        text::within_bytes(stem, STEM_BYTES as nat)
    }
}

/// A title with each character made fit for a file name.
fn to_file_chars(title: &str) -> (r: String)
    ensures
        r@ == file_chars(title@),
{
    let v: Vec<char> = text::chars_of(title);
    let mut r = String::new();
    let mut i: usize = 0;
    while i < v.len()
        invariant
            v@ == title@,
            i <= v@.len(),
            r@ == file_chars(title@.take(i as int)),
        decreases v@.len() - i,
    {
        let c: char = v[i];
        assert(title@.take(i + 1).drop_last() =~= title@.take(i as int));
        if '\u{0009}' <= c && c <= '\u{000d}' {
            r.push(' ');
        } else if c <= '\u{001f}' || c == '/' || c == '\\' || c == ':' || c == '*' || c == '?' || c
            == '"' || c == '<' || c == '>' || c == '|' {
        } else {
            r.push(c);
        }
        i += 1;
    }
    assert(title@.take(i as int) =~= title@);
    r
}

/// A title as the stem of a file name.
pub fn sanitize_filename_stem(title: &str) -> (r: String)
    requires
        stem_can_be_cut(title@),
    ensures
        r@ == filename_stem(title@),
{
    let sanitized = to_file_chars(title);
    let collapsed = text::join_words(sanitized.as_str());
    let stem: &str = text::trim_matches(text::trim(collapsed.as_str()), '.');
    if stem.is_empty() {
        return "meeting".to_owned();
    }
    text::cut_to_bytes(stem, STEM_BYTES).to_owned()
}

/// Characters made fit for a file name are fit for one.
proof fn lemma_file_chars_are_fit(s: Seq<char>, c: char)
    requires
        file_chars(s).contains(c),
    ensures
        file_char(c) == Some(c),
    decreases s.len(),
{
    if s.len() > 0 {
        let head = file_chars(s.drop_last());
        let w = file_chars(s).index_of(c);
        if w < head.len() {
            assert(head[w] == c);
            lemma_file_chars_are_fit(s.drop_last(), c);
        }
    }
}

/// The stem of a file name is never empty, has at most eighty bytes, and holds no control
/// character and none of the characters that file systems reserve.
pub proof fn filename_stem_is_safe(title: Seq<char>)
    requires
        stem_can_be_cut(title),
    ensures
        filename_stem(title).len() > 0,
        text::byte_len(filename_stem(title)) <= STEM_BYTES,
        forall|c: char| #[trigger] filename_stem(title).contains(c) ==> file_char(c) == Some(c),
{
    let stem = whole_stem(title);
    let r = filename_stem(title);
    if stem.len() == 0 {
        reveal_strlit("meeting");
        assert(text::byte_len(r) == 7) by {
            reveal_with_fuel(text::byte_len, 8);
        }
    } else {
        if text::byte_len(stem) > STEM_BYTES {
            text::cut_at_boundary_is_exact(stem, STEM_BYTES as nat);
            assert(r.len() > 0) by {
                if r.len() == 0 {
                    assert(text::byte_len(r) == 0);
                }
            }
        }
        assert forall|c: char| #[trigger] r.contains(c) implies file_char(c) == Some(c) by {
            let w = r.index_of(c);
            assert(stem[w] == c);
            assert(stem.contains(c));
            let joined = text::words(file_chars(title));
            text::stripped_holds_only(text::trimmed(joined), '.', c);
            text::trimmed_holds_only(joined, c);
            if c != ' ' {
                text::words_hold_only(file_chars(title), c);
                lemma_file_chars_are_fit(title, c);
            }
        }
    }
}

/// What the save dialog is asked with.
pub struct ExportPlan {
    pub extension: String,
    pub default_name: String,
}

/// What an export writes, and what it answers once that is written.
pub struct ExportFile {
    pub path: String,
    pub content: String,
    pub result: ExportResult,
}

/// The extension of an exported file: captions for the format `vtt`, plain text for any other.
pub open spec fn extension(format: Seq<char>) -> Seq<char> {
    if format == "vtt"@ {
        "vtt"@
    } else {
        "txt"@
    }
}

/// The length in bytes of the date at the beginning of a creation time.
pub const DATE_BYTES: usize = 10;

/// The name that the save dialog proposes.
pub open spec fn default_name(title: Seq<char>, created_at: Seq<char>, format: Seq<char>) -> Seq<
    char,
> {
    filename_stem(title) + " - "@ + text::within_bytes(created_at, DATE_BYTES as nat) + "."@
        + extension(format)
}

/// Whether a meeting has a date to name its export by, and a title that can be cut to a stem.
pub open spec fn nameable(meeting: MeetingDetails) -> bool {
    text::has_boundary(meeting.created_at@, DATE_BYTES as nat) && stem_can_be_cut(meeting.title@)
}

/// Whether the title can be cut to a stem.
pub fn can_cut_stem(title: &str) -> (r: bool)
    ensures
        r == stem_can_be_cut(title@),
{
    let sanitized = to_file_chars(title);
    let collapsed = text::join_words(sanitized.as_str());
    let stem: &str = text::trim_matches(text::trim(collapsed.as_str()), '.');
    text::is_boundary(stem, STEM_BYTES) || text::fits_bytes(stem, STEM_BYTES)
}

/// Whether the meeting has a date to name its export by, and a title that can be cut to a stem.
pub fn can_name(meeting: &MeetingDetails) -> (r: bool)
    ensures
        r == nameable(*meeting),
{
    text::is_boundary(meeting.created_at.as_str(), DATE_BYTES) && can_cut_stem(
        meeting.title.as_str(),
    )
}

/// What to ask the save dialog with for the meeting that was looked up.
pub fn plan_export(meeting: Option<&MeetingDetails>, format: &str) -> (r: Result<ExportPlan, String>)
    requires
        meeting matches Some(m) ==> m.transcripts@.len() > 0 ==> nameable(*m),
    ensures
        match meeting {
            None => r matches Err(e) && e@ == "Meeting not found"@,
            Some(m) => if m.transcripts@.len() == 0 {
                r matches Err(e) && e@ == "No transcripts to export"@
            } else {
                r matches Ok(plan) && plan.extension@ == extension(format@) && plan.default_name@
                    == default_name(m.title@, m.created_at@, format@)
            },
        },
{
    let meeting: &MeetingDetails = match meeting {
        Some(m) => m,
        None => {
            return Err("Meeting not found".to_owned());
        },
    };
    if meeting.transcripts.len() == 0 {
        return Err("No transcripts to export".to_owned());
    }
    let date: &str = text::cut_to_bytes(meeting.created_at.as_str(), DATE_BYTES);
    let ext: &str = if text::same_text(format, "vtt") {
        "vtt"
    } else {
        "txt"
    };
    let mut default_name = sanitize_filename_stem(meeting.title.as_str());
    default_name.append(" - ");
    default_name.append(date);
    default_name.append(".");
    default_name.append(ext);
    Ok(ExportPlan { extension: ext.to_owned(), default_name })
}

/// The content of an exported file.
pub open spec fn export_content(transcripts: Seq<MeetingTranscript>, format: Seq<char>) -> Seq<
    char,
> {
    if format == "vtt"@ {
        vtt(transcripts)
    } else {
        txt(transcripts)
    }
}

/// The number of segments that an export leaves out; plain text leaves out none.
pub open spec fn export_skipped(transcripts: Seq<MeetingTranscript>, format: Seq<char>) -> nat {
    if format == "vtt"@ {
        untimed(transcripts)
    } else {
        0
    }
}

/// What to write to the path that the save dialog gave, if it was not cancelled.
pub fn render_export(path: Option<String>, transcripts: &[MeetingTranscript], format: &str) -> (r:
    Result<ExportFile, String>)
    ensures
        match path {
            None => r matches Err(e) && e@ == "Save cancelled"@,
            Some(p) => r matches Ok(file) && {
                let skipped = export_skipped(transcripts@, format@);
                &&& file.path@ == p@
                &&& file.content@ == export_content(transcripts@, format@)
                &&& file.result.saved
                &&& models::text_view(file.result.path) == Some(p@)
                &&& file.result.segment_count == transcripts@.len()
                &&& file.result.skipped_count is Some <==> skipped > 0
                &&& file.result.skipped_count matches Some(n) ==> n == skipped
            },
        },
{
    let path: String = match path {
        Some(p) => p,
        None => {
            return Err("Save cancelled".to_owned());
        },
    };
    let (content, skipped): (String, usize) = if text::same_text(format, "vtt") {
        format_vtt(transcripts)
    } else {
        (format_txt(transcripts), 0)
    };
    let skipped_count: Option<usize> = if skipped > 0 {
        Some(skipped)
    } else {
        None
    };
    let result = ExportResult {
        saved: true,
        path: Some(path.clone()),
        segment_count: transcripts.len(),
        skipped_count,
    };
    Ok(ExportFile { path, content, result })
}

/// A caption ends at the end time of its segment whatever its duration; where there is none, its
/// duration after its start; and where there is neither, five seconds after its start.
pub proof fn captions_end_with_their_segment(t: MeetingTranscript, start: Real)
    ensures
        t.audio_end_time matches Some(end) ==> cue_end(t, start) == end@,
        t.audio_end_time is None ==> (t.duration matches Some(duration) ==> cue_end(t, start)
            == double::sum(start, duration@)),
        t.audio_end_time is None && t.duration is None ==> cue_end(t, start) == double::sum(
            start,
            double::whole(5),
        ),
{
}

/// A time of so many hours, minutes, seconds and hundredths, rounded to the nearest hundredth, is
/// shown with those numbers, each in two digits at least.
#[verifier::spinoff_prover]
pub proof fn times_show_their_hours_minutes_and_seconds(
    time: Real,
    hours: nat,
    minutes: nat,
    seconds: nat,
    hundredths: nat,
)
    requires
        minutes < 60,
        seconds < 60,
        hundredths < 100,
        centiseconds(time) == ((hours * 60 + minutes) * 60 + seconds) * 100 + hundredths,
    ensures
        timestamp(time) == text::two_digits(hours) + ":"@ + text::two_digits(minutes) + ":"@
            + text::two_digits(seconds) + "."@ + text::two_digits(hundredths),
{
    lemma_clock_fields(centiseconds(time), hours, minutes, seconds, hundredths);
}

#[verifier::spinoff_prover]
proof fn lemma_clock_fields(cs: nat, hours: nat, minutes: nat, seconds: nat, hundredths: nat)
    requires
        minutes < 60,
        seconds < 60,
        hundredths < 100,
        cs == ((hours * 60 + minutes) * 60 + seconds) * 100 + hundredths,
    ensures
        cs / 360_000 == hours,
        (cs % 360_000) / 6_000 == minutes,
        (cs % 6_000) / 100 == seconds,
        cs % 100 == hundredths,
{
    let within_minute = seconds * 100 + hundredths;
    let within_hour = minutes * 6_000 + within_minute;
    let c = cs as int;
    vstd::arithmetic::div_mod::lemma_fundamental_div_mod_converse(
        c,
        360_000,
        hours as int,
        within_hour as int,
    );
    vstd::arithmetic::div_mod::lemma_fundamental_div_mod_converse(
        within_hour as int,
        6_000,
        minutes as int,
        within_minute as int,
    );
    vstd::arithmetic::div_mod::lemma_fundamental_div_mod_converse(
        c,
        6_000,
        hours * 60 + minutes as int,
        within_minute as int,
    );
    vstd::arithmetic::div_mod::lemma_fundamental_div_mod_converse(
        within_minute as int,
        100,
        seconds as int,
        hundredths as int,
    );
    vstd::arithmetic::div_mod::lemma_fundamental_div_mod_converse(
        c,
        100,
        (hours * 60 + minutes) * 60 + seconds as int,
        hundredths as int,
    );
}

/// A time after zero counts as a hundred times its seconds, rounded; any other counts as zero.
#[verifier::spinoff_prover]
pub proof fn times_before_zero_count_as_zero(time: Real)
    ensures
        double::less(double::zero(), time) ==> centiseconds(time) == double::rounded_whole(
            double::multiple(time, 100),
            u64::MAX as nat,
        ),
        !double::less(double::zero(), time) ==> centiseconds(time) == 0,
{
    if !double::less(double::zero(), time) {
        let shown = double::larger(time, Real::Finite { units: 0 });
        assert(shown == double::zero());
        double::multiples_of_zero(100);
    }
}

/// A segment shows the label that it was given without the whitespace around it, and none where
/// it was given none or a blank one.
pub proof fn labels_show_without_surrounding_whitespace(t: MeetingTranscript)
    ensures
        t.speaker_label is None ==> display_label(t) is None,
        t.speaker_label matches Some(label) ==> (text::is_blank(label@) ==> display_label(t)
            is None),
        t.speaker_label matches Some(label) ==> (!text::is_blank(label@) ==> display_label(t)
            == Some(text::trimmed(label@))),
{
    if let Some(label) = t.speaker_label {
        text::trimmed_is_empty_iff_blank(label@);
    }
}

/// What stands in a line of plain text for a character: a space for a line feed, nothing for a
/// carriage return, and itself for any other.
pub open spec fn line_char(c: char) -> Seq<char> {
    if c == '\n' {
        seq![' ']
    } else if c == '\r' {
        Seq::empty()
    } else {
        seq![c]
    }
}

/// What stands in a caption for a character: the entities of the three markup characters, a space
/// for a line feed, nothing for a carriage return, and itself for any other.
pub open spec fn caption_char(c: char) -> Seq<char> {
    if c == '&' {
        seq!['&', 'a', 'm', 'p', ';']
    } else if c == '<' {
        seq!['&', 'l', 't', ';']
    } else if c == '>' {
        seq!['&', 'g', 't', ';']
    } else {
        line_char(c)
    }
}

/// Lines of plain text stand for the segment's text character by character.
#[verifier::spinoff_prover]
pub proof fn lines_go_by_character(a: Seq<char>, c: char)
    ensures
        one_line(Seq::empty()) == Seq::<char>::empty(),
        one_line(a.push(c)) == one_line(a) + line_char(c),
{
    reveal_strlit(" ");
    reveal_strlit("");
    let m = text::replaced(a, '\n', " "@);
    let e = Seq::<char>::empty();
    text::replacing_goes_by_character(e, e, c, '\n', " "@);
    text::replacing_goes_by_character(e, e, c, '\r', ""@);
    text::replacing_goes_by_character(a, seq![c], c, '\n', " "@);
    assert(a + seq![c] =~= a.push(c));
    let n = text::replaced(seq![c], '\n', " "@);
    text::replacing_goes_by_character(m, n, ' ', '\r', ""@);
    text::replacing_goes_by_character(m, n, c, '\r', ""@);
    assert(" "@ =~= seq![' ']);
    assert(""@ =~= e);
    assert(text::replaced(n, '\r', ""@) =~= line_char(c));
}

/// Captions stand for the segment's text character by character.
#[verifier::spinoff_prover]
pub proof fn captions_go_by_character(a: Seq<char>, c: char)
    ensures
        caption_line(Seq::empty()) == Seq::<char>::empty(),
        caption_line(a.push(c)) == caption_line(a) + caption_char(c),
{
    assert(a + seq![c] =~= a.push(c));
    lemma_caption_joined(a, seq![c]);
    lemma_line_of_escaped(c);
}

/// Escaping nothing gives nothing.
#[verifier::spinoff_prover]
proof fn lemma_escaped_empty()
    ensures
        escaped(Seq::empty()) == Seq::<char>::empty(),
{
    let e = Seq::<char>::empty();
    text::replacing_goes_by_character(e, e, ' ', '&', "&amp;"@);
    text::replacing_goes_by_character(e, e, ' ', '<', "&lt;"@);
    text::replacing_goes_by_character(e, e, ' ', '>', "&gt;"@);
}

/// An entity holds no character that is replaced after it.
#[verifier::spinoff_prover]
proof fn lemma_entities()
    ensures
        "&amp;"@ == seq!['&', 'a', 'm', 'p', ';'],
        "&lt;"@ == seq!['&', 'l', 't', ';'],
        "&gt;"@ == seq!['&', 'g', 't', ';'],
        !"&amp;"@.contains('<') && !"&amp;"@.contains('>'),
        !"&lt;"@.contains('>'),
        !"&amp;"@.contains('\r') && !"&amp;"@.contains('\n'),
        !"&lt;"@.contains('\r') && !"&lt;"@.contains('\n'),
        !"&gt;"@.contains('\r') && !"&gt;"@.contains('\n'),
{
    reveal_strlit("&amp;");
    reveal_strlit("&lt;");
    reveal_strlit("&gt;");
    assert("&amp;"@ =~= seq!['&', 'a', 'm', 'p', ';']);
    assert("&lt;"@ =~= seq!['&', 'l', 't', ';']);
    assert("&gt;"@ =~= seq!['&', 'g', 't', ';']);
}

/// What escaping makes of one character.
#[verifier::spinoff_prover]
proof fn lemma_escaped_character(c: char)
    ensures
        c == '&' ==> escaped(seq![c]) == "&amp;"@,
        c == '<' ==> escaped(seq![c]) == "&lt;"@,
        c == '>' ==> escaped(seq![c]) == "&gt;"@,
        c != '&' && c != '<' && c != '>' ==> escaped(seq![c]) == seq![c],
{
    let e = Seq::<char>::empty();
    lemma_entities();
    text::replacing_goes_by_character(e, e, c, '&', "&amp;"@);
    text::replacing_goes_by_character(e, e, c, '<', "&lt;"@);
    text::replacing_goes_by_character(e, e, c, '>', "&gt;"@);
    if c == '&' {
        text::replaced_keeps_the_rest("&amp;"@, '<', "&lt;"@);
        text::replaced_keeps_the_rest("&amp;"@, '>', "&gt;"@);
    } else if c == '<' {
        text::replaced_keeps_the_rest("&lt;"@, '>', "&gt;"@);
    }
}

/// What a caption makes of one character.
#[verifier::spinoff_prover]
proof fn lemma_line_of_escaped(c: char)
    ensures
        caption_line(seq![c]) == caption_char(c),
        caption_line(Seq::empty()) == Seq::<char>::empty(),
{
    let e = Seq::<char>::empty();
    reveal_strlit(" ");
    reveal_strlit("");
    assert(" "@ =~= seq![' ']);
    assert(""@ =~= e);
    lemma_entities();
    lemma_escaped_empty();
    lemma_escaped_character(c);
    text::replacing_goes_by_character(e, e, c, '\r', ""@);
    text::replacing_goes_by_character(e, e, c, '\n', " "@);
    if c == '&' || c == '<' || c == '>' {
        let x = escaped(seq![c]);
        text::replaced_keeps_the_rest(x, '\r', ""@);
        text::replaced_keeps_the_rest(x, '\n', " "@);
    }
}

#[verifier::spinoff_prover]
proof fn lemma_caption_joined(a: Seq<char>, b: Seq<char>)
    ensures
        caption_line(a + b) == caption_line(a) + caption_line(b),
        escaped(a + b) == escaped(a) + escaped(b),
{
    let a1 = text::replaced(a, '&', "&amp;"@);
    let b1 = text::replaced(b, '&', "&amp;"@);
    text::replacing_goes_by_character(a, b, ' ', '&', "&amp;"@);
    let a2 = text::replaced(a1, '<', "&lt;"@);
    let b2 = text::replaced(b1, '<', "&lt;"@);
    text::replacing_goes_by_character(a1, b1, ' ', '<', "&lt;"@);
    text::replacing_goes_by_character(a2, b2, ' ', '>', "&gt;"@);
    let a3 = escaped(a);
    let b3 = escaped(b);
    text::replacing_goes_by_character(a3, b3, ' ', '\r', ""@);
    text::replacing_goes_by_character(
        text::replaced(a3, '\r', ""@),
        text::replaced(b3, '\r', ""@),
        ' ',
        '\n',
        " "@,
    );
}

/// A segment's text as it stands in a caption.
pub open spec fn caption_line(s: Seq<char>) -> Seq<char> {
    text::replaced(text::replaced(escaped(s), '\r', ""@), '\n', " "@)
}

/// Escaping goes from character to character, and turns the three markup characters into their
/// entities.
#[verifier::spinoff_prover]
pub proof fn escaping_goes_by_character(a: Seq<char>, c: char)
    ensures
        escaped(Seq::empty()) == Seq::<char>::empty(),
        escaped(a.push(c)) == escaped(a) + if c == '\n' || c == '\r' {
            seq![c]
        } else {
            caption_char(c)
        },
{
    assert(a + seq![c] =~= a.push(c));
    lemma_caption_joined(a, seq![c]);
    lemma_entities();
    lemma_escaped_empty();
    lemma_escaped_character(c);
}

/// A line of plain text is the segment's start time in brackets, where it has one, its speaker,
/// where it shows one, and its text on one line.
#[verifier::spinoff_prover]
pub proof fn lines_show_time_speaker_and_text(t: MeetingTranscript)
    ensures
        txt_line(t) == (match t.audio_start_time {
            Some(start) => "["@ + timestamp(start@) + "] "@,
            None => Seq::empty(),
        }) + (match display_label(t) {
            Some(label) => label + ": "@,
            None => Seq::empty(),
        }) + one_line(t.text@) + "\n"@,
{
    assert(txt_line(t) =~= (match t.audio_start_time {
        Some(start) => "["@ + timestamp(start@) + "] "@,
        None => Seq::empty(),
    }) + (match display_label(t) {
        Some(label) => label + ": "@,
        None => Seq::empty(),
    }) + one_line(t.text@) + "\n"@);
}

/// A caption is the segment's start and end, the voice tag of its speaker, where it shows one, and
/// its escaped text on one line. It ends at the segment's end time whatever the duration is, else
/// the duration after its start, else five seconds after its start. Without a start time there is
/// no caption.
#[verifier::spinoff_prover]
pub proof fn captions_show_times_speaker_and_text(t: MeetingTranscript)
    ensures
        t.audio_start_time is None ==> cue(t) == Seq::<char>::empty(),
        t.audio_start_time matches Some(start) ==> {
            let until = if t.audio_end_time is Some {
                t.audio_end_time->0@
            } else if t.duration is Some {
                double::sum(start@, t.duration->0@)
            } else {
                double::sum(start@, double::whole(5))
            };
            cue(t) == timestamp(start@) + " --> "@ + timestamp(until) + "\n"@ + (match display_label(
                t,
            ) {
                Some(label) => "<v "@ + escaped(label) + ">"@,
                None => Seq::empty(),
            }) + caption_line(t.text@) + "\n\n"@
        },
{
    if let Some(start) = t.audio_start_time {
        let until = if t.audio_end_time is Some {
            t.audio_end_time->0@
        } else if t.duration is Some {
            double::sum(start@, t.duration->0@)
        } else {
            double::sum(start@, double::whole(5))
        };
        assert(cue(t) =~= timestamp(start@) + " --> "@ + timestamp(until) + "\n"@ + (
        match display_label(t) {
            Some(label) => "<v "@ + escaped(label) + ">"@,
            None => Seq::empty(),
        }) + caption_line(t.text@) + "\n\n"@);
    }
}

/// The parts of a text, one after the other.
pub open spec fn joined(parts: Seq<Seq<char>>) -> Seq<char>
    decreases parts.len(),
{
    if parts.len() == 0 {
        Seq::empty()
    } else {
        joined(parts.drop_last()) + parts.last()
    }
}

/// An export is the lines or captions of its segments, each once, by start time, those without one
/// first and those that start together as they were given. Captions stand behind a header.
#[verifier::spinoff_prover]
pub proof fn exports_go_by_start_time(transcripts: Seq<MeetingTranscript>)
    requires
        forall|i: int|
            0 <= i < transcripts.len() ==> ((#[trigger] transcripts[i]).audio_start_time matches Some(
                start,
            ) ==> start@ != Real::NotANumber),
    ensures
        exists|o: Seq<int>|
            #![trigger order::lists_each_once(o, transcripts.len())]
            {
                &&& order::lists_each_once(o, transcripts.len())
                &&& o.len() == transcripts.len()
                &&& order::rises_stably(
                    o,
                    Seq::new(transcripts.len(), |i: int| transcripts[i].audio_start_time),
                )
                &&& txt(transcripts) == joined(
                    Seq::new(transcripts.len(), |k: int| txt_line(transcripts[o[k]])),
                )
                &&& vtt(transcripts) == "WEBVTT\n\n"@ + joined(
                    Seq::new(transcripts.len(), |k: int| cue(transcripts[o[k]])),
                )
            },
{
    let n = transcripts.len();
    let o = order::stable_order(start_times(transcripts), n);
    segments_come_in_order(transcripts);
    assert(start_times(transcripts) =~= Seq::new(n, |i: int| transcripts[i].audio_start_time));
    lemma_joined_parts(transcripts, o, n);
    assert(order::lists_each_once(o, transcripts.len()));
}

proof fn lemma_joined_parts(transcripts: Seq<MeetingTranscript>, o: Seq<int>, n: nat)
    ensures
        txt_lines(transcripts, o, n) == joined(Seq::new(n, |k: int| txt_line(transcripts[o[k]]))),
        cues(transcripts, o, n) == joined(Seq::new(n, |k: int| cue(transcripts[o[k]]))),
    decreases n,
{
    let lines = Seq::new(n, |k: int| txt_line(transcripts[o[k]]));
    let captions = Seq::new(n, |k: int| cue(transcripts[o[k]]));
    if n > 0 {
        let m = (n - 1) as nat;
        lemma_joined_parts(transcripts, o, m);
        assert(lines.drop_last() =~= Seq::new(m, |k: int| txt_line(transcripts[o[k]])));
        assert(captions.drop_last() =~= Seq::new(m, |k: int| cue(transcripts[o[k]])));
    }
}

/// Captions leave out the segments without a start time, and as many are counted as there are.
pub proof fn segments_without_a_start_are_counted(transcripts: Seq<MeetingTranscript>)
    ensures
        untimed(transcripts) == transcripts.filter(
            |t: MeetingTranscript| t.audio_start_time is None,
        ).len(),
    decreases transcripts.len(),
{
    reveal(Seq::filter);
    if transcripts.len() > 0 {
        segments_without_a_start_are_counted(transcripts.drop_last());
    }
}

/// A title is made fit for a file name character by character: tabs and line characters become
/// spaces, other control characters and those that file systems reserve go, and the rest stays.
#[verifier::spinoff_prover]
pub proof fn titles_are_made_fit_by_character(a: Seq<char>, c: char)
    ensures
        file_chars(Seq::empty()) == Seq::<char>::empty(),
        file_chars(a.push(c)) == file_chars(a) + (if 9 <= c as int <= 13 {
            seq![' ']
        } else if (c as int) < 32 || seq!['/', '\\', ':', '*', '?', '"', '<', '>', '|'].contains(
            c,
        ) {
            Seq::empty()
        } else {
            seq![c]
        }),
{
    let reserved = seq!['/', '\\', ':', '*', '?', '"', '<', '>', '|'];
    assert(a.push(c).drop_last() =~= a);
    if reserved.contains(c) {
        let w = reserved.index_of(c);
        assert(reserved[w] == c);
    }
    assert(reserved[0] == '/' && reserved[1] == '\\' && reserved[2] == ':' && reserved[3] == '*'
        && reserved[4] == '?' && reserved[5] == '"' && reserved[6] == '<' && reserved[7] == '>'
        && reserved[8] == '|');
    assert(file_chars(a.push(c)) =~= file_chars(a) + (if 9 <= c as int <= 13 {
        seq![' ']
    } else if (c as int) < 32 || reserved.contains(c) {
        Seq::empty()
    } else {
        seq![c]
    }));
}

/// The stem of a file name is the words of the title that are left, joined by single spaces and
/// without dots at the ends, cut to as much as fits in eighty bytes; where nothing is left it is
/// the word `meeting`.
#[verifier::spinoff_prover]
pub proof fn stems_are_the_words_of_the_title(title: Seq<char>, k: int)
    ensures
        whole_stem(title) == text::stripped_of(text::words(file_chars(title)), '.'),
        whole_stem(title).len() == 0 ==> filename_stem(title) == "meeting"@,
        whole_stem(title).len() > 0 ==> {
            &&& filename_stem(title).is_prefix_of(whole_stem(title))
            &&& text::byte_len(filename_stem(title)) <= 80
            &&& filename_stem(title).len() < k <= whole_stem(title).len() ==> text::byte_len(
                whole_stem(title).take(k),
            ) > 80
        },
{
    let joined = text::words(file_chars(title));
    text::words_are_single_spaced(file_chars(title));
    assert(text::trimmed(joined) == joined);
    text::cuts_keep_as_much_as_fits(whole_stem(title), 80, k);
}

/// The format `vtt` gives captions in a `vtt` file that leaves out the segments without a start
/// time; any other gives plain text in a `txt` file that leaves out none. The name that is
/// proposed is the title's stem, the first ten bytes of the creation time, and the extension.
pub proof fn formats_decide_the_export(
    transcripts: Seq<MeetingTranscript>,
    title: Seq<char>,
    created_at: Seq<char>,
    format: Seq<char>,
)
    ensures
        format == "vtt"@ ==> {
            &&& extension(format) == "vtt"@
            &&& export_content(transcripts, format) == vtt(transcripts)
            &&& export_skipped(transcripts, format) == untimed(transcripts)
        },
        format != "vtt"@ ==> {
            &&& extension(format) == "txt"@
            &&& export_content(transcripts, format) == txt(transcripts)
            &&& export_skipped(transcripts, format) == 0
        },
        default_name(title, created_at, format) == filename_stem(title) + " - "@
            + text::within_bytes(created_at, 10) + "."@ + extension(format),
{
}

/// A segment is exported as its line, its caption and its label say, and an export as its format
/// says, to the path that was chosen; without a path nothing is exported.
#[verifier::spinoff_prover]
pub proof fn exports_hold_what_their_format_says(
    path: Option<String>,
    transcripts: &[MeetingTranscript],
    format: &str,
    r: Result<ExportFile, String>,
)
    requires
        call_ensures(render_export, (path, transcripts, format), r),
    ensures
        r is Err <==> path is None,
        r matches Err(e) ==> e@ == "Save cancelled"@,
        r matches Ok(file) ==> {
            let skipped = if format@ == "vtt"@ {
                transcripts@.filter(|t: MeetingTranscript| t.audio_start_time is None).len()
            } else {
                0
            };
            &&& file.path@ == path->0@
            &&& format@ == "vtt"@ ==> file.content@ == vtt(transcripts@)
            &&& format@ != "vtt"@ ==> file.content@ == txt(transcripts@)
            &&& file.result.saved
            &&& file.result.path is Some && file.result.path->0@ == path->0@
            &&& file.result.segment_count == transcripts@.len()
            &&& file.result.skipped_count is Some <==> skipped > 0
            &&& file.result.skipped_count matches Some(n) ==> n == skipped
        },
{
    segments_without_a_start_are_counted(transcripts@);
}

/// Plain text and captions are those of the segments, with the segments counted that captions leave
/// out; times and labels show as the segments have them.
#[verifier::spinoff_prover]
pub proof fn texts_are_those_of_the_segments(
    transcripts: &[MeetingTranscript],
    plain: String,
    captions: (String, usize),
    time: &Double,
    shown: String,
    t: &MeetingTranscript,
    label: Option<&str>,
    title: &str,
    stem: String,
)
    requires
        call_ensures(format_txt, (transcripts,), plain),
        call_ensures(format_vtt, (transcripts,), captions),
        call_ensures(format_timestamp, (time,), shown),
        call_ensures(speaker_display_label, (t,), label),
        call_ensures(sanitize_filename_stem, (title,), stem),
    ensures
        plain@ == txt(transcripts@),
        captions.0@ == vtt(transcripts@),
        captions.1 == untimed(transcripts@),
        shown@ == timestamp(time@),
        label is Some <==> t.speaker_label is Some && !text::is_blank(t.speaker_label->0@),
        label matches Some(l) ==> l@ == text::trimmed(t.speaker_label->0@),
        stem@ == filename_stem(title@),
{
    labels_show_without_surrounding_whitespace(*t);
}

/// The save dialog is asked with the extension of the format and the proposed name, for a meeting
/// that was found and has something to export.
#[verifier::spinoff_prover]
pub proof fn dialogs_propose_a_name(
    meeting: Option<&MeetingDetails>,
    format: &str,
    r: Result<ExportPlan, String>,
)
    requires
        call_ensures(plan_export, (meeting, format), r),
    ensures
        meeting is None ==> (r matches Err(e) && e@ == "Meeting not found"@),
        meeting matches Some(m) ==> {
            &&& m.transcripts@.len() == 0 ==> (r matches Err(e) && e@ == "No transcripts to export"@)
            &&& m.transcripts@.len() > 0 ==> (r matches Ok(plan) && plan.extension@ == extension(
                format@,
            ) && plan.default_name@ == filename_stem(m.title@) + " - "@ + text::within_bytes(
                m.created_at@,
                10,
            ) + "."@ + extension(format@))
        },
{
}

/// A title can be cut to a stem where it is short enough or has a character boundary at the limit,
/// and a meeting can be named where besides its creation time has one behind the date.
pub proof fn names_are_cut_at_boundaries(meeting: MeetingDetails)
    ensures
        stem_can_be_cut(meeting.title@) <==> text::byte_len(whole_stem(meeting.title@)) <= 80
            || text::has_boundary(whole_stem(meeting.title@), 80),
        nameable(meeting) <==> text::has_boundary(meeting.created_at@, 10) && stem_can_be_cut(
            meeting.title@,
        ),
{
}

/// A segment from one whole second to another is captioned with those seconds on the clock; one
/// without an end lasts its duration, or five seconds.
#[verifier::spinoff_prover]
pub proof fn whole_seconds_show_on_the_clock(n: nat)
    requires
        100 * n < double::LIMIT,
    ensures
        centiseconds(double::whole(n)) == 100 * n,
        timestamp(double::whole(n)) == text::two_digits(n / 3_600) + ":"@ + text::two_digits(
            n / 60 % 60,
        ) + ":"@ + text::two_digits(n % 60) + "."@ + text::two_digits(0),
{
    double::whole_numbers_are_exact(n, 100);
    double::whole_numbers_are_exact(100 * n, 1);
    double::whole_numbers_add_up(0, n);
    assert(n * 100 == 100 * n);
    times_before_zero_count_as_zero(double::whole(n));
    let hours = n / 3_600;
    let minutes = n / 60 % 60;
    let seconds = n % 60;
    assert((hours * 60 + minutes) * 60 + seconds == n);
    times_show_their_hours_minutes_and_seconds(double::whole(n), hours, minutes, seconds, 0);
}

/// Captions of whole seconds: the end time counts where there is one, whatever the duration, then
/// the duration, then five seconds.
pub proof fn captions_of_whole_seconds_end_on_time(
    t: MeetingTranscript,
    start: nat,
    end: nat,
    length: nat,
)
    requires
        t.audio_start_time matches Some(from) && from@ == double::whole(start),
        start + length + 5 < double::LIMIT,
        t.audio_end_time matches Some(until) ==> until@ == double::whole(end),
        t.duration matches Some(duration) ==> duration@ == double::whole(length),
    ensures
        t.audio_end_time is Some ==> cue_end(t, double::whole(start)) == double::whole(end),
        t.audio_end_time is None && t.duration is Some ==> cue_end(t, double::whole(start))
            == double::whole(start + length),
        t.audio_end_time is None && t.duration is None ==> cue_end(t, double::whole(start))
            == double::whole(start + 5),
{
    double::whole_numbers_add_up(start, length);
    double::whole_numbers_add_up(start, 5);
}

} // verus!
