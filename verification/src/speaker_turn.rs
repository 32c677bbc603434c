//! Speaker turns of a meeting and the transcript segments that they cover.

use crate::double;
use crate::double::{Double, Real};
use crate::models;
use crate::models::SpeakerTurn;
use crate::order;
use crate::order::SortKey;
use crate::outside;
use crate::text;
use vstd::prelude::*;
use vstd::string::*;

verus! {

/// Who speaks during a stretch of a meeting, and how that was found out.
pub struct SpeakerTurnAssignment {
    pub cluster_label: String,
    pub speaker_profile_id: Option<String>,
    pub speaker_label: String,
    pub start_time: Double,
    pub end_time: Double,
    pub confidence: Option<Double>,
    pub confirmed: bool,
    pub assignment_source: String,
}

/// A copy of an assignment.
pub fn copy_assignment(a: &SpeakerTurnAssignment) -> (r: SpeakerTurnAssignment)
    ensures
        r == *a,
{
    SpeakerTurnAssignment {
        cluster_label: a.cluster_label.clone(),
        speaker_profile_id: models::copy_text(&a.speaker_profile_id),
        speaker_label: a.speaker_label.clone(),
        start_time: a.start_time,
        end_time: a.end_time,
        confidence: a.confidence,
        confirmed: a.confirmed,
        assignment_source: a.assignment_source.clone(),
    }
}

/// What automatic assignment reads of a transcript segment.
pub struct SegmentRow {
    pub id: String,
    pub audio_start_time: Option<Double>,
    pub audio_end_time: Option<Double>,
    pub speaker_confirmed: Option<i64>,
}

/// The speaker columns to write for a transcript segment.
pub struct SegmentUpdate {
    pub transcript_id: String,
    pub speaker_profile_id: Option<String>,
    pub speaker_label: String,
    pub speaker_confidence: Option<Double>,
    pub speaker_confirmed: i64,
}

/// How long a segment and a turn overlap; zero where they do not.
pub open spec fn overlap(start: Real, end: Real, turn: SpeakerTurnAssignment) -> Real {
    double::larger(
        double::difference(
            double::smaller(end, turn.end_time@),
            double::larger(start, turn.start_time@),
        ),
        double::zero(),
    )
}

/// A turn overlaps a segment exactly if the later of the two starts comes before the earlier of
/// the two ends.
pub proof fn overlap_is_positive_where_they_meet(start: Real, end: Real, turn: SpeakerTurnAssignment)
    ensures
        double::less(double::zero(), overlap(start, end, turn)) <==> double::less(
            double::larger(start, turn.start_time@),
            double::smaller(end, turn.end_time@),
        ),
{
    double::difference_has_sign(
        double::smaller(end, turn.end_time@),
        double::larger(start, turn.start_time@),
    );
}

/// Of the first `n` turns, the last one of the longest overlap with a segment, if any overlaps it.
pub open spec fn longest_overlap(
    start: Real,
    end: Real,
    turns: Seq<SpeakerTurnAssignment>,
    n: nat,
) -> Option<int>
    decreases n,
{
    if n == 0 {
        None
    } else {
        let best = longest_overlap(start, end, turns, (n - 1) as nat);
        let here = overlap(start, end, turns[n - 1]);
        if !double::less(double::zero(), here) {
            best
        } else {
            match best {
                Some(b) => if double::less(here, overlap(start, end, turns[b])) {
                    best
                } else {
                    Some(n - 1)
                },
                None => Some(n - 1),
            }
        }
    }
}

/// The turn that a segment belongs to; none where the segment has no length.
pub open spec fn best_turn(start: Real, end: Real, turns: Seq<SpeakerTurnAssignment>) -> Option<
    int,
> {
    if double::at_most(end, start) {
        None
    } else {
        longest_overlap(start, end, turns, turns.len())
    }
}

/// The turn that a segment belongs to overlaps it, no turn overlaps it longer, and every later
/// turn overlaps it for a shorter time. A segment belongs to no turn exactly if it has no length
/// or no turn overlaps it.
pub proof fn best_turn_is_the_last_of_the_longest(
    start: Real,
    end: Real,
    turns: Seq<SpeakerTurnAssignment>,
)
    ensures
        match best_turn(start, end, turns) {
            Some(b) => {
                &&& !double::at_most(end, start)
                &&& 0 <= b < turns.len()
                &&& double::less(double::zero(), overlap(start, end, turns[b]))
                &&& forall|j: int|
                    0 <= j < turns.len() ==> !double::less(
                        overlap(start, end, turns[b]),
                        #[trigger] overlap(start, end, turns[j]),
                    )
                &&& forall|j: int|
                    b < j < turns.len() ==> double::less(
                        #[trigger] overlap(start, end, turns[j]),
                        overlap(start, end, turns[b]),
                    )
            },
            None => double::at_most(end, start) || forall|j: int|
                0 <= j < turns.len() ==> !double::less(
                    double::zero(),
                    #[trigger] overlap(start, end, turns[j]),
                ),
        },
{
    lemma_longest_overlap(start, end, turns, turns.len());
}

proof fn lemma_longest_overlap(
    start: Real,
    end: Real,
    turns: Seq<SpeakerTurnAssignment>,
    n: nat,
)
    requires
        n <= turns.len(),
    ensures
        match longest_overlap(start, end, turns, n) {
            Some(b) => {
                &&& 0 <= b < n
                &&& double::less(double::zero(), overlap(start, end, turns[b]))
                &&& forall|j: int|
                    0 <= j < n ==> !double::less(
                        overlap(start, end, turns[b]),
                        #[trigger] overlap(start, end, turns[j]),
                    )
                &&& forall|j: int|
                    b < j < n ==> double::less(
                        #[trigger] overlap(start, end, turns[j]),
                        overlap(start, end, turns[b]),
                    )
            },
            None => forall|j: int|
                0 <= j < n ==> !double::less(double::zero(), #[trigger] overlap(start, end, turns[j])),
        },
    decreases n,
{
    if n > 0 {
        lemma_longest_overlap(start, end, turns, (n - 1) as nat);
    }
}

/// The index of the turn that a segment belongs to.
fn best_turn_index(start: &Double, end: &Double, turns: &[SpeakerTurnAssignment]) -> (r: Option<
    usize,
>)
    ensures
        r is Some <==> best_turn(start@, end@, turns@) is Some,
        r matches Some(b) ==> b < turns@.len() && best_turn(start@, end@, turns@) == Some(b as int),
{
    if end.le(start) {
        return None;
    }
    let nothing = Double { bits: 0 };
    let mut best: Option<(usize, Double)> = None;
    let mut i: usize = 0;
    while i < turns.len()
        invariant
            i <= turns@.len(),
            nothing@ == double::zero(),
            best is Some <==> longest_overlap(start@, end@, turns@, i as nat) is Some,
            best matches Some((b, length)) ==> b < i && longest_overlap(
                start@,
                end@,
                turns@,
                i as nat,
            ) == Some(b as int) && length@ == overlap(start@, end@, turns@[b as int]),
        decreases turns@.len() - i,
    {
        let overlap_start: Double = start.max(&turns[i].start_time);
        let overlap_end: Double = end.min(&turns[i].end_time);
        let length: Double = overlap_end.minus(&overlap_start).max(&nothing);
        if nothing.lt(&length) {
            let longer: bool = match &best {
                Some((_, other)) => !length.lt(other),
                None => true,
            };
            if longer {
                best = Some((i, length));
            }
        }
        i += 1;
    }
    match best {
        Some((b, _)) => Some(b),
        None => None,
    }
}

/// The turn that overlaps the segment for the longest time, the last one of several such.
pub fn best_turn_for_segment<'a>(
    segment_start: &Double,
    segment_end: &Double,
    turns: &'a [SpeakerTurnAssignment],
) -> (r: Option<&'a SpeakerTurnAssignment>)
    ensures
        r is Some <==> best_turn(segment_start@, segment_end@, turns@) is Some,
        r matches Some(turn) ==> *turn == turns@[best_turn(
            segment_start@,
            segment_end@,
            turns@,
        )->0],
{
    match best_turn_index(segment_start, segment_end, turns) {
        Some(b) => Some(&turns[b]),
        None => None,
    }
}

/// The turns of a meeting as the database holds them.
pub struct SpeakerTurnRepository;

/// One for what is confirmed, zero for what is not.
pub open spec fn flag(confirmed: bool) -> i64 {
    if confirmed {
        1
    } else {
        0
    }
}

/// Whether `row` holds `turn` as a turn of the meeting, written at `now`.
pub open spec fn holds_turn(
    row: SpeakerTurn,
    meeting_id: Seq<char>,
    turn: SpeakerTurnAssignment,
    now: Seq<char>,
) -> bool {
    &&& row.meeting_id@ == meeting_id
    &&& row.cluster_label == turn.cluster_label
    &&& row.speaker_profile_id == turn.speaker_profile_id
    &&& row.start_time == turn.start_time
    &&& row.end_time == turn.end_time
    &&& row.confidence == turn.confidence
    &&& row.assignment_source == turn.assignment_source
    &&& row.confirmed == flag(turn.confirmed)
    &&& row.created_at@ == now
    &&& row.updated_at@ == now
}

/// The row that holds a turn.
pub fn turn_row(id: String, meeting_id: &str, turn: &SpeakerTurnAssignment, now: &str) -> (r:
    SpeakerTurn)
    ensures
        r.id == id,
        holds_turn(r, meeting_id@, *turn, now@),
{
    SpeakerTurn {
        id,
        meeting_id: meeting_id.to_owned(),
        cluster_label: turn.cluster_label.clone(),
        speaker_profile_id: models::copy_text(&turn.speaker_profile_id),
        start_time: turn.start_time,
        end_time: turn.end_time,
        confidence: turn.confidence,
        assignment_source: turn.assignment_source.clone(),
        confirmed: if turn.confirmed {
            1
        } else {
            0
        },
        created_at: now.to_owned(),
        updated_at: now.to_owned(),
    }
}

/// The turns of a meeting, in the order of the rows.
pub open spec fn turns_of(rows: Seq<SpeakerTurn>, meeting_id: Seq<char>) -> Seq<SpeakerTurn>
    decreases rows.len(),
{
    if rows.len() == 0 {
        Seq::empty()
    } else if rows.last().meeting_id@ == meeting_id {
        turns_of(rows.drop_last(), meeting_id).push(rows.last())
    } else {
        turns_of(rows.drop_last(), meeting_id)
    }
}

/// The start times of turns.
pub open spec fn turn_starts(turns: Seq<SpeakerTurn>) -> Seq<Option<Double>> {
    Seq::new(turns.len(), |i: int| Some(turns[i].start_time))
}

/// The turns in the order of their start times, equal times in the given order.
pub open spec fn turns_by_start(turns: Seq<SpeakerTurn>) -> Seq<SpeakerTurn> {
    let by_start = order::stable_order(turn_starts(turns), turns.len());
    Seq::new(turns.len(), |k: int| turns[by_start[k]])
}

/// The turns of a meeting are just the rows of that meeting.
pub proof fn turns_of_are_those_of_the_meeting(
    rows: Seq<SpeakerTurn>,
    meeting_id: Seq<char>,
    t: SpeakerTurn,
)
    ensures
        turns_of(rows, meeting_id).contains(t) <==> rows.contains(t) && t.meeting_id@ == meeting_id,
    decreases rows.len(),
{
    if rows.len() > 0 {
        let head = rows.drop_last();
        let some = turns_of(head, meeting_id);
        let all = turns_of(rows, meeting_id);
        turns_of_are_those_of_the_meeting(head, meeting_id, t);
        if all.contains(t) {
            let w = all.index_of(t);
            if w < some.len() {
                assert(some[w] == t);
                let v = head.index_of(t);
                assert(rows[v] == t);
            } else {
                assert(rows[rows.len() - 1] == t);
            }
        }
        if rows.contains(t) && t.meeting_id@ == meeting_id {
            let v = rows.index_of(t);
            if v < head.len() {
                assert(head[v] == t);
                let w = some.index_of(t);
                assert(all[w] == t);
            } else {
                assert(all[some.len() as int] == t);
            }
        }
    }
}

/// The list of a meeting's turns holds the rows of that meeting, each of them, and their start
/// times do not fall along the list, where they are numbers.
pub proof fn turns_are_listed_by_start(
    rows: Seq<SpeakerTurn>,
    meeting_id: Seq<char>,
    t: SpeakerTurn,
)
    requires
        forall|i: int| 0 <= i < rows.len() ==> (#[trigger] rows[i]).start_time@ != Real::NotANumber,
    ensures
        turns_by_start(turns_of(rows, meeting_id)).contains(t) <==> rows.contains(t)
            && t.meeting_id@ == meeting_id,
        turns_by_start(turns_of(rows, meeting_id)).len() == turns_of(rows, meeting_id).len(),
        forall|i: int, j: int|
            0 <= i < j < turns_of(rows, meeting_id).len() ==> !double::less(
                (#[trigger] turns_by_start(turns_of(rows, meeting_id))[j]).start_time@,
                (#[trigger] turns_by_start(turns_of(rows, meeting_id))[i]).start_time@,
            ),
{
    let there = turns_of(rows, meeting_id);
    let keys = turn_starts(there);
    let order = order::stable_order(keys, there.len());
    let listed = turns_by_start(there);
    turns_of_are_those_of_the_meeting(rows, meeting_id, t);
    order::stable_order_lists_each_once(keys, there.len());
    assert forall|k: int| 0 <= k < order.len() implies 0 <= #[trigger] order[k] < there.len() by {
        assert(order.contains(order[k]));
    }
    if listed.contains(t) {
        let k = listed.index_of(t);
        assert(there[order[k]] == t);
    }
    if there.contains(t) {
        let i = there.index_of(t);
        assert(order.contains(i));
        let k = order.index_of(i);
        assert(listed[k] == t);
    }
    assert forall|i: int| 0 <= i < keys.len() implies (#[trigger] keys[i]).is_key() by {
        turns_of_are_those_of_the_meeting(rows, meeting_id, there[i]);
        assert(there.contains(there[i]));
        let v = rows.index_of(there[i]);
        assert(rows[v] == there[i]);
    }
    order::stable_order_is_a_stable_sort(keys, there.len());
    assert forall|i: int, j: int| 0 <= i < j < listed.len() implies !double::less(
        (#[trigger] listed[j]).start_time@,
        (#[trigger] listed[i]).start_time@,
    ) by {
        assert(!order::SortKey::precedes(keys[order[j]], keys[order[i]]));
    }
}

/// Whether a row is one of the cluster of the meeting.
pub open spec fn in_cluster(row: SpeakerTurn, meeting_id: Seq<char>, cluster_label: Seq<char>) -> bool {
    row.meeting_id@ == meeting_id && row.cluster_label@ == cluster_label
}

/// Whether `new` is the row `was` after the cluster was given to a speaker at `now`: a row of the
/// cluster gets the speaker and the time, any other stays as it was.
pub open spec fn reassigned(
    was: SpeakerTurn,
    new: SpeakerTurn,
    meeting_id: Seq<char>,
    cluster_label: Seq<char>,
    profile_id: Seq<char>,
    confidence: Option<Double>,
    confirmed: bool,
    assignment_source: Seq<char>,
    now: Seq<char>,
) -> bool {
    if in_cluster(was, meeting_id, cluster_label) {
        &&& new.id == was.id
        &&& new.meeting_id == was.meeting_id
        &&& new.cluster_label == was.cluster_label
        &&& models::text_view(new.speaker_profile_id) == Some(profile_id)
        &&& new.start_time == was.start_time
        &&& new.end_time == was.end_time
        &&& new.confidence == confidence
        &&& new.assignment_source@ == assignment_source
        &&& new.confirmed == flag(confirmed)
        &&& new.created_at == was.created_at
        &&& new.updated_at@ == now
    } else {
        new == was
    }
}

/// The number of rows of the cluster.
pub open spec fn cluster_size(
    rows: Seq<SpeakerTurn>,
    meeting_id: Seq<char>,
    cluster_label: Seq<char>,
) -> nat
    decreases rows.len(),
{
    if rows.len() == 0 {
        0
    } else {
        cluster_size(rows.drop_last(), meeting_id, cluster_label) + if in_cluster(
            rows.last(),
            meeting_id,
            cluster_label,
        ) {
            1nat
        } else {
            0nat
        }
    }
}

/// Whether automatic assignment may change a segment: one that the user confirmed stays.
pub open spec fn is_open(row: SegmentRow) -> bool {
    row.speaker_confirmed != Some(1i64)
}

/// The turn whose speaker a segment gets, if it gets one.
pub open spec fn turn_for(row: SegmentRow, turns: Seq<SpeakerTurnAssignment>) -> Option<int> {
    match (row.audio_start_time, row.audio_end_time) {
        (Some(start), Some(end)) => if is_open(row) {
            best_turn(start@, end@, turns)
        } else {
            None
        },
        _ => None,
    }
}

/// Whether `update` gives the segment the speaker of the turn.
pub open spec fn gives_speaker(
    update: SegmentUpdate,
    row: SegmentRow,
    turn: SpeakerTurnAssignment,
) -> bool {
    &&& update.transcript_id == row.id
    &&& update.speaker_profile_id == turn.speaker_profile_id
    &&& update.speaker_label == turn.speaker_label
    &&& update.speaker_confidence == turn.confidence
    &&& update.speaker_confirmed == flag(turn.confirmed)
}

/// The indices of the first `n` segments that get a speaker.
pub open spec fn assigned_rows(
    rows: Seq<SegmentRow>,
    turns: Seq<SpeakerTurnAssignment>,
    n: nat,
) -> Seq<int>
    decreases n,
{
    if n == 0 {
        Seq::empty()
    } else if turn_for(rows[n - 1], turns) is Some {
        assigned_rows(rows, turns, (n - 1) as nat).push(n - 1)
    } else {
        assigned_rows(rows, turns, (n - 1) as nat)
    }
}

/// Automatic assignment writes just the segments that get a speaker, each once, in their order.
/// A segment that the user confirmed is never among them.
pub proof fn confirmed_segments_are_never_written(
    rows: Seq<SegmentRow>,
    turns: Seq<SpeakerTurnAssignment>,
    n: nat,
)
    requires
        n <= rows.len(),
    ensures
        forall|k: int|
            #![trigger assigned_rows(rows, turns, n)[k]]
            0 <= k < assigned_rows(rows, turns, n).len() ==> {
                let i = assigned_rows(rows, turns, n)[k];
                0 <= i < n && turn_for(rows[i], turns) is Some && rows[i].speaker_confirmed != Some(
                    1i64,
                )
            },
        forall|j: int, k: int|
            0 <= j < k < assigned_rows(rows, turns, n).len() ==> #[trigger] assigned_rows(
                rows,
                turns,
                n,
            )[j] < #[trigger] assigned_rows(rows, turns, n)[k],
        forall|i: int|
            0 <= i < n && turn_for(#[trigger] rows[i], turns) is Some ==> assigned_rows(
                rows,
                turns,
                n,
            ).contains(i),
    decreases n,
{
    if n > 0 {
        let before = assigned_rows(rows, turns, (n - 1) as nat);
        let all = assigned_rows(rows, turns, n);
        confirmed_segments_are_never_written(rows, turns, (n - 1) as nat);
        assert forall|i: int| 0 <= i < n && turn_for(#[trigger] rows[i], turns) is Some implies all.contains(
            i,
        ) by {
            if i < n - 1 {
                assert(before.contains(i));
                let w = before.index_of(i);
                assert(all[w] == i);
            } else {
                assert(all[before.len() as int] == i);
            }
        }
    }
}

/// The turns of other meetings, in the order of the rows.
pub open spec fn turns_elsewhere(rows: Seq<SpeakerTurn>, meeting_id: Seq<char>) -> Seq<SpeakerTurn>
    decreases rows.len(),
{
    if rows.len() == 0 {
        Seq::empty()
    } else if rows.last().meeting_id@ != meeting_id {
        turns_elsewhere(rows.drop_last(), meeting_id).push(rows.last())
    } else {
        turns_elsewhere(rows.drop_last(), meeting_id)
    }
}

/// The turns of other meetings.
fn keep_other_meetings(rows: &[SpeakerTurn], meeting_id: &str) -> (r: Vec<SpeakerTurn>)
    ensures
        r@ == turns_elsewhere(rows@, meeting_id@),
{
    let mut r: Vec<SpeakerTurn> = Vec::new();
    let mut i: usize = 0;
    while i < rows.len()
        invariant
            i <= rows@.len(),
            r@ == turns_elsewhere(rows@.take(i as int), meeting_id@),
        decreases rows@.len() - i,
    {
        assert(rows@.take(i + 1).drop_last() =~= rows@.take(i as int));
        if !text::same_text(rows[i].meeting_id.as_str(), meeting_id) {
            r.push(models::copy_turn(&rows[i]));
        }
        i += 1;
    }
    assert(rows@.take(i as int) =~= rows@);
    r
}

/// Once its turns are replaced, a meeting has just the new ones, and other meetings have the turns
/// that they had.
pub proof fn replacing_leaves_other_meetings(
    before: Seq<SpeakerTurn>,
    after: Seq<SpeakerTurn>,
    meeting_id: Seq<char>,
    other: Seq<char>,
    n: nat,
)
    requires
        after.len() == turns_elsewhere(before, meeting_id).len() + n,
        after.take(turns_elsewhere(before, meeting_id).len() as int) == turns_elsewhere(
            before,
            meeting_id,
        ),
        forall|k: int|
            turns_elsewhere(before, meeting_id).len() <= k < after.len() ==> (
            #[trigger] after[k]).meeting_id@ == meeting_id,
    ensures
        turns_of(after, meeting_id) == after.skip(turns_elsewhere(before, meeting_id).len() as int),
        other != meeting_id ==> turns_of(after, other) == turns_of(before, other),
    decreases n,
{
    let kept = turns_elsewhere(before, meeting_id);
    if n == 0 {
        assert(after =~= kept);
        lemma_elsewhere(before, meeting_id, other);
        assert(after.skip(kept.len() as int) =~= Seq::<SpeakerTurn>::empty());
    } else {
        let less = after.drop_last();
        assert(less.take(kept.len() as int) =~= after.take(kept.len() as int));
        assert forall|k: int| kept.len() <= k < less.len() implies (#[trigger] less[k]).meeting_id@
            == meeting_id by {
            assert(after[k].meeting_id@ == meeting_id);
        }
        replacing_leaves_other_meetings(before, less, meeting_id, other, (n - 1) as nat);
        assert(after[after.len() - 1].meeting_id@ == meeting_id);
        assert(less.skip(kept.len() as int).push(after.last()) =~= after.skip(kept.len() as int));
    }
}

proof fn lemma_elsewhere(rows: Seq<SpeakerTurn>, meeting_id: Seq<char>, other: Seq<char>)
    ensures
        turns_of(turns_elsewhere(rows, meeting_id), meeting_id).len() == 0,
        other != meeting_id ==> turns_of(turns_elsewhere(rows, meeting_id), other) == turns_of(
            rows,
            other,
        ),
    decreases rows.len(),
{
    if rows.len() > 0 {
        let head = turns_elsewhere(rows.drop_last(), meeting_id);
        lemma_elsewhere(rows.drop_last(), meeting_id, other);
        if rows.last().meeting_id@ != meeting_id {
            assert(head.push(rows.last()).drop_last() =~= head);
        }
    }
}

/// Whether `after` are the rows `before` with new turns of a meeting, all written at `now`, each
/// under its own identifier, in the place of the old ones.
pub open spec fn is_replaced(
    before: Seq<SpeakerTurn>,
    after: Seq<SpeakerTurn>,
    meeting_id: Seq<char>,
    turns: Seq<SpeakerTurnAssignment>,
    ids: Seq<String>,
    now: Seq<char>,
) -> bool {
    let kept = turns_elsewhere(before, meeting_id);
    &&& ids.len() == turns.len()
    &&& after.len() == kept.len() + turns.len()
    &&& after.take(kept.len() as int) == kept
    &&& forall|i: int|
        0 <= i < turns.len() ==> {
            &&& #[trigger] holds_turn(after[kept.len() + i], meeting_id, turns[i], now)
            &&& after[kept.len() + i].id == ids[i]
        }
}

/// The start times of assigned turns.
pub open spec fn assigned_starts(turns: Seq<SpeakerTurnAssignment>) -> Seq<Option<Double>> {
    Seq::new(turns.len(), |i: int| Some(turns[i].start_time))
}

/// Once its turns are replaced, the list of a meeting's turns holds the new turns, each of them
/// once under its own identifier, in the order of their start times and equal times in the given
/// order, and none of the old ones; identifiers that differ stay different. Other meetings have the turns that they had. Start times that
/// are no numbers are left out.
pub proof fn replaced_turns_are_listed(
    before: Seq<SpeakerTurn>,
    after: Seq<SpeakerTurn>,
    meeting_id: Seq<char>,
    turns: Seq<SpeakerTurnAssignment>,
    ids: Seq<String>,
    now: Seq<char>,
    other: Seq<char>,
)
    requires
        is_replaced(before, after, meeting_id, turns, ids, now),
        forall|i: int|
            0 <= i < turns.len() ==> (#[trigger] turns[i]).start_time@ != Real::NotANumber,
    ensures
        ({
            let by_start = order::stable_order(assigned_starts(turns), turns.len());
            let listed = turns_by_start(turns_of(after, meeting_id));
            &&& order::lists_each_once(by_start, turns.len())
            &&& order::rises_stably(by_start, assigned_starts(turns))
            &&& listed.len() == turns.len()
            &&& forall|k: int|
                0 <= k < listed.len() ==> {
                    &&& holds_turn(#[trigger] listed[k], meeting_id, turns[by_start[k]], now)
                    &&& listed[k].id == ids[by_start[k]]
                }
            &&& forall|i: int, j: int|
                0 <= i < j < listed.len() ==> !double::less(
                    (#[trigger] listed[j]).start_time@,
                    (#[trigger] listed[i]).start_time@,
                ) && (ids.no_duplicates() ==> listed[i].id != listed[j].id)
        }),
        other != meeting_id ==> turns_of(after, other) == turns_of(before, other),
{
    let kept = turns_elsewhere(before, meeting_id);
    let keys = assigned_starts(turns);
    let by_start = order::stable_order(keys, turns.len());
    assert forall|k: int| kept.len() <= k < after.len() implies (#[trigger] after[k]).meeting_id@
        == meeting_id by {
        assert(holds_turn(after[kept.len() + (k - kept.len())], meeting_id, turns[k - kept.len()], now));
    }
    replacing_leaves_other_meetings(before, after, meeting_id, other, turns.len());
    let there = turns_of(after, meeting_id);
    assert forall|i: int| 0 <= i < turns.len() implies {
        &&& holds_turn(#[trigger] there[i], meeting_id, turns[i], now)
        &&& there[i].id == ids[i]
    } by {
        assert(holds_turn(after[kept.len() + i], meeting_id, turns[i], now));
        assert(there[i] == after[kept.len() + i]);
    }
    assert(turn_starts(there) =~= keys);
    order::stable_order_lists_each_once(keys, turns.len());
    assert forall|i: int| 0 <= i < keys.len() implies (#[trigger] keys[i]).is_key() by {
        assert(turns[i].start_time@ != Real::NotANumber);
    }
    order::stable_order_is_a_stable_sort(keys, turns.len());
    let listed = turns_by_start(there);
    assert forall|k: int| 0 <= k < by_start.len() implies 0 <= #[trigger] by_start[k] < turns.len() by {
        assert(by_start.contains(by_start[k]));
    }
    assert forall|k: int| 0 <= k < listed.len() implies {
        &&& holds_turn(#[trigger] listed[k], meeting_id, turns[by_start[k]], now)
        &&& listed[k].id == ids[by_start[k]]
    } by {
        assert(listed[k] == there[by_start[k]]);
    }
    assert forall|i: int, j: int| 0 <= i < j < listed.len() implies !double::less(
        (#[trigger] listed[j]).start_time@,
        (#[trigger] listed[i]).start_time@,
    ) && (ids.no_duplicates() ==> listed[i].id != listed[j].id) by {
        assert(!order::SortKey::precedes(keys[by_start[j]], keys[by_start[i]]));
        assert(by_start[i] != by_start[j]);
    }
}

/// Draws an identifier for each of some turns.
fn draw_turn_ids(n: usize) -> (r: Vec<String>)
    ensures
        r@.len() == n,
        forall|i: int|
            0 <= i < n ==> outside::is_fresh_id((#[trigger] r@[i])@, "speaker-turn-"@),
{
    let mut r: Vec<String> = Vec::new();
    while r.len() < n
        invariant
            r@.len() <= n,
            forall|i: int|
                0 <= i < r@.len() ==> outside::is_fresh_id((#[trigger] r@[i])@, "speaker-turn-"@),
        decreases n - r@.len(),
    {
        r.push(outside::fresh_id("speaker-turn-"));
    }
    r
}

impl SpeakerTurnRepository {
    /// Puts new turns of a meeting in the place of the old ones, each under an identifier that was
    /// drawn for it, all written at the same time. Which identifiers are drawn is chance.
    pub fn replace_meeting_turns(
        rows: &mut Vec<SpeakerTurn>,
        meeting_id: &str,
        turns: &[SpeakerTurnAssignment],
    )
        ensures
            exists|ids: Seq<String>, now: Seq<char>|
                #![trigger is_replaced(old(rows)@, final(rows)@, meeting_id@, turns@, ids, now)]
                {
                    &&& is_replaced(old(rows)@, final(rows)@, meeting_id@, turns@, ids, now)
                    &&& outside::is_utc_time(now)
                    &&& forall|i: int|
                        0 <= i < ids.len() ==> outside::is_fresh_id(
                            (#[trigger] ids[i])@,
                            "speaker-turn-"@,
                        )
                },
    {
        let now = outside::now_rfc3339();
        let ids: Vec<String> = draw_turn_ids(turns.len());
        let ghost drawn = ids@;
        Self::replace_meeting_turns_under(rows, meeting_id, turns, ids, now.as_str());
        assert(is_replaced(old(rows)@, rows@, meeting_id@, turns@, drawn, now@));
    }

    /// Puts new turns of a meeting, all written at `now`, in the place of the old ones, each under
    /// its own one of the identifiers.
    pub fn replace_meeting_turns_under(
        rows: &mut Vec<SpeakerTurn>,
        meeting_id: &str,
        turns: &[SpeakerTurnAssignment],
        ids: Vec<String>,
        now: &str,
    )
        requires
            ids@.len() == turns@.len(),
        ensures
            is_replaced(old(rows)@, final(rows)@, meeting_id@, turns@, ids@, now@),
    {
        let ghost kept = turns_elsewhere(rows@, meeting_id@);
        let mut new: Vec<SpeakerTurn> = keep_other_meetings(rows, meeting_id);
        let mut i: usize = 0;
        while i < turns.len()
            invariant
                i <= turns@.len(),
                ids@.len() == turns@.len(),
                new@.len() == kept.len() + i,
                new@.take(kept.len() as int) == kept,
                forall|k: int|
                    0 <= k < i ==> {
                        &&& #[trigger] holds_turn(
                            new@[kept.len() + k],
                            meeting_id@,
                            turns@[k],
                            now@,
                        )
                        &&& new@[kept.len() + k].id == ids@[k]
                    },
            decreases turns@.len() - i,
        {
            let ghost before = new@;
            new.push(turn_row(ids[i].clone(), meeting_id, &turns[i], now));
            assert(new@.take(kept.len() as int) =~= before.take(kept.len() as int));
            assert forall|k: int| 0 <= k <= i implies {
                &&& #[trigger] holds_turn(new@[kept.len() + k], meeting_id@, turns@[k], now@)
                &&& new@[kept.len() + k].id == ids@[k]
            } by {
                if k < i {
                    assert(holds_turn(before[kept.len() + k], meeting_id@, turns@[k], now@));
                    assert(new@[kept.len() + k] == before[kept.len() + k]);
                } else {
                    assert(new@[kept.len() + k] == new@[before.len() as int]);
                }
            }
            i += 1;
        }
        *rows = new;
    }

    /// The turns of a meeting in the order of their start times.
    pub fn list_meeting_turns(rows: &[SpeakerTurn], meeting_id: &str) -> (r: Vec<SpeakerTurn>)
        ensures
            r@ == turns_by_start(turns_of(rows@, meeting_id@)),
    {
        let mut there: Vec<SpeakerTurn> = Vec::new();
        let mut starts: Vec<Option<Double>> = Vec::new();
        let mut i: usize = 0;
        while i < rows.len()
            invariant
                i <= rows@.len(),
                there@ == turns_of(rows@.take(i as int), meeting_id@),
                starts@ == turn_starts(there@),
            decreases rows@.len() - i,
        {
            assert(rows@.take(i + 1).drop_last() =~= rows@.take(i as int));
            if text::same_text(rows[i].meeting_id.as_str(), meeting_id) {
                there.push(models::copy_turn(&rows[i]));
                starts.push(Some(rows[i].start_time));
                assert(starts@ =~= turn_starts(there@));
            }
            i += 1;
        }
        assert(rows@.take(i as int) =~= rows@);
        let by_start: Vec<usize> = order::sort_indices(&starts);
        let mut r: Vec<SpeakerTurn> = Vec::new();
        let mut k: usize = 0;
        while k < by_start.len()
            invariant
                k <= by_start@.len(),
                by_start@.len() == there@.len(),
                order::indices(by_start@) == order::stable_order(
                    turn_starts(there@),
                    there@.len(),
                ),
                forall|j: int|
                    0 <= j < by_start@.len() ==> #[trigger] by_start@[j] < there@.len(),
                r@ == turns_by_start(there@).take(k as int),
            decreases by_start@.len() - k,
        {
            assert(order::indices(by_start@)[k as int] == by_start@[k as int]);
            r.push(models::copy_turn(&there[by_start[k]]));
            assert(r@ =~= turns_by_start(there@).take(k + 1));
            k += 1;
        }
        assert(turns_by_start(there@).take(k as int) =~= turns_by_start(there@));
        r
    }

    /// Gives the turns of a cluster to a speaker, and tells how many there are.
    pub fn assign_cluster(
        rows: &mut Vec<SpeakerTurn>,
        meeting_id: &str,
        cluster_label: &str,
        profile_id: &str,
        confidence: Option<Double>,
        confirmed: bool,
        assignment_source: &str,
    ) -> (r: u64)
        ensures
            r == cluster_size(old(rows)@, meeting_id@, cluster_label@),
            final(rows)@.len() == old(rows)@.len(),
            exists|now: Seq<char>|
                outside::is_utc_time(now) && forall|i: int|
                    0 <= i < old(rows)@.len() ==> #[trigger] reassigned(
                        old(rows)@[i],
                        final(rows)@[i],
                        meeting_id@,
                        cluster_label@,
                        profile_id@,
                        confidence,
                        confirmed,
                        assignment_source@,
                        now,
                    ),
    {
        let now = outside::now_rfc3339();
        let ghost before = rows@;
        let mut updated: u64 = 0;
        let mut i: usize = 0;
        while i < rows.len()
            invariant
                i <= rows@.len(),
                rows@.len() == before.len(),
                updated <= i,
                updated == cluster_size(before.take(i as int), meeting_id@, cluster_label@),
                outside::is_utc_time(now@),
                forall|k: int| i <= k < rows@.len() ==> #[trigger] rows@[k] == before[k],
                forall|k: int|
                    0 <= k < i ==> #[trigger] reassigned(
                        before[k],
                        rows@[k],
                        meeting_id@,
                        cluster_label@,
                        profile_id@,
                        confidence,
                        confirmed,
                        assignment_source@,
                        now@,
                    ),
            decreases rows@.len() - i,
        {
            assert(before.take(i + 1).drop_last() =~= before.take(i as int));
            assert(rows@[i as int] == before[i as int]);
            if text::same_text(rows[i].meeting_id.as_str(), meeting_id) && text::same_text(
                rows[i].cluster_label.as_str(),
                cluster_label,
            ) {
                let mut row = models::copy_turn(&rows[i]);
                row.speaker_profile_id = Some(profile_id.to_owned());
                row.confidence = confidence;
                row.confirmed = if confirmed {
                    1
                } else {
                    0
                };
                row.assignment_source = assignment_source.to_owned();
                row.updated_at = now.clone();
                rows.set(i, row);
                updated += 1;
            }
            assert(reassigned(
                before[i as int],
                rows@[i as int],
                meeting_id@,
                cluster_label@,
                profile_id@,
                confidence,
                confirmed,
                assignment_source@,
                now@,
            ));
            i += 1;
        }
        assert(before.take(i as int) =~= before);
        updated
    }

    /// The speaker columns to write for the segments of a meeting, from the turns that overlap
    /// them. A speaker that the user confirmed is never overwritten.
    pub fn assign_transcripts_by_overlap(
        rows: &[SegmentRow],
        turns: &[SpeakerTurnAssignment],
    ) -> (r: Vec<SegmentUpdate>)
        ensures
            r@.len() == assigned_rows(rows@, turns@, rows@.len()).len(),
            forall|k: int|
                0 <= k < r@.len() ==> {
                    let i = assigned_rows(rows@, turns@, rows@.len())[k];
                    gives_speaker(#[trigger] r@[k], rows@[i], turns@[turn_for(rows@[i], turns@)->0])
                },
            forall|k: int|
                0 <= k < r@.len() ==> {
                    let i = assigned_rows(rows@, turns@, rows@.len())[k];
                    let turn = turns@[turn_for(rows@[i], turns@)->0];
                    &&& (#[trigger] r@[k]).transcript_id@ == rows@[i].id@
                    &&& r@[k].speaker_label@ == turn.speaker_label@
                    &&& r@[k].speaker_profile_id == turn.speaker_profile_id
                    &&& r@[k].speaker_confidence == turn.confidence
                    &&& r@[k].speaker_confirmed == 1 <==> turn.confirmed
                },
    {
        let mut updates: Vec<SegmentUpdate> = Vec::new();
        let mut i: usize = 0;
        while i < rows.len()
            invariant
                i <= rows@.len(),
                updates@.len() == assigned_rows(rows@, turns@, i as nat).len(),
                forall|k: int|
                    0 <= k < updates@.len() ==> {
                        let j = assigned_rows(rows@, turns@, i as nat)[k];
                        gives_speaker(
                            #[trigger] updates@[k],
                            rows@[j],
                            turns@[turn_for(rows@[j], turns@)->0],
                        )
                    },
            decreases rows@.len() - i,
        {
            let row: &SegmentRow = &rows[i];
            let confirmed: bool = match row.speaker_confirmed {
                Some(c) => c == 1,
                None => false,
            };
            let best: Option<usize> = match (&row.audio_start_time, &row.audio_end_time) {
                (Some(start), Some(end)) => if confirmed {
                    None
                } else {
                    best_turn_index(start, end, turns)
                },
                _ => None,
            };
            if let Some(b) = best {
                let turn: &SpeakerTurnAssignment = &turns[b];
                updates.push(
                    SegmentUpdate {
                        transcript_id: row.id.clone(),
                        speaker_profile_id: models::copy_text(&turn.speaker_profile_id),
                        speaker_label: turn.speaker_label.clone(),
                        speaker_confidence: turn.confidence,
                        speaker_confirmed: if turn.confirmed {
                            1
                        } else {
                            0
                        },
                    },
                );
            }
            i += 1;
        }
        updates
    }
}

/// A segment that gets a speaker has both of its times and was not confirmed by the user. It gets
/// the name, the profile and the confidence of a turn that lies over it for some time, whether the
/// user confirmed that turn or not: no turn lies over the segment for longer, and every later turn
/// does so for a shorter time.
#[verifier::spinoff_prover]
pub proof fn segments_get_the_speaker_of_their_turn(
    update: SegmentUpdate,
    row: SegmentRow,
    turns: Seq<SpeakerTurnAssignment>,
)
    requires
        turn_for(row, turns) is Some,
        gives_speaker(update, row, turns[turn_for(row, turns)->0]),
    ensures
        ({
            let b = turn_for(row, turns)->0;
            let start = row.audio_start_time->0@;
            let end = row.audio_end_time->0@;
            let met = |i: int|
                double::difference(
                    double::smaller(end, turns[i].end_time@),
                    double::larger(start, turns[i].start_time@),
                );
            &&& row.audio_start_time is Some && row.audio_end_time is Some
            &&& row.speaker_confirmed != Some(1i64)
            &&& !double::at_most(end, start)
            &&& 0 <= b < turns.len()
            &&& double::less(double::zero(), met(b))
            &&& forall|j: int| 0 <= j < turns.len() ==> !double::less(met(b), #[trigger] met(j))
            &&& forall|j: int|
                b < j < turns.len() ==> !double::less(double::zero(), #[trigger] met(j))
                    || double::less(met(j), met(b))
            &&& update.transcript_id@ == row.id@
            &&& update.speaker_label@ == turns[b].speaker_label@
            &&& update.speaker_profile_id is Some <==> turns[b].speaker_profile_id is Some
            &&& update.speaker_profile_id matches Some(id) ==> id@ == turns[b].speaker_profile_id->0@
            &&& update.speaker_confidence == turns[b].confidence
            &&& turns[b].confirmed ==> update.speaker_confirmed == 1
            &&& !turns[b].confirmed ==> update.speaker_confirmed == 0
        }),
{
    let start = row.audio_start_time->0@;
    let end = row.audio_end_time->0@;
    let b = turn_for(row, turns)->0;
    best_turn_is_the_last_of_the_longest(start, end, turns);
    let met = |i: int|
        double::difference(
            double::smaller(end, turns[i].end_time@),
            double::larger(start, turns[i].start_time@),
        );
    assert forall|j: int| 0 <= j < turns.len() implies !double::less(met(b), #[trigger] met(j)) by {
        assert(!double::less(overlap(start, end, turns[b]), overlap(start, end, turns[j])));
    }
    assert forall|j: int| b < j < turns.len() implies !double::less(
        double::zero(),
        #[trigger] met(j),
    ) || double::less(met(j), met(b)) by {
        assert(double::less(overlap(start, end, turns[j]), overlap(start, end, turns[b])));
    }
}

/// A segment gets no speaker just where it lacks a time, the user confirmed its speaker, it has no
/// length, or no turn lies over it for some time.
#[verifier::spinoff_prover]
pub proof fn segments_without_a_turn_stay(row: SegmentRow, turns: Seq<SpeakerTurnAssignment>)
    ensures
        turn_for(row, turns) is None <==> {
            ||| row.audio_start_time is None
            ||| row.audio_end_time is None
            ||| row.speaker_confirmed == Some(1i64)
            ||| double::at_most(row.audio_end_time->0@, row.audio_start_time->0@)
            ||| forall|j: int|
                #![trigger turns[j]]
                0 <= j < turns.len() ==> !double::less(
                    double::larger(row.audio_start_time->0@, turns[j].start_time@),
                    double::smaller(row.audio_end_time->0@, turns[j].end_time@),
                )
        },
{
    let start = row.audio_start_time->0@;
    let end = row.audio_end_time->0@;
    best_turn_is_the_last_of_the_longest(start, end, turns);
    assert forall|j: int| 0 <= j < turns.len() implies (double::less(
        double::zero(),
        #[trigger] overlap(start, end, turns[j]),
    ) <==> double::less(
        double::larger(start, turns[j].start_time@),
        double::smaller(end, turns[j].end_time@),
    )) by {
        overlap_is_positive_where_they_meet(start, end, turns[j]);
    }
    if best_turn(start, end, turns) is None && !double::at_most(end, start) {
        assert forall|j: int| 0 <= j < turns.len() implies !double::less(
            double::larger(start, (#[trigger] turns[j]).start_time@),
            double::smaller(end, turns[j].end_time@),
        ) by {
            assert(!double::less(double::zero(), overlap(start, end, turns[j])));
        }
    }
    if let Some(b) = best_turn(start, end, turns) {
        assert(double::less(double::zero(), overlap(start, end, turns[b])));
    }
}

/// The turns of a meeting and those of other meetings are the rows with and without the meeting's
/// identifier, in the order of the rows.
pub proof fn turns_are_told_apart_by_meeting(rows: Seq<SpeakerTurn>, meeting_id: Seq<char>)
    ensures
        turns_of(rows, meeting_id) == rows.filter(|t: SpeakerTurn| t.meeting_id@ == meeting_id),
        turns_elsewhere(rows, meeting_id) == rows.filter(
            |t: SpeakerTurn| t.meeting_id@ != meeting_id,
        ),
    decreases rows.len(),
{
    reveal(Seq::filter);
    if rows.len() > 0 {
        turns_are_told_apart_by_meeting(rows.drop_last(), meeting_id);
    }
}

/// A cluster is as large as there are rows with its label in the meeting.
pub proof fn clusters_are_counted_by_label(
    rows: Seq<SpeakerTurn>,
    meeting_id: Seq<char>,
    cluster_label: Seq<char>,
)
    ensures
        cluster_size(rows, meeting_id, cluster_label) == rows.filter(
            |t: SpeakerTurn| t.meeting_id@ == meeting_id && t.cluster_label@ == cluster_label,
        ).len(),
    decreases rows.len(),
{
    reveal(Seq::filter);
    if rows.len() > 0 {
        clusters_are_counted_by_label(rows.drop_last(), meeting_id, cluster_label);
    }
}

/// A stored turn tells of the meeting, the cluster, the speaker and the times that it was stored
/// with, and two turns that one row holds agree in all that a row has.
pub proof fn stored_turns_keep_what_they_tell(
    row: SpeakerTurn,
    meeting_id: Seq<char>,
    turn: SpeakerTurnAssignment,
    now: Seq<char>,
)
    requires
        holds_turn(row, meeting_id, turn, now),
    ensures
        row.meeting_id@ == meeting_id,
        row.cluster_label@ == turn.cluster_label@,
        row.speaker_profile_id is Some <==> turn.speaker_profile_id is Some,
        row.speaker_profile_id matches Some(id) ==> id@ == turn.speaker_profile_id->0@,
        row.start_time == turn.start_time,
        row.end_time == turn.end_time,
        row.confidence == turn.confidence,
        row.assignment_source@ == turn.assignment_source@,
        row.confirmed == 1 <==> turn.confirmed,
        row.confirmed == 0 <==> !turn.confirmed,
        row.created_at@ == now,
        row.updated_at@ == now,
{
}

/// Giving a cluster to a speaker touches the rows of that cluster in that meeting and no others,
/// and of those only the speaker, how sure it is, where it comes from and when the row changed.
pub proof fn given_clusters_change_only_their_speaker(
    was: SpeakerTurn,
    new: SpeakerTurn,
    meeting_id: Seq<char>,
    cluster_label: Seq<char>,
    profile_id: Seq<char>,
    confidence: Option<Double>,
    confirmed: bool,
    assignment_source: Seq<char>,
    now: Seq<char>,
)
    requires
        reassigned(
            was,
            new,
            meeting_id,
            cluster_label,
            profile_id,
            confidence,
            confirmed,
            assignment_source,
            now,
        ),
    ensures
        was.meeting_id@ != meeting_id || was.cluster_label@ != cluster_label ==> new == was,
        was.meeting_id@ == meeting_id && was.cluster_label@ == cluster_label ==> {
            &&& new.speaker_profile_id is Some
            &&& new.speaker_profile_id->0@ == profile_id
            &&& new.confidence == confidence
            &&& confirmed ==> new.confirmed == 1
            &&& !confirmed ==> new.confirmed == 0
            &&& new.assignment_source@ == assignment_source
            &&& new.updated_at@ == now
        },
        new.id == was.id,
        new.meeting_id == was.meeting_id,
        new.cluster_label == was.cluster_label,
        new.start_time == was.start_time,
        new.end_time == was.end_time,
        new.created_at == was.created_at,
{
}

/// The turn that overlaps a segment longest is the one that is found.
pub proof fn the_longest_overlap_is_found(
    start: &Double,
    end: &Double,
    turns: &[SpeakerTurnAssignment],
    r: Option<&SpeakerTurnAssignment>,
)
    requires
        call_ensures(best_turn_for_segment, (start, end, turns), r),
    ensures
        r is Some <==> best_turn(start@, end@, turns@) is Some,
        r matches Some(turn) ==> *turn == turns@[best_turn(start@, end@, turns@)->0],
{
}

/// A row is written with its identifier, and the turns of a meeting are listed by start time.
pub proof fn turns_are_written_and_listed(
    id: String,
    meeting_id: &str,
    turn: &SpeakerTurnAssignment,
    now: &str,
    row: SpeakerTurn,
    rows: &[SpeakerTurn],
    listed: Vec<SpeakerTurn>,
)
    requires
        call_ensures(turn_row, (id, meeting_id, turn, now), row),
        call_ensures(SpeakerTurnRepository::list_meeting_turns, (rows, meeting_id), listed),
    ensures
        row.id@ == id@,
        holds_turn(row, meeting_id@, *turn, now@),
        listed@ == turns_by_start(turns_of(rows@, meeting_id@)),
{
}

/// Every segment that gets a speaker is written once, in the order of the segments, with the label
/// of the turn that overlaps it longest, whether that turn is confirmed or not.
#[verifier::spinoff_prover]
pub proof fn segments_are_written_with_their_turn(
    rows: &[SegmentRow],
    turns: &[SpeakerTurnAssignment],
    r: Vec<SegmentUpdate>,
    k: int,
)
    requires
        call_ensures(SpeakerTurnRepository::assign_transcripts_by_overlap, (rows, turns), r),
    ensures
        r@.len() == assigned_rows(rows@, turns@, rows@.len()).len(),
        0 <= k < r@.len() ==> {
            let i = assigned_rows(rows@, turns@, rows@.len())[k];
            let turn = turns@[turn_for(rows@[i], turns@)->0];
            &&& 0 <= i < rows@.len()
            &&& rows@[i].speaker_confirmed != Some(1i64)
            &&& r@[k].transcript_id@ == rows@[i].id@
            &&& r@[k].speaker_label@ == turn.speaker_label@
            &&& r@[k].speaker_profile_id == turn.speaker_profile_id
            &&& r@[k].speaker_confidence == turn.confidence
            &&& r@[k].speaker_confirmed == 1 <==> turn.confirmed
        },
{
    confirmed_segments_are_never_written(rows@, turns@, rows@.len());
    if 0 <= k < r@.len() {
        assert(gives_speaker(
            r@[k],
            rows@[assigned_rows(rows@, turns@, rows@.len())[k]],
            turns@[turn_for(rows@[assigned_rows(rows@, turns@, rows@.len())[k]], turns@)->0],
        ));
    }
}

} // verus!
