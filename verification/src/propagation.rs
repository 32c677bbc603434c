//! Which other meetings are identified again after a speaker was assigned, and what came of it.

use crate::text;
use vstd::prelude::*;
use vstd::string::*;

verus! {

/// How many other meetings one assignment identifies again at most.
pub const MAX_PROPAGATION_MEETINGS: usize = 25;

/// What came of identifying speakers in other meetings.
#[derive(Clone, Copy, PartialEq, Eq, Structural, Debug)]
pub struct SpeakerPropagationSummary {
    pub meeting_count: u64,
    pub transcript_count: u64,
    pub error_count: u64,
}

/// A meeting whose speakers may be identified again.
pub struct PropagationCandidate {
    pub meeting_id: String,
    pub folder_path: Option<String>,
    pub confirmed_turn_count: i64,
}

/// The meetings whose speakers are identified again.
pub struct PropagationPlan {
    pub meeting_ids: Vec<String>,
    /// Whether there are more than are identified at once.
    pub capped: bool,
}

/// Whether the speakers of a meeting are identified again after a speaker was assigned in another:
/// it has a recording, and the user has confirmed none of its turns.
pub open spec fn is_eligible(c: PropagationCandidate, source: Seq<char>) -> bool {
    &&& c.meeting_id@ != source
    &&& c.folder_path matches Some(path) && !text::is_blank(path@)
    &&& c.confirmed_turn_count == 0
}

/// Whether the speakers of the meeting are identified again.
pub fn should_propagate_to_meeting(
    meeting_id: &str,
    source_meeting_id: &str,
    folder_path: Option<&str>,
    confirmed_turn_count: i64,
) -> (r: bool)
    ensures
        r == (meeting_id@ != source_meeting_id@ && (folder_path matches Some(path)
            && !text::is_blank(path@)) && confirmed_turn_count == 0),
{
    let recorded: bool = match folder_path {
        Some(path) => !text::is_blank_text(path),
        None => false,
    };
    !text::same_text(meeting_id, source_meeting_id) && recorded && confirmed_turn_count == 0
}

/// The eligible ones of the first `n` meetings, in their order.
pub open spec fn eligible(candidates: Seq<PropagationCandidate>, source: Seq<char>, n: nat) -> Seq<
    String,
>
    decreases n,
{
    if n == 0 {
        Seq::empty()
    } else if is_eligible(candidates[n - 1], source) {
        eligible(candidates, source, (n - 1) as nat).push(candidates[n - 1].meeting_id)
    } else {
        eligible(candidates, source, (n - 1) as nat)
    }
}

/// The first ones of some texts, as many as are identified at once.
pub open spec fn first_ones(ids: Seq<String>) -> Seq<String> {
    if ids.len() <= MAX_PROPAGATION_MEETINGS {
        ids
    } else {
        ids.take(MAX_PROPAGATION_MEETINGS as int)
    }
}

/// The meetings whose speakers are identified again after a speaker was assigned in another.
pub fn plan_propagation(candidates: &[PropagationCandidate], source_meeting_id: &str) -> (r:
    PropagationPlan)
    ensures
        r.meeting_ids@ == first_ones(
            eligible(candidates@, source_meeting_id@, candidates@.len()),
        ),
        r.capped == (eligible(candidates@, source_meeting_id@, candidates@.len()).len()
            > MAX_PROPAGATION_MEETINGS),
{
    let mut meeting_ids: Vec<String> = Vec::new();
    let mut capped: bool = false;
    let mut i: usize = 0;
    while i < candidates.len()
        invariant
            i <= candidates@.len(),
            meeting_ids@ == first_ones(eligible(candidates@, source_meeting_id@, i as nat)),
            capped == (eligible(candidates@, source_meeting_id@, i as nat).len()
                > MAX_PROPAGATION_MEETINGS),
        decreases candidates@.len() - i,
    {
        let ghost before = eligible(candidates@, source_meeting_id@, i as nat);
        let candidate: &PropagationCandidate = &candidates[i];
        let folder: Option<&str> = match &candidate.folder_path {
            Some(path) => Some(path.as_str()),
            None => None,
        };
        if should_propagate_to_meeting(
            candidate.meeting_id.as_str(),
            source_meeting_id,
            folder,
            candidate.confirmed_turn_count,
        ) {
            assert(is_eligible(candidates@[i as int], source_meeting_id@));
            let ghost after = before.push(candidates@[i as int].meeting_id);
            if meeting_ids.len() < MAX_PROPAGATION_MEETINGS {
                meeting_ids.push(candidate.meeting_id.clone());
                assert(meeting_ids@ =~= first_ones(after));
            } else {
                capped = true;
                assert(meeting_ids@ =~= first_ones(after));
            }
        } else {
            assert(!is_eligible(candidates@[i as int], source_meeting_id@));
        }
        i += 1;
    }
    PropagationPlan { meeting_ids, capped }
}

/// Identifying other meetings again is bounded, leaves the meeting in which the speaker was
/// assigned alone, and leaves alone whatever the user has confirmed.
pub proof fn propagation_respects_the_user(
    candidates: Seq<PropagationCandidate>,
    source: Seq<char>,
    n: nat,
    k: int,
)
    requires
        n <= candidates.len(),
        0 <= k < first_ones(eligible(candidates, source, n)).len(),
    ensures
        first_ones(eligible(candidates, source, n)).len() <= MAX_PROPAGATION_MEETINGS,
        exists|i: int|
            0 <= i < n && (#[trigger] candidates[i]).meeting_id == first_ones(
                eligible(candidates, source, n),
            )[k] && candidates[i].meeting_id@ != source && candidates[i].confirmed_turn_count == 0
                && candidates[i].folder_path is Some,
{
    lemma_eligible(candidates, source, n, k);
}

proof fn lemma_eligible(candidates: Seq<PropagationCandidate>, source: Seq<char>, n: nat, k: int)
    requires
        n <= candidates.len(),
        0 <= k < eligible(candidates, source, n).len(),
    ensures
        exists|i: int|
            0 <= i < n && (#[trigger] candidates[i]).meeting_id == eligible(candidates, source, n)[k]
                && is_eligible(candidates[i], source),
    decreases n,
{
    let before = eligible(candidates, source, (n - 1) as nat);
    if k < before.len() {
        lemma_eligible(candidates, source, (n - 1) as nat, k);
    } else {
        assert(is_eligible(candidates[n - 1], source));
    }
}

/// The summary after one more meeting, in which so many segments were updated, or which failed.
pub open spec fn tallied(s: SpeakerPropagationSummary, updated: Option<u64>) -> SpeakerPropagationSummary {
    match updated {
        Some(n) => SpeakerPropagationSummary {
            meeting_count: (s.meeting_count + 1) as u64,
            transcript_count: (s.transcript_count + n) as u64,
            ..s
        },
        None => SpeakerPropagationSummary { error_count: (s.error_count + 1) as u64, ..s },
    }
}

impl SpeakerPropagationSummary {
    /// No meeting was identified again.
    pub fn new() -> (r: SpeakerPropagationSummary)
        ensures
            r == (SpeakerPropagationSummary {
                meeting_count: 0,
                transcript_count: 0,
                error_count: 0,
            }),
    {
        SpeakerPropagationSummary { meeting_count: 0, transcript_count: 0, error_count: 0 }
    }

    /// The meetings could not even be listed.
    pub fn failed() -> (r: SpeakerPropagationSummary)
        ensures
            r == (SpeakerPropagationSummary {
                meeting_count: 0,
                transcript_count: 0,
                error_count: 1,
            }),
    {
        SpeakerPropagationSummary { meeting_count: 0, transcript_count: 0, error_count: 1 }
    }

    /// Counts one more meeting, in which so many segments were updated, or which failed.
    pub fn record(&mut self, updated: Option<u64>)
        requires
            updated matches Some(n) ==> old(self).meeting_count < u64::MAX && old(
                self,
            ).transcript_count + n <= u64::MAX,
            updated is None ==> old(self).error_count < u64::MAX,
        ensures
            *final(self) == tallied(*old(self), updated),
    {
        match updated {
            Some(n) => {
                self.meeting_count += 1;
                self.transcript_count += n;
            },
            None => {
                self.error_count += 1;
            },
        }
    }
}

/// The summary after some meetings.
pub open spec fn tally(outcomes: Seq<Option<u64>>) -> SpeakerPropagationSummary
    decreases outcomes.len(),
{
    if outcomes.len() == 0 {
        SpeakerPropagationSummary { meeting_count: 0, transcript_count: 0, error_count: 0 }
    } else {
        tallied(tally(outcomes.drop_last()), outcomes.last())
    }
}

/// Every meeting that is tried is counted once, as identified or as failed: one that fails does
/// not keep the others from being tried.
pub proof fn every_meeting_is_counted(outcomes: Seq<Option<u64>>)
    requires
        outcomes.len() <= MAX_PROPAGATION_MEETINGS,
    ensures
        tally(outcomes).meeting_count + tally(outcomes).error_count == outcomes.len(),
    decreases outcomes.len(),
{
    if outcomes.len() > 0 {
        every_meeting_is_counted(outcomes.drop_last());
    }
}

/// The meetings that a speaker can be carried over to are those of other identifiers that have a
/// folder and no turn confirmed by the user, in the order of the candidates, none left out.
pub proof fn every_open_meeting_is_eligible(
    candidates: Seq<PropagationCandidate>,
    source: Seq<char>,
    n: nat,
)
    requires
        n <= candidates.len(),
    ensures
        ({
            let open = candidates.take(n as int).filter(
                |c: PropagationCandidate|
                    c.meeting_id@ != source && c.confirmed_turn_count == 0 && c.folder_path is Some
                        && !text::is_blank(c.folder_path->0@),
            );
            &&& eligible(candidates, source, n).len() == open.len()
            &&& forall|k: int|
                0 <= k < open.len() ==> #[trigger] eligible(candidates, source, n)[k]
                    == open[k].meeting_id
        }),
    decreases n,
{
    reveal(Seq::filter);
    if n > 0 {
        every_open_meeting_is_eligible(candidates, source, (n - 1) as nat);
        assert(candidates.take(n as int).drop_last() =~= candidates.take(n - 1));
    }
}

/// A speaker is carried over to the first twenty-five of the meetings that are open to it, and to
/// all of them where there are no more.
pub proof fn the_first_meetings_are_taken(ids: Seq<String>)
    ensures
        first_ones(ids).is_prefix_of(ids),
        ids.len() <= 25 ==> first_ones(ids) == ids,
        ids.len() > 25 ==> first_ones(ids).len() == 25,
{
}

/// Each meeting that was reached adds one to the meetings and its segments to the segments, and
/// each that was not adds one to the errors.
pub proof fn outcomes_add_up(outcomes: Seq<Option<u64>>, more: Option<u64>)
    ensures
        ({
            let before = tally(outcomes);
            let after = tally(outcomes.push(more));
            &&& more matches Some(n) ==> before.meeting_count < u64::MAX && before.transcript_count
                + n <= u64::MAX ==> after.meeting_count == before.meeting_count + 1
                && after.transcript_count == before.transcript_count + n && after.error_count
                == before.error_count
            &&& more is None && before.error_count < u64::MAX ==> after.error_count
                == before.error_count + 1 && after.meeting_count == before.meeting_count
                && after.transcript_count == before.transcript_count
        }),
        tally(Seq::empty()) == (SpeakerPropagationSummary {
            meeting_count: 0,
            transcript_count: 0,
            error_count: 0,
        }),
{
    assert(outcomes.push(more).drop_last() =~= outcomes);
}

/// One outcome more adds one meeting and its segments, or one error.
pub proof fn one_outcome_is_tallied(s: SpeakerPropagationSummary, updated: Option<u64>)
    ensures
        updated matches Some(n) ==> s.meeting_count < u64::MAX && s.transcript_count + n <= u64::MAX
            ==> {
            &&& tallied(s, updated).meeting_count == s.meeting_count + 1
            &&& tallied(s, updated).transcript_count == s.transcript_count + n
            &&& tallied(s, updated).error_count == s.error_count
        },
        updated is None && s.error_count < u64::MAX ==> {
            &&& tallied(s, updated).meeting_count == s.meeting_count
            &&& tallied(s, updated).transcript_count == s.transcript_count
            &&& tallied(s, updated).error_count == s.error_count + 1
        },
{
}

/// A speaker is carried over to another meeting that has a folder and no turn that the user
/// confirmed; the plan takes the first of those meetings, and tells whether it left any out.
pub proof fn plans_take_the_first_open_meetings(
    meeting_id: &str,
    source: &str,
    folder: Option<&str>,
    confirmed: i64,
    should: bool,
    candidates: &[PropagationCandidate],
    plan: PropagationPlan,
    fresh: SpeakerPropagationSummary,
    failed: SpeakerPropagationSummary,
)
    requires
        call_ensures(should_propagate_to_meeting, (meeting_id, source, folder, confirmed), should),
        call_ensures(plan_propagation, (candidates, source), plan),
        call_ensures(SpeakerPropagationSummary::new, (), fresh),
        call_ensures(SpeakerPropagationSummary::failed, (), failed),
    ensures
        should <==> meeting_id@ != source@ && folder is Some && !text::is_blank(folder->0@)
            && confirmed == 0,
        plan.meeting_ids@ == first_ones(eligible(candidates@, source@, candidates@.len())),
        plan.capped <==> eligible(candidates@, source@, candidates@.len()).len() > 25,
        fresh.meeting_count == 0 && fresh.transcript_count == 0 && fresh.error_count == 0,
        failed.meeting_count == 0 && failed.transcript_count == 0 && failed.error_count == 1,
{
}

} // verus!
