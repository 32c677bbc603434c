//! Speaker profiles and voiceprints as the database holds them.

use crate::double::Double;
use crate::models;
use crate::models::{SpeakerProfile, SpeakerVoiceprint};
use crate::order;
use crate::outside;
use crate::text;
use vstd::prelude::*;
use vstd::string::*;

verus! {

/// The speakers of all meetings as the database holds them.
pub struct SpeakerRepository;

/// The profiles that are not archived, in the order of the rows.
pub open spec fn active(rows: Seq<SpeakerProfile>) -> Seq<SpeakerProfile>
    decreases rows.len(),
{
    if rows.len() == 0 {
        Seq::empty()
    } else if rows.last().archived_at is None {
        active(rows.drop_last()).push(rows.last())
    } else {
        active(rows.drop_last())
    }
}

/// The names of profiles.
pub open spec fn names(profiles: Seq<SpeakerProfile>) -> Seq<String> {
    Seq::new(profiles.len(), |i: int| profiles[i].display_name)
}

/// The profiles in the order of their names, equal names in the given order.
pub open spec fn by_name(profiles: Seq<SpeakerProfile>) -> Seq<SpeakerProfile> {
    let by_name = order::stable_order(names(profiles), profiles.len());
    Seq::new(profiles.len(), |k: int| profiles[by_name[k]])
}

/// The active profiles are those rows, and only those, that are not archived.
pub proof fn active_are_those_not_archived(rows: Seq<SpeakerProfile>, p: SpeakerProfile)
    ensures
        active(rows).contains(p) <==> rows.contains(p) && p.archived_at is None,
    decreases rows.len(),
{
    if rows.len() > 0 {
        let head = rows.drop_last();
        active_are_those_not_archived(head, p);
        if active(rows).contains(p) {
            let w = active(rows).index_of(p);
            if w < active(head).len() {
                assert(active(head)[w] == p);
                let v = head.index_of(p);
                assert(rows[v] == p);
            } else {
                assert(rows[rows.len() - 1] == p);
            }
        }
        if rows.contains(p) && p.archived_at is None {
            let v = rows.index_of(p);
            if v < head.len() {
                assert(head[v] == p);
                let w = active(head).index_of(p);
                assert(active(rows)[w] == p);
            } else {
                assert(active(rows)[active(head).len() as int] == p);
            }
        }
    }
}

/// The profiles are listed just where they are not archived, each of them, and their names do not
/// fall along the list.
pub proof fn profiles_are_listed_by_name(rows: Seq<SpeakerProfile>, p: SpeakerProfile)
    ensures
        by_name(active(rows)).contains(p) <==> rows.contains(p) && p.archived_at is None,
        by_name(active(rows)).len() == active(rows).len(),
        forall|i: int, j: int|
            0 <= i < j < by_name(active(rows)).len() ==> !text::precedes(
                (#[trigger] by_name(active(rows))[j]).display_name@,
                (#[trigger] by_name(active(rows))[i]).display_name@,
            ),
{
    let there = active(rows);
    let keys = names(there);
    let order = order::stable_order(keys, there.len());
    let listed = by_name(there);
    active_are_those_not_archived(rows, p);
    order::stable_order_lists_each_once(keys, there.len());
    assert forall|k: int| 0 <= k < order.len() implies 0 <= #[trigger] order[k] < there.len() by {
        assert(order.contains(order[k]));
    }
    if listed.contains(p) {
        let k = listed.index_of(p);
        assert(there[order[k]] == p);
    }
    if there.contains(p) {
        let i = there.index_of(p);
        assert(order.contains(i));
        let k = order.index_of(i);
        assert(listed[k] == p);
    }
    assert(order::sortable(keys));
    order::stable_order_is_a_stable_sort(keys, there.len());
    assert forall|i: int, j: int| 0 <= i < j < listed.len() implies !text::precedes(
        (#[trigger] listed[j]).display_name@,
        (#[trigger] listed[i]).display_name@,
    ) by {
        assert(!order::SortKey::precedes(keys[order[j]], keys[order[i]]));
    }
}

/// Whether a voiceprint is one of the speaker by the embedding model.
pub open spec fn is_of(v: SpeakerVoiceprint, profile_id: Seq<char>, model: Seq<char>) -> bool {
    v.speaker_profile_id@ == profile_id && v.embedding_model@ == model
}

/// Of the first `n` rows, the first one of the latest that are of the speaker by the model.
pub open spec fn latest(
    rows: Seq<SpeakerVoiceprint>,
    profile_id: Seq<char>,
    model: Seq<char>,
    n: nat,
) -> Option<int>
    decreases n,
{
    if n == 0 {
        None
    } else {
        let best = latest(rows, profile_id, model, (n - 1) as nat);
        if !is_of(rows[n - 1], profile_id, model) {
            best
        } else {
            match best {
                Some(b) => if text::precedes(rows[b].updated_at@, rows[n - 1].updated_at@) {
                    Some(n - 1)
                } else {
                    best
                },
                None => Some(n - 1),
            }
        }
    }
}

/// What to write so that a voiceprint is stored.
pub enum VoiceprintWrite {
    /// Replace the row of the same identifier.
    Update(SpeakerVoiceprint),
    /// Add a row.
    Insert(SpeakerVoiceprint),
}

/// What is to be remembered of a speaker's voice.
pub struct LearnedVoice {
    pub embedding_model: String,
    pub embedding: Vec<u8>,
    pub sample_count: i64,
    pub total_duration: Double,
    pub source_meeting_id: Option<String>,
    pub source_cluster_label: Option<String>,
}

/// Whether a row holds what was learned.
pub open spec fn holds_voice(v: SpeakerVoiceprint, voice: LearnedVoice) -> bool {
    &&& v.embedding == voice.embedding
    &&& v.sample_count == voice.sample_count
    &&& v.total_duration == voice.total_duration
    &&& v.source_meeting_id == voice.source_meeting_id
    &&& v.source_cluster_label == voice.source_cluster_label
}

/// Whether `write` stores what was learned of a speaker: in the latest row of the speaker by the
/// model where there is one, which keeps its identity, else in a new row.
pub open spec fn stores_voice(
    write: VoiceprintWrite,
    rows: Seq<SpeakerVoiceprint>,
    profile_id: Seq<char>,
    voice: LearnedVoice,
) -> bool {
    match latest(rows, profile_id, voice.embedding_model@, rows.len()) {
        Some(i) => write matches VoiceprintWrite::Update(v) && {
            &&& v.id == rows[i].id
            &&& v.speaker_profile_id == rows[i].speaker_profile_id
            &&& v.embedding_model == rows[i].embedding_model
            &&& v.created_at == rows[i].created_at
            &&& outside::is_utc_time(v.updated_at@)
            &&& holds_voice(v, voice)
        },
        None => write matches VoiceprintWrite::Insert(v) && {
            &&& outside::is_fresh_id(v.id@, "speaker-voiceprint-"@)
            &&& is_of(v, profile_id, voice.embedding_model@)
            &&& outside::is_utc_time(v.created_at@)
            &&& v.updated_at == v.created_at
            &&& holds_voice(v, voice)
        },
    }
}

impl SpeakerRepository {
    /// The profiles that are not archived, in the order of their names.
    pub fn list_profiles(rows: &[SpeakerProfile]) -> (r: Vec<SpeakerProfile>)
        ensures
            r@ == by_name(active(rows@)),
    {
        let mut there: Vec<SpeakerProfile> = Vec::new();
        let mut keys: Vec<String> = Vec::new();
        let mut i: usize = 0;
        while i < rows.len()
            invariant
                i <= rows@.len(),
                there@ == active(rows@.take(i as int)),
                keys@ == names(there@),
            decreases rows@.len() - i,
        {
            assert(rows@.take(i + 1).drop_last() =~= rows@.take(i as int));
            if rows[i].archived_at.is_none() {
                there.push(models::copy_profile(&rows[i]));
                keys.push(rows[i].display_name.clone());
                assert(keys@ =~= names(there@));
            }
            i += 1;
        }
        assert(rows@.take(i as int) =~= rows@);
        let order: Vec<usize> = order::sort_indices(&keys);
        let mut r: Vec<SpeakerProfile> = Vec::new();
        let mut k: usize = 0;
        while k < order.len()
            invariant
                k <= order@.len(),
                order@.len() == there@.len(),
                order::indices(order@) == order::stable_order(names(there@), there@.len()),
                forall|j: int| 0 <= j < order@.len() ==> #[trigger] order@[j] < there@.len(),
                r@ == by_name(there@).take(k as int),
            decreases order@.len() - k,
        {
            assert(order::indices(order@)[k as int] == order@[k as int]);
            r.push(models::copy_profile(&there[order[k]]));
            assert(r@ =~= by_name(there@).take(k + 1));
            k += 1;
        }
        assert(by_name(there@).take(k as int) =~= by_name(there@));
        r
    }

    /// A new profile: its name without surrounding whitespace, its color, and the present time.
    pub fn create_profile(display_name: &str, color: Option<&str>) -> (r: SpeakerProfile)
        ensures
            outside::is_fresh_id(r.id@, "speaker-profile-"@),
            r.display_name@ == text::trimmed(display_name@),
            models::text_view(r.color) == models::str_view(color),
            outside::is_utc_time(r.created_at@),
            outside::is_utc_time(r.updated_at@),
            r.archived_at is None,
    {
        SpeakerProfile {
            id: outside::fresh_id("speaker-profile-"),
            display_name: text::trim(display_name).to_owned(),
            color: models::own_text(color),
            created_at: outside::now_rfc3339(),
            updated_at: outside::now_rfc3339(),
            archived_at: None,
        }
    }

    /// The profile that was found, with a new name and the present time; none where there is none
    /// or it is archived.
    pub fn rename_profile(found: Option<&SpeakerProfile>, display_name: &str) -> (r: Option<
        SpeakerProfile,
    >)
        ensures
            match found {
                Some(p) => if p.archived_at is None {
                    r matches Some(q) && {
                        &&& q.id == p.id
                        &&& q.display_name@ == text::trimmed(display_name@)
                        &&& q.color == p.color
                        &&& q.created_at == p.created_at
                        &&& outside::is_utc_time(q.updated_at@)
                        &&& q.archived_at == p.archived_at
                    }
                } else {
                    r is None
                },
                None => r is None,
            },
    {
        match found {
            Some(p) => {
                if p.archived_at.is_some() {
                    return None;
                }
                let mut q = models::copy_profile(p);
                q.display_name = text::trim(display_name).to_owned();
                q.updated_at = outside::now_rfc3339();
                Some(q)
            },
            None => None,
        }
    }

    /// The row to write so that what was learned of a speaker's voice is stored: the latest row
    /// of the speaker by the same model is updated in place, else a row is added.
    pub fn upsert_voiceprint(rows: &[SpeakerVoiceprint], profile_id: &str, voice: LearnedVoice) -> (r:
        VoiceprintWrite)
        ensures
            stores_voice(r, rows@, profile_id@, voice),
    {
        let now = outside::now_rfc3339();
        match latest_voiceprint(rows, profile_id, voice.embedding_model.as_str()) {
            Some(i) => {
                let row: &SpeakerVoiceprint = &rows[i];
                VoiceprintWrite::Update(
                    SpeakerVoiceprint {
                        id: row.id.clone(),
                        speaker_profile_id: row.speaker_profile_id.clone(),
                        embedding_model: row.embedding_model.clone(),
                        embedding: voice.embedding,
                        sample_count: voice.sample_count,
                        total_duration: voice.total_duration,
                        source_meeting_id: voice.source_meeting_id,
                        source_cluster_label: voice.source_cluster_label,
                        created_at: row.created_at.clone(),
                        updated_at: now,
                    },
                )
            },
            None => VoiceprintWrite::Insert(
                SpeakerVoiceprint {
                    id: outside::fresh_id("speaker-voiceprint-"),
                    speaker_profile_id: profile_id.to_owned(),
                    embedding_model: voice.embedding_model,
                    embedding: voice.embedding,
                    sample_count: voice.sample_count,
                    total_duration: voice.total_duration,
                    source_meeting_id: voice.source_meeting_id,
                    source_cluster_label: voice.source_cluster_label,
                    created_at: now.clone(),
                    updated_at: now,
                },
            ),
        }
    }
}

/// The index of the latest voiceprint of the speaker by the model.
fn latest_voiceprint(rows: &[SpeakerVoiceprint], profile_id: &str, model: &str) -> (r: Option<usize>)
    ensures
        r is Some <==> latest(rows@, profile_id@, model@, rows@.len()) is Some,
        r matches Some(i) ==> i < rows@.len() && latest(rows@, profile_id@, model@, rows@.len())
            == Some(i as int),
{
    let mut best: Option<usize> = None;
    let mut i: usize = 0;
    while i < rows.len()
        invariant
            i <= rows@.len(),
            best is Some <==> latest(rows@, profile_id@, model@, i as nat) is Some,
            best matches Some(b) ==> b < i && latest(rows@, profile_id@, model@, i as nat) == Some(
                b as int,
            ),
        decreases rows@.len() - i,
    {
        if text::same_text(rows[i].speaker_profile_id.as_str(), profile_id) && text::same_text(
            rows[i].embedding_model.as_str(),
            model,
        ) {
            let later: bool = match best {
                Some(b) => text::is_before(
                    rows[b].updated_at.as_str(),
                    rows[i].updated_at.as_str(),
                ),
                None => true,
            };
            if later {
                best = Some(i);
            }
        }
        i += 1;
    }
    best
}

/// The latest voiceprint of a speaker by a model is one of them, no other is later, and there is
/// none exactly if the speaker has no voiceprint by the model.
pub proof fn latest_is_the_latest(
    rows: Seq<SpeakerVoiceprint>,
    profile_id: Seq<char>,
    model: Seq<char>,
    n: nat,
)
    requires
        n <= rows.len(),
    ensures
        match latest(rows, profile_id, model, n) {
            Some(b) => {
                &&& 0 <= b < n
                &&& is_of(rows[b], profile_id, model)
                &&& forall|i: int|
                    0 <= i < n && is_of(#[trigger] rows[i], profile_id, model) ==> !text::precedes(
                        rows[b].updated_at@,
                        rows[i].updated_at@,
                    )
            },
            None => forall|i: int| 0 <= i < n ==> !is_of(#[trigger] rows[i], profile_id, model),
        },
    decreases n,
{
    if n > 0 {
        latest_is_the_latest(rows, profile_id, model, (n - 1) as nat);
        if let Some(b) = latest(rows, profile_id, model, (n - 1) as nat) {
            let new = rows[n - 1].updated_at@;
            let old = rows[b].updated_at@;
            text::precedes_is_asymmetric(new, new);
            assert forall|i: int|
                0 <= i < n - 1 && is_of(#[trigger] rows[i], profile_id, model) && text::precedes(
                    old,
                    new,
                ) implies !text::precedes(new, rows[i].updated_at@) by {
                text::precedes_is_asymmetric(old, new);
                text::precedes_is_transitive(new, old, rows[i].updated_at@);
            }
        } else {
            let new = rows[n - 1].updated_at@;
            text::precedes_is_asymmetric(new, new);
        }
    }
}

/// The rows after a write.
pub open spec fn after_write(rows: Seq<SpeakerVoiceprint>, write: VoiceprintWrite) -> Seq<
    SpeakerVoiceprint,
> {
    match write {
        VoiceprintWrite::Update(v) => Seq::new(
            rows.len(),
            |i: int|
                if rows[i].id == v.id {
                    v
                } else {
                    rows[i]
                },
        ),
        VoiceprintWrite::Insert(v) => rows.push(v),
    }
}

/// Whether no speaker has two voiceprints by the same model, and no identifier occurs twice.
pub open spec fn one_per_model(rows: Seq<SpeakerVoiceprint>) -> bool {
    forall|i: int, j: int|
        0 <= i < j < rows.len() ==> #[trigger] rows[i].id@ != #[trigger] rows[j].id@ && !(
        rows[i].speaker_profile_id@ == rows[j].speaker_profile_id@ && rows[i].embedding_model@
            == rows[j].embedding_model@)
}

/// Updating a row under its identifier, speaker and model changes that row alone, and keeps one
/// voiceprint per model.
#[verifier::spinoff_prover]
proof fn lemma_update_keeps_one(rows: Seq<SpeakerVoiceprint>, v: SpeakerVoiceprint, b: int)
    requires
        one_per_model(rows),
        0 <= b < rows.len(),
        v.id == rows[b].id,
        v.speaker_profile_id@ == rows[b].speaker_profile_id@,
        v.embedding_model@ == rows[b].embedding_model@,
    ensures
        after_write(rows, VoiceprintWrite::Update(v)) == rows.update(b, v),
        one_per_model(rows.update(b, v)),
{
    let after = rows.update(b, v);
    assert forall|i: int| 0 <= i < rows.len() implies after_write(rows, VoiceprintWrite::Update(v))[i]
        == #[trigger] after[i] by {
        if i < b {
            assert(rows[i].id@ != rows[b].id@);
        } else if i > b {
            assert(rows[b].id@ != rows[i].id@);
        }
    }
    assert(after_write(rows, VoiceprintWrite::Update(v)) =~= after);
    assert forall|i: int, j: int| 0 <= i < j < after.len() implies #[trigger] after[i].id@
        != #[trigger] after[j].id@ && !(after[i].speaker_profile_id@ == after[j].speaker_profile_id@
        && after[i].embedding_model@ == after[j].embedding_model@) by {
        assert(rows[i].id@ != rows[j].id@);
    }
}

/// A new row under a new identifier, for a speaker without a voiceprint by the model, keeps one
/// voiceprint per model.
#[verifier::spinoff_prover]
proof fn lemma_insert_keeps_one(rows: Seq<SpeakerVoiceprint>, v: SpeakerVoiceprint)
    requires
        one_per_model(rows),
        forall|i: int| 0 <= i < rows.len() ==> (#[trigger] rows[i]).id@ != v.id@,
        forall|i: int|
            0 <= i < rows.len() ==> !is_of(
                #[trigger] rows[i],
                v.speaker_profile_id@,
                v.embedding_model@,
            ),
    ensures
        one_per_model(rows.push(v)),
{
    let after = rows.push(v);
    assert forall|i: int, j: int| 0 <= i < j < after.len() implies #[trigger] after[i].id@
        != #[trigger] after[j].id@ && !(after[i].speaker_profile_id@ == after[j].speaker_profile_id@
        && after[i].embedding_model@ == after[j].embedding_model@) by {
        if j < rows.len() {
            assert(rows[i].id@ != rows[j].id@);
        } else {
            assert(!is_of(rows[i], v.speaker_profile_id@, v.embedding_model@));
        }
    }
}

/// Storing what was learned never gives a speaker a second voiceprint by the same model: where
/// there is one, its row is reused under its identifier, and voiceprints by other models and of
/// other speakers stay as they are.
#[verifier::spinoff_prover]
pub proof fn upsert_keeps_one_voiceprint_per_model(
    rows: Seq<SpeakerVoiceprint>,
    profile_id: Seq<char>,
    voice: LearnedVoice,
    write: VoiceprintWrite,
)
    requires
        one_per_model(rows),
        stores_voice(write, rows, profile_id, voice),
        write matches VoiceprintWrite::Insert(v) ==> forall|i: int|
            0 <= i < rows.len() ==> (#[trigger] rows[i]).id@ != v.id@,
    ensures
        one_per_model(after_write(rows, write)),
        forall|i: int|
            0 <= i < rows.len() && !is_of(#[trigger] rows[i], profile_id, voice.embedding_model@)
                ==> after_write(rows, write)[i] == rows[i],
        exists|i: int|
            0 <= i < after_write(rows, write).len() && is_of(
                #[trigger] after_write(rows, write)[i],
                profile_id,
                voice.embedding_model@,
            ) && holds_voice(after_write(rows, write)[i], voice),
{
    let model = voice.embedding_model@;
    let after = after_write(rows, write);
    latest_is_the_latest(rows, profile_id, model, rows.len());
    match write {
        VoiceprintWrite::Update(v) => {
            let b = latest(rows, profile_id, model, rows.len())->0;
            lemma_update_keeps_one(rows, v, b);
            assert(after[b] == v);
            assert(is_of(after[b], profile_id, model) && holds_voice(after[b], voice));
            assert forall|i: int|
                0 <= i < rows.len() && !is_of(#[trigger] rows[i], profile_id, model) implies after[i]
                == rows[i] by {
                assert(i != b);
            }
        },
        VoiceprintWrite::Insert(v) => {
            let n = rows.len() as int;
            lemma_insert_keeps_one(rows, v);
            assert(after[n] == v);
            assert(is_of(after[n], profile_id, model) && holds_voice(after[n], voice));
        },
    }
}

/// The active profiles are the rows without the archived ones, in the order of the rows.
pub proof fn archived_profiles_are_left_out(rows: Seq<SpeakerProfile>)
    ensures
        active(rows) == rows.filter(|p: SpeakerProfile| p.archived_at is None),
    decreases rows.len(),
{
    reveal(Seq::filter);
    if rows.len() > 0 {
        archived_profiles_are_left_out(rows.drop_last());
    }
}

/// Listing profiles by name takes each of them once, and keeps those of one name in their order.
#[verifier::spinoff_prover]
pub proof fn profiles_of_one_name_keep_their_order(profiles: Seq<SpeakerProfile>)
    ensures
        exists|o: Seq<int>|
            #![trigger order::lists_each_once(o, profiles.len())]
            {
                &&& order::lists_each_once(o, profiles.len())
                &&& o.len() == profiles.len()
                &&& order::rises_stably(
                    o,
                    Seq::new(profiles.len(), |i: int| profiles[i].display_name),
                )
                &&& by_name(profiles).len() == profiles.len()
                &&& forall|k: int|
                    0 <= k < profiles.len() ==> #[trigger] by_name(profiles)[k] == profiles[o[k]]
            },
{
    let n = profiles.len();
    let keys = names(profiles);
    let o = order::stable_order(keys, n);
    order::stable_order_lists_each_once(keys, n);
    assert(order::sortable(keys));
    order::stable_order_is_a_stable_sort(keys, n);
    assert(keys =~= Seq::new(n, |i: int| profiles[i].display_name));
    assert(order::lists_each_once(o, profiles.len()));
}

/// Of the voiceprints of a speaker by a model, the one that was updated last is taken, and the
/// first of several such.
#[verifier::spinoff_prover]
pub proof fn the_first_of_the_latest_is_taken(
    rows: Seq<SpeakerVoiceprint>,
    profile_id: Seq<char>,
    model: Seq<char>,
    n: nat,
)
    requires
        n <= rows.len(),
    ensures
        latest(rows, profile_id, model, n) matches Some(b) ==> {
            &&& 0 <= b < n
            &&& rows[b].speaker_profile_id@ == profile_id && rows[b].embedding_model@ == model
            &&& forall|i: int|
                0 <= i < n && (#[trigger] rows[i]).speaker_profile_id@ == profile_id
                    && rows[i].embedding_model@ == model ==> !text::precedes(
                    rows[b].updated_at@,
                    rows[i].updated_at@,
                ) && (i < b ==> text::precedes(rows[i].updated_at@, rows[b].updated_at@))
        },
        latest(rows, profile_id, model, n) is None <==> forall|i: int|
            0 <= i < n ==> (#[trigger] rows[i]).speaker_profile_id@ != profile_id
                || rows[i].embedding_model@ != model,
    decreases n,
{
    latest_is_the_latest(rows, profile_id, model, n);
    if n > 0 {
        let m = (n - 1) as nat;
        the_first_of_the_latest_is_taken(rows, profile_id, model, m);
        if let Some(b) = latest(rows, profile_id, model, n) {
            assert(is_of(rows[b], profile_id, model));
            assert forall|i: int|
                0 <= i < n && (#[trigger] rows[i]).speaker_profile_id@ == profile_id
                    && rows[i].embedding_model@ == model implies !text::precedes(
                rows[b].updated_at@,
                rows[i].updated_at@,
            ) && (i < b ==> text::precedes(rows[i].updated_at@, rows[b].updated_at@)) by {
                assert(is_of(rows[i], profile_id, model));
                if b == n - 1 && i < b {
                    let old = latest(rows, profile_id, model, m)->0;
                    assert(!text::precedes(rows[old].updated_at@, rows[i].updated_at@));
                    if !text::precedes(rows[i].updated_at@, rows[b].updated_at@) {
                        text::precedes_is_transitive(
                            rows[old].updated_at@,
                            rows[i].updated_at@,
                            rows[b].updated_at@,
                        );
                    }
                }
            }
        } else {
            assert forall|i: int| 0 <= i < n implies (#[trigger] rows[i]).speaker_profile_id@
                != profile_id || rows[i].embedding_model@ != model by {
                assert(!is_of(rows[i], profile_id, model));
            }
        }
    }
}

/// What was learned of a voice is stored whole: in the row of the latest voiceprint by its model,
/// where there is one, which keeps its identifier, its speaker and the time of its creation, and
/// otherwise in a new row of the speaker.
#[verifier::spinoff_prover]
pub proof fn learned_voices_are_stored_whole(
    write: VoiceprintWrite,
    rows: Seq<SpeakerVoiceprint>,
    profile_id: Seq<char>,
    voice: LearnedVoice,
)
    requires
        stores_voice(write, rows, profile_id, voice),
    ensures
        ({
            let v = match write {
                VoiceprintWrite::Update(v) => v,
                VoiceprintWrite::Insert(v) => v,
            };
            &&& v.speaker_profile_id@ == profile_id
            &&& v.embedding_model@ == voice.embedding_model@
            &&& v.embedding@ == voice.embedding@
            &&& v.sample_count == voice.sample_count
            &&& v.total_duration == voice.total_duration
            &&& v.source_meeting_id == voice.source_meeting_id
            &&& v.source_cluster_label == voice.source_cluster_label
            &&& outside::is_utc_time(v.updated_at@)
        }),
        write is Insert <==> forall|i: int|
            0 <= i < rows.len() ==> (#[trigger] rows[i]).speaker_profile_id@ != profile_id
                || rows[i].embedding_model@ != voice.embedding_model@,
        write matches VoiceprintWrite::Insert(v) ==> outside::is_fresh_id(
            v.id@,
            "speaker-voiceprint-"@,
        ) && v.created_at == v.updated_at,
        write matches VoiceprintWrite::Update(v) ==> exists|i: int|
            0 <= i < rows.len() && (#[trigger] rows[i]).id == v.id && rows[i].created_at
                == v.created_at && rows[i].speaker_profile_id@ == profile_id
                && rows[i].embedding_model@ == voice.embedding_model@ && forall|j: int|
                0 <= j < rows.len() && (#[trigger] rows[j]).speaker_profile_id@ == profile_id
                    && rows[j].embedding_model@ == voice.embedding_model@ ==> !text::precedes(
                    rows[i].updated_at@,
                    rows[j].updated_at@,
                ),
{
    let model = voice.embedding_model@;
    the_first_of_the_latest_is_taken(rows, profile_id, model, rows.len());
    if let Some(b) = latest(rows, profile_id, model, rows.len()) {
        assert(rows[b].speaker_profile_id@ == profile_id);
    }
}

/// A write replaces the rows of its identifier or adds one row at the end, and changes nothing
/// else.
pub proof fn writes_change_their_row(
    rows: Seq<SpeakerVoiceprint>,
    v: SpeakerVoiceprint,
    i: int,
)
    ensures
        after_write(rows, VoiceprintWrite::Insert(v)) == rows.push(v),
        after_write(rows, VoiceprintWrite::Update(v)).len() == rows.len(),
        0 <= i < rows.len() && rows[i].id != v.id ==> after_write(
            rows,
            VoiceprintWrite::Update(v),
        )[i] == rows[i],
        0 <= i < rows.len() && rows[i].id == v.id ==> after_write(
            rows,
            VoiceprintWrite::Update(v),
        )[i] == v,
{
}

/// Profiles are listed by name without the archived ones; a new one has the trimmed name and the
/// color that it was given; renaming changes the name of a profile that is not archived, and
/// nothing else but the time of the change.
pub proof fn profiles_are_listed_made_and_renamed(
    rows: &[SpeakerProfile],
    listed: Vec<SpeakerProfile>,
    display_name: &str,
    color: Option<&str>,
    new: SpeakerProfile,
    found: Option<&SpeakerProfile>,
    renamed: Option<SpeakerProfile>,
)
    requires
        call_ensures(SpeakerRepository::list_profiles, (rows,), listed),
        call_ensures(SpeakerRepository::create_profile, (display_name, color), new),
        call_ensures(SpeakerRepository::rename_profile, (found, display_name), renamed),
    ensures
        listed@ == by_name(active(rows@)),
        outside::is_fresh_id(new.id@, "speaker-profile-"@),
        new.display_name@ == text::trimmed(display_name@),
        new.color is Some <==> color is Some,
        color matches Some(c) ==> new.color is Some && new.color->0@ == c@,
        new.archived_at is None,
        renamed is Some <==> found is Some && found->0.archived_at is None,
        renamed matches Some(q) ==> {
            &&& q.id == found->0.id
            &&& q.display_name@ == text::trimmed(display_name@)
            &&& q.color == found->0.color
            &&& q.created_at == found->0.created_at
            &&& q.archived_at is None
        },
{
}

/// What was learned of a voice is stored as the voiceprints of the speaker ask for.
pub proof fn learned_voices_are_stored(
    rows: &[SpeakerVoiceprint],
    profile_id: &str,
    voice: LearnedVoice,
    r: VoiceprintWrite,
)
    requires
        call_ensures(SpeakerRepository::upsert_voiceprint, (rows, profile_id, voice), r),
    ensures
        stores_voice(r, rows@, profile_id@, voice),
{
}

} // verus!
