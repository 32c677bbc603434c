//! How speakers are called.

use crate::text;
use vstd::prelude::*;
use vstd::string::*;

verus! {

/// The number that a cluster label of the form `SPEAKER_00` holds.
pub open spec fn cluster_number(label: Seq<char>) -> Option<nat> {
    if "SPEAKER_"@.is_prefix_of(label) {
        text::parsed_index(label.skip("SPEAKER_"@.len() as int))
    } else {
        None
    }
}

/// Whether the next number after that of the label can be held.
pub open spec fn is_showable(label: Seq<char>) -> bool {
    cluster_number(label) != Some(usize::MAX as nat)
}

/// How a cluster is called: by its number, counted from one, where it has one.
pub open spec fn cluster_name(label: Seq<char>) -> Seq<char> {
    match cluster_number(label) {
        Some(n) => "Speaker "@ + text::numeral(n + 1),
        None => label,
    }
}

/// The number that a cluster label of the form `SPEAKER_00` holds.
fn parse_cluster(label: &str) -> (r: Option<usize>)
    ensures
        r is Some <==> cluster_number(label@) is Some,
        r matches Some(n) ==> cluster_number(label@) == Some(n as nat),
{
    match text::strip_prefix(label, "SPEAKER_") {
        Some(number) => text::parse_index(number),
        None => None,
    }
}

/// Whether the cluster has a name that can be shown.
pub fn can_show_cluster(cluster_label: &str) -> (r: bool)
    ensures
        r == is_showable(cluster_label@),
{
    match parse_cluster(cluster_label) {
        Some(index) => index != usize::MAX,
        None => true,
    }
}

/// How the cluster is called.
pub fn display_cluster_label(cluster_label: &str) -> (r: String)
    requires
        is_showable(cluster_label@),
    ensures
        r@ == cluster_name(cluster_label@),
{
    match parse_cluster(cluster_label) {
        Some(index) => {
            let mut r = "Speaker ".to_owned();
            text::push_number(&mut r, (index + 1) as u64);
            r
        },
        None => cluster_label.to_owned(),
    }
}

/// Whether a label says that the speaker is uncertain.
pub open spec fn is_tentative(label: Seq<char>) -> bool {
    "Maybe "@.is_prefix_of(text::trimmed_start(label))
}

/// The label of a speaker who got a new name.
pub open spec fn renamed(label: Seq<char>, name: Seq<char>) -> Seq<char> {
    if is_tentative(label) {
        "Maybe "@ + name
    } else {
        name
    }
}

/// The label of a speaker who got a new name. It stays uncertain where it was.
pub fn reconciled_speaker_label(existing_label: &str, new_name: &str) -> (r: String)
    ensures
        r@ == renamed(existing_label@, new_name@),
{
    if text::starts_with(text::trim_start(existing_label), "Maybe ") {
        maybe(new_name)
    } else {
        new_name.to_owned()
    }
}

/// The label of an uncertain speaker.
pub fn maybe(name: &str) -> (r: String)
    ensures
        r@ == "Maybe "@ + name@,
{
    let mut r = "Maybe ".to_owned();
    r.append(name);
    r
}

/// An uncertain label stays uncertain through every renaming.
pub proof fn renaming_keeps_doubt(label: Seq<char>, name: Seq<char>)
    requires
        is_tentative(label),
    ensures
        is_tentative(renamed(label, name)),
{
    reveal_strlit("Maybe ");
    let new = renamed(label, name);
    assert(new[0] == 'M');
    assert(text::trimmed_start(new) == new);
    assert("Maybe "@ =~= new.take("Maybe "@.len() as int));
}

/// Of two renamings only the last one counts, unless the first name itself reads as an uncertain
/// label.
pub proof fn last_renaming_counts(label: Seq<char>, first: Seq<char>, second: Seq<char>)
    requires
        !is_tentative(first),
    ensures
        renamed(renamed(label, first), second) == renamed(label, second),
{
    if is_tentative(label) {
        renaming_keeps_doubt(label, first);
    }
}

/// The clusters `SPEAKER_0`, `SPEAKER_1` and so on are called `Speaker 1`, `Speaker 2` and so on,
/// however many zeros stand before the number; only the last number of all has no name.
#[verifier::spinoff_prover]
pub proof fn clusters_are_called_by_number(digits: Seq<char>, n: nat)
    requires
        text::is_digits(digits),
        text::digits_value(digits) == n,
    ensures
        n < usize::MAX ==> is_showable("SPEAKER_"@ + digits),
        n == usize::MAX ==> !is_showable("SPEAKER_"@ + digits),
        n <= usize::MAX ==> cluster_name("SPEAKER_"@ + digits) == "Speaker "@ + text::numeral(n + 1),
        n > usize::MAX ==> cluster_name("SPEAKER_"@ + digits) == "SPEAKER_"@ + digits,
{
    let label = "SPEAKER_"@ + digits;
    assert("SPEAKER_"@.is_prefix_of(label)) by {
        assert(label.subrange(0, "SPEAKER_"@.len() as int) =~= "SPEAKER_"@);
    }
    assert(label.skip("SPEAKER_"@.len() as int) =~= digits);
    assert('0' <= digits[0] <= '9');
}

/// A label of any other form is its own name.
pub proof fn other_labels_are_their_own_names(label: Seq<char>, i: int)
    ensures
        !"SPEAKER_"@.is_prefix_of(label) ==> cluster_name(label) == label && is_showable(label),
        label.len() <= "SPEAKER_"@.len() ==> cluster_name(label) == label,
        "SPEAKER_"@.len() < i < label.len() && !('0' <= label[i] <= '9') ==> cluster_name(label)
            == label,
{
    if "SPEAKER_"@.is_prefix_of(label) {
        let rest = label.skip("SPEAKER_"@.len() as int);
        text::written_numbers_are_read_back(0, rest, i - "SPEAKER_"@.len());
        if label.len() <= "SPEAKER_"@.len() {
            assert(rest =~= Seq::<char>::empty());
        }
    }
}

/// A label is in doubt just where `Maybe` and a space stand behind whitespace at its beginning. A
/// new name takes the place of the old one, and the doubt stays.
#[verifier::spinoff_prover]
pub proof fn doubt_is_told_by_maybe(spaces: Seq<char>, rest: Seq<char>, name: Seq<char>)
    requires
        text::is_blank(spaces),
    ensures
        is_tentative(spaces + "Maybe "@ + rest),
        renamed(spaces + "Maybe "@ + rest, name) == "Maybe "@ + name,
        rest.len() > 0 && !text::is_space(rest[0]) && !"Maybe "@.is_prefix_of(rest) ==> !is_tentative(
            spaces + rest,
        ) && renamed(spaces + rest, name) == name,
{
    reveal_strlit("Maybe ");
    lemma_past_spaces(spaces, "Maybe "@ + rest);
    assert(spaces + "Maybe "@ + rest =~= spaces + ("Maybe "@ + rest));
    assert("Maybe "@.is_prefix_of("Maybe "@ + rest)) by {
        assert(("Maybe "@ + rest).subrange(0, 6) =~= "Maybe "@);
    }
    if rest.len() > 0 && !text::is_space(rest[0]) {
        lemma_past_spaces(spaces, rest);
    }
}

proof fn lemma_past_spaces(spaces: Seq<char>, rest: Seq<char>)
    requires
        text::is_blank(spaces),
        rest.len() > 0,
        !text::is_space(rest[0]),
    ensures
        text::trimmed_start(spaces + rest) == rest,
    decreases spaces.len(),
{
    let s = spaces + rest;
    if spaces.len() == 0 {
        assert(s =~= rest);
    } else {
        let less = spaces.drop_first();
        assert(text::is_space(spaces[0]));
        assert(s[0] == spaces[0]);
        assert forall|i: int| 0 <= i < less.len() implies text::is_space(#[trigger] less[i]) by {
            assert(less[i] == spaces[i + 1]);
        }
        lemma_past_spaces(less, rest);
        assert(s.drop_first() =~= less + rest);
    }
}

/// Clusters and renamed labels are called as the names say.
pub proof fn labels_are_called_by_their_names(
    cluster: &str,
    shown: String,
    label: &str,
    name: &str,
    renamed_label: String,
)
    requires
        call_ensures(display_cluster_label, (cluster,), shown),
        call_ensures(reconciled_speaker_label, (label, name), renamed_label),
    ensures
        shown@ == cluster_name(cluster@),
        is_tentative(label@) ==> renamed_label@ == "Maybe "@ + name@,
        !is_tentative(label@) ==> renamed_label@ == name@,
{
}

} // verus!
