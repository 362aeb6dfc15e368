//! What holds of registration and composition, whatever the inputs.

use crate::compose::{
    compose_outcome, composition, fails_first_at, failure_at, first_unregistered, found_group,
    group_found, groups_found, lemma_first_failure_found, lemma_first_failure_is_least,
    ComposeError, ComposeErrorView, Lookup,
};
use crate::record::{
    declares, distinct_names, gathered, merged, surviving, FieldKind, FieldView,
    RecordDefinition, RecordView,
};
use vstd::prelude::*;

verus! {

/// A group that shares no name with the local fields survives whole.
pub proof fn lemma_unshared_group_survives_whole(local: Seq<FieldView>, group: Seq<FieldView>)
    requires
        forall|i: int| 0 <= i < group.len() ==> !declares(local, (#[trigger] group[i]).name),
    ensures
        surviving(local, group) == group,
    decreases group.len(),
{
    reveal(Seq::filter);
    if group.len() > 0 {
        let rest = group.drop_last();
        assert forall|i: int| 0 <= i < rest.len() implies !declares(
            local,
            (#[trigger] rest[i]).name,
        ) by {
            assert(rest[i] == group[i]);
        }
        lemma_unshared_group_survives_whole(local, rest);
        assert(group.last() == group[group.len() - 1]);
        assert(rest.push(group.last()) =~= group);
    }
}

/// What is written under a name is what is read under it, letter for
/// letter, whatever the registry held before.
pub proof fn law_registered_text_is_read_back(
    registry: Map<Seq<char>, Seq<char>>,
    name: Seq<char>,
    definition: Seq<char>,
)
    ensures
        registry.insert(name, definition).contains_key(name),
        registry.insert(name, definition)[name] == definition,
{
}

/// Round trip of a field list: a record with named fields takes a group
/// that shares no name with it over whole. Its own fields come first, the
/// group's follow in their order, each with its name and declaration;
/// none is lost, added, renamed or moved.
pub proof fn law_unshared_group_is_appended_whole(target: RecordView, group: Seq<FieldView>)
    requires
        target.kind == FieldKind::Named,
        forall|i: int| 0 <= i < group.len() ==> !declares(target.fields, (#[trigger] group[i]).name),
    ensures
        merged(target, seq![group]) == (RecordView { fields: target.fields + group, ..target }),
{
    let groups = seq![group];
    assert(groups.drop_last() =~= Seq::<Seq<FieldView>>::empty());
    assert(groups.last() == group);
    lemma_unshared_group_survives_whole(target.fields, group);
    assert(gathered(target.fields, groups.drop_last()) =~= Seq::<FieldView>::empty());
    assert(gathered(target.fields, groups) =~= group);
}

/// A record with named fields and none of its own takes a group over
/// whole: the same fields, in the same order, each with its name and its
/// declaration.
pub proof fn law_fieldless_target_takes_group_whole(target: RecordView, group: Seq<FieldView>)
    requires
        target.kind == FieldKind::Named,
        target.fields.len() == 0,
    ensures
        merged(target, seq![group]) == (RecordView { fields: group, ..target }),
{
    assert forall|i: int| 0 <= i < group.len() implies !declares(
        target.fields,
        (#[trigger] group[i]).name,
    ) by {}
    law_unshared_group_is_appended_whole(target, group);
    assert(target.fields + group =~= group);
}

/// Round trip through a composition: where the one key of a composition
/// is found to hold a record with named fields that shares no name with
/// the target, the composition succeeds, and the target's fields are
/// followed by the fields of that record, as they are.
pub proof fn law_found_record_round_trips(target: RecordView, lookup: Lookup)
    requires
        target.kind == FieldKind::Named,
        found_group(lookup),
        forall|i: int|
            0 <= i < group_found(lookup).len() ==> !declares(
                target.fields,
                (#[trigger] group_found(lookup)[i]).name,
            ),
    ensures
        composition(target, seq![lookup]) == Ok::<RecordView, ComposeErrorView>(
            RecordView { fields: target.fields + group_found(lookup), ..target },
        ),
{
    let lookups = seq![lookup];
    lemma_first_failure_is_least(lookups);
    assert(lookups[0] == lookup);
    assert(groups_found(lookups) =~= seq![group_found(lookup)]);
    law_unshared_group_is_appended_whole(target, group_found(lookup));
}

/// Every key found: where each lookup found a usable record, the
/// composition of a record with named fields succeeds. Its fields are the
/// target's own, followed by what survives of the record found under the
/// first key, then the second, and so on; name and decorations are the
/// target's.
pub proof fn law_all_found_composes(target: RecordView, lookups: Seq<Lookup>)
    requires
        target.kind == FieldKind::Named,
        forall|i: int| 0 <= i < lookups.len() ==> found_group(#[trigger] lookups[i]),
    ensures
        composition(target, lookups) == Ok::<RecordView, ComposeErrorView>(
            RecordView {
                fields: target.fields + gathered(target.fields, groups_found(lookups)),
                ..target
            },
        ),
        groups_found(lookups).len() == lookups.len(),
        forall|i: int|
            0 <= i < lookups.len() ==> #[trigger] groups_found(lookups)[i] == group_found(
                lookups[i],
            ),
{
    lemma_first_failure_is_least(lookups);
}

/// The first failure decides: where `at` is the first lookup without a
/// usable record, the composition of a record with named fields fails
/// with that lookup's key, as a missing registration where nothing was
/// found under it and as a corrupt one otherwise, whatever follows.
pub proof fn law_first_failure_decides(target: RecordView, lookups: Seq<Lookup>, at: int)
    requires
        target.kind == FieldKind::Named,
        fails_first_at(lookups, at),
    ensures
        composition(target, lookups) == Err::<RecordView, ComposeErrorView>(
            failure_at(lookups[at]),
        ),
        lookups[at].found is None ==> failure_at(lookups[at])
            == ComposeErrorView::MissingRegistration(lookups[at].key@),
        lookups[at].found is Some ==> failure_at(lookups[at]) == ComposeErrorView::Corrupt(
            lookups[at].key@,
        ),
{
    lemma_first_failure_found(lookups, at);
}

/// No missing registration where every key is registered: a composition
/// over lookups that all found something does not fail for want of one.
pub proof fn law_registered_keys_never_miss(target: RecordView, lookups: Seq<Lookup>)
    requires
        forall|i: int| 0 <= i < lookups.len() ==> (#[trigger] lookups[i]).found is Some,
    ensures
        !(composition(target, lookups) matches Err(ComposeErrorView::MissingRegistration(_))),
{
    lemma_first_failure_is_least(lookups);
}

/// Composing twice gives the same: two outcomes of composing the same
/// target with the same lookups are the same record, or the same failure.
pub proof fn law_composition_repeats(
    target: RecordView,
    lookups: Seq<Lookup>,
    first: Result<RecordView, ComposeErrorView>,
    second: Result<RecordView, ComposeErrorView>,
)
    requires
        first == composition(target, lookups),
        second == composition(target, lookups),
    ensures
        first == second,
{
}

/// Merging twice gives the same: two records that each came of merging
/// the same target with the same groups are the same record.
pub proof fn law_merge_repeats(
    target: RecordView,
    groups: Seq<Seq<FieldView>>,
    first: RecordView,
    second: RecordView,
)
    requires
        first == merged(target, groups),
        second == merged(target, groups),
    ensures
        first == second,
{
}

/// A later registration under a key replaces the earlier one outright:
/// the registry is as if the earlier one had never been made.
pub proof fn law_last_registration_wins(
    registry: Map<Seq<char>, Seq<char>>,
    name: Seq<char>,
    earlier: Seq<char>,
    later: Seq<char>,
)
    ensures
        registry.insert(name, earlier).insert(name, later) == registry.insert(name, later),
{
    assert(registry.insert(name, earlier).insert(name, later) =~= registry.insert(name, later));
}

/// No field that is taken over carries a name that `local` declares.
pub proof fn lemma_gathered_avoids_local(
    local: Seq<FieldView>,
    groups: Seq<Seq<FieldView>>,
    at: int,
)
    requires
        0 <= at < gathered(local, groups).len(),
    ensures
        !declares(local, gathered(local, groups)[at].name),
    decreases groups.len(),
{
    if groups.len() > 0 {
        let head = gathered(local, groups.drop_last());
        let tail = surviving(local, groups.last());
        if at < head.len() {
            lemma_gathered_avoids_local(local, groups.drop_last(), at);
        } else {
            let keep = |f: FieldView| !declares(local, f.name);
            groups.last().lemma_filter_pred(keep, at - head.len());
        }
    }
}

/// Local fields win: in a merged record, every field whose name the
/// target declares is one of the target's own fields, at the place and
/// with the declaration it has in the target. No reused field of that
/// name is in the result.
pub proof fn law_local_fields_win(target: RecordView, groups: Seq<Seq<FieldView>>, at: int)
    requires
        0 <= at < merged(target, groups).fields.len(),
        declares(target.fields, merged(target, groups).fields[at].name),
    ensures
        at < target.fields.len(),
        merged(target, groups).fields[at] == target.fields[at],
{
    if target.kind == FieldKind::Named && at >= target.fields.len() {
        lemma_gathered_avoids_local(target.fields, groups, at - target.fields.len());
    }
}

/// Exactly one: where the target repeats no name, its field at `own`
/// stands in the merged record at the same place, as it was, and no other
/// field of the merged record carries its name.
pub proof fn law_local_field_is_the_only_one(
    target: RecordView,
    groups: Seq<Seq<FieldView>>,
    own: int,
)
    requires
        distinct_names(target.fields),
        0 <= own < target.fields.len(),
    ensures
        own < merged(target, groups).fields.len(),
        merged(target, groups).fields[own] == target.fields[own],
        forall|j: int|
            0 <= j < merged(target, groups).fields.len() && (#[trigger] merged(
                target,
                groups,
            ).fields[j]).name == target.fields[own].name ==> j == own,
{
    let all = merged(target, groups).fields;
    assert(all[own] == target.fields[own]);
    assert forall|j: int| 0 <= j < all.len() && (#[trigger] all[j]).name
        == target.fields[own].name implies j == own by {
        assert(declares(target.fields, all[j].name));
        law_local_fields_win(target, groups, j);
        assert(all[j] == target.fields[j]);
    }
}

/// The target's own fields come first and stay as they are: the merged
/// record starts with them, in their order, and what follows is what was
/// taken over.
pub proof fn law_own_fields_come_first(target: RecordView, groups: Seq<Seq<FieldView>>)
    requires
        target.kind == FieldKind::Named,
    ensures
        merged(target, groups).fields.len() == target.fields.len() + gathered(
            target.fields,
            groups,
        ).len(),
        merged(target, groups).fields.take(target.fields.len() as int) == target.fields,
        merged(target, groups).fields.skip(target.fields.len() as int) == gathered(
            target.fields,
            groups,
        ),
{
    let all = merged(target, groups).fields;
    assert(all.take(target.fields.len() as int) =~= target.fields);
    assert(all.skip(target.fields.len() as int) =~= gathered(target.fields, groups));
}

/// Groups are taken over in the order in which they are named: what two
/// lists of groups give one after the other is what the joined list gives.
pub proof fn law_groups_in_order(
    local: Seq<FieldView>,
    first: Seq<Seq<FieldView>>,
    second: Seq<Seq<FieldView>>,
)
    ensures
        gathered(local, first + second) == gathered(local, first) + gathered(local, second),
    decreases second.len(),
{
    if second.len() == 0 {
        assert(first + second =~= first);
        assert(gathered(local, first) + gathered(local, second) =~= gathered(local, first));
    } else {
        law_groups_in_order(local, first, second.drop_last());
        assert((first + second).drop_last() =~= first + second.drop_last());
        assert((first + second).last() == second.last());
        assert(gathered(local, first + second) =~= gathered(local, first) + gathered(
            local,
            second,
        ));
    }
}

/// What is taken over from several groups is what is taken over from
/// them laid end to end as one group.
pub proof fn law_gathered_is_filtered_concatenation(
    local: Seq<FieldView>,
    groups: Seq<Seq<FieldView>>,
)
    ensures
        gathered(local, groups) == surviving(local, groups.flatten()),
    decreases groups.len(),
{
    let keep = |f: FieldView| !declares(local, f.name);
    groups.lemma_flatten_and_flatten_alt_are_equivalent();
    if groups.len() == 0 {
        reveal(Seq::filter);
        assert(groups.flatten() =~= Seq::<FieldView>::empty());
        assert(surviving(local, groups.flatten()) =~= Seq::<FieldView>::empty());
    } else {
        let rest = groups.drop_last();
        law_gathered_is_filtered_concatenation(local, rest);
        rest.lemma_flatten_and_flatten_alt_are_equivalent();
        assert(groups.flatten() =~= rest.flatten() + groups.last());
        Seq::filter_distributes_over_add(rest.flatten(), groups.last(), keep);
    }
}

/// What survives of a group without repeated names has none either.
pub proof fn lemma_surviving_keeps_names_distinct(local: Seq<FieldView>, group: Seq<FieldView>)
    requires
        distinct_names(group),
    ensures
        distinct_names(surviving(local, group)),
    decreases group.len(),
{
    reveal(Seq::filter);
    let keep = |f: FieldView| !declares(local, f.name);
    if group.len() > 0 {
        let rest = group.drop_last();
        assert forall|i: int, j: int| 0 <= i < j < rest.len() implies (#[trigger] rest[i]).name != (
        #[trigger] rest[j]).name by {
            assert(rest[i] == group[i] && rest[j] == group[j]);
        }
        lemma_surviving_keeps_names_distinct(local, rest);
        let kept = rest.filter(keep);
        if keep(group.last()) {
            let all = kept.push(group.last());
            assert(surviving(local, group) == all);
            assert forall|i: int, j: int| 0 <= i < j < all.len() implies (#[trigger] all[i]).name
                != (#[trigger] all[j]).name by {
                if j < kept.len() {
                    assert(all[i] == kept[i] && all[j] == kept[j]);
                } else {
                    assert(kept.contains(kept[i]));
                    rest.lemma_filter_contains_rev(keep, kept[i]);
                    let k = choose|k: int| 0 <= k < rest.len() && rest[k] == kept[i];
                    assert(group[k] == kept[i]);
                    assert(all[j] == group[group.len() - 1]);
                }
            }
        }
    }
}

/// Names stay unique: where the target repeats no name, and the reused
/// groups repeat none among themselves, the merged record repeats none.
/// (Reused groups that share a name are both taken over as they are.)
pub proof fn law_distinct_names_stay_distinct(target: RecordView, groups: Seq<Seq<FieldView>>)
    requires
        distinct_names(target.fields),
        distinct_names(groups.flatten()),
    ensures
        distinct_names(merged(target, groups).fields),
{
    if target.kind == FieldKind::Named {
        let own = target.fields;
        let taken = gathered(own, groups);
        let all = merged(target, groups).fields;
        law_gathered_is_filtered_concatenation(own, groups);
        lemma_surviving_keeps_names_distinct(own, groups.flatten());
        assert forall|i: int, j: int| 0 <= i < j < all.len() implies (#[trigger] all[i]).name != (
        #[trigger] all[j]).name by {
            if j < own.len() {
                assert(all[i] == own[i] && all[j] == own[j]);
            } else if i >= own.len() {
                assert(all[i] == taken[i - own.len()] && all[j] == taken[j - own.len()]);
            } else {
                lemma_gathered_avoids_local(own, groups, j - own.len());
                assert(all[j] == taken[j - own.len()]);
                assert(all[i] == own[i]);
            }
        }
    }
}

/// A composition against a key that is not registered fails and leaves
/// the target alone. Where `at` is the first such key, the failure is a
/// missing registration of that key, unless an entry before it is
/// corrupt.
pub proof fn law_missing_key_fails(
    before: RecordDefinition,
    keys: Seq<Seq<char>>,
    registry: Map<Seq<char>, Seq<char>>,
    outcome: Result<(), ComposeError>,
    after: RecordDefinition,
    at: int,
)
    requires
        compose_outcome(before, keys, registry, outcome, after),
        before@.kind == FieldKind::Named,
        first_unregistered(keys, registry, at),
    ensures
        outcome is Err,
        after == before,
        outcome matches Err(ComposeError::MissingRegistration(key)) ==> key@ == keys[at],
        outcome matches Err(ComposeError::Corrupt(key)) ==> exists|j: int|
            0 <= j < at && #[trigger] keys[j] == key@,
        at == 0 ==> (outcome matches Err(ComposeError::MissingRegistration(key)) && key@
            == keys[0]),
{
}

} // verus!
