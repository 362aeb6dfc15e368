//! Registration and composition: a definition is stored under a name, and
//! a later definition takes over the fields of those it names.

use crate::record::{
    append_surviving, fields_view, gathered, merged, texts_view, Field, FieldKind, FieldView,
    RecordDefinition, RecordView,
};
use crate::store::{Registry, StoreEntry, StoreError};
use crate::syntax::{parse_identifier, parse_names, parse_record};
use vstd::prelude::*;

verus! {

/// Why a composition did not go through. Each carries the offending key.
#[derive(Debug, PartialEq, Eq)]
pub enum ComposeError {
    /// Nothing is registered under the key.
    MissingRegistration(String),
    /// What is registered under the key is no record definition whose
    /// fields can be taken over.
    Corrupt(String),
}

/// The mathematical value of a [`ComposeError`].
pub enum ComposeErrorView {
    MissingRegistration(Seq<char>),
    Corrupt(Seq<char>),
}

impl View for ComposeError {
    type V = ComposeErrorView;

    open spec fn view(&self) -> ComposeErrorView {
        match self {
            ComposeError::MissingRegistration(key) => ComposeErrorView::MissingRegistration(key@),
            ComposeError::Corrupt(key) => ComposeErrorView::Corrupt(key@),
        }
    }
}

/// Why an annotated definition was turned down.
#[derive(Debug, PartialEq, Eq)]
pub enum ReuseError {
    /// The annotation's argument is not an identifier (to register under)
    /// or a comma-separated list of identifiers (to reuse).
    InvalidName,
    /// The annotated definition is no record definition.
    InvalidDefinition,
    /// The composition itself failed.
    Compose(ComposeError),
}

/// Whether the fields of `group` can be taken over: they carry names, or
/// there are none.
pub open spec fn usable(group: RecordView) -> bool {
    group.kind == FieldKind::Named || group.fields.len() == 0
}

/// `at` is the place of the first key that the registry lacks.
pub open spec fn first_unregistered(
    keys: Seq<Seq<char>>,
    registry: Map<Seq<char>, Seq<char>>,
    at: int,
) -> bool {
    &&& 0 <= at < keys.len()
    &&& !registry.contains_key(keys[at])
    &&& forall|j: int| 0 <= j < at ==> registry.contains_key(#[trigger] keys[j])
}

/// `at` is the place of a key, and the registry holds every key up to and
/// including it.
pub open spec fn registered_upto(
    keys: Seq<Seq<char>>,
    registry: Map<Seq<char>, Seq<char>>,
    at: int,
) -> bool {
    &&& 0 <= at < keys.len()
    &&& forall|j: int| 0 <= j <= at ==> registry.contains_key(#[trigger] keys[j])
}

/// What holds of a failure to resolve `keys`: a missing registration is
/// that of the first key the registry lacks; a corrupt one is registered,
/// as is every key before it.
pub open spec fn failure_of(
    keys: Seq<Seq<char>>,
    registry: Map<Seq<char>, Seq<char>>,
    error: ComposeErrorView,
) -> bool {
    match error {
        ComposeErrorView::MissingRegistration(key) => exists|at: int|
            #[trigger] first_unregistered(keys, registry, at) && keys[at] == key,
        ComposeErrorView::Corrupt(key) => exists|at: int|
            #[trigger] registered_upto(keys, registry, at) && keys[at] == key,
    }
}

/// What a composition owes its caller, whatever the parser made of the
/// registered texts: `outcome` and the target `after` it, for the target
/// `before` it, the keys and the registry.
///
/// A target without named fields stays as it is, and nothing is read. For
/// the others: on success every key is registered, and the target has
/// taken over one group per key; on failure the target is as it was, and
/// the error is as [`failure_of`] says.
pub open spec fn compose_outcome(
    before: RecordDefinition,
    keys: Seq<Seq<char>>,
    registry: Map<Seq<char>, Seq<char>>,
    outcome: Result<(), ComposeError>,
    after: RecordDefinition,
) -> bool {
    if before@.kind != FieldKind::Named {
        outcome is Ok && after == before
    } else {
        match outcome {
            Ok(_) => {
                &&& forall|i: int| 0 <= i < keys.len() ==> registry.contains_key(#[trigger] keys[i])
                &&& exists|groups: Seq<Seq<FieldView>>|
                    groups.len() == keys.len() && after@ == #[trigger] merged(before@, groups)
            },
            Err(error) => after == before && failure_of(keys, registry, error@),
        }
    }
}

/// Stores the serialized `definition` under `name`, in place of whatever
/// was registered there. The definition itself is only looked at.
pub fn register(registry: &mut Registry, name: &str, definition: &str) -> (outcome: Result<
    (),
    StoreError,
>)
    ensures
        outcome is Ok,
        final(registry)@ == old(registry)@.insert(name@, definition@),
{
    registry.write(name, definition)
}

/// What was found under one key: nothing (`None`), a text that the parser
/// turned down (`Some(None)`), or a record (`Some(Some(..))`).
#[derive(Debug, PartialEq, Eq)]
pub struct Lookup {
    pub key: String,
    pub found: Option<Option<RecordDefinition>>,
}

/// Whether the lookup found a record whose fields can be taken over.
pub open spec fn found_group(lookup: Lookup) -> bool {
    lookup.found matches Some(Some(group)) && usable(group@)
}

/// The failure that a lookup without a usable record stands for: a
/// missing registration where nothing was found, a corrupt one otherwise.
pub open spec fn failure_at(lookup: Lookup) -> ComposeErrorView {
    if lookup.found is None {
        ComposeErrorView::MissingRegistration(lookup.key@)
    } else {
        ComposeErrorView::Corrupt(lookup.key@)
    }
}

/// The fields of the record that a lookup found.
pub open spec fn group_found(lookup: Lookup) -> Seq<FieldView> {
    match lookup.found {
        Some(Some(group)) => group@.fields,
        _ => Seq::empty(),
    }
}

/// The field lists that the lookups found, in the order of the lookups.
pub open spec fn groups_found(lookups: Seq<Lookup>) -> Seq<Seq<FieldView>> {
    lookups.map_values(|lookup: Lookup| group_found(lookup))
}

/// `at` is the place of the first lookup without a usable record.
pub open spec fn fails_first_at(lookups: Seq<Lookup>, at: int) -> bool {
    &&& 0 <= at < lookups.len()
    &&& !found_group(lookups[at])
    &&& forall|j: int| 0 <= j < at ==> found_group(#[trigger] lookups[j])
}

/// The place of the first lookup without a usable record, if there is one.
pub open spec fn first_failure(lookups: Seq<Lookup>) -> Option<int>
    decreases lookups.len(),
{
    if lookups.len() == 0 {
        None
    } else {
        match first_failure(lookups.drop_last()) {
            Some(at) => Some(at),
            None => if found_group(lookups.last()) {
                None
            } else {
                Some(lookups.len() - 1)
            },
        }
    }
}

/// What composing `target` with what was found under its keys gives. A
/// target without named fields stays as it is. For the others the first
/// lookup without a usable record decides the failure; where there is
/// none, the target takes over every group found, in order.
pub open spec fn composition(target: RecordView, lookups: Seq<Lookup>) -> Result<
    RecordView,
    ComposeErrorView,
> {
    if target.kind != FieldKind::Named {
        Ok(target)
    } else {
        match first_failure(lookups) {
            Some(at) => Err(failure_at(lookups[at])),
            None => Ok(merged(target, groups_found(lookups))),
        }
    }
}

/// `first_failure` names the least place without a usable record, and
/// names none only where every lookup found one.
pub proof fn lemma_first_failure_is_least(lookups: Seq<Lookup>)
    ensures
        match first_failure(lookups) {
            Some(at) => fails_first_at(lookups, at),
            None => forall|i: int| 0 <= i < lookups.len() ==> found_group(#[trigger] lookups[i]),
        },
    decreases lookups.len(),
{
    if lookups.len() > 0 {
        let rest = lookups.drop_last();
        lemma_first_failure_is_least(rest);
        assert forall|j: int| 0 <= j < rest.len() implies rest[j] == lookups[j] by {}
        match first_failure(rest) {
            Some(at) => {
                assert(rest[at] == lookups[at]);
                assert forall|j: int| 0 <= j < at implies found_group(#[trigger] lookups[j]) by {
                    assert(rest[j] == lookups[j]);
                }
            },
            None => {
                assert forall|j: int| 0 <= j < rest.len() implies found_group(
                    #[trigger] lookups[j],
                ) by {
                    assert(rest[j] == lookups[j]);
                }
            },
        }
    }
}

/// The first lookup without a usable record is the one that
/// `first_failure` names.
pub proof fn lemma_first_failure_found(lookups: Seq<Lookup>, at: int)
    requires
        fails_first_at(lookups, at),
    ensures
        first_failure(lookups) == Some(at),
{
    lemma_first_failure_is_least(lookups);
}

/// Composes `target` with what was found under its keys, in the order of
/// `lookups`: see [`composition`]. On a failure, and where the target has
/// no named fields, the target is left as it was.
pub fn compose_found(target: &mut RecordDefinition, lookups: &Vec<Lookup>) -> (outcome: Result<
    (),
    ComposeError,
>)
    ensures
        match composition(old(target)@, lookups@) {
            Ok(record) => outcome is Ok && final(target)@ == record,
            Err(error) => outcome matches Err(e) && e@ == error,
        },
        outcome is Err || old(target)@.kind != FieldKind::Named ==> *final(target) == *old(target),
{
    match target.kind {
        FieldKind::Named => {},
        _ => {
            return Ok(());
        },
    }
    let ghost local = fields_view(target.fields@);
    let ghost all = groups_found(lookups@);
    let mut buffer: Vec<Field> = Vec::new();
    let mut i: usize = 0;
    proof {
        assert(fields_view(buffer@) =~= gathered(local, all.take(0)));
    }
    while i < lookups.len()
        invariant
            i <= lookups.len(),
            *target == *old(target),
            target@.kind == FieldKind::Named,
            local == fields_view(target.fields@),
            all == groups_found(lookups@),
            forall|j: int| 0 <= j < i ==> found_group(#[trigger] lookups@[j]),
            fields_view(buffer@) == gathered(local, all.take(i as int)),
        decreases lookups.len() - i,
    {
        let lookup = &lookups[i];
        match &lookup.found {
            None => {
                proof {
                    lemma_first_failure_found(lookups@, i as int);
                }
                return Err(ComposeError::MissingRegistration(lookup.key.clone()));
            },
            Some(None) => {
                proof {
                    lemma_first_failure_found(lookups@, i as int);
                }
                return Err(ComposeError::Corrupt(lookup.key.clone()));
            },
            Some(Some(group)) => {
                let named = match group.kind {
                    FieldKind::Named => true,
                    _ => false,
                };
                if !named && group.fields.len() != 0 {
                    proof {
                        lemma_first_failure_found(lookups@, i as int);
                    }
                    return Err(ComposeError::Corrupt(lookup.key.clone()));
                }
                append_surviving(&target.fields, &group.fields, &mut buffer);
            },
        }
        proof {
            assert(all.take(i + 1).drop_last() =~= all.take(i as int));
            assert(all.take(i + 1).last() == group_found(lookups@[i as int]));
        }
        i += 1;
    }
    proof {
        assert(all.take(lookups.len() as int) =~= all);
        lemma_first_failure_is_least(lookups@);
    }
    target.fields.append(&mut buffer);
    proof {
        assert(fields_view(target.fields@) =~= local + gathered(local, all));
    }
    Ok(())
}

/// `lookups` is what a pass over `keys` found in `registry`: one lookup
/// per key, under that key, with something found exactly where the key is
/// registered.
pub open spec fn looked_up(
    keys: Seq<Seq<char>>,
    registry: Map<Seq<char>, Seq<char>>,
    lookups: Seq<Lookup>,
) -> bool {
    &&& lookups.len() == keys.len()
    &&& forall|i: int|
        0 <= i < keys.len() ==> (#[trigger] lookups[i]).key@ == keys[i] && (lookups[i].found is Some
            <==> registry.contains_key(keys[i]))
}

/// Reads what is registered under each of `keys`, in order, and hands what
/// is there to the parser. What the parser makes of a text is not fixed
/// here; that a lookup stands for its key, and finds something exactly
/// where the key is registered, is.
pub fn lookup_all(keys: &Vec<String>, registry: &Registry) -> (lookups: Vec<Lookup>)
    ensures
        looked_up(texts_view(keys@), registry@, lookups@),
{
    let mut lookups: Vec<Lookup> = Vec::new();
    let mut i: usize = 0;
    while i < keys.len()
        invariant
            i <= keys.len(),
            looked_up(texts_view(keys@).take(i as int), registry@, lookups@),
        decreases keys.len() - i,
    {
        let key = &keys[i];
        let found = match registry.read(key.as_str()) {
            Ok(text) => Some(parse_record(text.as_str())),
            Err(_) => None,
        };
        lookups.push(Lookup { key: key.clone(), found });
        proof {
            let now = texts_view(keys@).take(i + 1);
            assert forall|j: int| 0 <= j < now.len() implies (#[trigger] lookups@[j]).key@ == now[j]
                && (lookups@[j].found is Some <==> registry@.contains_key(now[j])) by {
                if j < i {
                    assert(texts_view(keys@).take(i as int)[j] == now[j]);
                }
            }
        }
        i += 1;
    }
    proof {
        assert(texts_view(keys@).take(keys.len() as int) =~= texts_view(keys@));
    }
    lookups
}

/// Extends `target` with the fields of the definitions registered under
/// `reuse_names`: after its own fields come, key after key, the fields of
/// each registered definition that `target` does not declare itself.
///
/// The first key that is not registered, or whose entry is no usable
/// record definition, fails the whole composition and leaves `target` as
/// it was. A target without named fields is left as it is.
pub fn compose(
    target: &mut RecordDefinition,
    reuse_names: &Vec<String>,
    registry: &Registry,
) -> (outcome: Result<(), ComposeError>)
    ensures
        compose_outcome(
            *old(target),
            texts_view(reuse_names@),
            registry@,
            outcome,
            *final(target),
        ),
{
    let lookups = lookup_all(reuse_names, registry);
    let outcome = compose_found(target, &lookups);
    proof {
        let keys = texts_view(reuse_names@);
        lemma_first_failure_is_least(lookups@);
        if old(target)@.kind == FieldKind::Named {
            match first_failure(lookups@) {
                Some(at) => {
                    assert(keys[at] == lookups@[at].key@);
                    if lookups@[at].found is None {
                        assert forall|j: int| 0 <= j < at implies registry@.contains_key(
                            #[trigger] keys[j],
                        ) by {
                            assert(found_group(lookups@[j]));
                        }
                        assert(first_unregistered(keys, registry@, at));
                    } else {
                        assert forall|j: int| 0 <= j <= at implies registry@.contains_key(
                            #[trigger] keys[j],
                        ) by {
                            if j < at {
                                assert(found_group(lookups@[j]));
                            }
                        }
                        assert(registered_upto(keys, registry@, at));
                    }
                },
                None => {
                    assert forall|i: int| 0 <= i < keys.len() implies registry@.contains_key(
                        #[trigger] keys[i],
                    ) by {
                        assert(found_group(lookups@[i]));
                    }
                    let taken = groups_found(lookups@);
                    assert(taken.len() == keys.len());
                    assert(target@ == merged(old(target)@, taken));
                },
            }
        }
    }
    outcome
}

/// The entry that a registration stores: `item` as it stands, under
/// `name`; or the failure where no name was made out.
pub fn entry_for(name: Option<String>, item: &str) -> (outcome: Result<StoreEntry, ReuseError>)
    ensures
        match name {
            Some(key) => outcome matches Ok(entry) && entry.key == key && entry.value@ == item@,
            None => outcome matches Err(ReuseError::InvalidName),
        },
{
    match name {
        Some(key) => Ok(StoreEntry { key, value: item.to_owned() }),
        None => Err(ReuseError::InvalidName),
    }
}

/// What registering the definition `item` under the annotation's argument
/// `attr` has to store: `item` as it stands, under the name that the
/// parser makes of `attr`. Fails where it makes out no single identifier.
pub fn registration(attr: &str, item: &str) -> (outcome: Result<StoreEntry, ReuseError>)
    ensures
        match outcome {
            Ok(entry) => entry.value@ == item@,
            Err(error) => error matches ReuseError::InvalidName,
        },
{
    entry_for(parse_identifier(attr), item)
}

/// Registers the definition `item` under the name that the annotation's
/// argument `attr` gives, and hands out that name. `item` is stored as it
/// stands and not changed.
///
/// Fails, with the registry as it was, where `attr` is not one identifier.
pub fn reusable(attr: &str, item: &str, registry: &mut Registry) -> (outcome: Result<
    String,
    ReuseError,
>)
    ensures
        match outcome {
            Ok(key) => final(registry)@ == old(registry)@.insert(key@, item@),
            Err(error) => error matches ReuseError::InvalidName && final(registry)@ == old(
                registry,
            )@,
        },
{
    match registration(attr, item) {
        Ok(entry) => {
            let _ = register(registry, entry.key.as_str(), entry.value.as_str());
            Ok(entry.key)
        },
        Err(error) => Err(error),
    }
}

/// The keys that the annotation's argument `attr` asks to reuse, in the
/// order in which it lists them. Fails where the parser makes out no list
/// of identifiers separated by commas.
pub fn requested_keys(attr: &str) -> (outcome: Result<Vec<String>, ReuseError>)
    ensures
        outcome matches Err(error) ==> error matches ReuseError::InvalidName,
{
    match parse_names(attr) {
        Some(names) => Ok(names),
        None => Err(ReuseError::InvalidName),
    }
}

/// The record that the parser makes of `item`. Fails where it makes out
/// no record definition.
pub fn definition(item: &str) -> (outcome: Result<RecordDefinition, ReuseError>)
    ensures
        outcome matches Err(error) ==> error matches ReuseError::InvalidDefinition,
{
    match parse_record(item) {
        Some(record) => Ok(record),
        None => Err(ReuseError::InvalidDefinition),
    }
}

/// What composing an annotated definition gives, for what the parser
/// made of the names and of the definition, and for what was found under
/// the names: a failure to read the names comes first, then a failure to
/// read the definition, then the [`composition`] of the one with the other.
pub open spec fn reuse_outcome(
    names: Result<Vec<String>, ReuseError>,
    target: Result<RecordDefinition, ReuseError>,
    lookups: Seq<Lookup>,
    outcome: Result<RecordDefinition, ReuseError>,
) -> bool {
    match (names, target) {
        (Err(error), _) => outcome == Err::<RecordDefinition, ReuseError>(error),
        (Ok(_), Err(error)) => outcome == Err::<RecordDefinition, ReuseError>(error),
        (Ok(_), Ok(before)) => match composition(before@, lookups) {
            Ok(record) => outcome matches Ok(after) && after@ == record && (before@.kind
                != FieldKind::Named ==> after == before),
            Err(error) => outcome matches Err(ReuseError::Compose(e)) && e@ == error,
        },
    }
}

/// Composes what was made of an annotated definition with what was found
/// under its names: see [`reuse_outcome`].
pub fn reuse_found(
    names: Result<Vec<String>, ReuseError>,
    target: Result<RecordDefinition, ReuseError>,
    lookups: Vec<Lookup>,
) -> (outcome: Result<RecordDefinition, ReuseError>)
    ensures
        reuse_outcome(names, target, lookups@, outcome),
{
    match names {
        Ok(_) => {},
        Err(error) => {
            return Err(error);
        },
    }
    let mut record = match target {
        Ok(record) => record,
        Err(error) => {
            return Err(error);
        },
    };
    match compose_found(&mut record, &lookups) {
        Ok(()) => Ok(record),
        Err(error) => Err(ReuseError::Compose(error)),
    }
}

/// Composes the definition `item` with the definitions registered under
/// the names that the annotation's argument `attr` lists, in that order.
///
/// It reads, hands to the parser, and leaves the rest to [`reuse_found`].
/// Whatever the parser makes of the texts, a missing registration names a
/// key that the registry lacks, and a corrupt one a key that it holds.
pub fn reuse(attr: &str, item: &str, registry: &Registry) -> (outcome: Result<
    RecordDefinition,
    ReuseError,
>)
    ensures
        outcome matches Err(ReuseError::Compose(ComposeError::MissingRegistration(key)))
            ==> !registry@.contains_key(key@),
        outcome matches Err(ReuseError::Compose(ComposeError::Corrupt(key)))
            ==> registry@.contains_key(key@),
{
    let names = requested_keys(attr);
    let target = definition(item);
    let lookups = match &names {
        Ok(keys) => lookup_all(keys, registry),
        Err(_) => Vec::new(),
    };
    proof {
        lemma_first_failure_is_least(lookups@);
    }
    reuse_found(names, target, lookups)
}

} // verus!
