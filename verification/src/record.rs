//! Record definitions as plain data, and the rule by which reused fields
//! survive next to a record's own fields.

use vstd::prelude::*;
use vstd::string::StringExecFns;

verus! {

/// One named field of a record.
///
/// `declaration` is the field's complete source text: its attributes and
/// visibility, its name and its type descriptor.
#[derive(Debug, PartialEq, Eq)]
pub struct Field {
    pub name: String,
    pub declaration: String,
}

/// The mathematical value of a [`Field`].
pub struct FieldView {
    pub name: Seq<char>,
    pub declaration: Seq<char>,
}

impl View for Field {
    type V = FieldView;

    open spec fn view(&self) -> FieldView {
        FieldView { name: self.name@, declaration: self.declaration@ }
    }
}

impl Clone for Field {
    fn clone(&self) -> (copy: Self)
        ensures
            copy@ == self@,
    {
        Field { name: self.name.clone(), declaration: self.declaration.clone() }
    }
}

/// How a record holds its fields.
#[derive(Debug, Clone, Copy, PartialEq, Eq)]
pub enum FieldKind {
    /// Between braces, each under a name.
    Named,
    /// Between parentheses, without names.
    Unnamed,
    /// The record has no field list at all.
    Unit,
}

/// A record: its name, the decorations it carries, and its fields in
/// declaration order. Only a record with named fields takes fields over.
#[derive(Debug, PartialEq, Eq)]
pub struct RecordDefinition {
    pub name: String,
    pub kind: FieldKind,
    /// The outer attributes, one source text each, in order.
    pub attributes: Vec<String>,
    pub visibility: String,
    /// The generic parameter list, empty where the record has none.
    pub generics: String,
    /// The `where` clause, empty where the record has none.
    pub bounds: String,
    pub fields: Vec<Field>,
}

/// The mathematical value of a [`RecordDefinition`].
pub struct RecordView {
    pub name: Seq<char>,
    pub kind: FieldKind,
    pub attributes: Seq<Seq<char>>,
    pub visibility: Seq<char>,
    pub generics: Seq<char>,
    pub bounds: Seq<char>,
    pub fields: Seq<FieldView>,
}

/// The values of a list of fields, in order.
pub open spec fn fields_view(fields: Seq<Field>) -> Seq<FieldView> {
    fields.map_values(|f: Field| f@)
}

/// The values of a list of strings, in order.
pub open spec fn texts_view(texts: Seq<String>) -> Seq<Seq<char>> {
    texts.map_values(|s: String| s@)
}

impl View for RecordDefinition {
    type V = RecordView;

    open spec fn view(&self) -> RecordView {
        RecordView {
            name: self.name@,
            kind: self.kind,
            attributes: texts_view(self.attributes@),
            visibility: self.visibility@,
            generics: self.generics@,
            bounds: self.bounds@,
            fields: fields_view(self.fields@),
        }
    }
}

/// The attributes in source form: each followed by a blank.
pub open spec fn attributes_text(attributes: Seq<Seq<char>>) -> Seq<char>
    decreases attributes.len(),
{
    if attributes.len() == 0 {
        Seq::empty()
    } else {
        attributes_text(attributes.drop_last()) + attributes.last() + " "@
    }
}

/// The fields in source form: each declaration followed by a comma and a
/// blank.
pub open spec fn fields_text(fields: Seq<FieldView>) -> Seq<char>
    decreases fields.len(),
{
    if fields.len() == 0 {
        Seq::empty()
    } else {
        fields_text(fields.drop_last()) + fields.last().declaration + ", "@
    }
}

/// What stands before the fields: attributes, visibility, the keyword,
/// the name and the generics.
pub open spec fn header_text(record: RecordView) -> Seq<char> {
    attributes_text(record.attributes) + record.visibility + " struct "@ + record.name
        + record.generics
}

/// A record in source form. Named fields stand between braces after the
/// `where` clause, unnamed ones between parentheses before it.
pub open spec fn rendered(record: RecordView) -> Seq<char> {
    match record.kind {
        FieldKind::Named => header_text(record) + " "@ + record.bounds + " { "@ + fields_text(
            record.fields,
        ) + "}"@,
        FieldKind::Unnamed => header_text(record) + " ( "@ + fields_text(record.fields) + ") "@
            + record.bounds + " ;"@,
        FieldKind::Unit => header_text(record) + " "@ + record.bounds + " ;"@,
    }
}

impl RecordDefinition {
    /// Appends the fields in source form to `text`.
    fn push_fields(&self, text: &mut String)
        ensures
            final(text)@ == old(text)@ + fields_text(self@.fields),
    {
        let ghost head = text@;
        let mut j: usize = 0;
        assert(text@ =~= head + fields_text(self@.fields.take(0)));
        while j < self.fields.len()
            invariant
                j <= self.fields.len(),
                text@ == head + fields_text(self@.fields.take(j as int)),
            decreases self.fields.len() - j,
        {
            text.append(self.fields[j].declaration.as_str());
            text.append(", ");
            proof {
                assert(self@.fields.take(j + 1).drop_last() =~= self@.fields.take(j as int));
                assert(text@ =~= head + fields_text(self@.fields.take(j + 1)));
            }
            j += 1;
        }
        proof {
            assert(self@.fields.take(self.fields.len() as int) =~= self@.fields);
        }
    }

    /// Writes the record out as source text.
    pub fn to_source(&self) -> (text: String)
        ensures
            text@ == rendered(self@),
    {
        let mut text = String::new();
        let mut i: usize = 0;
        while i < self.attributes.len()
            invariant
                i <= self.attributes.len(),
                text@ == attributes_text(self@.attributes.take(i as int)),
            decreases self.attributes.len() - i,
        {
            text.append(self.attributes[i].as_str());
            text.append(" ");
            proof {
                assert(self@.attributes.take(i + 1).drop_last() =~= self@.attributes.take(
                    i as int,
                ));
            }
            i += 1;
        }
        proof {
            assert(self@.attributes.take(self.attributes.len() as int) =~= self@.attributes);
        }
        text.append(self.visibility.as_str());
        text.append(" struct ");
        text.append(self.name.as_str());
        text.append(self.generics.as_str());
        assert(text@ =~= header_text(self@));
        match self.kind {
            FieldKind::Named => {
                text.append(" ");
                text.append(self.bounds.as_str());
                text.append(" { ");
                self.push_fields(&mut text);
                text.append("}");
            },
            FieldKind::Unnamed => {
                text.append(" ( ");
                self.push_fields(&mut text);
                text.append(") ");
                text.append(self.bounds.as_str());
                text.append(" ;");
            },
            FieldKind::Unit => {
                text.append(" ");
                text.append(self.bounds.as_str());
                text.append(" ;");
            },
        }
        text
    }
}

/// Whether some field of `fields` is called `name`.
pub open spec fn declares(fields: Seq<FieldView>, name: Seq<char>) -> bool {
    exists|i: int| 0 <= i < fields.len() && (#[trigger] fields[i]).name == name
}

/// No two fields carry the same name.
pub open spec fn distinct_names(fields: Seq<FieldView>) -> bool {
    forall|i: int, j: int|
        0 <= i < j < fields.len() ==> (#[trigger] fields[i]).name != (#[trigger] fields[j]).name
}

/// The fields of `group` that a record with the fields `local` takes over:
/// those whose name `local` does not declare, in the order of `group`.
pub open spec fn surviving(local: Seq<FieldView>, group: Seq<FieldView>) -> Seq<FieldView> {
    group.filter(|f: FieldView| !declares(local, f.name))
}

/// What a record with the fields `local` takes over from several groups:
/// the surviving fields of each group, group after group.
pub open spec fn gathered(local: Seq<FieldView>, groups: Seq<Seq<FieldView>>) -> Seq<FieldView>
    decreases groups.len(),
{
    if groups.len() == 0 {
        Seq::empty()
    } else {
        gathered(local, groups.drop_last()) + surviving(local, groups.last())
    }
}

/// The record `target` after it has taken over `groups`: its own fields
/// first, then what survives of each group; everything else as it was.
/// A record without named fields takes nothing over.
pub open spec fn merged(target: RecordView, groups: Seq<Seq<FieldView>>) -> RecordView {
    if target.kind == FieldKind::Named {
        RecordView { fields: target.fields + gathered(target.fields, groups), ..target }
    } else {
        target
    }
}

/// The field lists of `groups`, in order.
pub open spec fn group_fields(groups: Seq<RecordDefinition>) -> Seq<Seq<FieldView>> {
    groups.map_values(|g: RecordDefinition| g@.fields)
}

/// Tells whether `fields` holds a field called `name`.
pub fn has_field(fields: &Vec<Field>, name: &String) -> (found: bool)
    ensures
        found == declares(fields_view(fields@), name@),
{
    let mut i: usize = 0;
    while i < fields.len()
        invariant
            i <= fields.len(),
            forall|j: int| 0 <= j < i ==> (#[trigger] fields_view(fields@)[j]).name != name@,
        decreases fields.len() - i,
    {
        if fields[i].name == *name {
            assert(fields_view(fields@)[i as int].name == name@);
            return true;
        }
        i += 1;
    }
    false
}

/// Appends to `buffer` the fields of `group` whose name `local` does not
/// declare, in the order in which `group` holds them.
pub fn append_surviving(local: &Vec<Field>, group: &Vec<Field>, buffer: &mut Vec<Field>)
    ensures
        fields_view(final(buffer)@) == fields_view(old(buffer)@) + surviving(
            fields_view(local@),
            fields_view(group@),
        ),
{
    let ghost keep = |f: FieldView| !declares(fields_view(local@), f.name);
    let ghost all = fields_view(group@);
    let mut i: usize = 0;
    proof {
        reveal(Seq::filter);
        assert(all.take(0) =~= Seq::<FieldView>::empty());
        assert(fields_view(buffer@) =~= fields_view(old(buffer)@) + all.take(0).filter(keep));
    }
    while i < group.len()
        invariant
            i <= group.len(),
            all == fields_view(group@),
            keep == |f: FieldView| !declares(fields_view(local@), f.name),
            fields_view(buffer@) == fields_view(old(buffer)@) + all.take(i as int).filter(keep),
        decreases group.len() - i,
    {
        let ghost before = fields_view(buffer@);
        let taken = !has_field(local, &group[i].name);
        if taken {
            buffer.push(group[i].clone());
        }
        proof {
            reveal(Seq::filter);
            assert(all.take(i + 1).drop_last() =~= all.take(i as int));
            assert(all.take(i + 1).last() == all[i as int]);
            assert(keep(all[i as int]) == taken);
            if taken {
                assert(fields_view(buffer@) =~= before.push(all[i as int]));
            }
            assert(fields_view(buffer@) =~= fields_view(old(buffer)@) + all.take(i + 1).filter(
                keep,
            ));
        }
        i += 1;
    }
    proof {
        assert(all.take(group.len() as int) =~= all);
    }
}

/// Extends `target` with the fields of `groups`: after its own fields
/// come, group after group, the fields of each group that `target` does
/// not declare itself. A target without named fields stays as it is.
pub fn merge(target: &mut RecordDefinition, groups: &Vec<RecordDefinition>)
    ensures
        final(target)@ == merged(old(target)@, group_fields(groups@)),
{
    match target.kind {
        FieldKind::Named => {},
        _ => {
            return ;
        },
    }
    let ghost local = fields_view(target.fields@);
    let ghost all = group_fields(groups@);
    let mut buffer: Vec<Field> = Vec::new();
    let mut i: usize = 0;
    proof {
        assert(fields_view(buffer@) =~= gathered(local, all.take(0)));
    }
    while i < groups.len()
        invariant
            i <= groups.len(),
            *target == *old(target),
            local == fields_view(target.fields@),
            all == group_fields(groups@),
            fields_view(buffer@) == gathered(local, all.take(i as int)),
        decreases groups.len() - i,
    {
        append_surviving(&target.fields, &groups[i].fields, &mut buffer);
        proof {
            assert(all.take(i + 1).drop_last() =~= all.take(i as int));
            assert(all.take(i + 1).last() == groups@[i as int]@.fields);
        }
        i += 1;
    }
    proof {
        assert(all.take(groups.len() as int) =~= all);
    }
    target.fields.append(&mut buffer);
    proof {
        assert(fields_view(target.fields@) =~= local + gathered(local, all));
    }
}

} // verus!
