//! The variables of a program that is halted: how they are referred to and shown.

use std::collections::HashMap;

use vstd::prelude::*;
use vstd::std_specs::hash::group_hash_axioms;

use crate::text::{decimal, decimal_string};

verus! {

broadcast use group_hash_axioms;

/// The variables of a function that a reference may stand for.
#[derive(Clone, Copy, Debug, PartialEq, Eq, Structural)]
pub enum VariableType {
    Local,
    Upvar,
}

/// The variables of one kind of one frame of the stack, counted from the innermost.
#[derive(Clone, Copy, Debug, PartialEq, Eq, Structural)]
pub struct VariableReference {
    pub stack_index: usize,
    pub typ: VariableType,
}

/// Half of a number, rounded towards zero.
pub open spec fn half(n: int) -> int {
    if n >= 0 {
        n / 2
    } else {
        -((-n) / 2)
    }
}

/// What a reference to the variables of a frame stands for: odd ones are to the locals, even ones
/// to the upvars, and each frame takes two.
pub open spec fn reference_target(reference: i64) -> VariableReference {
    VariableReference {
        stack_index: half(reference - 1) as usize,
        typ: if reference > 0 && reference % 2 == 1 {
            VariableType::Local
        } else {
            VariableType::Upvar
        },
    }
}

/// The reference to the variables of one kind of the frame with the number `frame_id`.
pub open spec fn scope_reference(frame_id: int, typ: VariableType) -> int {
    match typ {
        VariableType::Local => (frame_id + 1) * 2 - 1,
        VariableType::Upvar => (frame_id + 1) * 2,
    }
}

/// What a reference to the variables of a frame stands for.
pub fn translate_reference(reference: i64) -> (target: VariableReference)
    requires
        reference > i64::MIN,
    ensures
        target == reference_target(reference),
{
    if reference > 0 {
        let odd: bool = reference as u64 % 2 == 1;
        VariableReference {
            stack_index: ((reference - 1) as u64 / 2) as i64 as usize,
            typ: if odd {
                VariableType::Local
            } else {
                VariableType::Upvar
            },
        }
    } else {
        let magnitude: u64 = (-reference) as u64 + 1;
        let quotient: i64 = -((magnitude / 2) as i64);
        VariableReference { stack_index: quotient as usize, typ: VariableType::Upvar }
    }
}

/// Law: the references that are given out for the scopes of a frame are the next odd and even number
/// after twice the frame's, and they lead back to that frame.
pub proof fn law_scope_references_lead_back(frame_id: int, typ: VariableType)
    requires
        0 <= frame_id <= usize::MAX,
        (frame_id + 1) * 2 <= i64::MAX,
    ensures
        scope_reference(frame_id, VariableType::Local) == 2 * frame_id + 1,
        scope_reference(frame_id, VariableType::Upvar) == 2 * frame_id + 2,
        0 < scope_reference(frame_id, typ) <= i64::MAX,
        reference_target(scope_reference(frame_id, typ) as i64) == (VariableReference {
            stack_index: frame_id as usize,
            typ,
        }),
{
}

/// Law: no two scopes share a reference.
pub proof fn law_scope_references_differ(a: int, ta: VariableType, b: int, tb: VariableType)
    requires
        scope_reference(a, ta) == scope_reference(b, tb),
    ensures
        a == b,
        ta == tb,
{
}

/// What a value is made of, as far as it matters here.
#[derive(Clone, Copy, Debug, PartialEq, Eq, Structural)]
pub enum ValueKind {
    /// An array with a number of elements.
    Array(usize),
    /// A record or variant with a number of fields.
    Data(usize),
    /// A function with a number of upvars.
    Closure(usize),
    /// A value without parts.
    Plain,
}

/// The number of a value's parts that are known by their place.
pub fn indexed_variables(kind: ValueKind) -> (count: Option<i64>)
    ensures
        count == (match kind {
            ValueKind::Array(len) => Some(len as i64),
            _ => None,
        }),
{
    match kind {
        ValueKind::Array(len) => Some(len as i64),
        _ => None,
    }
}

/// The number of a value's parts that are known by name.
pub fn named_variables(kind: ValueKind) -> (count: Option<i64>)
    ensures
        count == (match kind {
            ValueKind::Data(len) => Some(len as i64),
            ValueKind::Closure(upvars) => Some(upvars as i64),
            _ => None,
        }),
{
    match kind {
        ValueKind::Data(len) => Some(len as i64),
        ValueKind::Closure(upvars) => Some(upvars as i64),
        _ => None,
    }
}

/// The first number that is not a reference to a value any more.
pub const REFERENCE_END: i64 = 0x7fff_ffff;

/// The values whose parts a client may ask for, by their references.
pub struct Variables<V> {
    map: HashMap<i64, V>,
    reference: i64,
}

impl<V> View for Variables<V> {
    type V = Map<i64, V>;

    closed spec fn view(&self) -> Map<i64, V> {
        self.map@
    }
}

impl<V> Variables<V> {
    /// The reference that was given out last.
    pub closed spec fn last(&self) -> i64 {
        self.reference
    }

    /// References are given out in descending order, and no other is in use.
    pub closed spec fn well_formed(&self) -> bool {
        &&& self.reference <= REFERENCE_END
        &&& forall|r: i64| #[trigger]
            self.map@.dom().contains(r) <==> self.reference <= r < REFERENCE_END
    }

    /// Law: the references in use are those from the last one up to the end of all references.
    pub proof fn law_references_in_use(&self)
        requires
            self.well_formed(),
        ensures
            self.last() <= REFERENCE_END,
            forall|r: i64| #[trigger]
                self@.dom().contains(r) <==> self.last() <= r < REFERENCE_END,
    {
    }

    pub fn new() -> (variables: Variables<V>)
        ensures
            variables.well_formed(),
            variables@ == Map::<i64, V>::empty(),
            variables.last() == REFERENCE_END,
    {
        Variables { map: HashMap::new(), reference: REFERENCE_END }
    }

    /// Forgets all values; references are given out anew.
    pub fn clear(&mut self)
        ensures
            final(self).well_formed(),
            final(self)@ == Map::<i64, V>::empty(),
            final(self).last() == REFERENCE_END,
    {
        self.map.clear();
        self.reference = REFERENCE_END;
    }

    /// Keeps a value that has parts and gives out a reference to it; zero stands for a value
    /// without parts.
    pub fn insert(&mut self, kind: ValueKind, value: V) -> (reference: i64)
        requires
            old(self).well_formed(),
            old(self).last() > i64::MIN,
        ensures
            final(self).well_formed(),
            if kind is Plain {
                &&& reference == 0
                &&& final(self)@ == old(self)@
                &&& final(self).last() == old(self).last()
            } else {
                &&& reference == old(self).last() - 1
                &&& !old(self)@.dom().contains(reference)
                &&& final(self)@ == old(self)@.insert(reference, value)
                &&& final(self).last() == reference
            },
    {
        match kind {
            ValueKind::Array(_) | ValueKind::Data(_) | ValueKind::Closure(_) => {
                self.reference -= 1;
                self.map.insert(self.reference, value);
                self.reference
            },
            ValueKind::Plain => 0,
        }
    }

    /// The value that a reference stands for.
    pub fn get(&self, reference: i64) -> (value: Option<&V>)
        ensures
            match value {
                Some(value) => self@.dom().contains(reference) && self@[reference] == *value,
                None => !self@.dom().contains(reference),
            },
    {
        self.map.get(&reference)
    }
}

/// A value that is to be shown: its name and type, what it is made of, how it is printed, and the
/// value itself.
pub struct RawVariable<V> {
    pub name: String,
    pub typ: String,
    pub kind: ValueKind,
    pub printed: String,
    pub value: V,
}

/// A value as it is shown.
#[derive(Debug, PartialEq, Eq)]
pub struct Variable {
    pub name: String,
    pub typ: String,
    pub value: String,
    pub indexed_variables: Option<i64>,
    pub named_variables: Option<i64>,
    pub variables_reference: i64,
}

/// How many of several values have parts.
pub open spec fn structured<V>(raw: Seq<RawVariable<V>>) -> nat
    decreases raw.len(),
{
    if raw.len() == 0 {
        0
    } else {
        structured(raw.drop_last()) + if raw.last().kind is Plain {
            0nat
        } else {
            1nat
        }
    }
}

/// How a value is shown once the references in front of it have been given out.
pub open spec fn is_shown<V>(raw: RawVariable<V>, last: int, shown: Variable) -> bool {
    &&& shown.name == raw.name
    &&& shown.typ == raw.typ
    &&& shown.value == raw.printed
    &&& shown.indexed_variables == (match raw.kind {
        ValueKind::Array(len) => Some(len as i64),
        _ => None,
    })
    &&& shown.named_variables == (match raw.kind {
        ValueKind::Data(len) => Some(len as i64),
        ValueKind::Closure(upvars) => Some(upvars as i64),
        _ => None,
    })
    &&& shown.variables_reference == (if raw.kind is Plain {
        0
    } else {
        last - 1
    })
}

impl<V> Variables<V> {
    /// Shows several values. Those that have parts can be asked for by reference from now on.
    pub fn show(&mut self, raw: Vec<RawVariable<V>>) -> (shown: Vec<Variable>)
        requires
            old(self).well_formed(),
            old(self).last() - raw@.len() >= i64::MIN,
        ensures
            final(self).well_formed(),
            final(self).last() == old(self).last() - structured(raw@),
            shown@.len() == raw@.len(),
            forall|i: int|
                0 <= i < shown@.len() ==> is_shown(
                    raw@[i],
                    old(self).last() - structured(raw@.take(i)),
                    #[trigger] shown@[i],
                ),
            forall|i: int|
                0 <= i < shown@.len() && !(raw@[i].kind is Plain) ==> final(self)@.dom().contains(
                    (#[trigger] shown@[i]).variables_reference,
                ) && final(self)@[shown@[i].variables_reference] == raw@[i].value,
            forall|r: i64| #[trigger]
                old(self)@.dom().contains(r) ==> final(self)@.dom().contains(r) && final(self)@[r]
                    == old(self)@[r],
            forall|r: i64| #[trigger]
                final(self)@.dom().contains(r) <==> old(self)@.dom().contains(r)
                    || final(self).last() <= r < old(self).last(),
    {
        let mut shown: Vec<Variable> = Vec::new();
        let ghost start = self.last();
        let ghost before = self@;
        assert(raw@.take(0) =~= Seq::<RawVariable<V>>::empty());
        for item in iter: raw.into_iter()
            invariant
                iter.seq() == raw@,
                self.well_formed(),
                start - raw@.len() >= i64::MIN,
                structured(raw@.take(iter.index())) <= iter.index(),
                self.last() == start - structured(raw@.take(iter.index())),
                shown@.len() == iter.index(),
                forall|i: int|
                    0 <= i < shown@.len() ==> is_shown(
                        raw@[i],
                        start - structured(raw@.take(i)),
                        #[trigger] shown@[i],
                    ),
                forall|i: int|
                    0 <= i < shown@.len() && !(raw@[i].kind is Plain) ==> self@.dom().contains(
                        (#[trigger] shown@[i]).variables_reference,
                    ) && self@[shown@[i].variables_reference] == raw@[i].value,
                forall|r: i64| #[trigger]
                    before.dom().contains(r) ==> self@.dom().contains(r) && self@[r] == before[r],
        {
            let ghost next = raw@.take(iter.index() + 1);
            assert(next.drop_last() =~= raw@.take(iter.index()));
            assert(next.last() == item);
            let reference = self.insert(item.kind, item.value);
            shown.push(
                Variable {
                    name: item.name,
                    typ: item.typ,
                    value: item.printed,
                    indexed_variables: indexed_variables(item.kind),
                    named_variables: named_variables(item.kind),
                    variables_reference: reference,
                },
            );
        }
        assert(raw@.take(raw@.len() as int) =~= raw@);
        shown
    }
}

/// What a program calls a value, and the type it has for it.
pub struct Field<T> {
    pub name: String,
    pub typ: T,
}

/// A value with what a program calls it and the type it has for it.
#[derive(Debug, PartialEq, Eq)]
pub struct Part<'a, T, X> {
    pub name: String,
    pub typ: &'a T,
    pub value: &'a X,
}

/// What a value is made of: the values of its parts, and what its type says of them.
pub enum Structure<T, X> {
    /// A record. The type names its fields.
    Record { row: Vec<Field<T>>, fields: Vec<X> },
    /// A variant. The type has the fields of each of its variants; `tag` says which one it is.
    Variant { rows: Vec<Vec<T>>, tag: usize, fields: Vec<X> },
    /// A function.
    Closure { infos: Vec<Field<T>>, upvars: Vec<X> },
    /// An array. All elements have one type.
    Array { element: T, elements: Vec<X> },
    /// A value whose parts cannot be shown.
    Opaque,
}

/// The number of parts that can be shown: those that both the value and its type have.
pub open spec fn part_count<T, X>(structure: Structure<T, X>) -> nat {
    match structure {
        Structure::Record { row, fields } => smaller(row@.len(), fields@.len()),
        Structure::Variant { rows, tag, fields } => smaller(
            rows@[tag as int]@.len(),
            fields@.len(),
        ),
        Structure::Closure { infos, upvars } => smaller(infos@.len(), upvars@.len()),
        Structure::Array { elements, .. } => elements@.len(),
        Structure::Opaque => 0,
    }
}

pub open spec fn smaller(a: nat, b: nat) -> nat {
    if a <= b {
        a
    } else {
        b
    }
}

/// The name of an element of an array: its place in brackets.
pub open spec fn element_name(i: int) -> Seq<char> {
    "["@ + decimal(i as nat) + "]"@
}

/// Whether a part has a name, a type and a value.
pub open spec fn is_part<T, X>(part: Part<T, X>, name: Seq<char>, typ: T, value: X) -> bool {
    part.name@ == name && *part.typ == typ && *part.value == value
}

/// Whether `part` is the part of a value at place `i`: that of the field or upvar at this place,
/// without a name if it is the field of a variant, and the element at this place of an array.
pub open spec fn is_part_of<T, X>(structure: Structure<T, X>, i: int, part: Part<T, X>) -> bool {
    match structure {
        Structure::Record { row, fields } => is_part(part, row@[i].name@, row@[i].typ, fields@[i]),
        Structure::Variant { rows, tag, fields } => is_part(
            part,
            Seq::empty(),
            rows@[tag as int]@[i],
            fields@[i],
        ),
        Structure::Closure { infos, upvars } => is_part(
            part,
            infos@[i].name@,
            infos@[i].typ,
            upvars@[i],
        ),
        Structure::Array { element, elements } => is_part(
            part,
            element_name(i),
            element,
            elements@[i],
        ),
        Structure::Opaque => false,
    }
}

/// The values that have a name and a type, in their order: those of a record, of a function, and
/// the locals and upvars of a frame of the stack.
pub fn named_parts<'a, T, X>(infos: &'a Vec<Field<T>>, values: &'a Vec<X>) -> (parts: Vec<
    Part<'a, T, X>,
>)
    ensures
        parts@.len() == smaller(infos@.len(), values@.len()),
        forall|i: int|
            0 <= i < parts@.len() ==> is_part(
                #[trigger] parts@[i],
                infos@[i].name@,
                infos@[i].typ,
                values@[i],
            ),
{
    let mut parts: Vec<Part<'a, T, X>> = Vec::new();
    let mut i: usize = 0;
    while i < infos.len() && i < values.len()
        invariant
            i <= infos@.len(),
            i <= values@.len(),
            parts@.len() == i,
            forall|j: int|
                0 <= j < i ==> is_part(
                    #[trigger] parts@[j],
                    infos@[j].name@,
                    infos@[j].typ,
                    values@[j],
                ),
        decreases infos@.len() - i,
    {
        parts.push(Part { name: infos[i].name.clone(), typ: &infos[i].typ, value: &values[i] });
        i += 1;
    }
    parts
}

/// The values that have a type but no name, in their order.
fn nameless_parts<'a, T, X>(types: &'a Vec<T>, values: &'a Vec<X>) -> (parts: Vec<Part<'a, T, X>>)
    ensures
        parts@.len() == smaller(types@.len(), values@.len()),
        forall|i: int|
            0 <= i < parts@.len() ==> is_part(
                #[trigger] parts@[i],
                Seq::empty(),
                types@[i],
                values@[i],
            ),
{
    let mut parts: Vec<Part<'a, T, X>> = Vec::new();
    let mut i: usize = 0;
    while i < types.len() && i < values.len()
        invariant
            i <= types@.len(),
            i <= values@.len(),
            parts@.len() == i,
            forall|j: int|
                0 <= j < i ==> is_part(
                    #[trigger] parts@[j],
                    Seq::empty(),
                    types@[j],
                    values@[j],
                ),
        decreases types@.len() - i,
    {
        parts.push(Part { name: String::new(), typ: &types[i], value: &values[i] });
        i += 1;
    }
    parts
}

/// The elements of an array, in their order.
fn element_parts<'a, T, X>(element: &'a T, values: &'a Vec<X>) -> (parts: Vec<Part<'a, T, X>>)
    ensures
        parts@.len() == values@.len(),
        forall|i: int|
            0 <= i < parts@.len() ==> is_part(
                #[trigger] parts@[i],
                element_name(i),
                *element,
                values@[i],
            ),
{
    let mut parts: Vec<Part<'a, T, X>> = Vec::new();
    let mut i: usize = 0;
    while i < values.len()
        invariant
            i <= values@.len(),
            parts@.len() == i,
            forall|j: int|
                0 <= j < i ==> is_part(
                    #[trigger] parts@[j],
                    element_name(j),
                    *element,
                    values@[j],
                ),
        decreases values@.len() - i,
    {
        let mut name = "[".to_owned();
        name.append(decimal_string(i as u64).as_str());
        name.append("]");
        parts.push(Part { name, typ: element, value: &values[i] });
        i += 1;
    }
    parts
}

/// The parts of a value, in their order, each with its name, its type and its value.
pub fn parts<'a, T, X>(structure: &'a Structure<T, X>) -> (parts: Vec<Part<'a, T, X>>)
    requires
        structure matches Structure::Variant { rows, tag, .. } ==> tag < rows@.len(),
    ensures
        parts@.len() == part_count(*structure),
        forall|i: int|
            0 <= i < parts@.len() ==> is_part_of(*structure, i, #[trigger] parts@[i]),
{
    match structure {
        Structure::Record { row, fields } => named_parts(row, fields),
        Structure::Variant { rows, tag, fields } => nameless_parts(&rows[*tag], fields),
        Structure::Closure { infos, upvars } => named_parts(infos, upvars),
        Structure::Array { element, elements } => element_parts(element, elements),
        Structure::Opaque => Vec::new(),
    }
}

} // verus!
