//! The type registry: which number every type of a module has, and the
//! runtime type table that follows from it.
//!
//! The primitives have the numbers 0, 1 and 2. Every other type gets the
//! next free number when it is met first, before the types inside it are
//! looked at, so the numbers follow the declarations depth first.

use vstd::prelude::*;
use std::rc::Rc;
use crate::ast::{fields_view, lemma_fields_view, same_type, type_view, FieldView, Type, TypeView};
use crate::bytecode::{ArrayRTTI, PrimitiveRTTI, RTTIElement, RecordRTTI, RttiView, TypeId, RTTI};
use crate::format::{entry_ids_valid, ids_below, rtti_in_place};
use crate::typing::share;

verus! {

/// Why a type gets no number.
#[derive(PartialEq, Eq, Structural, Debug, Clone, Copy)]
pub enum RegistryError {
    /// A type is named that no declaration has introduced.
    UnresolvedAlias,
    /// A record has a field of its own type. An array of its own type is
    /// in order.
    DirectlyRecursive,
    /// There are more types than numbers for them.
    TooManyTypes,
}

/// A registry as a mathematical value.
pub struct RegistryView {
    /// The type of every number.
    pub types: Seq<TypeView>,
    /// The runtime description of every number.
    pub rtti: Seq<RttiView>,
    /// The names that declarations have introduced, each with the number
    /// of its type. A later entry hides an earlier one of the same name.
    pub names: Seq<(Seq<char>, TypeId)>,
}

/// The first of the first `n` numbers whose type is `t`.
pub open spec fn position_of(types: Seq<TypeView>, t: TypeView, n: int) -> Option<int>
    decreases n,
{
    if n <= 0 || n > types.len() {
        None
    } else {
        match position_of(types, t, n - 1) {
            Some(i) => Some(i),
            None => if types[n - 1] == t {
                Some(n - 1)
            } else {
                None
            },
        }
    }
}

/// The number that the last of the first `n` entries gives the name.
pub open spec fn bound_id(
    names: Seq<(Seq<char>, TypeId)>,
    name: Seq<char>,
    n: int,
) -> Option<TypeId>
    decreases n,
{
    if n <= 0 || n > names.len() {
        None
    } else if names[n - 1].0 == name {
        Some(names[n - 1].1)
    } else {
        bound_id(names, name, n - 1)
    }
}

/// What stands in the type table for a type whose parts are not yet
/// numbered.
pub open spec fn placeholder(t: TypeView, id: TypeId) -> RttiView {
    match t {
        TypeView::Array(_, _) => RttiView::Array { id, element_id: TypeId(0) },
        _ => RttiView::Record { id, field_ids: Seq::empty() },
    }
}

/// A registry with its first three numbers and nothing else.
pub open spec fn initial() -> RegistryView {
    RegistryView {
        types: seq![TypeView::Int, TypeView::Real, TypeView::Bool],
        rtti: seq![
            RttiView::Primitive { id: TypeId(0) },
            RttiView::Primitive { id: TypeId(1) },
            RttiView::Primitive { id: TypeId(2) },
        ],
        names: Seq::empty(),
    }
}

/// The number of a type and the registry after the type and everything in
/// it has a number. A primitive has its fixed number, an alias the number
/// that its name is bound to, a record or an array that is known already
/// the number it has.
pub open spec fn register_model(state: RegistryView, t: TypeView) -> (
    RegistryView,
    Result<TypeId, RegistryError>,
)
    decreases t, 1int,
{
    match t {
        TypeView::Int => (state, Ok(TypeId(0))),
        TypeView::Real => (state, Ok(TypeId(1))),
        TypeView::Bool => (state, Ok(TypeId(2))),
        TypeView::Alias(name) => match bound_id(state.names, name, state.names.len() as int) {
            Some(id) => (state, Ok(id)),
            None => (state, Err(RegistryError::UnresolvedAlias)),
        },
        _ => match position_of(state.types, t, state.types.len() as int) {
            Some(i) => (state, Ok(TypeId(i as u32))),
            None => add_model(state, t, None),
        },
    }
}

/// Gives a record or an array the next free number, binds the name to it
/// if there is one, and then numbers what is inside.
pub open spec fn add_model(state: RegistryView, t: TypeView, name: Option<Seq<char>>) -> (
    RegistryView,
    Result<TypeId, RegistryError>,
)
    decreases t, 0int,
{
    if state.types.len() > u32::MAX {
        (state, Err(RegistryError::TooManyTypes))
    } else {
        let id = TypeId(state.types.len() as u32);
        let reserved = RegistryView {
            types: state.types.push(t),
            rtti: state.rtti.push(placeholder(t, id)),
            names: match name {
                Some(name) => state.names.push((name, id)),
                None => state.names,
            },
        };
        match t {
            TypeView::Array(element, _) => {
                let (after, found) = register_model(reserved, *element);
                match found {
                    Err(error) => (after, Err(error)),
                    Ok(element_id) => (
                        RegistryView {
                            types: after.types,
                            rtti: after.rtti.update(
                                id.0 as int,
                                RttiView::Array { id, element_id },
                            ),
                            names: after.names,
                        },
                        Ok(id),
                    ),
                }
            },
            TypeView::Record(fields) => {
                let (after, found) = fields_model(reserved, fields, fields.len() as int);
                match found {
                    Err(error) => (after, Err(error)),
                    Ok(field_ids) => if field_ids.contains(id) {
                        (after, Err(RegistryError::DirectlyRecursive))
                    } else {
                        (
                            RegistryView {
                                types: after.types,
                                rtti: after.rtti.update(
                                    id.0 as int,
                                    RttiView::Record { id, field_ids },
                                ),
                                names: after.names,
                            },
                            Ok(id),
                        )
                    },
                }
            },
            _ => (reserved, Ok(id)),
        }
    }
}

/// The numbers of the types of the first `n` fields, in their order.
pub open spec fn fields_model(state: RegistryView, fields: Seq<FieldView>, n: int) -> (
    RegistryView,
    Result<Seq<TypeId>, RegistryError>,
)
    decreases fields, n,
{
    if n <= 0 || n > fields.len() {
        (state, Ok(Seq::empty()))
    } else {
        let (before, found) = fields_model(state, fields, n - 1);
        match found {
            Err(error) => (before, Err(error)),
            Ok(ids) => {
                let (after, last) = register_model(before, fields[n - 1].t);
                match last {
                    Err(error) => (after, Err(error)),
                    Ok(id) => (after, Ok(ids.push(id))),
                }
            },
        }
    }
}

/// What a declaration does: the name stands for the type from now on. A
/// record or an array that is new has its name bound before what is inside
/// is numbered, so that it can hold an array of itself.
pub open spec fn declare_model(state: RegistryView, name: Seq<char>, t: TypeView) -> (
    RegistryView,
    Result<TypeId, RegistryError>,
) {
    if (t is Record || t is Array) && position_of(state.types, t, state.types.len() as int)
        is None {
        add_model(state, t, Some(name))
    } else {
        let (after, found) = register_model(state, t);
        match found {
            Err(error) => (after, Err(error)),
            Ok(id) => (
                RegistryView {
                    types: after.types,
                    rtti: after.rtti,
                    names: after.names.push((name, id)),
                },
                Ok(id),
            ),
        }
    }
}

/// The type table is as long as the list of types.
pub open spec fn shaped(state: RegistryView) -> bool {
    state.rtti.len() == state.types.len()
}

/// Numbering a type leaves what was there and keeps the registry's shape.
pub proof fn lemma_register_grows(state: RegistryView, t: TypeView)
    requires
        shaped(state),
    ensures
        shaped(register_model(state, t).0),
        state.types.len() <= register_model(state, t).0.types.len(),
    decreases t, 1int,
{
    match t {
        TypeView::Record(_) | TypeView::Array(_, _) => {
            if position_of(state.types, t, state.types.len() as int) is None {
                lemma_add_grows(state, t, None);
            }
        },
        _ => {},
    }
}

/// Adding a type leaves what was there and keeps the registry's shape.
pub proof fn lemma_add_grows(state: RegistryView, t: TypeView, name: Option<Seq<char>>)
    requires
        shaped(state),
    ensures
        shaped(add_model(state, t, name).0),
        state.types.len() <= add_model(state, t, name).0.types.len(),
        add_model(state, t, name).1 is Ok ==> state.types.len() < add_model(
            state,
            t,
            name,
        ).0.types.len(),
    decreases t, 0int,
{
    if state.types.len() <= u32::MAX {
        let id = TypeId(state.types.len() as u32);
        let reserved = RegistryView {
            types: state.types.push(t),
            rtti: state.rtti.push(placeholder(t, id)),
            names: match name {
                Some(name) => state.names.push((name, id)),
                None => state.names,
            },
        };
        match t {
            TypeView::Array(element, _) => {
                lemma_register_grows(reserved, *element);
            },
            TypeView::Record(fields) => {
                lemma_fields_grow(reserved, fields, fields.len() as int);
            },
            _ => {},
        }
    }
}

/// Numbering fields leaves what was there and keeps the registry's
/// shape.
pub proof fn lemma_fields_grow(state: RegistryView, fields: Seq<FieldView>, n: int)
    requires
        shaped(state),
    ensures
        shaped(fields_model(state, fields, n).0),
        state.types.len() <= fields_model(state, fields, n).0.types.len(),
    decreases fields, n,
{
    if 0 < n <= fields.len() {
        lemma_fields_grow(state, fields, n - 1);
        let (before, found) = fields_model(state, fields, n - 1);
        if found is Ok {
            lemma_register_grows(before, fields[n - 1].t);
        }
    }
}

/// The registry of one compilation.
#[derive(PartialEq, Eq, Debug, Clone)]
pub struct TypeRegistry {
    pub types: Vec<Rc<Type>>,
    pub rtti: Vec<RTTIElement>,
    pub names: Vec<(String, TypeId)>,
}

impl View for TypeRegistry {
    type V = RegistryView;

    open spec fn view(&self) -> RegistryView {
        RegistryView {
            types: self.types@.map_values(|t: Rc<Type>| t@),
            rtti: self.rtti@.map_values(|element: RTTIElement| element@),
            names: self.names@.map_values(|binding: (String, TypeId)| (binding.0@, binding.1)),
        }
    }
}

impl TypeRegistry {
    /// A registry with the three primitives.
    pub fn new() -> (registry: Self)
        ensures
            registry@ == initial(),
    {
        let mut types: Vec<Rc<Type>> = Vec::new();
        types.push(Rc::new(Type::Int));
        types.push(Rc::new(Type::Real));
        types.push(Rc::new(Type::Bool));
        let mut rtti: Vec<RTTIElement> = Vec::new();
        rtti.push(RTTIElement::Primitive(PrimitiveRTTI { id: TypeId(0) }));
        rtti.push(RTTIElement::Primitive(PrimitiveRTTI { id: TypeId(1) }));
        rtti.push(RTTIElement::Primitive(PrimitiveRTTI { id: TypeId(2) }));
        let registry = TypeRegistry { types, rtti, names: Vec::new() };
        assert(registry@.types =~= initial().types);
        assert(registry@.rtti =~= initial().rtti);
        assert(registry@.names =~= initial().names);
        registry
    }

    /// The number under which a type is known.
    pub fn find(&self, t: &Type) -> (found: Option<usize>)
        ensures
            match found {
                Some(i) => position_of(self@.types, t@, self@.types.len() as int) == Some(i as int)
                    && i < self.types.len(),
                None => position_of(self@.types, t@, self@.types.len() as int) is None,
            },
    {
        let mut i: usize = 0;
        while i < self.types.len()
            invariant
                i <= self.types.len(),
                position_of(self@.types, t@, i as int) is None,
            decreases self.types.len() - i,
        {
            if same_type(&self.types[i], t) {
                proof {
                    lemma_position_found(self@.types, t@, i as int, self@.types.len() as int);
                }
                return Some(i);
            }
            i += 1;
        }
        None
    }

    /// The number that a name stands for.
    pub fn resolve(&self, name: &String) -> (found: Option<TypeId>)
        ensures
            found == bound_id(self@.names, name@, self@.names.len() as int),
    {
        let mut n = self.names.len();
        while n > 0
            invariant
                n <= self.names.len(),
                bound_id(self@.names, name@, self@.names.len() as int) == bound_id(
                    self@.names,
                    name@,
                    n as int,
                ),
            decreases n,
        {
            if self.names[n - 1].0 == *name {
                return Some(self.names[n - 1].1);
            }
            n -= 1;
        }
        None
    }

    /// The type table as it stands.
    pub fn table(&self) -> (table: RTTI)
        ensures
            table@ == self@.rtti,
    {
        let mut entries: Vec<RTTIElement> = Vec::new();
        let mut i: usize = 0;
        while i < self.rtti.len()
            invariant
                i <= self.rtti.len(),
                entries@.len() == i,
                forall|k: int| 0 <= k < i ==> (#[trigger] entries@[k])@ == self.rtti@[k]@,
            decreases self.rtti.len() - i,
        {
            let copy = match &self.rtti[i] {
                RTTIElement::Primitive(primitive) => RTTIElement::Primitive(*primitive),
                RTTIElement::Array(array) => RTTIElement::Array(*array),
                RTTIElement::Record(record) => {
                    let mut field_ids: Vec<TypeId> = Vec::new();
                    let mut j: usize = 0;
                    while j < record.field_ids.len()
                        invariant
                            j <= record.field_ids.len(),
                            field_ids@ == record.field_ids@.take(j as int),
                        decreases record.field_ids.len() - j,
                    {
                        field_ids.push(record.field_ids[j]);
                        j += 1;
                    }
                    assert(field_ids@ =~= record.field_ids@);
                    RTTIElement::Record(RecordRTTI { id: record.id, field_ids })
                },
            };
            entries.push(copy);
            i += 1;
        }
        let table = RTTI(entries);
        table
    }
}

/// A type that is the first of its kind among the first `i + 1` numbers
/// is the first among more.
proof fn lemma_position_found(types: Seq<TypeView>, t: TypeView, i: int, n: int)
    requires
        0 <= i < n <= types.len(),
        position_of(types, t, i) is None,
        types[i] == t,
    ensures
        position_of(types, t, n) == Some(i),
    decreases n,
{
    if n > i + 1 {
        lemma_position_found(types, t, i, n - 1);
    }
}

/// Once a field has no number, the fields have none.
proof fn lemma_fields_error_sticks(state: RegistryView, fields: Seq<FieldView>, k: int, n: int)
    requires
        0 <= k <= n <= fields.len(),
        fields_model(state, fields, k).1 is Err,
    ensures
        fields_model(state, fields, n) == fields_model(state, fields, k),
    decreases n,
{
    if n > k {
        lemma_fields_error_sticks(state, fields, k, n - 1);
    }
}

/// The name behind a reference to one.
pub open spec fn name_view(name: Option<&String>) -> Option<Seq<char>> {
    match name {
        Some(name) => Some(name@),
        None => None,
    }
}

impl TypeRegistry {
    /// The number of a type. A type that is met for the first time gets
    /// the next free number, and then the types inside it get theirs. Where
    /// a type inside it has none, the numbers that were given until then
    /// stay given, and the registry is of no more use for the module.
    pub fn register(&mut self, t: &Rc<Type>) -> (found: Result<TypeId, RegistryError>)
        requires
            shaped(old(self)@),
        ensures
            (final(self)@, found) == register_model(old(self)@, t@),
            shaped(final(self)@),
        decreases **t, 1int,
    {
        match &**t {
            Type::Int => Ok(TypeId(0)),
            Type::Real => Ok(TypeId(1)),
            Type::Bool => Ok(TypeId(2)),
            Type::Alias(name) => match self.resolve(name) {
                Some(id) => Ok(id),
                None => Err(RegistryError::UnresolvedAlias),
            },
            _ => match self.find(t) {
                Some(i) => Ok(TypeId(i as u32)),
                None => self.add(t, None),
            },
        }
    }

    /// Gives a record or an array the next free number, binds the name to
    /// it if there is one, and numbers what is inside.
    fn add(&mut self, t: &Rc<Type>, name: Option<&String>) -> (found: Result<
        TypeId,
        RegistryError,
    >)
        requires
            shaped(old(self)@),
        ensures
            (final(self)@, found) == add_model(old(self)@, t@, name_view(name)),
            shaped(final(self)@),
        decreases **t, 0int,
    {
        if self.types.len() > 0xffff_ffff {
            return Err(RegistryError::TooManyTypes);
        }
        let id = TypeId(self.types.len() as u32);
        let entry = match &**t {
            Type::Array(_) => RTTIElement::Array(ArrayRTTI { id, element_id: TypeId(0) }),
            _ => RTTIElement::Record(RecordRTTI { id, field_ids: Vec::new() }),
        };
        let ghost state = self@;
        self.types.push(share(t));
        self.rtti.push(entry);
        if let Some(name) = name {
            self.names.push((name.clone(), id));
        }
        let ghost reserved = self@;
        proof {
            assert(reserved.types =~= state.types.push(t@));
            assert(reserved.rtti =~= state.rtti.push(placeholder(t@, id)));
            assert(reserved.names =~= match name_view(name) {
                Some(name) => state.names.push((name, id)),
                None => state.names,
            });
        }
        match &**t {
            Type::Array(array) => {
                proof {
                    lemma_register_grows(reserved, array.t@);
                }
                match self.register(&array.t) {
                    Err(error) => Err(error),
                    Ok(element_id) => {
                        let ghost after = self@;
                        self.rtti.set(
                            id.0 as usize,
                            RTTIElement::Array(ArrayRTTI { id, element_id }),
                        );
                        proof {
                            assert(self@.rtti =~= after.rtti.update(
                                id.0 as int,
                                RttiView::Array { id, element_id },
                            ));
                        }
                        Ok(id)
                    },
                }
            },
            Type::Record(record) => {
                let ghost fields = fields_view(record.fields@, record.fields@.len() as int);
                proof {
                    lemma_fields_view(record.fields@, record.fields@.len() as int);
                }
                let mut ids: Vec<TypeId> = Vec::new();
                let mut i: usize = 0;
                while i < record.fields.len()
                    invariant
                        i <= record.fields.len(),
                        **t == Type::Record(*record),
                        state == old(self)@,
                        fields == fields_view(record.fields@, record.fields@.len() as int),
                        fields.len() == record.fields@.len(),
                        forall|k: int|
                            0 <= k < fields.len() ==> (#[trigger] fields[k]) == (FieldView {
                                name: record.fields@[k].name.name@,
                                t: type_view(*record.fields@[k].t),
                            }),
                        shaped(reserved),
                        shaped(self@),
                        reserved.types.len() == id.0 + 1,
                        reserved.types.len() <= self@.types.len(),
                        fields_model(reserved, fields, i as int) == (
                            self@,
                            Ok::<Seq<TypeId>, RegistryError>(ids@),
                        ),
                        add_model(state, t@, name_view(name)) == match fields_model(
                            reserved,
                            fields,
                            fields.len() as int,
                        ) {
                            (after, Err(error)) => (after, Err::<TypeId, RegistryError>(error)),
                            (after, Ok(field_ids)) => if field_ids.contains(id) {
                                (
                                    after,
                                    Err::<TypeId, RegistryError>(RegistryError::DirectlyRecursive),
                                )
                            } else {
                                (
                                    RegistryView {
                                        types: after.types,
                                        rtti: after.rtti.update(
                                            id.0 as int,
                                            RttiView::Record { id, field_ids },
                                        ),
                                        names: after.names,
                                    },
                                    Ok::<TypeId, RegistryError>(id),
                                )
                            },
                        },
                    decreases record.fields.len() - i,
                {
                    proof {
                        lemma_register_grows(self@, fields[i as int].t);
                    }
                    match self.register(&record.fields[i].t) {
                        Err(error) => {
                            proof {
                                lemma_fields_error_sticks(
                                    reserved,
                                    fields,
                                    i + 1,
                                    fields.len() as int,
                                );
                            }
                            return Err(error);
                        },
                        Ok(field_id) => {
                            ids.push(field_id);
                        },
                    }
                    i += 1;
                }
                let mut own = false;
                let mut j: usize = 0;
                while j < ids.len()
                    invariant
                        j <= ids.len(),
                        own == ids@.take(j as int).contains(id),
                    decreases ids.len() - j,
                {
                    if ids[j] == id {
                        own = true;
                    }
                    proof {
                        let after = ids@.take(j + 1);
                        if ids@[j as int] == id {
                            assert(after[j as int] == id);
                        }
                    }
                    j += 1;
                }
                assert(ids@.take(ids@.len() as int) =~= ids@);
                if own {
                    return Err(RegistryError::DirectlyRecursive);
                }
                let ghost after = self@;
                let ghost field_ids = ids@;
                let entry = RTTIElement::Record(RecordRTTI { id, field_ids: ids });
                self.rtti.set(id.0 as usize, entry);
                proof {
                    assert(self@.rtti =~= after.rtti.update(
                        id.0 as int,
                        RttiView::Record { id, field_ids },
                    ));
                }
                Ok(id)
            },
            _ => Ok(id),
        }
    }

    /// Makes a name stand for a type and hands back the type's number.
    pub fn declare(&mut self, name: &String, t: &Rc<Type>) -> (found: Result<TypeId, RegistryError>)
        requires
            shaped(old(self)@),
        ensures
            (final(self)@, found) == declare_model(old(self)@, name@, t@),
            shaped(final(self)@),
    {
        let composite = match &**t {
            Type::Record(_) | Type::Array(_) => true,
            _ => false,
        };
        if composite && self.find(t).is_none() {
            self.add(t, Some(name))
        } else {
            match self.register(t) {
                Err(error) => Err(error),
                Ok(id) => {
                    let ghost after = self@;
                    self.names.push((name.clone(), id));
                    proof {
                        assert(self@.names =~= after.names.push((name@, id)));
                    }
                    Ok(id)
                },
            }
        }
    }
}

/// What holds of a registry at every moment: it has the primitives, no
/// more types than numbers, a type table whose entries stand in their
/// places and name only numbers that are taken, and names that stand for
/// such numbers.
pub open spec fn registry_wf(state: RegistryView) -> bool {
    &&& shaped(state)
    &&& 3 <= state.types.len() <= u32::MAX + 1
    &&& rtti_in_place(state.rtti)
    &&& forall|i: int|
        0 <= i < state.rtti.len() ==> entry_ids_valid(
            #[trigger] state.rtti[i],
            state.rtti.len() as int,
        )
    &&& forall|k: int|
        0 <= k < state.names.len() ==> (#[trigger] state.names[k]).1.0 < state.types.len()
}

/// The later registry has every type of the earlier one under the number
/// it had.
pub open spec fn extends(later: RegistryView, earlier: RegistryView) -> bool {
    &&& earlier.types.len() <= later.types.len()
    &&& forall|i: int| 0 <= i < earlier.types.len() ==> later.types[i] == earlier.types[i]
}

/// A new registry is in order.
pub proof fn lemma_initial_wf()
    ensures
        registry_wf(initial()),
{
}

proof fn lemma_bound_id_valid(state: RegistryView, name: Seq<char>, n: int)
    requires
        registry_wf(state),
        0 <= n <= state.names.len(),
    ensures
        match bound_id(state.names, name, n) {
            Some(id) => id.0 < state.types.len(),
            None => true,
        },
    decreases n,
{
    if n > 0 && state.names[n - 1].0 != name {
        lemma_bound_id_valid(state, name, n - 1);
    }
}

proof fn lemma_position_valid(types: Seq<TypeView>, t: TypeView, n: int)
    requires
        0 <= n <= types.len(),
    ensures
        match position_of(types, t, n) {
            Some(i) => 0 <= i < n && types[i] == t,
            None => forall|i: int| 0 <= i < n ==> types[i] != t,
        },
    decreases n,
{
    if n > 0 {
        lemma_position_valid(types, t, n - 1);
    }
}

/// Numbering a type keeps the registry in order and every number that was
/// given, and the number that it hands out is taken.
pub proof fn lemma_register_wf(state: RegistryView, t: TypeView)
    requires
        registry_wf(state),
    ensures
        registry_wf(register_model(state, t).0),
        extends(register_model(state, t).0, state),
        match register_model(state, t).1 {
            Ok(id) => id.0 < register_model(state, t).0.types.len(),
            Err(_) => true,
        },
    decreases t, 1int,
{
    match t {
        TypeView::Alias(name) => {
            lemma_bound_id_valid(state, name, state.names.len() as int);
        },
        TypeView::Record(_) | TypeView::Array(_, _) => {
            lemma_position_valid(state.types, t, state.types.len() as int);
            if position_of(state.types, t, state.types.len() as int) is None {
                lemma_add_wf(state, t, None);
            }
        },
        _ => {},
    }
}

/// Adding a record or an array keeps the registry in order and every
/// number that was given, and the type gets the next free number.
pub proof fn lemma_add_wf(state: RegistryView, t: TypeView, name: Option<Seq<char>>)
    requires
        registry_wf(state),
        t is Record || t is Array,
    ensures
        registry_wf(add_model(state, t, name).0),
        extends(add_model(state, t, name).0, state),
        match add_model(state, t, name).1 {
            Ok(id) => id.0 == state.types.len() && id.0 < add_model(state, t, name).0.types.len(),
            Err(_) => true,
        },
    decreases t, 0int,
{
    if state.types.len() <= u32::MAX {
        let id = TypeId(state.types.len() as u32);
        let reserved = RegistryView {
            types: state.types.push(t),
            rtti: state.rtti.push(placeholder(t, id)),
            names: match name {
                Some(name) => state.names.push((name, id)),
                None => state.names,
            },
        };
        assert(registry_wf(reserved)) by {
            assert forall|i: int| 0 <= i < reserved.rtti.len() implies entry_ids_valid(
                #[trigger] reserved.rtti[i],
                reserved.rtti.len() as int,
            ) by {
                if i < state.rtti.len() {
                    assert(entry_ids_valid(state.rtti[i], state.rtti.len() as int));
                }
            }
        }
        match t {
            TypeView::Array(element, _) => {
                lemma_register_wf(reserved, *element);
                let (after, found) = register_model(reserved, *element);
                if let Ok(element_id) = found {
                    let entry = RttiView::Array { id, element_id };
                    let done = RegistryView {
                        types: after.types,
                        rtti: after.rtti.update(id.0 as int, entry),
                        names: after.names,
                    };
                    assert forall|i: int| 0 <= i < done.rtti.len() implies entry_ids_valid(
                        #[trigger] done.rtti[i],
                        done.rtti.len() as int,
                    ) by {
                        if i != id.0 {
                            assert(entry_ids_valid(after.rtti[i], after.rtti.len() as int));
                        }
                    }
                    assert(rtti_in_place(done.rtti)) by {
                        assert forall|i: int| 0 <= i < done.rtti.len() implies (
                        #[trigger] done.rtti[i]).id().0 == i && (done.rtti[i] is Primitive <==> i
                            < 3) by {
                            if i != id.0 {
                                assert(after.rtti[i].id().0 == i);
                            }
                        }
                    }
                }
            },
            TypeView::Record(fields) => {
                lemma_fields_wf(reserved, fields, fields.len() as int);
                let (after, found) = fields_model(reserved, fields, fields.len() as int);
                if let Ok(field_ids) = found {
                    let entry = RttiView::Record { id, field_ids };
                    let done = RegistryView {
                        types: after.types,
                        rtti: after.rtti.update(id.0 as int, entry),
                        names: after.names,
                    };
                    assert forall|i: int| 0 <= i < done.rtti.len() implies entry_ids_valid(
                        #[trigger] done.rtti[i],
                        done.rtti.len() as int,
                    ) by {
                        if i != id.0 {
                            assert(entry_ids_valid(after.rtti[i], after.rtti.len() as int));
                        }
                    }
                    assert(rtti_in_place(done.rtti)) by {
                        assert forall|i: int| 0 <= i < done.rtti.len() implies (
                        #[trigger] done.rtti[i]).id().0 == i && (done.rtti[i] is Primitive <==> i
                            < 3) by {
                            if i != id.0 {
                                assert(after.rtti[i].id().0 == i);
                            }
                        }
                    }
                }
            },
            _ => {},
        }
    }
}

/// Numbering fields keeps the registry in order and every number that
/// was given, and the numbers of the fields are taken.
pub proof fn lemma_fields_wf(state: RegistryView, fields: Seq<FieldView>, n: int)
    requires
        registry_wf(state),
    ensures
        registry_wf(fields_model(state, fields, n).0),
        extends(fields_model(state, fields, n).0, state),
        match fields_model(state, fields, n).1 {
            Ok(ids) => ids.len() == (if 0 <= n <= fields.len() {
                n
            } else {
                0
            }) && ids_below(ids, fields_model(state, fields, n).0.types.len() as int),
            Err(_) => true,
        },
    decreases fields, n,
{
    if 0 < n <= fields.len() {
        lemma_fields_wf(state, fields, n - 1);
        let (before, found) = fields_model(state, fields, n - 1);
        if let Ok(ids) = found {
            lemma_register_wf(before, fields[n - 1].t);
            let (after, last) = register_model(before, fields[n - 1].t);
            if let Ok(id) = last {
                assert forall|j: int| 0 <= j < ids.push(id).len() implies (#[trigger] ids.push(
                    id,
                )[j]).0 < after.types.len() by {
                    if j < ids.len() {
                        assert(ids[j].0 < before.types.len());
                    }
                }
            }
        }
    }
}

/// A declaration keeps the registry in order and every number that was
/// given.
pub proof fn lemma_declare_wf(state: RegistryView, name: Seq<char>, t: TypeView)
    requires
        registry_wf(state),
    ensures
        registry_wf(declare_model(state, name, t).0),
        extends(declare_model(state, name, t).0, state),
        match declare_model(state, name, t).1 {
            Ok(id) => id.0 < declare_model(state, name, t).0.types.len(),
            Err(_) => true,
        },
{
    if (t is Record || t is Array) && position_of(state.types, t, state.types.len() as int)
        is None {
        lemma_add_wf(state, t, Some(name));
    } else {
        lemma_register_wf(state, t);
    }
}

/// A record or an array that is met for the first time gets the next
/// free number, and one that is known keeps the number it has.
pub proof fn lemma_first_encounter(state: RegistryView, t: TypeView)
    requires
        registry_wf(state),
        t is Record || t is Array,
    ensures
        match (position_of(state.types, t, state.types.len() as int), register_model(state, t).1) {
            (Some(i), found) => found == Ok::<TypeId, RegistryError>(TypeId(i as u32))
                && register_model(state, t).0 == state,
            (None, Ok(id)) => id.0 == state.types.len(),
            (None, Err(_)) => true,
        },
{
}

/// The number that a type has in a registry, if it has one there.
pub open spec fn type_number(registry: RegistryView, t: TypeView) -> Option<TypeId> {
    match t {
        TypeView::Int => Some(TypeId(0)),
        TypeView::Real => Some(TypeId(1)),
        TypeView::Bool => Some(TypeId(2)),
        TypeView::Alias(name) => bound_id(registry.names, name, registry.names.len() as int),
        _ => match position_of(registry.types, t, registry.types.len() as int) {
            Some(i) => Some(TypeId(i as u32)),
            None => None,
        },
    }
}

impl TypeRegistry {
    /// The number of a type, without giving it one.
    pub fn number_of(&self, t: &Type) -> (found: Option<TypeId>)
        ensures
            found == type_number(self@, t@),
    {
        match t {
            Type::Int => Some(TypeId(0)),
            Type::Real => Some(TypeId(1)),
            Type::Bool => Some(TypeId(2)),
            Type::Alias(name) => self.resolve(name),
            _ => match self.find(t) {
                Some(i) => Some(TypeId(i as u32)),
                None => None,
            },
        }
    }
}

/// A registry gives a type one number only: what it does is a function
/// of the registry and the type as values.
pub proof fn lemma_numbering_deterministic(
    first: RegistryView,
    second: RegistryView,
    name: Seq<char>,
    t: TypeView,
)
    requires
        first == second,
    ensures
        register_model(first, t) == register_model(second, t),
        declare_model(first, name, t) == declare_model(second, name, t),
{
}

/// A type that has been numbered has that number from then on.
pub proof fn lemma_registered_is_known(state: RegistryView, t: TypeView)
    requires
        registry_wf(state),
        t is Record || t is Array,
        register_model(state, t).1 is Ok,
    ensures
        type_number(register_model(state, t).0, t) == Some(register_model(state, t).1->Ok_0),
{
    let after = register_model(state, t).0;
    if position_of(state.types, t, state.types.len() as int) is None {
        lemma_add_wf(state, t, None);
        let id = state.types.len() as int;
        assert(after.types[id] == state.types.push(t)[id]) by {
            lemma_add_extends_reserved(state, t, None);
        }
        assert(position_of(after.types, t, id) is None) by {
            lemma_position_prefix(state.types, after.types, t, id);
        }
        lemma_position_found(after.types, t, id, after.types.len() as int);
    }
}

/// What is inside a new type is numbered after the type itself has its
/// place.
proof fn lemma_add_extends_reserved(state: RegistryView, t: TypeView, name: Option<Seq<char>>)
    requires
        registry_wf(state),
        t is Record || t is Array,
        state.types.len() <= u32::MAX,
    ensures
        extends(
            add_model(state, t, name).0,
            RegistryView { types: state.types.push(t), rtti: state.rtti, names: state.names },
        ),
{
    let id = TypeId(state.types.len() as u32);
    let reserved = RegistryView {
        types: state.types.push(t),
        rtti: state.rtti.push(placeholder(t, id)),
        names: match name {
            Some(name) => state.names.push((name, id)),
            None => state.names,
        },
    };
    match t {
        TypeView::Array(element, _) => {
            lemma_register_wf(reserved, *element);
        },
        TypeView::Record(fields) => {
            lemma_fields_wf(reserved, fields, fields.len() as int);
        },
        _ => {},
    }
}

/// What is not among the first `n` types of a list is not among the first
/// `n` of a list that starts with them.
proof fn lemma_position_prefix(earlier: Seq<TypeView>, later: Seq<TypeView>, t: TypeView, n: int)
    requires
        0 <= n <= earlier.len() <= later.len(),
        forall|i: int| 0 <= i < n ==> later[i] == earlier[i],
        position_of(earlier, t, n) is None,
    ensures
        position_of(later, t, n) is None,
    decreases n,
{
    if n > 0 {
        lemma_position_prefix(earlier, later, t, n - 1);
    }
}

} // verus!
