use vstd::prelude::*;
use std::rc::Rc;

verus! {

/// One field value of a tuple.
///
/// A 64-bit float is held by its IEEE 754 bit pattern: the library stores and hands
/// it back, and never computes with it.
pub enum FlexField {
    Int64(i64),
    Float64(u64),
    String(String),
    Bool(bool),
    FlexTuple(FlexTuple),
}

/// The declared type of a schema field.
pub enum SchemaFieldType {
    Int64,
    Float64,
    String,
    Bool,
    FlexTuple,
}

/// A named, typed field of a schema.
pub struct SchemaField {
    name: String,
    field_type: SchemaFieldType,
}

/// The description of a tuple type: a name, the fields in order, and an opaque
/// handle (an address owned by the host) that travels with it.
pub struct FlexSchema {
    name: String,
    handle: usize,
    fields: Vec<SchemaField>,
}

/// A tuple of values that follows a schema.
pub struct FlexTuple {
    schema: Rc<FlexSchema>,
    data: Vec<Rc<FlexField>>,
}

/// A schema field as contracts see it.
pub struct SchemaFieldView {
    pub name: Seq<char>,
    pub field_type: SchemaFieldType,
}

/// A schema as contracts see it.
pub struct SchemaView {
    pub name: Seq<char>,
    pub handle: usize,
    pub fields: Seq<SchemaFieldView>,
}

/// A field value as contracts see it.
pub enum FieldView {
    Int64(i64),
    Float64(u64),
    String(Seq<char>),
    Bool(bool),
    FlexTuple(TupleView),
}

/// A tuple as contracts see it: its schema and its values in order.
pub struct TupleView {
    pub schema: SchemaView,
    pub values: Seq<FieldView>,
}

/// The contract view of a field value.
pub closed spec fn field_view(f: FlexField) -> FieldView
    decreases f,
{
    match f {
        FlexField::Int64(v) => FieldView::Int64(v),
        FlexField::Float64(v) => FieldView::Float64(v),
        FlexField::String(s) => FieldView::String(s@),
        FlexField::Bool(b) => FieldView::Bool(b),
        FlexField::FlexTuple(t) => FieldView::FlexTuple(tuple_view(t)),
    }
}

/// The contract view of a tuple.
pub closed spec fn tuple_view(t: FlexTuple) -> TupleView
    decreases t,
{
    TupleView {
        schema: t.schema@,
        values: Seq::new(
            t.data@.len(),
            |i: int|
                if 0 <= i < t.data@.len() {
                    proof {
                        vstd::std_specs::vec::axiom_vec_index_decreases(t.data, i);
                    }
                    field_view(*t.data@[i])
                } else {
                    FieldView::Bool(false)
                },
        ),
    }
}

impl View for SchemaField {
    type V = SchemaFieldView;

    closed spec fn view(&self) -> SchemaFieldView {
        SchemaFieldView { name: self.name@, field_type: self.field_type }
    }
}

impl View for FlexSchema {
    type V = SchemaView;

    closed spec fn view(&self) -> SchemaView {
        SchemaView {
            name: self.name@,
            handle: self.handle,
            fields: self.fields@.map_values(|f: SchemaField| f@),
        }
    }
}

impl View for FlexTuple {
    type V = TupleView;

    closed spec fn view(&self) -> TupleView {
        tuple_view(*self)
    }
}

impl SchemaField {
    /// A field with the given name and type.
    pub fn new(name: String, field_type: SchemaFieldType) -> (r: Self)
        ensures
            r@ == (SchemaFieldView { name: name@, field_type }),
    {
        SchemaField { name: name, field_type: field_type }
    }
}

impl FlexSchema {
    /// A schema with the given name, no fields and no handle (0).
    pub fn new(name: String) -> (r: Self)
        ensures
            r@ == (SchemaView { name: name@, handle: 0, fields: Seq::empty() }),
    {
        let r = FlexSchema { name: name, handle: 0, fields: Vec::new() };
        assert(r@.fields =~= Seq::<SchemaFieldView>::empty());
        r
    }

    /// Replaces the handle.
    pub fn set_handle(&mut self, handle: usize)
        ensures
            final(self)@ == (SchemaView { handle, ..old(self)@ }),
    {
        self.handle = handle;
    }

    /// The handle.
    pub fn get_handle(&self) -> (r: usize)
        ensures
            r == self@.handle,
    {
        self.handle
    }

    /// Appends a 64-bit integer field named `name`.
    pub fn add_int64(&mut self, name: String)
        ensures
            final(self)@ == (SchemaView {
                fields: old(self)@.fields.push(SchemaFieldView { name: name@, field_type: SchemaFieldType::Int64 }),
                ..old(self)@
            }),
    {
        let field = SchemaField::new(name, SchemaFieldType::Int64);
        self.fields.push(field);
        assert(self@.fields =~= old(self)@.fields.push(
            SchemaFieldView { name: name@, field_type: SchemaFieldType::Int64 },
        ));
    }
}

impl FlexTuple {
    /// An empty tuple of the given schema.
    pub fn new(schema: Rc<FlexSchema>) -> (r: Self)
        ensures
            r@ == (TupleView { schema: schema@, values: Seq::empty() }),
    {
        let r = FlexTuple { schema: schema, data: Vec::new() };
        assert(r@.values =~= Seq::<FieldView>::empty());
        r
    }

    /// The handle of the tuple's schema.
    pub fn get_handle(&self) -> (r: usize)
        ensures
            r == self@.schema.handle,
    {
        self.schema.get_handle()
    }

    /// Appends a 64-bit integer value.
    pub fn add_int64(&mut self, value: i64)
        ensures
            final(self)@ == (TupleView { values: old(self)@.values.push(FieldView::Int64(value)), ..old(self)@ }),
    {
        self.data.push(Rc::new(FlexField::Int64(value)));
        assert(self@.values =~= old(self)@.values.push(FieldView::Int64(value)));
    }

    /// Appends a 64-bit float value, given by its IEEE 754 bits.
    pub fn add_float64(&mut self, value: u64)
        ensures
            final(self)@ == (TupleView { values: old(self)@.values.push(FieldView::Float64(value)), ..old(self)@ }),
    {
        self.data.push(Rc::new(FlexField::Float64(value)));
        assert(self@.values =~= old(self)@.values.push(FieldView::Float64(value)));
    }

    /// Whether the value at `index` is a 64-bit integer.
    pub fn is_int64_at(&self, index: usize) -> (r: bool)
        ensures
            r == (index < self@.values.len() && self@.values[index as int] is Int64),
    {
        if index < self.data.len() {
            match &*self.data[index] {
                FlexField::Int64(_) => true,
                _ => false,
            }
        } else {
            false
        }
    }

    /// Whether the value at `index` is a 64-bit float.
    pub fn is_float64_at(&self, index: usize) -> (r: bool)
        ensures
            r == (index < self@.values.len() && self@.values[index as int] is Float64),
    {
        if index < self.data.len() {
            match &*self.data[index] {
                FlexField::Float64(_) => true,
                _ => false,
            }
        } else {
            false
        }
    }

    /// The 64-bit integer at `index`; the value there must be an integer.
    pub fn get_int64_at(&self, index: usize) -> (r: i64)
        requires
            index < self@.values.len(),
            self@.values[index as int] is Int64,
        ensures
            FieldView::Int64(r) == self@.values[index as int],
    {
        match &*self.data[index] {
            FlexField::Int64(v) => *v,
            _ => 0,
        }
    }

    /// The IEEE 754 bits of the 64-bit float at `index`; the value there must be a float.
    pub fn get_float64_at(&self, index: usize) -> (r: u64)
        requires
            index < self@.values.len(),
            self@.values[index as int] is Float64,
        ensures
            FieldView::Float64(r) == self@.values[index as int],
    {
        match &*self.data[index] {
            FlexField::Float64(v) => *v,
            _ => 0,
        }
    }
}

/// A read gives back what was appended: after `add_int64(v)` on a tuple of `n` values,
/// `get_int64_at(n)` answers `v`, and the values before are unchanged.
pub proof fn lemma_int64_read_back(t: TupleView, v: i64)
    ensures
        ({
            let t2 = TupleView { values: t.values.push(FieldView::Int64(v)), ..t };
            &&& t2.values.len() == t.values.len() + 1
            &&& t2.values[t.values.len() as int] == FieldView::Int64(v)
            &&& t2.values.subrange(0, t.values.len() as int) == t.values
        }),
{
    assert(t.values.push(FieldView::Int64(v)).subrange(0, t.values.len() as int) =~= t.values);
}

impl Default for FlexTuple {
    /// An empty tuple of an unnamed schema without fields or handle.
    fn default() -> (r: Self)
        ensures
            r@ == (TupleView {
                schema: SchemaView { name: Seq::empty(), handle: 0, fields: Seq::empty() },
                values: Seq::empty(),
            }),
    {
        FlexTuple::new(Rc::new(FlexSchema::new(String::new())))
    }
}

} // verus!
