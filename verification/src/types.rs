//! The abstract syntax of the spec language: attributes, field types,
//! fields, structs, and whole specs, each with a mathematical view and
//! a well-formedness predicate tying its spans to the source text.

use vstd::prelude::*;

verus! {

/// A half-open range of character offsets into the source text.
#[derive(Clone, Copy, PartialEq, Eq, Structural, Debug)]
pub struct Span {
    pub start: usize,
    pub end: usize,
}

impl Span {
    /// The span lies within a source of `n` characters.
    pub open spec fn wf(self, n: nat) -> bool {
        self.start <= self.end && self.end <= n
    }

    /// A span the parser can produce for a name, type or attribute:
    /// in bounds and past the text that introduced the node, so that
    /// diagnostics always have a line to point at.
    pub open spec fn wf_pos(self, n: nat) -> bool {
        1 <= self.start && self.start <= self.end && self.end <= n
    }
}

/// The attribute keywords of the spec language.
#[derive(Clone, Copy, PartialEq, Eq, Structural, Debug)]
pub enum AttributeType {
    Short,
    Long,
    Alias,
    Flatten,
    Main,
    SubCommand,
}

impl AttributeType {
    /// The keyword under which this attribute is written.
    pub open spec fn literal(self) -> Seq<char> {
        match self {
            AttributeType::Short => "short"@,
            AttributeType::Long => "long"@,
            AttributeType::Alias => "alias"@,
            AttributeType::Flatten => "flatten"@,
            AttributeType::Main => "main"@,
            AttributeType::SubCommand => "subcommand"@,
        }
    }

    pub fn to_literal(&self) -> (r: &'static str)
        ensures
            r@ == self.literal(),
    {
        match self {
            AttributeType::Short => "short",
            AttributeType::Long => "long",
            AttributeType::Alias => "alias",
            AttributeType::Flatten => "flatten",
            AttributeType::Main => "main",
            AttributeType::SubCommand => "subcommand",
        }
    }

    /// The attribute kinds accepted on a struct.
    pub fn allowed_struct_attribute_types() -> (r: Vec<AttributeType>)
        ensures
            r@ == seq![AttributeType::Main, AttributeType::SubCommand],
    {
        let mut v: Vec<AttributeType> = Vec::new();
        v.push(AttributeType::Main);
        v.push(AttributeType::SubCommand);
        proof {
            assert(v@ =~= seq![AttributeType::Main, AttributeType::SubCommand]);
        }
        v
    }

    /// The attribute kinds accepted on a field.
    pub fn allowed_field_attribute_types() -> (r: Vec<AttributeType>)
        ensures
            r@ == seq![
                AttributeType::Short,
                AttributeType::Long,
                AttributeType::Alias,
                AttributeType::Flatten,
            ],
    {
        let mut v: Vec<AttributeType> = Vec::new();
        v.push(AttributeType::Short);
        v.push(AttributeType::Long);
        v.push(AttributeType::Alias);
        v.push(AttributeType::Flatten);
        proof {
            assert(v@ =~= seq![
                AttributeType::Short,
                AttributeType::Long,
                AttributeType::Alias,
                AttributeType::Flatten,
            ]);
        }
        v
    }
}

/// One attribute occurrence: its kind, its (possibly defaulted) value,
/// and the span of the keyword it was written under.
#[derive(Debug)]
pub struct Attribute {
    pub ty: AttributeType,
    pub value: Option<String>,
    pub span: Span,
}

/// The mathematical value of an [`Attribute`].
#[verifier::ext_equal]
pub ghost struct AttrV {
    pub kind: AttributeType,
    pub value: Option<Seq<char>>,
    pub span: Span,
}

pub open spec fn attr_view(a: Attribute) -> AttrV {
    AttrV {
        kind: a.ty,
        value: match a.value {
            Some(s) => Some(s@),
            None => None,
        },
        span: a.span,
    }
}

impl Clone for Attribute {
    fn clone(&self) -> (r: Self)
        ensures
            attr_view(r) == attr_view(*self),
    {
        Attribute {
            ty: self.ty,
            value: match &self.value {
                Some(s) => Some(s.clone()),
                None => None,
            },
            span: self.span,
        }
    }
}

/// The type of a field: a primitive, a single level of `Vec`/`Optional`
/// wrapping, or a reference to another struct by name.
#[derive(Debug)]
pub enum FieldType {
    String,
    I16,
    U16,
    I32,
    U32,
    I64,
    U64,
    F32,
    F64,
    Bool,
    Vec(Box<FieldType>),
    Optional(Box<FieldType>),
    Struct(String),
}

/// The mathematical value of an unwrapped [`FieldType`]. `Nested`
/// stands for a generic wrapper inside a generic wrapper, which the
/// grammar cannot express.
pub ghost enum BaseV {
    String,
    I16,
    U16,
    I32,
    U32,
    I64,
    U64,
    F32,
    F64,
    Bool,
    Struct(Seq<char>),
    Nested,
}

/// The mathematical value of a [`FieldType`]: a base type, possibly
/// under a single level of `Vec` or `Optional` wrapping.
pub ghost enum TyV {
    Base(BaseV),
    Vec(BaseV),
    Optional(BaseV),
}

pub open spec fn base_view(t: FieldType) -> BaseV {
    match t {
        FieldType::String => BaseV::String,
        FieldType::I16 => BaseV::I16,
        FieldType::U16 => BaseV::U16,
        FieldType::I32 => BaseV::I32,
        FieldType::U32 => BaseV::U32,
        FieldType::I64 => BaseV::I64,
        FieldType::U64 => BaseV::U64,
        FieldType::F32 => BaseV::F32,
        FieldType::F64 => BaseV::F64,
        FieldType::Bool => BaseV::Bool,
        FieldType::Struct(name) => BaseV::Struct(name@),
        FieldType::Vec(_) => BaseV::Nested,
        FieldType::Optional(_) => BaseV::Nested,
    }
}

pub open spec fn ty_view(t: FieldType) -> TyV {
    match t {
        FieldType::Vec(inner) => TyV::Vec(base_view(*inner)),
        FieldType::Optional(inner) => TyV::Optional(base_view(*inner)),
        _ => TyV::Base(base_view(t)),
    }
}

impl TyV {
    /// A type the grammar can give a field: at most one level of wrapping.
    pub open spec fn wf(self) -> bool {
        match self {
            TyV::Base(_) => true,
            TyV::Vec(inner) => !(inner is Nested),
            TyV::Optional(inner) => !(inner is Nested),
        }
    }
}

fn clone_field_type(t: &FieldType) -> (r: FieldType)
    ensures
        ty_view(r) == ty_view(*t),
    decreases *t,
{
    match t {
        FieldType::String => FieldType::String,
        FieldType::I16 => FieldType::I16,
        FieldType::U16 => FieldType::U16,
        FieldType::I32 => FieldType::I32,
        FieldType::U32 => FieldType::U32,
        FieldType::I64 => FieldType::I64,
        FieldType::U64 => FieldType::U64,
        FieldType::F32 => FieldType::F32,
        FieldType::F64 => FieldType::F64,
        FieldType::Bool => FieldType::Bool,
        FieldType::Vec(inner) => FieldType::Vec(Box::new(clone_field_type(inner))),
        FieldType::Optional(inner) => FieldType::Optional(Box::new(clone_field_type(inner))),
        FieldType::Struct(name) => FieldType::Struct(name.clone()),
    }
}

impl Clone for FieldType {
    fn clone(&self) -> (r: Self)
        ensures
            ty_view(r) == ty_view(*self),
    {
        clone_field_type(self)
    }
}

/// One field of a struct: its name, its attributes, its type, and the
/// spans of the name and the type for diagnostics.
#[derive(Debug)]
pub struct Field {
    pub name: String,
    pub attributes: Vec<Attribute>,
    pub ty: FieldType,
    pub name_span: Span,
    pub type_span: Span,
}

/// The mathematical value of a [`Field`].
#[verifier::ext_equal]
pub ghost struct FieldV {
    pub name: Seq<char>,
    pub attributes: Seq<AttrV>,
    pub ty: TyV,
    pub name_span: Span,
    pub type_span: Span,
}

/// The views of a sequence of attributes.
pub open spec fn attrs_view(s: Seq<Attribute>) -> Seq<AttrV> {
    s.map_values(|a: Attribute| attr_view(a))
}

pub proof fn lemma_attrs_view_push(s: Seq<Attribute>, a: Attribute)
    ensures
        attrs_view(s.push(a)) == attrs_view(s).push(attr_view(a)),
{
    assert(attrs_view(s.push(a)) =~= attrs_view(s).push(attr_view(a)));
}

pub open spec fn field_view(f: Field) -> FieldV {
    FieldV {
        name: f.name@,
        attributes: attrs_view(f.attributes@),
        ty: ty_view(f.ty),
        name_span: f.name_span,
        type_span: f.type_span,
    }
}

impl Clone for Field {
    fn clone(&self) -> (r: Self)
        ensures
            field_view(r) == field_view(*self),
    {
        let mut attributes: Vec<Attribute> = Vec::new();
        let mut i: usize = 0;
        while i < self.attributes.len()
            invariant
                i <= self.attributes@.len(),
                attributes@.len() == i,
                forall|j: int| 0 <= j < i ==> attr_view(#[trigger] attributes@[j]) == attr_view(
                    self.attributes@[j],
                ),
            decreases self.attributes@.len() - i,
        {
            let a = self.attributes[i].clone();
            attributes.push(a);
            i += 1;
        }
        let r = Field {
            name: self.name.clone(),
            attributes,
            ty: self.ty.clone(),
            name_span: self.name_span,
            type_span: self.type_span,
        };
        proof {
            assert(r.attributes@.map_values(|a: Attribute| attr_view(a)) =~= self.attributes@
                .map_values(|a: Attribute| attr_view(a)));
            assert(field_view(r) =~= field_view(*self));
        }
        r
    }
}

/// The first attribute of the given kind, if any.
pub open spec fn first_attr(attrs: Seq<AttrV>, kind: AttributeType) -> Option<AttrV>
    decreases attrs.len(),
{
    if attrs.len() == 0 {
        None
    } else if attrs[0].kind == kind {
        Some(attrs[0])
    } else {
        first_attr(attrs.drop_first(), kind)
    }
}

/// The resolved value of the first attribute of the given kind:
/// its value with underscores rendered as hyphens.
pub open spec fn first_attr_value(attrs: Seq<AttrV>, kind: AttributeType) -> Option<Seq<char>> {
    match first_attr(attrs, kind) {
        None => None,
        Some(a) => match a.value {
            None => None,
            Some(v) => Some(crate::text::hyphenate(v)),
        },
    }
}

impl FieldV {
    /// The field's resolved `short` flag text, if it has one.
    pub open spec fn short_value(self) -> Option<Seq<char>> {
        first_attr_value(self.attributes, AttributeType::Short)
    }

    /// The field's resolved `long` flag text, if it has one.
    pub open spec fn long_value(self) -> Option<Seq<char>> {
        first_attr_value(self.attributes, AttributeType::Long)
    }
}

impl Field {
    fn attr_value(&self, kind: AttributeType) -> (r: Option<String>)
        ensures
            match r {
                Some(s) => first_attr_value(attrs_view(self.attributes@), kind) == Some(s@),
                None => first_attr_value(attrs_view(self.attributes@), kind) is None,
            },
    {
        let ghost whole = attrs_view(self.attributes@);
        proof {
            assert(attrs_view(self.attributes@).skip(0) =~= whole);
        }
        let mut i: usize = 0;
        while i < self.attributes.len()
            invariant
                i <= self.attributes@.len(),
                first_attr(whole, kind) == first_attr(
                    attrs_view(self.attributes@).skip(i as int),
                    kind,
                ),
                whole == attrs_view(self.attributes@),
            decreases self.attributes@.len() - i,
        {
            let ghost rest = attrs_view(self.attributes@).skip(i as int);
            proof {
                assert(rest[0] == attr_view(self.attributes@[i as int]));
                assert(rest.drop_first() =~= attrs_view(self.attributes@).skip(i as int + 1));
            }
            let a = &self.attributes[i];
            if a.ty == kind {
                match &a.value {
                    Some(v) => {
                        return Some(crate::text::hyphenate_string(v));
                    },
                    None => {
                        return None;
                    },
                }
            }
            i += 1;
        }
        proof {
            assert(attrs_view(self.attributes@).skip(self.attributes@.len() as int).len() == 0);
        }
        None
    }

    /// The field's resolved `short` flag text, if it has one.
    pub fn short_value(&self) -> (r: Option<String>)
        ensures
            match r {
                Some(s) => field_view(*self).short_value() == Some(s@),
                None => field_view(*self).short_value() is None,
            },
    {
        self.attr_value(AttributeType::Short)
    }

    /// The field's resolved `long` flag text, if it has one.
    pub fn long_value(&self) -> (r: Option<String>)
        ensures
            match r {
                Some(s) => field_view(*self).long_value() == Some(s@),
                None => field_view(*self).long_value() is None,
            },
    {
        self.attr_value(AttributeType::Long)
    }
}

/// A copy of a vector of attributes, view for view.
pub fn clone_attrs(v: &Vec<Attribute>) -> (r: Vec<Attribute>)
    ensures
        attrs_view(r@) == attrs_view(v@),
{
    let mut r: Vec<Attribute> = Vec::new();
    let mut i: usize = 0;
    while i < v.len()
        invariant
            i <= v@.len(),
            r@.len() == i,
            forall|j: int| 0 <= j < i ==> attr_view(#[trigger] r@[j]) == attr_view(v@[j]),
        decreases v@.len() - i,
    {
        let a = v[i].clone();
        r.push(a);
        i += 1;
    }
    proof {
        assert(attrs_view(r@) =~= attrs_view(v@));
    }
    r
}

/// One struct definition of the spec.
#[derive(Debug)]
pub struct Struct {
    pub attributes: Vec<Attribute>,
    pub fields: Vec<Field>,
    pub name: String,
    pub name_span: Span,
}

impl Clone for Struct {
    fn clone(&self) -> (r: Self)
        ensures
            struct_view(r) == struct_view(*self),
    {
        let mut fields: Vec<Field> = Vec::new();
        let mut i: usize = 0;
        while i < self.fields.len()
            invariant
                i <= self.fields@.len(),
                fields@.len() == i,
                forall|j: int| 0 <= j < i ==> field_view(#[trigger] fields@[j]) == field_view(
                    self.fields@[j],
                ),
            decreases self.fields@.len() - i,
        {
            let f = self.fields[i].clone();
            fields.push(f);
            i += 1;
        }
        let r = Struct {
            attributes: clone_attrs(&self.attributes),
            fields,
            name: self.name.clone(),
            name_span: self.name_span,
        };
        proof {
            assert(fields_view(r.fields@) =~= fields_view(self.fields@));
            assert(struct_view(r) =~= struct_view(*self));
        }
        r
    }
}

/// A copy of a vector of structs, view for view.
pub fn clone_structs(v: &Vec<Struct>) -> (r: Vec<Struct>)
    ensures
        structs_view(r@) == structs_view(v@),
{
    let mut r: Vec<Struct> = Vec::new();
    let mut i: usize = 0;
    while i < v.len()
        invariant
            i <= v@.len(),
            r@.len() == i,
            forall|j: int| 0 <= j < i ==> struct_view(#[trigger] r@[j]) == struct_view(v@[j]),
        decreases v@.len() - i,
    {
        let s = v[i].clone();
        r.push(s);
        i += 1;
    }
    proof {
        assert(structs_view(r@) =~= structs_view(v@));
    }
    r
}

/// The mathematical value of a [`Struct`].
#[verifier::ext_equal]
pub ghost struct StructV {
    pub attributes: Seq<AttrV>,
    pub fields: Seq<FieldV>,
    pub name: Seq<char>,
    pub name_span: Span,
}

/// The views of a sequence of fields.
pub open spec fn fields_view(s: Seq<Field>) -> Seq<FieldV> {
    s.map_values(|f: Field| field_view(f))
}

pub proof fn lemma_fields_view_push(s: Seq<Field>, f: Field)
    ensures
        fields_view(s.push(f)) == fields_view(s).push(field_view(f)),
{
    assert(fields_view(s.push(f)) =~= fields_view(s).push(field_view(f)));
}

pub open spec fn struct_view(s: Struct) -> StructV {
    StructV {
        attributes: attrs_view(s.attributes@),
        fields: fields_view(s.fields@),
        name: s.name@,
        name_span: s.name_span,
    }
}

/// A whole parsed spec: its struct definitions in declaration order and
/// the source text its spans index into.
#[derive(Debug)]
pub struct Spec {
    pub structs: Vec<Struct>,
    pub source: Vec<char>,
}

/// The symbol table: the spec's struct definitions in declaration
/// order, with names proven unique by semantic analysis, so that a
/// name resolves to its definition by a first-match scan.
#[derive(Debug)]
pub struct SpecMetadata {
    pub structs: Vec<Struct>,
}

/// The first struct with the given name, if any: how a `StructRef`
/// resolves against the symbol table.
pub open spec fn find_struct(structs: Seq<StructV>, name: Seq<char>) -> Option<StructV>
    decreases structs.len(),
{
    if structs.len() == 0 {
        None
    } else if structs[0].name == name {
        Some(structs[0])
    } else {
        find_struct(structs.drop_first(), name)
    }
}

/// The mathematical value of a [`Spec`].
#[verifier::ext_equal]
pub ghost struct SpecV {
    pub structs: Seq<StructV>,
    pub source: Seq<char>,
}

/// The views of a sequence of structs.
pub open spec fn structs_view(s: Seq<Struct>) -> Seq<StructV> {
    s.map_values(|st: Struct| struct_view(st))
}

pub proof fn lemma_structs_view_push(s: Seq<Struct>, st: Struct)
    ensures
        structs_view(s.push(st)) == structs_view(s).push(struct_view(st)),
{
    assert(structs_view(s.push(st)) =~= structs_view(s).push(struct_view(st)));
}

pub open spec fn spec_view(s: Spec) -> SpecV {
    SpecV {
        structs: structs_view(s.structs@),
        source: s.source@,
    }
}

// ---------------------------------------------------------------------------
// Well-formedness: what the parser guarantees of every tree it returns.
// ---------------------------------------------------------------------------

impl AttrV {
    /// An attribute as it may appear on a struct.
    pub open spec fn wf(self, n: nat) -> bool {
        self.span.wf_pos(n)
    }

    /// An attribute as it may appear on a field: `short` and `long`
    /// values are defaulted from the field name, `alias` values are
    /// written explicitly, so all three are always present.
    pub open spec fn wf_on_field(self, n: nat) -> bool {
        &&& self.span.wf_pos(n)
        &&& (self.kind is Short || self.kind is Long || self.kind is Alias)
            ==> self.value is Some
    }
}

impl FieldV {
    pub open spec fn wf(self, n: nat) -> bool {
        &&& self.name.len() > 0
        &&& self.name_span.wf_pos(n)
        &&& self.type_span.wf_pos(n)
        &&& self.ty.wf()
        &&& forall|i: int| 0 <= i < self.attributes.len() ==> #[trigger] self.attributes[i].wf_on_field(n)
    }
}

impl StructV {
    pub open spec fn wf(self, n: nat) -> bool {
        &&& self.name.len() > 0
        &&& self.name_span.wf_pos(n)
        &&& forall|i: int| 0 <= i < self.attributes.len() ==> #[trigger] self.attributes[i].wf(n)
        &&& forall|i: int| 0 <= i < self.fields.len() ==> #[trigger] self.fields[i].wf(n)
    }
}

impl SpecV {
    pub open spec fn wf(self) -> bool {
        forall|i: int| 0 <= i < self.structs.len() ==> #[trigger] self.structs[i].wf(
            self.source.len(),
        )
    }
}


// ---------------------------------------------------------------------------
// Flatten resolution: the visible fields of a struct.
// ---------------------------------------------------------------------------

pub proof fn lemma_first_attr_some(attrs: Seq<AttrV>, kind: AttributeType)
    ensures
        match first_attr(attrs, kind) {
            Some(a) => exists|j: int| 0 <= j < attrs.len() && attrs[j] == a && a.kind == kind,
            None => forall|j: int| 0 <= j < attrs.len() ==> (#[trigger] attrs[j]).kind != kind,
        },
    decreases attrs.len(),
{
    if attrs.len() > 0 && !(attrs[0].kind == kind) {
        lemma_first_attr_some(attrs.drop_first(), kind);
        match first_attr(attrs.drop_first(), kind) {
            Some(a) => {
                let j = choose|j: int|
                    0 <= j < attrs.drop_first().len() && attrs.drop_first()[j] == a && a.kind
                        == kind;
                assert(attrs[j + 1] == a);
            },
            None => {
                assert(forall|j: int|
                    0 <= j < attrs.drop_first().len() ==> (#[trigger] attrs.drop_first()[j]).kind
                        != kind);
                assert(forall|j: int|
                    1 <= j < attrs.len() ==> (#[trigger] attrs[j]).kind != kind) by {
                    assert(forall|j: int|
                        1 <= j < attrs.len() ==> attrs[j] == attrs.drop_first()[j - 1]);
                }
            },
        }
    }
}

/// The struct a field's `flatten` attribute points at, if the field
/// carries one and its type names a struct, bare or inside `Vec< >`.
pub open spec fn flatten_target(f: FieldV) -> Option<Seq<char>> {
    if first_attr(f.attributes, AttributeType::Flatten) is Some {
        match f.ty {
            TyV::Base(BaseV::Struct(n)) => Some(n),
            TyV::Vec(BaseV::Struct(n)) => Some(n),
            _ => None,
        }
    } else {
        None
    }
}

/// Every flatten target among `fields[i..]` resolves against the
/// table, and its struct's own targets resolve in turn, within `fuel`
/// levels of nesting: the flatten references are acyclic.
pub open spec fn flatten_ok(table: Seq<StructV>, fields: Seq<FieldV>, i: nat, fuel: nat) -> bool
    decreases fuel, fields.len() - i,
{
    if i >= fields.len() {
        true
    } else {
        let head_ok = match flatten_target(fields[i as int]) {
            Some(n) => match find_struct(table, n) {
                Some(st) => fuel >= 1 && flatten_ok(table, st.fields, 0, (fuel - 1) as nat),
                None => false,
            },
            None => true,
        };
        head_ok && flatten_ok(table, fields, i + 1, fuel)
    }
}

/// The fields flattened in from `fields[i..]`: for every field with a
/// resolving `flatten` attribute, the visible fields of the struct it
/// points at.
pub open spec fn flatten_extras(table: Seq<StructV>, fields: Seq<FieldV>, i: nat, fuel: nat)
    -> Seq<FieldV>
    decreases fuel, fields.len() - i, 1int,
{
    if i >= fields.len() {
        Seq::empty()
    } else {
        let head = match flatten_target(fields[i as int]) {
            Some(n) => match find_struct(table, n) {
                Some(st) => if fuel >= 1 {
                    visible_fields_fueled(table, st.fields, (fuel - 1) as nat)
                } else {
                    Seq::empty()
                },
                None => Seq::empty(),
            },
            None => Seq::empty(),
        };
        head + flatten_extras(table, fields, i + 1, fuel)
    }
}

/// A struct's own fields followed by everything flattened in,
/// recursively.
pub open spec fn visible_fields_fueled(table: Seq<StructV>, fields: Seq<FieldV>, fuel: nat)
    -> Seq<FieldV>
    decreases fuel, fields.len(), 2int,
{
    fields + flatten_extras(table, fields, 0, fuel)
}

/// Enough nesting fuel for any acyclic flatten graph over the table.
pub open spec fn flatten_fuel(table: Seq<StructV>) -> nat {
    table.len() + 1
}

/// The flatten references reachable from `fields` resolve and are
/// acyclic.
pub open spec fn flatten_resolvable(table: Seq<StructV>, fields: Seq<FieldV>) -> bool {
    flatten_ok(table, fields, 0, flatten_fuel(table))
}

/// The visible fields of a struct with the given field list: its own
/// fields, then, for every `flatten` field in order, the visible
/// fields of the struct it points at.
pub open spec fn visible_fields(table: Seq<StructV>, fields: Seq<FieldV>) -> Seq<FieldV> {
    visible_fields_fueled(table, fields, flatten_fuel(table))
}

/// The flatten target of a field, if any.
pub(crate) fn flatten_target_exec(f: &Field) -> (r: Option<&String>)
    ensures
        match r {
            Some(n) => flatten_target(field_view(*f)) == Some(n@),
            None => flatten_target(field_view(*f)) is None,
        },
{
    let ghost av = attrs_view(f.attributes@);
    let mut has_flatten = false;
    let mut j: usize = 0;
    while j < f.attributes.len()
        invariant
            j <= f.attributes@.len(),
            av == attrs_view(f.attributes@),
            has_flatten ==> exists|k: int|
                0 <= k < av.len() && (#[trigger] av[k]).kind == AttributeType::Flatten,
            !has_flatten ==> forall|k: int|
                0 <= k < j ==> (#[trigger] av[k]).kind != AttributeType::Flatten,
        decreases f.attributes@.len() - j,
    {
        if matches!(f.attributes[j].ty, AttributeType::Flatten) {
            proof {
                assert(av[j as int] == attr_view(f.attributes@[j as int]));
            }
            has_flatten = true;
        }
        j += 1;
    }
    proof {
        lemma_first_attr_some(av, AttributeType::Flatten);
    }
    if !has_flatten {
        return None;
    }
    match &f.ty {
        FieldType::Struct(n) => Some(n),
        FieldType::Vec(inner) => match &**inner {
            FieldType::Struct(n) => Some(n),
            _ => None,
        },
        _ => None,
    }
}

/// Appends clones of a struct's visible fields: its own, then the
/// visible fields of every flatten target, in order.
#[verifier::loop_isolation(false)]
fn collect_visible(table: &Vec<Struct>, fields: &Vec<Field>, fuel: usize, out: &mut Vec<Field>)
    requires
        flatten_ok(structs_view(table@), fields_view(fields@), 0, fuel as nat),
    ensures
        fields_view(final(out)@) == fields_view(old(out)@) + visible_fields_fueled(
            structs_view(table@),
            fields_view(fields@),
            fuel as nat,
        ),
    decreases fuel, fields@.len(),
{
    let ghost tv = structs_view(table@);
    let ghost fv = fields_view(fields@);
    let mut i: usize = 0;
    while i < fields.len()
        invariant
            i <= fields@.len(),
            fields_view(out@) == fields_view(old(out)@) + fv.subrange(0, i as int),
        decreases fields@.len() - i,
    {
        let f = fields[i].clone();
        let ghost o0 = out@;
        out.push(f);
        i += 1;
        proof {
            lemma_fields_view_push(o0, f);
            assert(fv.subrange(0, i as int) =~= fv.subrange(0, i - 1).push(fv[i - 1]));
            assert(fields_view(out@) =~= fields_view(old(out)@) + fv.subrange(0, i as int));
        }
    }
    proof {
        assert(fv.subrange(0, fv.len() as int) =~= fv);
    }
    let mut i: usize = 0;
    proof {
        assert(fields_view(out@) + flatten_extras(tv, fv, 0, fuel as nat) =~= fields_view(
            old(out)@,
        ) + visible_fields_fueled(tv, fv, fuel as nat));
    }
    while i < fields.len()
        invariant
            i <= fields@.len(),
            flatten_ok(tv, fv, i as nat, fuel as nat),
            fields_view(out@) + flatten_extras(tv, fv, i as nat, fuel as nat) == fields_view(
                old(out)@,
            ) + visible_fields_fueled(tv, fv, fuel as nat),
        decreases fields@.len() - i,
    {
        let ghost o1 = fields_view(out@);
        proof {
            assert(fv[i as int] == field_view(fields@[i as int]));
        }
        match flatten_target_exec(&fields[i]) {
            Some(n) => {
                proof {
                    assert(structs_view(table@).take(table@.len() as int) =~= tv);
                }
                match crate::semantic::find_struct_exec(table, table.len(), n) {
                    Some(j) => {
                        proof {
                            assert(find_struct(tv, n@) == Some(struct_view(table@[j as int])));
                            assert(struct_view(table@[j as int]).fields == fields_view(
                                table@[j as int].fields@,
                            ));
                        }
                        collect_visible(table, &table[j].fields, fuel - 1, out);
                        proof {
                            let vt = visible_fields_fueled(
                                tv,
                                fields_view(table@[j as int].fields@),
                                (fuel - 1) as nat,
                            );
                            assert(flatten_extras(tv, fv, i as nat, fuel as nat) == vt
                                + flatten_extras(tv, fv, i as nat + 1, fuel as nat));
                            assert(fields_view(out@) + flatten_extras(tv, fv, i as nat + 1, fuel as nat)
                                =~= o1 + flatten_extras(tv, fv, i as nat, fuel as nat));
                        }
                    },
                    None => {
                        proof {
                            assert(false);
                        }
                    },
                }
            },
            None => {
                proof {
                    assert(flatten_extras(tv, fv, i as nat, fuel as nat) == flatten_extras(
                        tv,
                        fv,
                        i as nat + 1,
                        fuel as nat,
                    ));
                }
            },
        }
        i += 1;
    }
    proof {
        assert(flatten_extras(tv, fv, fields@.len() as nat, fuel as nat) =~= Seq::<
            FieldV,
        >::empty());
        assert(fields_view(out@) + Seq::<FieldV>::empty() =~= fields_view(out@));
    }
}

impl Struct {
    /// The struct's visible fields: its own fields, then, for every
    /// `flatten` field in order, the visible fields of the struct the
    /// field points at, resolved recursively through the symbol table.
    pub fn get_fields(&self, spec_metadata: &SpecMetadata) -> (r: Vec<Field>)
        requires
            spec_metadata.structs@.len() < usize::MAX,
            flatten_resolvable(
                structs_view(spec_metadata.structs@),
                fields_view(self.fields@),
            ),
        ensures
            fields_view(r@) == visible_fields(
                structs_view(spec_metadata.structs@),
                fields_view(self.fields@),
            ),
    {
        let mut out: Vec<Field> = Vec::new();
        proof {
            assert(fields_view(out@) =~= Seq::<FieldV>::empty());
        }
        let fuel = spec_metadata.structs.len() + 1;
        collect_visible(&spec_metadata.structs, &self.fields, fuel, &mut out);
        proof {
            assert(fields_view(out@) =~= visible_fields(
                structs_view(spec_metadata.structs@),
                fields_view(self.fields@),
            ));
        }
        out
    }
}


} // verus!
