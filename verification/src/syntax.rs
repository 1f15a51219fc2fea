//! The parts of struct and enum items that the macros read.
//!
//! Items are parsed by `syn`, and read into a [`StructItem`] or an [`EnumItem`].
//! The macro on a struct gives the item back: `syn` prints it, with those
//! attributes that are left on the fields of what was read.

use proc_macro2::TokenStream;
use quote::ToTokens;
use vstd::prelude::*;

use crate::tokens::{tokens, Token};

verus! {

/// A segment of a path.
#[derive(Debug)]
pub struct Segment {
    /// The identifier of the segment.
    pub ident: String,
    /// The segment has no generic arguments.
    pub bare: bool,
}

/// What a [`Segment`] is.
pub struct SegmentView {
    pub ident: Seq<char>,
    pub bare: bool,
}

impl View for Segment {
    type V = SegmentView;

    open spec fn view(&self) -> SegmentView {
        SegmentView { ident: self.ident@, bare: self.bare }
    }
}

/// What segments are, in order.
pub open spec fn segment_views(segments: Seq<Segment>) -> Seq<SegmentView> {
    segments.map_values(|segment: Segment| segment@)
}

/// A type, as written.
#[derive(Debug)]
pub struct Type {
    /// The type itself.
    pub tokens: TokenStream,
    /// The segments of the path, in order, if the type is a path.
    pub path: Option<Vec<Segment>>,
}

/// What a [`Type`] is.
pub struct TypeView {
    pub tokens: Seq<Token>,
    pub path: Option<Seq<SegmentView>>,
}

impl TypeView {
    /// The last segment of the path, if the type is a path that has one.
    pub open spec fn last(self) -> Option<SegmentView> {
        match self.path {
            Some(segments) => if segments.len() > 0 {
                Some(segments.last())
            } else {
                None
            },
            None => None,
        }
    }
}

impl View for Type {
    type V = TypeView;

    open spec fn view(&self) -> TypeView {
        TypeView {
            tokens: tokens(self.tokens),
            path: match self.path {
                Some(segments) => Some(segment_views(segments@)),
                None => None,
            },
        }
    }
}

impl Type {
    /// The last segment of the path, if the type is a path that has one.
    pub fn last(&self) -> (segment: Option<&Segment>)
        ensures
            (match segment {
                Some(segment) => Some(segment@),
                None => None::<SegmentView>,
            }) == self@.last(),
    {
        match &self.path {
            Some(segments) => if segments.len() > 0 {
                Some(&segments[segments.len() - 1])
            } else {
                None
            },
            None => None,
        }
    }
}

/// The tokens of a stream that may be missing.
pub open spec fn optional_tokens(stream: Option<TokenStream>) -> Option<Seq<Token>> {
    match stream {
        Some(stream) => Some(tokens(stream)),
        None => None,
    }
}

/// A field of a struct or of an enum variant.
#[derive(Debug)]
pub struct Field {
    /// The name, unless the field is one of a tuple.
    pub name: Option<TokenStream>,
    /// The type.
    pub ty: Type,
    /// The whole field, with its attributes.
    pub tokens: TokenStream,
}

/// What a [`Field`] is.
pub struct FieldView {
    pub name: Option<Seq<Token>>,
    pub ty: TypeView,
    pub tokens: Seq<Token>,
}

impl View for Field {
    type V = FieldView;

    open spec fn view(&self) -> FieldView {
        FieldView {
            name: optional_tokens(self.name),
            ty: self.ty@,
            tokens: tokens(self.tokens),
        }
    }
}

/// An attribute of a struct field.
#[derive(Debug)]
pub struct FieldAttribute {
    /// The path, if it is a single identifier.
    pub ident: Option<String>,
    /// The place of the attribute among those of its field, as parsed.
    pub place: usize,
}

/// What a [`FieldAttribute`] is.
pub struct FieldAttributeView {
    pub ident: Option<Seq<char>>,
    pub place: nat,
}

impl View for FieldAttribute {
    type V = FieldAttributeView;

    open spec fn view(&self) -> FieldAttributeView {
        FieldAttributeView { ident: optional_text(self.ident), place: self.place as nat }
    }
}

/// The characters of a text that may be missing.
pub open spec fn optional_text(text: Option<String>) -> Option<Seq<char>> {
    match text {
        Some(text) => Some(text@),
        None => None,
    }
}

/// What attributes of a struct field are, in order.
pub open spec fn field_attribute_views(attributes: Seq<FieldAttribute>) -> Seq<
    FieldAttributeView,
> {
    attributes.map_values(|attribute: FieldAttribute| attribute@)
}

/// A field of a struct, with its attributes.
#[derive(Debug)]
pub struct StructField {
    /// The attributes that are left on the field, in order.
    pub attributes: Vec<FieldAttribute>,
    /// The field, as parsed.
    pub field: Field,
}

/// What a [`StructField`] is.
pub struct StructFieldView {
    pub attributes: Seq<FieldAttributeView>,
    pub field: FieldView,
}

impl View for StructField {
    type V = StructFieldView;

    open spec fn view(&self) -> StructFieldView {
        StructFieldView {
            attributes: field_attribute_views(self.attributes@),
            field: self.field@,
        }
    }
}

/// What fields of a struct are, in order.
pub open spec fn struct_field_views(fields: Seq<StructField>) -> Seq<StructFieldView> {
    fields.map_values(|field: StructField| field@)
}

/// A struct item.
#[derive(Debug)]
pub struct StructItem {
    /// The name.
    pub name: TokenStream,
    /// The generic parameters and the `where` clause.
    pub generics: Generics,
    /// The fields, in order.
    pub fields: Vec<StructField>,
}

/// What a [`StructItem`] is.
pub struct StructView {
    pub name: Seq<Token>,
    pub generics: GenericsView,
    pub fields: Seq<StructFieldView>,
}

impl View for StructItem {
    type V = StructView;

    open spec fn view(&self) -> StructView {
        StructView {
            name: tokens(self.name),
            generics: self.generics@,
            fields: struct_field_views(self.fields@),
        }
    }
}

/// An attribute of a struct field, as it is printed.
pub struct AttributeSyntax {
    /// The path, if it is a single identifier.
    pub ident: Option<Seq<char>>,
    /// The whole attribute.
    pub tokens: Seq<Token>,
}

/// The tokens of attributes, one behind the other.
pub open spec fn attribute_tokens(attributes: Seq<AttributeSyntax>) -> Seq<Token>
    decreases attributes.len(),
{
    if attributes.len() == 0 {
        seq![]
    } else {
        attribute_tokens(attributes.drop_last()) + attributes.last().tokens
    }
}

/// A field of a struct item, as it is printed.
pub struct FieldSyntax {
    /// The attributes, in order.
    pub attributes: Seq<AttributeSyntax>,
    /// The name, unless the field is one of a tuple.
    pub name: Option<Seq<Token>>,
    /// The type.
    pub ty: TypeView,
    /// What stands behind the attributes: visibility, name and type.
    pub body: Seq<Token>,
    /// The comma behind the field, if there is one.
    pub comma: Seq<Token>,
}

impl FieldSyntax {
    /// The field without its comma.
    pub open spec fn field(self) -> FieldView {
        FieldView {
            name: self.name,
            ty: self.ty,
            tokens: attribute_tokens(self.attributes) + self.body,
        }
    }

    /// What is read from the field.
    pub open spec fn read(self) -> StructFieldView {
        StructFieldView {
            attributes: Seq::new(
                self.attributes.len(),
                |place: int|
                    FieldAttributeView { ident: self.attributes[place].ident, place: place as nat },
            ),
            field: self.field(),
        }
    }
}

/// The tokens of fields, one behind the other, with the commas between them.
pub open spec fn field_tokens(fields: Seq<FieldSyntax>) -> Seq<Token>
    decreases fields.len(),
{
    if fields.len() == 0 {
        seq![]
    } else {
        field_tokens(fields.drop_last()) + attribute_tokens(fields.last().attributes)
            + fields.last().body + fields.last().comma
    }
}

/// A struct item, as it is printed.
pub struct StructSyntax {
    /// The name of the struct.
    pub name: Seq<Token>,
    /// The generic parameters and the `where` clause.
    pub generics: GenericsView,
    /// The item up to its fields, with the delimiter that opens them.
    pub head: Seq<Token>,
    /// The fields, in order.
    pub fields: Seq<FieldSyntax>,
    /// The item behind its fields, with the delimiter that closes them.
    pub tail: Seq<Token>,
}

impl StructSyntax {
    /// The whole item.
    pub open spec fn tokens(self) -> Seq<Token> {
        self.head + field_tokens(self.fields) + self.tail
    }

    /// What is read from the item.
    pub open spec fn read(self) -> StructView {
        StructView {
            name: self.name,
            generics: self.generics,
            fields: self.fields.map_values(|field: FieldSyntax| field.read()),
        }
    }

    /// The item with other attributes on one of its fields.
    pub open spec fn with_attributes(
        self,
        index: int,
        attributes: Seq<AttributeSyntax>,
    ) -> StructSyntax {
        StructSyntax {
            fields: self.fields.update(
                index,
                FieldSyntax { attributes, ..self.fields[index] },
            ),
            ..self
        }
    }

    /// The item with those attributes on its fields that are left on the
    /// fields of the other.
    pub open spec fn with_left(self, item: StructView) -> StructSyntax {
        StructSyntax {
            fields: Seq::new(
                self.fields.len(),
                |i: int|
                    FieldSyntax {
                        attributes: left(self.fields[i].attributes, item.fields[i].attributes),
                        ..self.fields[i]
                    },
            ),
            ..self
        }
    }
}

/// An attribute that was parsed at that place is left.
pub open spec fn is_left(place: int, attributes: Seq<FieldAttributeView>) -> bool {
    exists|i: int| 0 <= i < attributes.len() && (#[trigger] attributes[i]).place == place
}

/// The attributes whose places are among those that are left, in order.
pub open spec fn left(
    attributes: Seq<AttributeSyntax>,
    remaining: Seq<FieldAttributeView>,
) -> Seq<AttributeSyntax>
    decreases attributes.len(),
{
    if attributes.len() == 0 {
        seq![]
    } else if is_left(attributes.len() - 1, remaining) {
        left(attributes.drop_last(), remaining).push(attributes.last())
    } else {
        left(attributes.drop_last(), remaining)
    }
}

/// A struct item of the `syn` crate. What it is, is given by
/// [`struct_syntax`].
#[verifier::external_type_specification]
#[verifier::external_body]
pub struct ExItemStruct(syn::ItemStruct);

/// What a struct item holds: its fields in order, with the attributes of each,
/// and what stands around them.
pub uninterp spec fn struct_syntax(item: syn::ItemStruct) -> StructSyntax;

/// What `syn` makes of tokens that should be a struct item: the item, or the
/// tokens of the compile errors to report.
pub uninterp spec fn parsed_struct(input: Seq<Token>) -> Result<StructSyntax, Seq<Token>>;

/// `syn::parse2` for a `syn::ItemStruct`. An error is handed back as the
/// tokens that `syn::Error::to_compile_error` makes of it.
#[verifier::external_body]
pub(crate) fn parse_struct(input: TokenStream) -> (item: Result<syn::ItemStruct, TokenStream>)
    ensures
        parsed_struct(tokens(input)) == (match item {
            Ok(item) => Ok::<StructSyntax, Seq<Token>>(struct_syntax(item)),
            Err(error) => Err::<StructSyntax, Seq<Token>>(tokens(error)),
        }),
{
    syn::parse2::<syn::ItemStruct>(input).map_err(|error| error.to_compile_error())
}

/// `quote::ToTokens::into_token_stream` on a struct item. `syn` prints what
/// stands before the fields, each field with its attributes in front and its
/// comma behind, and what stands after the fields.
#[verifier::external_body]
fn print_struct(item: syn::ItemStruct) -> (stream: TokenStream)
    ensures
        tokens(stream) == struct_syntax(item).tokens(),
{
    item.into_token_stream()
}

/// The name of a struct item, the field `ident` of `syn::ItemStruct`.
#[verifier::external_body]
fn struct_name(item: &syn::ItemStruct) -> (name: TokenStream)
    ensures
        tokens(name) == struct_syntax(*item).name,
{
    item.ident.to_token_stream()
}

/// The generic parameters of an item, in the three forms that an `impl` block
/// for it needs.
#[derive(Debug)]
pub struct Generics {
    /// Behind `impl`: the parameters with their bounds.
    pub impl_generics: TokenStream,
    /// Behind the name of the type: the parameters alone.
    pub ty_generics: TokenStream,
    /// The `where` clause.
    pub where_clause: TokenStream,
}

/// What [`Generics`] are.
pub struct GenericsView {
    pub impl_generics: Seq<Token>,
    pub ty_generics: Seq<Token>,
    pub where_clause: Seq<Token>,
}

impl View for Generics {
    type V = GenericsView;

    open spec fn view(&self) -> GenericsView {
        GenericsView {
            impl_generics: tokens(self.impl_generics),
            ty_generics: tokens(self.ty_generics),
            where_clause: tokens(self.where_clause),
        }
    }
}

impl Clone for Generics {
    fn clone(&self) -> (copy: Self)
        ensures
            copy@ == self@,
    {
        Generics {
            impl_generics: self.impl_generics.clone(),
            ty_generics: self.ty_generics.clone(),
            where_clause: self.where_clause.clone(),
        }
    }
}

/// `syn::Generics::split_for_impl` on the generics of a struct item.
#[verifier::external_body]
fn struct_generics(item: &syn::ItemStruct) -> (generics: Generics)
    ensures
        generics@ == struct_syntax(*item).generics,
{
    let (impl_generics, ty_generics, where_clause) = item.generics.split_for_impl();
    Generics {
        impl_generics: impl_generics.to_token_stream(),
        ty_generics: ty_generics.to_token_stream(),
        where_clause: where_clause.to_token_stream(),
    }
}

/// `syn::Fields::len` on the fields of a struct item.
#[verifier::external_body]
fn field_count(item: &syn::ItemStruct) -> (count: usize)
    ensures
        count == struct_syntax(*item).fields.len(),
{
    item.fields.len()
}

/// One field of a struct item, the item at that place of `syn::Fields::iter`,
/// with the segments of its type where `syn` reads the type as a path.
#[verifier::external_body]
fn field_at(item: &syn::ItemStruct, index: usize) -> (field: Field)
    requires
        index < struct_syntax(*item).fields.len(),
    ensures
        field@ == struct_syntax(*item).fields[index as int].field(),
{
    let field = item.fields.iter().nth(index).unwrap();
    let path = match &field.ty {
        syn::Type::Path(ty) => Some(ty.path.segments.iter().map(
            |part| Segment { ident: part.ident.to_string(), bare: part.arguments.is_none() }).collect()),
        _ => None,
    };
    Field {
        name: field.ident.as_ref().map(|name| name.to_token_stream()),
        ty: Type { tokens: field.ty.to_token_stream(), path },
        tokens: field.to_token_stream(),
    }
}

/// The number of attributes of one field of a struct item, the length of the
/// field `attrs` of `syn::Field`.
#[verifier::external_body]
fn attribute_count(item: &syn::ItemStruct, index: usize) -> (count: usize)
    requires
        index < struct_syntax(*item).fields.len(),
    ensures
        count == struct_syntax(*item).fields[index as int].attributes.len(),
{
    item.fields.iter().nth(index).unwrap().attrs.len()
}

/// `syn::Path::get_ident` on the path of one attribute of one field of a
/// struct item.
#[verifier::external_body]
fn attribute_ident(item: &syn::ItemStruct, index: usize, place: usize) -> (ident: Option<String>)
    requires
        index < struct_syntax(*item).fields.len(),
        place < struct_syntax(*item).fields[index as int].attributes.len(),
    ensures
        optional_text(ident) == struct_syntax(*item).fields[index as int].attributes[place as int].ident,
{
    let attribute = &item.fields.iter().nth(index).unwrap().attrs[place];
    attribute.path().get_ident().map(|ident| ident.to_string())
}

/// Takes one attribute away from one field of a struct item, with `Vec::remove`
/// on the field `attrs` of `syn::Field`. The rest of the item stays as it is.
#[verifier::external_body]
fn remove_attribute(item: &mut syn::ItemStruct, index: usize, place: usize)
    requires
        index < struct_syntax(*old(item)).fields.len(),
        place < struct_syntax(*old(item)).fields[index as int].attributes.len(),
    ensures
        struct_syntax(*final(item)) == struct_syntax(*old(item)).with_attributes(
            index as int,
            struct_syntax(*old(item)).fields[index as int].attributes.remove(place as int),
        ),
{
    item.fields.iter_mut().nth(index).unwrap().attrs.remove(place);
}

impl StructItem {
    /// Reads a struct item.
    pub fn read(item: &syn::ItemStruct) -> (read: StructItem)
        ensures
            read@ == struct_syntax(*item).read(),
    {
        let ghost syntax = struct_syntax(*item);
        let name = struct_name(item);
        let generics = struct_generics(item);
        let mut fields: Vec<StructField> = Vec::new();
        let count = field_count(item);
        let mut i: usize = 0;
        while i < count
            invariant
                i <= count,
                syntax == struct_syntax(*item),
                count == syntax.fields.len(),
                fields.len() == i,
                forall|j: int| 0 <= j < i ==> (#[trigger] fields[j])@ == syntax.fields[j].read(),
            decreases count - i,
        {
            let mut attributes: Vec<FieldAttribute> = Vec::new();
            let places = attribute_count(item, i);
            let mut place: usize = 0;
            while place < places
                invariant
                    i < syntax.fields.len(),
                    place <= places,
                    syntax == struct_syntax(*item),
                    places == syntax.fields[i as int].attributes.len(),
                    attributes.len() == place,
                    forall|j: int|
                        0 <= j < place ==> (#[trigger] attributes[j])@
                            == syntax.fields[i as int].read().attributes[j],
                decreases places - place,
            {
                let ident = attribute_ident(item, i, place);
                attributes.push(FieldAttribute { ident, place });
                place = place + 1;
            }
            assert(field_attribute_views(attributes@)
                =~= syntax.fields[i as int].read().attributes);
            fields.push(StructField { attributes, field: field_at(item, i) });
            i = i + 1;
        }
        assert(struct_field_views(fields@) =~= syntax.read().fields);
        StructItem { name, generics, fields }
    }
}

/// An attribute that was parsed at that place is left, decided.
fn has_place(attributes: &Vec<FieldAttribute>, place: usize) -> (found: bool)
    ensures
        found == is_left(place as int, field_attribute_views(attributes@)),
{
    let ghost views = field_attribute_views(attributes@);
    let mut i: usize = 0;
    while i < attributes.len()
        invariant
            i <= attributes.len(),
            views == field_attribute_views(attributes@),
            forall|j: int| 0 <= j < i ==> (#[trigger] views[j]).place != place,
        decreases attributes.len() - i,
    {
        if attributes[i].place == place {
            assert(views[i as int].place == place);
            return true;
        }
        i = i + 1;
    }
    false
}

/// The first attributes, of which some are taken away, and the rest.
proof fn lemma_left_split(
    attributes: Seq<AttributeSyntax>,
    remaining: Seq<FieldAttributeView>,
    seen: int,
)
    requires
        0 <= seen < attributes.len(),
    ensures
        left(attributes.take(seen + 1), remaining) == (if is_left(seen, remaining) {
            left(attributes.take(seen), remaining).push(attributes[seen])
        } else {
            left(attributes.take(seen), remaining)
        }),
        left(attributes.take(seen), remaining).len() <= seen,
    decreases seen,
{
    assert(attributes.take(seen + 1).drop_last() =~= attributes.take(seen));
    if seen > 0 {
        lemma_left_split(attributes, remaining, seen - 1);
    }
}

/// Takes those attributes away from a field of a struct item that are not
/// left.
fn remove_attributes(item: &mut syn::ItemStruct, index: usize, remaining: &Vec<FieldAttribute>)
    requires
        index < struct_syntax(*old(item)).fields.len(),
    ensures
        struct_syntax(*final(item)) == struct_syntax(*old(item)).with_attributes(
            index as int,
            left(
                struct_syntax(*old(item)).fields[index as int].attributes,
                field_attribute_views(remaining@),
            ),
        ),
{
    let ghost before = struct_syntax(*item);
    let ghost attributes = before.fields[index as int].attributes;
    let ghost views = field_attribute_views(remaining@);
    let count = attribute_count(item, index);
    let mut kept: usize = 0;
    let mut place: usize = 0;
    proof {
        assert(left(attributes.take(0), views) + attributes.skip(0) =~= attributes);
        lemma_same_attributes(before, index as int);
    }
    while place < count
        invariant
            index < before.fields.len(),
            attributes == before.fields[index as int].attributes,
            views == field_attribute_views(remaining@),
            place <= count,
            count == attributes.len(),
            kept == left(attributes.take(place as int), views).len(),
            kept <= place,
            struct_syntax(*item) == before.with_attributes(
                index as int,
                left(attributes.take(place as int), views) + attributes.skip(place as int),
            ),
        decreases count - place,
    {
        let ghost now = left(attributes.take(place as int), views) + attributes.skip(place as int);
        let ghost next = left(attributes.take(place + 1), views) + attributes.skip(place + 1);
        proof {
            lemma_left_split(attributes, views, place as int);
        }
        if has_place(remaining, place) {
            kept = kept + 1;
            assert(now =~= next);
        } else {
            remove_attribute(item, index, kept);
            proof {
                assert(now.remove(kept as int) =~= next);
                lemma_replace_attributes(before, index as int, now, next);
            }
        }
        place = place + 1;
    }
    proof {
        assert(attributes.take(place as int) =~= attributes);
        assert(left(attributes, views) + attributes.skip(place as int) =~= left(attributes, views));
    }
}

/// Giving a field the attributes that it has changes nothing.
proof fn lemma_same_attributes(item: StructSyntax, index: int)
    requires
        0 <= index < item.fields.len(),
    ensures
        item.with_attributes(index, item.fields[index].attributes) == item,
{
    assert(item.with_attributes(index, item.fields[index].attributes).fields =~= item.fields);
}

/// Of two lists of attributes that a field is given, the second stays.
proof fn lemma_replace_attributes(
    item: StructSyntax,
    index: int,
    first: Seq<AttributeSyntax>,
    second: Seq<AttributeSyntax>,
)
    requires
        0 <= index < item.fields.len(),
    ensures
        item.with_attributes(index, first).with_attributes(index, second)
            == item.with_attributes(index, second),
{
    assert(item.with_attributes(index, first).with_attributes(index, second).fields
        =~= item.with_attributes(index, second).fields);
}

/// Prints a struct item with those attributes on its fields that are left on
/// what was read from it.
pub(crate) fn print_left(syntax: syn::ItemStruct, item: &StructItem) -> (stream: TokenStream)
    requires
        item@.fields.len() == struct_syntax(syntax).fields.len(),
    ensures
        tokens(stream) == struct_syntax(syntax).with_left(item@).tokens(),
{
    let ghost before = struct_syntax(syntax);
    let ghost after = before.with_left(item@);
    let mut syntax = syntax;
    let mut i: usize = 0;
    while i < item.fields.len()
        invariant
            i <= item.fields.len(),
            item@.fields.len() == before.fields.len(),
            after == before.with_left(item@),
            struct_syntax(syntax).fields.len() == before.fields.len(),
            struct_syntax(syntax) == (StructSyntax {
                fields: struct_syntax(syntax).fields,
                ..before
            }),
            forall|j: int|
                0 <= j < i ==> #[trigger] struct_syntax(syntax).fields[j] == after.fields[j],
            forall|j: int|
                i <= j < before.fields.len() ==> #[trigger] struct_syntax(syntax).fields[j]
                    == before.fields[j],
        decreases item.fields.len() - i,
    {
        assert(item@.fields[i as int] == item.fields[i as int]@);
        remove_attributes(&mut syntax, i, &item.fields[i].attributes);
        i = i + 1;
    }
    assert(struct_syntax(syntax).fields =~= after.fields);
    print_struct(syntax)
}

/// An attribute of an enum.
#[derive(Debug)]
pub struct Attribute {
    /// The path, if it is a single identifier.
    pub ident: Option<String>,
    /// What stands between the delimiters, if the attribute is a list.
    pub list: Option<TokenStream>,
}

/// What an [`Attribute`] is.
pub struct AttributeView {
    pub ident: Option<Seq<char>>,
    pub list: Option<Seq<Token>>,
}

impl View for Attribute {
    type V = AttributeView;

    open spec fn view(&self) -> AttributeView {
        AttributeView {
            ident: optional_text(self.ident),
            list: optional_tokens(self.list),
        }
    }
}

/// What attributes are, in order.
pub open spec fn attribute_views(attributes: Seq<Attribute>) -> Seq<AttributeView> {
    attributes.map_values(|attribute: Attribute| attribute@)
}

/// The fields of an enum variant.
#[derive(Debug)]
pub enum Fields {
    /// `{ .. }`
    Named,
    /// `( .. )`
    Unnamed(Vec<Field>),
    /// No fields.
    Unit,
}

/// What [`Fields`] are.
pub enum FieldsView {
    Named,
    Unnamed(Seq<FieldView>),
    Unit,
}

/// What fields are, in order.
pub open spec fn field_views(fields: Seq<Field>) -> Seq<FieldView> {
    fields.map_values(|field: Field| field@)
}

impl View for Fields {
    type V = FieldsView;

    open spec fn view(&self) -> FieldsView {
        match self {
            Fields::Named => FieldsView::Named,
            Fields::Unnamed(fields) => FieldsView::Unnamed(field_views(fields@)),
            Fields::Unit => FieldsView::Unit,
        }
    }
}

/// A variant of an enum.
#[derive(Debug)]
pub struct Variant {
    /// The name.
    pub name: TokenStream,
    /// The fields.
    pub fields: Fields,
    /// The fields, with their delimiters.
    pub fields_tokens: TokenStream,
    /// The whole variant, with its attributes.
    pub tokens: TokenStream,
}

/// What a [`Variant`] is.
pub struct VariantView {
    pub name: Seq<Token>,
    pub fields: FieldsView,
    pub fields_tokens: Seq<Token>,
    pub tokens: Seq<Token>,
}

impl View for Variant {
    type V = VariantView;

    open spec fn view(&self) -> VariantView {
        VariantView {
            name: tokens(self.name),
            fields: self.fields@,
            fields_tokens: tokens(self.fields_tokens),
            tokens: tokens(self.tokens),
        }
    }
}

/// What variants are, in order.
pub open spec fn variant_views(variants: Seq<Variant>) -> Seq<VariantView> {
    variants.map_values(|variant: Variant| variant@)
}

/// An enum item.
#[derive(Debug)]
pub struct EnumItem {
    /// The text of the name.
    pub ident: String,
    /// The name, where it is written.
    pub name: TokenStream,
    /// The attributes, in order.
    pub attributes: Vec<Attribute>,
    /// The variants, in order.
    pub variants: Vec<Variant>,
}

/// What an [`EnumItem`] is.
pub struct EnumView {
    pub ident: Seq<char>,
    pub name: Seq<Token>,
    pub attributes: Seq<AttributeView>,
    pub variants: Seq<VariantView>,
}

impl View for EnumItem {
    type V = EnumView;

    open spec fn view(&self) -> EnumView {
        EnumView {
            ident: self.ident@,
            name: tokens(self.name),
            attributes: attribute_views(self.attributes@),
            variants: variant_views(self.variants@),
        }
    }
}

/// An enum item of the `syn` crate. What it is, is given by [`enum_syntax`].
#[verifier::external_type_specification]
#[verifier::external_body]
pub struct ExItemEnum(syn::ItemEnum);

/// What an enum item holds: its variants and attributes in order, and its
/// name.
pub uninterp spec fn enum_syntax(item: syn::ItemEnum) -> EnumView;

/// What `syn` makes of tokens that should be an enum item: the item, or the
/// tokens of the compile errors to report.
pub uninterp spec fn parsed_enum(input: Seq<Token>) -> Result<EnumView, Seq<Token>>;

/// `syn::parse2` for a `syn::ItemEnum`. An error is handed back as the tokens
/// that `syn::Error::to_compile_error` makes of it.
#[verifier::external_body]
pub(crate) fn parse_enum(input: TokenStream) -> (item: Result<syn::ItemEnum, TokenStream>)
    ensures
        parsed_enum(tokens(input)) == (match item {
            Ok(item) => Ok::<EnumView, Seq<Token>>(enum_syntax(item)),
            Err(error) => Err::<EnumView, Seq<Token>>(tokens(error)),
        }),
{
    syn::parse2::<syn::ItemEnum>(input).map_err(|error| error.to_compile_error())
}

/// The name of an enum item, the field `ident` of `syn::ItemEnum`, as text and
/// as it is written.
#[verifier::external_body]
fn enum_name(item: &syn::ItemEnum) -> (name: (String, TokenStream))
    ensures
        name.0@ == enum_syntax(*item).ident,
        tokens(name.1) == enum_syntax(*item).name,
{
    (item.ident.to_string(), item.ident.to_token_stream())
}

/// The attributes of an enum item, the field `attrs` of `syn::ItemEnum`: for
/// each, what `syn::Path::get_ident` gives for its path, and the tokens of its
/// `syn::MetaList` if it is one.
#[verifier::external_body]
fn enum_attributes(item: &syn::ItemEnum) -> (attributes: Vec<Attribute>)
    ensures
        attribute_views(attributes@) == enum_syntax(*item).attributes,
{
    item.attrs.iter().map(|attribute| Attribute {
        ident: attribute.path().get_ident().map(|ident| ident.to_string()),
        list: match &attribute.meta {
            syn::Meta::Path(_) => None,
            syn::Meta::List(list) => Some(list.tokens.clone()),
            syn::Meta::NameValue(_) => None,
        },
    }).collect()
}

/// The number of variants of an enum item, with `syn::punctuated::Punctuated::len`.
#[verifier::external_body]
fn variant_count(item: &syn::ItemEnum) -> (count: usize)
    ensures
        count == enum_syntax(*item).variants.len(),
{
    item.variants.len()
}

/// The fields of one variant of an enum item, the field `fields` of
/// `syn::Variant`. The segments of a type are there where `syn` reads the type
/// as a path.
#[verifier::external_body]
fn variant_fields(item: &syn::ItemEnum, index: usize) -> (fields: Fields)
    requires
        index < enum_syntax(*item).variants.len(),
    ensures
        fields@ == enum_syntax(*item).variants[index as int].fields,
{
    let fields = match &item.variants[index].fields {
        syn::Fields::Named(_) => return Fields::Named,
        syn::Fields::Unnamed(fields) => &fields.unnamed,
        syn::Fields::Unit => return Fields::Unit,
    };
    Fields::Unnamed(fields.iter().map(|field| Field {
        name: field.ident.as_ref().map(ToTokens::to_token_stream),
        ty: Type { tokens: field.ty.to_token_stream(), path: match &field.ty {
            syn::Type::Path(ty) => Some(ty.path.segments.iter().map(
                |part| Segment { ident: part.ident.to_string(), bare: part.arguments.is_none() }).collect()),
            _ => None,
        } },
        tokens: field.to_token_stream(),
    }).collect())
}

/// One variant of an enum item, printed with `quote::ToTokens`: its name, its
/// fields, and the whole of it.
#[verifier::external_body]
fn variant_tokens(item: &syn::ItemEnum, index: usize) -> (printed: (
    TokenStream,
    TokenStream,
    TokenStream,
))
    requires
        index < enum_syntax(*item).variants.len(),
    ensures
        tokens(printed.0) == enum_syntax(*item).variants[index as int].name,
        tokens(printed.1) == enum_syntax(*item).variants[index as int].fields_tokens,
        tokens(printed.2) == enum_syntax(*item).variants[index as int].tokens,
{
    let variant = &item.variants[index];
    (
        variant.ident.to_token_stream(),
        variant.fields.to_token_stream(),
        variant.to_token_stream(),
    )
}

impl EnumItem {
    /// Reads an enum item.
    pub fn read(item: &syn::ItemEnum) -> (read: EnumItem)
        ensures
            read@ == enum_syntax(*item),
    {
        let (ident, name) = enum_name(item);
        let attributes = enum_attributes(item);
        let mut variants: Vec<Variant> = Vec::new();
        let count = variant_count(item);
        let mut i: usize = 0;
        while i < count
            invariant
                i <= count,
                count == enum_syntax(*item).variants.len(),
                variants.len() == i,
                forall|j: int|
                    0 <= j < i ==> (#[trigger] variants[j])@ == enum_syntax(*item).variants[j],
            decreases count - i,
        {
            let (name, fields_tokens, tokens) = variant_tokens(item, i);
            let fields = variant_fields(item, i);
            variants.push(Variant { name, fields, fields_tokens, tokens });
            i = i + 1;
        }
        assert(variant_views(variants@) =~= enum_syntax(*item).variants);
        EnumItem { ident, name, attributes, variants }
    }
}

impl Clone for Segment {
    fn clone(&self) -> (copy: Self)
        ensures
            copy@ == self@,
    {
        Segment { ident: self.ident.clone(), bare: self.bare }
    }
}

impl Clone for Type {
    fn clone(&self) -> (copy: Self)
        ensures
            copy@ == self@,
    {
        let path = match &self.path {
            Some(segments) => {
                let mut copies: Vec<Segment> = Vec::new();
                let mut i: usize = 0;
                while i < segments.len()
                    invariant
                        i <= segments.len(),
                        copies.len() == i,
                        forall|j: int| 0 <= j < i ==> (#[trigger] copies[j])@ == segments[j]@,
                    decreases segments.len() - i,
                {
                    copies.push(segments[i].clone());
                    i = i + 1;
                }
                assert(segment_views(copies@) =~= segment_views(segments@));
                Some(copies)
            },
            None => None,
        };
        Type { tokens: self.tokens.clone(), path }
    }
}

/// A copy of a stream that may be missing.
fn clone_optional(stream: &Option<TokenStream>) -> (copy: Option<TokenStream>)
    ensures
        optional_tokens(copy) == optional_tokens(*stream),
{
    match stream {
        Some(stream) => Some(stream.clone()),
        None => None,
    }
}

impl Clone for Field {
    fn clone(&self) -> (copy: Self)
        ensures
            copy@ == self@,
    {
        Field {
            name: clone_optional(&self.name),
            ty: self.ty.clone(),
            tokens: self.tokens.clone(),
        }
    }
}

impl Clone for Attribute {
    fn clone(&self) -> (copy: Self)
        ensures
            copy@ == self@,
    {
        Attribute {
            ident: match &self.ident {
                Some(ident) => Some(ident.clone()),
                None => None,
            },
            list: clone_optional(&self.list),
        }
    }
}

impl Clone for Fields {
    fn clone(&self) -> (copy: Self)
        ensures
            copy@ == self@,
    {
        match self {
            Fields::Named => Fields::Named,
            Fields::Unnamed(fields) => {
                let mut copies: Vec<Field> = Vec::new();
                let mut i: usize = 0;
                while i < fields.len()
                    invariant
                        i <= fields.len(),
                        copies.len() == i,
                        forall|j: int| 0 <= j < i ==> (#[trigger] copies[j])@ == fields[j]@,
                    decreases fields.len() - i,
                {
                    copies.push(fields[i].clone());
                    i = i + 1;
                }
                assert(field_views(copies@) =~= field_views(fields@));
                Fields::Unnamed(copies)
            },
            Fields::Unit => Fields::Unit,
        }
    }
}

impl Clone for Variant {
    fn clone(&self) -> (copy: Self)
        ensures
            copy@ == self@,
    {
        Variant {
            name: self.name.clone(),
            fields: self.fields.clone(),
            fields_tokens: self.fields_tokens.clone(),
            tokens: self.tokens.clone(),
        }
    }
}

impl Clone for EnumItem {
    fn clone(&self) -> (copy: Self)
        ensures
            copy@ == self@,
    {
        let mut attributes: Vec<Attribute> = Vec::new();
        let mut i: usize = 0;
        while i < self.attributes.len()
            invariant
                i <= self.attributes.len(),
                attributes.len() == i,
                forall|j: int| 0 <= j < i ==> (#[trigger] attributes[j])@ == self.attributes[j]@,
            decreases self.attributes.len() - i,
        {
            attributes.push(self.attributes[i].clone());
            i = i + 1;
        }
        assert(attribute_views(attributes@) =~= attribute_views(self.attributes@));
        let mut variants: Vec<Variant> = Vec::new();
        let mut k: usize = 0;
        while k < self.variants.len()
            invariant
                k <= self.variants.len(),
                variants.len() == k,
                forall|j: int| 0 <= j < k ==> (#[trigger] variants[j])@ == self.variants[j]@,
            decreases self.variants.len() - k,
        {
            variants.push(self.variants[k].clone());
            k = k + 1;
        }
        assert(variant_views(variants@) =~= variant_views(self.variants@));
        EnumItem { ident: self.ident.clone(), name: self.name.clone(), attributes, variants }
    }
}

} // verus!
