//! Node-type declarations as layout generation reads them, and their models.

use vstd::prelude::*;

verus! {

/// Where an attribute stands: before the item, or inside its body.
#[derive(Clone, Copy, Debug, PartialEq, Eq, Structural)]
pub enum AttrStyle {
    Outer,
    Inner,
}

/// An attribute of a declaration.
#[derive(Debug, PartialEq, Eq)]
pub struct Attribute {
    pub style: AttrStyle,
    /// The attribute's path; a single name such as `derive` or `repr` where the
    /// path has one segment.
    pub path: String,
    /// The paths of the comma-separated entries between the parentheses; empty
    /// where the attribute has no such list.
    pub args: Vec<String>,
    /// The attribute as it is written.
    pub tokens: String,
}

/// How a field holds what it names.
#[derive(Clone, Copy, Debug, PartialEq, Eq, Structural)]
pub enum Handle {
    /// The value is stored in place.
    Inline,
    /// Child nodes, through an owning arena handle.
    Owning,
    /// Child nodes, through a handle that does not own them.
    Shared,
}

/// A named field of a structure.
#[derive(Debug, PartialEq, Eq)]
pub struct Field {
    pub name: String,
    /// The field's type as it is written.
    pub ty: String,
    pub handle: Handle,
}

/// The fields of a structure.
#[derive(Debug, PartialEq, Eq)]
pub enum Fields {
    Named(Vec<Field>),
    Unnamed,
    Unit,
}

/// A structure declaration.
#[derive(Debug, PartialEq, Eq)]
pub struct ItemStruct {
    pub ident: String,
    pub attrs: Vec<Attribute>,
    pub fields: Fields,
}

/// What a variant says of its own discriminant.
#[derive(Clone, Copy, Debug, PartialEq, Eq, Structural)]
pub enum Discriminant {
    /// Nothing.
    Implicit,
    /// An integer literal, by its value.
    Literal(u64),
    /// An expression that is no integer literal.
    Expression,
}

/// A variant of an enum.
#[derive(Debug, PartialEq, Eq)]
pub struct Variant {
    pub ident: String,
    pub discriminant: Discriminant,
}

/// An enum declaration.
#[derive(Debug, PartialEq, Eq)]
pub struct ItemEnum {
    pub ident: String,
    pub attrs: Vec<Attribute>,
    pub variants: Vec<Variant>,
}

/// A declaration handed to layout generation.
#[derive(Debug, PartialEq, Eq)]
pub enum Item {
    Struct(ItemStruct),
    Enum(ItemEnum),
    /// Any item that is neither a structure nor an enum.
    Other,
}

/// Why a declaration is rejected.
#[derive(Clone, Copy, Debug, PartialEq, Eq, Structural)]
pub enum LayoutError {
    /// The item is neither a structure nor an enum.
    NotANodeType,
    /// The declaration derives `Clone` or `Copy`: nodes are move-only.
    DuplicationDerive,
    /// The declaration sets its own representation.
    ReprAttribute,
    /// The structure's fields have no names.
    UnnamedFields,
    /// The enum has more variants than a one-byte tag can number.
    TooManyVariants,
    /// A variant has the name reserved for the placeholder.
    ReservedVariantName,
    /// A variant sets its own discriminant.
    ExplicitDiscriminant,
    /// A variant's discriminant is no integer literal.
    NonIntegerDiscriminant,
    /// A variant's discriminant does not fit a one-byte tag.
    DiscriminantOutOfRange,
    /// A variant would be numbered beyond the largest one-byte tag.
    DiscriminantOverflow,
}

/// The model of an attribute.
pub struct AttributeView {
    pub style: AttrStyle,
    pub path: Seq<char>,
    pub args: Seq<Seq<char>>,
    pub tokens: Seq<char>,
}

/// The model of a field.
pub struct FieldView {
    pub name: Seq<char>,
    pub ty: Seq<char>,
    pub handle: Handle,
}

/// The model of a structure's fields.
pub enum FieldsView {
    Named(Seq<FieldView>),
    Unnamed,
    Unit,
}

/// The model of a structure declaration.
pub struct StructView {
    pub ident: Seq<char>,
    pub attrs: Seq<AttributeView>,
    pub fields: FieldsView,
}

/// The model of a variant.
pub struct VariantView {
    pub ident: Seq<char>,
    pub discriminant: Discriminant,
}

/// The model of an enum declaration.
pub struct EnumView {
    pub ident: Seq<char>,
    pub attrs: Seq<AttributeView>,
    pub variants: Seq<VariantView>,
}

/// The model of a declaration.
pub enum ItemView {
    Struct(StructView),
    Enum(EnumView),
    Other,
}

/// The models of a list of names.
pub open spec fn names_view(names: Seq<String>) -> Seq<Seq<char>> {
    names.map_values(|name: String| name@)
}

/// The models of a list of attributes.
pub open spec fn attributes_view(attrs: Seq<Attribute>) -> Seq<AttributeView> {
    attrs.map_values(|attr: Attribute| attr@)
}

/// The models of a list of fields.
pub open spec fn fields_view(fields: Seq<Field>) -> Seq<FieldView> {
    fields.map_values(|field: Field| field@)
}

/// The models of a list of variants.
pub open spec fn variants_view(variants: Seq<Variant>) -> Seq<VariantView> {
    variants.map_values(|variant: Variant| variant@)
}

impl View for Attribute {
    type V = AttributeView;

    open spec fn view(&self) -> AttributeView {
        AttributeView {
            style: self.style,
            path: self.path@,
            args: names_view(self.args@),
            tokens: self.tokens@,
        }
    }
}

impl View for Field {
    type V = FieldView;

    open spec fn view(&self) -> FieldView {
        FieldView { name: self.name@, ty: self.ty@, handle: self.handle }
    }
}

impl View for Fields {
    type V = FieldsView;

    open spec fn view(&self) -> FieldsView {
        match self {
            Fields::Named(fields) => FieldsView::Named(fields_view(fields@)),
            Fields::Unnamed => FieldsView::Unnamed,
            Fields::Unit => FieldsView::Unit,
        }
    }
}

impl View for ItemStruct {
    type V = StructView;

    open spec fn view(&self) -> StructView {
        StructView {
            ident: self.ident@,
            attrs: attributes_view(self.attrs@),
            fields: self.fields@,
        }
    }
}

impl View for Variant {
    type V = VariantView;

    open spec fn view(&self) -> VariantView {
        VariantView { ident: self.ident@, discriminant: self.discriminant }
    }
}

impl View for ItemEnum {
    type V = EnumView;

    open spec fn view(&self) -> EnumView {
        EnumView {
            ident: self.ident@,
            attrs: attributes_view(self.attrs@),
            variants: variants_view(self.variants@),
        }
    }
}

impl View for Item {
    type V = ItemView;

    open spec fn view(&self) -> ItemView {
        match self {
            Item::Struct(item) => ItemView::Struct(item@),
            Item::Enum(item) => ItemView::Enum(item@),
            Item::Other => ItemView::Other,
        }
    }
}

/// Whether `text` is the name `name`.
pub fn is_name(text: &String, name: &str) -> (b: bool)
    ensures
        b == (text@ == name@),
{
    let owned = name.to_owned();
    *text == owned
}

/// A copy of a list of names.
pub fn copy_names(names: &Vec<String>) -> (copy: Vec<String>)
    ensures
        names_view(copy@) == names_view(names@),
{
    let mut copy: Vec<String> = Vec::new();
    let mut i: usize = 0;
    while i < names.len()
        invariant
            0 <= i <= names.len(),
            copy@.len() == i,
            forall|j: int| 0 <= j < i ==> #[trigger] copy@[j]@ == names@[j]@,
        decreases names.len() - i,
    {
        copy.push(names[i].clone());
        i = i + 1;
    }
    assert(names_view(copy@) =~= names_view(names@));
    copy
}

/// A copy of an attribute.
pub fn copy_attribute(attr: &Attribute) -> (copy: Attribute)
    ensures
        copy@ == attr@,
{
    Attribute {
        style: attr.style,
        path: attr.path.clone(),
        args: copy_names(&attr.args),
        tokens: attr.tokens.clone(),
    }
}

/// A copy of a list of variants.
pub fn copy_variants(variants: &Vec<Variant>) -> (copy: Vec<Variant>)
    ensures
        variants_view(copy@) == variants_view(variants@),
{
    let mut copy: Vec<Variant> = Vec::new();
    let mut i: usize = 0;
    while i < variants.len()
        invariant
            0 <= i <= variants.len(),
            copy@.len() == i,
            forall|j: int| 0 <= j < i ==> #[trigger] copy@[j]@ == variants@[j]@,
        decreases variants.len() - i,
    {
        copy.push(
            Variant { ident: variants[i].ident.clone(), discriminant: variants[i].discriminant },
        );
        i = i + 1;
    }
    assert(variants_view(copy@) =~= variants_view(variants@));
    copy
}

} // verus!
